//! What the database stores and hands back.

use vstd::prelude::*;
use crate::conf::DbConf;
use crate::text::{append, owned};

verus! {

/// A stored finding, as the web UI lists it.
pub struct ServicesRow {
    pub id: i64,
    /// Milliseconds since the Unix epoch.
    pub first_seen: u128,
    pub service: String,
    pub version: String,
    pub description: String,
    pub protocol: String,
    pub ip: String,
    pub domain: String,
    pub port: u16,
}

/// A page of stored findings and how many there are in all.
pub struct PaginatedServices {
    pub services: Vec<ServicesRow>,
    pub rows_count: i64,
}

/// The connection string of the database.
pub open spec fn spec_connection_string(c: DbConf) -> Seq<char> {
    "host="@ + c.host@ + " port="@ + c.port@ + " dbname="@ + c.dbname@ + " user="@ + c.user@ + " password="@
        + c.password@
}

impl DbConf {
    /// The connection string of the database:
    /// `host=.. port=.. dbname=.. user=.. password=..`.
    pub fn connection_string(&self) -> (s: String)
        ensures
            s@ == spec_connection_string(*self),
    {
        let mut s = owned("host=");
        append(&mut s, self.host.as_str());
        append(&mut s, " port=");
        append(&mut s, self.port.as_str());
        append(&mut s, " dbname=");
        append(&mut s, self.dbname.as_str());
        append(&mut s, " user=");
        append(&mut s, self.user.as_str());
        append(&mut s, " password=");
        append(&mut s, self.password.as_str());
        s
    }
}

} // verus!
