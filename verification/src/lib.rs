//! Lachesis: the decision logic of a web services mass scanner.
//!
//! Detection rules (definitions), their validation, service and version
//! detection on responses, request planning, target generation and the
//! scanner's statistics, with their contracts.

pub mod text;
pub mod matching;
pub mod conf;
pub mod validators;
pub mod worker;
pub mod utils;
pub mod detector;
pub mod stats;
pub mod net;
pub mod subnets;
pub mod db;
pub mod lachesis;
pub mod web;
pub mod browser;
