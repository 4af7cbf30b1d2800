//! Death-event agent library: tolerant reading of the addon's saved-variables
//! file, pairing of deaths with screenshots, and an exactly-once delivery ledger.

pub mod text;
pub mod paths;
pub mod state;
pub mod pairing;
pub mod record;
pub mod pipeline;
pub mod savedvars;
pub mod lua;
pub mod files;
pub mod config;
pub mod script;
pub mod number;
