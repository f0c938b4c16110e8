//! A voting tabulator: one ballot per voter, each ballot counted as accepted,
//! blank or invalid, with the state held behind a storage port.

pub mod names;
pub mod domain;
pub mod storage;
pub mod use_cases;
pub mod persisted;
pub mod configuration;
pub mod lexicon;
pub mod cli_interface;
