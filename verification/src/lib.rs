//! Verified core of a terminal dashboard for quotes, holdings and portfolio valuation:
//! text handling, custom cash parsing, account bookkeeping, LaTeX statement assembly and the
//! pure parts of the provider protocols.
#![allow(unused_imports)]

pub mod text;
pub mod numeral;
pub mod config;
pub mod models;
pub mod pdf;
pub mod providers;
pub mod signing;
pub mod schedule;
pub mod ui;
pub mod statement;
pub mod ibkr;
