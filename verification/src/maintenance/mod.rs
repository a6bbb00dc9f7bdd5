//! The maintenance service: checks over a vault scan and the inbox they fill.
pub mod checks;
pub mod inbox;
