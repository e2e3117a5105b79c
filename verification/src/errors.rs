//! Failures and how they are reported.

pub mod err;
