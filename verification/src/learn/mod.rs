//! The worked examples of the lessons: small functions, each with its
//! contract.

pub mod borrowing;
pub mod constants;
pub mod enums;
pub mod functions;
pub mod ownership;
pub mod structs;
