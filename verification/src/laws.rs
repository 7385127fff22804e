//! What holds of the expansions taken together.
pub mod blocks;
pub mod calls;
pub mod expansion;
pub mod grammar;
pub mod hashing;
pub mod lexing;
pub mod naming;
pub mod reading;
pub mod refusals;
pub mod steps;
pub mod tokens;
pub mod views;
pub mod walking;
pub mod wrapping;
