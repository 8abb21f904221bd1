//! Projection of monthly net cash flow from a list of recurring and
//! one-time cash events.
//!
//! Money is held exactly: amounts are integer cents, and every monthly
//! contribution is an integer count of *units*, where one unit is
//! 1/12,000,000 of a dollar.  At that scale the frequency multipliers
//! (x30, x4.5, x2.25, x1, /3, /12) and the flat tax factor (a rate in
//! basis points) are all exact integer multiplications, so the whole
//! computation is verified integer arithmetic.

pub mod date;
pub mod event;
pub mod input;
pub mod parse;
pub mod render;
pub mod report;
