//! A reverse-Polish calculator on complex numbers of arbitrary precision.
//!
//! The crate holds the stack and its operators, the way from a typed line
//! to the steps of the calculator, and the decimal notation in which values
//! are shown. It does no arithmetic: an operator hands back what is to be
//! computed, and a value is shown from the significant digits that its
//! components were rendered to.

pub mod calculator;
pub mod decimal;
pub mod display;
pub mod input;
pub mod roundtrip;
pub mod significand;
pub mod value;
