//! Assert that code does **not** compile.
//!
//! A compile-fail test asserts that a program does not build, and that it fails
//! for the intended reason: a derive refusing a shape it cannot support, a sealed
//! trait staying sealed, a const assertion firing at compile time. A
//! `compile_fail` fixture must fail, and its diagnostics must match the `.stderr`
//! golden beside it. A missing golden is a failure rather than an implicit bless.
//!
//! This crate is everything such a harness decides, as functions of plain values
//! with contracts: what a registration means ([`cases`]), what the scratch project
//! every fixture is compiled in looks like ([`scratch`]), what cargo is asked and
//! how what it prints is sorted ([`compile`]), what a golden holds of a diagnostic
//! ([`normalize`]), how much of it is compared ([`compare`]), and what is reported
//! ([`outcome`], [`diff`]). A run is a sequence of steps ([`run`]): each says what
//! it needs to know or have done, and goes on with whatever came of that. Nothing
//! here touches a file or starts a process.
//!
//! What holds of all of it, over any number of calls, is stated in [`laws`].

pub mod cases;
pub mod compare;
pub mod compile;
pub mod diff;
pub mod json;
pub mod laws;
pub mod normalize;
pub mod outcome;
pub mod path;
pub mod run;
pub mod scratch;
pub mod text;

pub use crate::cases::{TestCases, OVERWRITE_VAR};
pub use crate::compare::Mode;
pub use crate::outcome::{CaseOutcome, Failure, Kind, Outcome};
