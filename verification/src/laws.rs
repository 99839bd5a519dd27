//! What holds of the library as a whole.

pub mod blessing;
pub mod brief;
pub mod cases;
pub mod compare;
pub mod compile;
pub mod diff;
pub mod grammar;
pub mod gutter;
pub mod ingest;
pub mod json;
pub mod judging;
pub mod manifest;
pub mod normalize;
pub mod outcome;
pub mod path;
pub mod positions;
pub mod registering;
pub mod reporting;
pub mod rewriting;
pub mod round_trip;
pub mod rows;
pub mod run;
pub mod spelling;
pub mod staging;
pub mod surveying;
pub mod table;
pub mod text;
pub mod tidying;
pub mod walk;
