//! The ways a run can fail. Every one of them ends the run.

use vstd::prelude::*;

verus! {

#[derive(Clone, Copy, Debug, PartialEq, Eq, Structural)]
pub enum WeatherError {
    /// The forecast page could not be fetched.
    Network,
    /// A forecast card lacks one of the fields it should hold.
    MissingField,
    /// A day label names a day that does not exist in the month it resolves to.
    InvalidDate,
    /// The history file holds something other than a history.
    StoreCorrupt,
    /// Reading or writing a file failed.
    Io,
}

} // verus!
