//! Storage configuration values that the engine interprets.
use vstd::prelude::*;
use crate::text::same_chars;

verus! {

/// What a storage does with its data when it is closed.
#[derive(Clone, Copy, Debug, PartialEq, Eq, Structural)]
pub enum OnClosure {
    /// Drop the whole database.
    DropDb,
    /// Drop every series of the database.
    DropSeries,
    /// Keep everything.
    DoNothing,
}

/// The policy that an optional `on_closure` setting names: none when the
/// value is not one of `drop_db` and `drop_series`; keeping everything when
/// the setting is absent.
pub open spec fn on_closure_spec(value: Option<Seq<char>>) -> Option<OnClosure> {
    match value {
        None => Some(OnClosure::DoNothing),
        Some(v) => if v == "drop_db"@ {
            Some(OnClosure::DropDb)
        } else if v == "drop_series"@ {
            Some(OnClosure::DropSeries)
        } else {
            None
        },
    }
}

impl OnClosure {
    /// Reads the `on_closure` setting of a storage, if it is given.
    pub fn from_property(value: Option<&str>) -> (r: Option<OnClosure>)
        ensures
            r == on_closure_spec(crate::ingest::opt_string_view(value)),
    {
        match value {
            None => Some(OnClosure::DoNothing),
            Some(v) => {
                if same_chars(v, "drop_db") {
                    Some(OnClosure::DropDb)
                } else if same_chars(v, "drop_series") {
                    Some(OnClosure::DropSeries)
                } else {
                    None
                }
            },
        }
    }
}

} // verus!
