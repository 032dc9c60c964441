//! Why a request is turned down.
use vstd::prelude::*;

verus! {

/// A request that makes no sense.
#[derive(Clone, Copy, Debug, PartialEq, Eq, Structural)]
pub enum NavPathError {
    DifferentZLevels,
    NotATurf,
    InvalidBulkUpdateLength,
}

/// Why a bulk update ended.
#[derive(Clone, Copy, Debug, PartialEq, Eq, Structural)]
pub enum BulkUpdateError {
    /// Nothing was published.
    Rejected(NavPathError),
    /// The value at this place of the list is no number; the groups before it were published.
    NotANumber(usize),
}

impl NavPathError {
    pub open spec fn text(self) -> Seq<char> {
        match self {
            NavPathError::DifferentZLevels => "start and end turfs are on different z-levels"@,
            NavPathError::NotATurf => "argument was not a turf"@,
            NavPathError::InvalidBulkUpdateLength => "navmap bulk update list length must be a multiple of 4"@,
        }
    }

    /// The error in words.
    pub fn message(&self) -> (r: String)
        ensures
            r@ == self.text(),
    {
        match *self {
            NavPathError::DifferentZLevels => "start and end turfs are on different z-levels".to_owned(),
            NavPathError::NotATurf => "argument was not a turf".to_owned(),
            NavPathError::InvalidBulkUpdateLength => "navmap bulk update list length must be a multiple of 4".to_owned(),
        }
    }
}

} // verus!
