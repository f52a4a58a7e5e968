//! The source and destination directories of a run, together with the
//! last observed answer to whether each one is an existing directory.
//!
//! The filesystem check itself happens at the boundary; its result is
//! recorded here when a path is set, and a transform run is refused
//! unless both answers were positive.

use vstd::prelude::*;
use crate::text::{strip_drive, strip_drive_str};

verus! {

/// The two directories of a run and their observed validity.
#[derive(Debug, Clone, PartialEq)]
pub struct Paths {
    pub source: String,
    pub destination: String,
    pub source_is_dir: bool,
    pub destination_is_dir: bool,
}

impl Default for Paths {
    /// No paths chosen yet, neither observed valid.
    fn default() -> (r: Self)
        ensures
            r.source@ == Seq::<char>::empty(),
            r.destination@ == Seq::<char>::empty(),
            !r.source_is_dir,
            !r.destination_is_dir,
    {
        Paths {
            source: String::new(),
            destination: String::new(),
            source_is_dir: false,
            destination_is_dir: false,
        }
    }
}

impl Paths {
    /// A run may start only when both paths were observed to be existing
    /// directories.
    pub fn is_valid(&self) -> (r: bool)
        ensures
            r == (self.source_is_dir && self.destination_is_dir),
    {
        self.source_is_dir && self.destination_is_dir
    }

    /// The destination as displayed, without a Windows drive prefix.
    pub fn get_destination(&self) -> (r: &str)
        ensures
            r@ == strip_drive(self.destination@),
    {
        strip_drive_str(self.destination.as_str())
    }
}

} // verus!
