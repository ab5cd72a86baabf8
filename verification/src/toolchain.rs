//! Which Rust toolchain builds the crate.

use crate::text;
use crate::text::{chars_of, contains};
use vstd::prelude::*;

verus! {

/// The version line belongs to a toolchain with unstable features.
pub open spec fn names_nightly(version: Seq<char>) -> bool {
    text::occurs("nightly"@, version) || text::occurs("dev"@, version)
}

/// Tells from what `rustc --version` printed whether the toolchain has
/// unstable features. `None` stands for a compiler that could not be run, which
/// is taken for a stable one.
pub fn is_nightly(version: Option<&str>) -> (nightly: bool)
    ensures
        nightly == (version matches Some(line) && names_nightly(line@)),
{
    if let Some(line) = version {
        let chars = chars_of(line);
        contains(&chars, "nightly") || contains(&chars, "dev")
    } else {
        false
    }
}

} // verus!
