//! The container runtime's version gate: the tool drives only runtimes
//! recent enough to understand every call it makes.

use vstd::prelude::*;

verus! {

/// The oldest supported runtime version.
pub const MIN_MAJOR: u64 = 4;

pub const MIN_MINOR: u64 = 3;

pub const MIN_PATCH: u64 = 0;

/// A container runtime version: major, minor and patch numbers.
#[derive(Clone, Copy, PartialEq, Eq, Structural, Debug)]
pub struct Version {
    pub major: u64,
    pub minor: u64,
    pub patch: u64,
}

impl Version {
    /// Numeric ordering of versions, component by component.
    pub open spec fn spec_at_least(self, major: u64, minor: u64, patch: u64) -> bool {
        ||| self.major > major
        ||| (self.major == major && self.minor > minor)
        ||| (self.major == major && self.minor == minor && self.patch >= patch)
    }

    /// Whether this version is at least the given one.
    pub fn at_least(&self, major: u64, minor: u64, patch: u64) -> (r: bool)
        ensures
            r == self.spec_at_least(major, minor, patch),
    {
        if self.major != major {
            self.major > major
        } else if self.minor != minor {
            self.minor > minor
        } else {
            self.patch >= patch
        }
    }

    /// Whether a runtime of this version is supported by the tool.
    pub fn supported(&self) -> (r: bool)
        ensures
            r == self.spec_at_least(MIN_MAJOR, MIN_MINOR, MIN_PATCH),
    {
        self.at_least(MIN_MAJOR, MIN_MINOR, MIN_PATCH)
    }
}

} // verus!
