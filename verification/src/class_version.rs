//! The version numbers of a class file.

use vstd::prelude::*;

verus! {

/// Minor and major version of a class file.
#[derive(Debug, Clone, Copy, PartialEq, Eq, Structural)]
pub struct ClassVersion {
    minor: u16,
    major: u16,
}

impl ClassVersion {
    /// The minor version.
    pub closed spec fn spec_minor(self) -> u16 {
        self.minor
    }

    /// The major version.
    pub closed spec fn spec_major(self) -> u16 {
        self.major
    }

    /// Builds a version from the pair `(minor, major)`, in the order in which
    /// a class file stores them.
    pub fn from_pair(value: (u16, u16)) -> (res: ClassVersion)
        ensures
            res.spec_minor() == value.0,
            res.spec_major() == value.1,
    {
        let (minor, major) = value;
        ClassVersion { minor, major }
    }

    /// The minor version.
    pub fn minor(&self) -> (res: u16)
        ensures
            res == self.spec_minor(),
    {
        self.minor
    }

    /// The major version.
    pub fn major(&self) -> (res: u16)
        ensures
            res == self.spec_major(),
    {
        self.major
    }
}

} // verus!
