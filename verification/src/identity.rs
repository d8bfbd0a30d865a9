//! The keys by which coverage data is joined: compiler versions, contract
//! addresses and compiled artifacts.

use vstd::prelude::*;

verus! {

/// What a compiler version is compared by: all five of its parts.
pub struct VersionKey {
    pub major: u64,
    pub minor: u64,
    pub patch: u64,
    pub pre: Seq<char>,
    pub build: Seq<char>,
}

/// The version of the compiler that built a source file or an artifact: its
/// three numbers, its pre-release part and its build part. The last two are
/// empty where the version has none. Two builds of one release are two
/// versions.
#[derive(Clone, Debug, PartialEq, Eq)]
pub struct CompilerVersion {
    pub major: u64,
    pub minor: u64,
    pub patch: u64,
    pub pre: String,
    pub build: String,
}

impl View for CompilerVersion {
    type V = VersionKey;

    open spec fn view(&self) -> VersionKey {
        VersionKey {
            major: self.major,
            minor: self.minor,
            patch: self.patch,
            pre: self.pre@,
            build: self.build@,
        }
    }
}

impl CompilerVersion {
    /// The release `major.minor.patch`, without a pre-release or build part.
    pub fn new(major: u64, minor: u64, patch: u64) -> (r: CompilerVersion)
        ensures
            r@ == (VersionKey { major, minor, patch, pre: Seq::empty(), build: Seq::empty() }),
    {
        CompilerVersion { major, minor, patch, pre: String::new(), build: String::new() }
    }

    /// The version with all five parts as given.
    pub fn with_parts(major: u64, minor: u64, patch: u64, pre: String, build: String) -> (r:
        CompilerVersion)
        ensures
            r == (CompilerVersion { major, minor, patch, pre, build }),
    {
        CompilerVersion { major, minor, patch, pre, build }
    }

    /// Whether two versions agree in all five parts.
    pub fn same(&self, other: &CompilerVersion) -> (r: bool)
        ensures
            r == (self@ == other@),
    {
        self.major == other.major && self.minor == other.minor && self.patch == other.patch
            && self.pre == other.pre && self.build == other.build
    }

    /// A second value of the same version.
    pub fn duplicate(&self) -> (r: CompilerVersion)
        ensures
            r@ == self@,
    {
        CompilerVersion {
            major: self.major,
            minor: self.minor,
            patch: self.patch,
            pre: self.pre.clone(),
            build: self.build.clone(),
        }
    }
}

/// The 160-bit address of one contract instance: its upper 32 bits and its
/// lower 128 bits.
#[derive(Clone, Copy, Debug, PartialEq, Eq, Structural)]
pub struct Address {
    pub high: u32,
    pub low: u128,
}

impl Address {
    pub fn new(high: u32, low: u128) -> (r: Address)
        ensures
            r == (Address { high, low }),
    {
        Address { high, low }
    }
}

/// What an artifact identity is compared by.
pub struct ArtifactKey {
    pub version: VersionKey,
    pub name: Seq<char>,
    pub path: Seq<char>,
}

/// Names one compiled artifact: the contract `name` of the file at `path`, as
/// built by compiler `version`. Only ever used as a key.
#[derive(Clone, Debug, PartialEq, Eq)]
pub struct ArtifactIdentity {
    pub version: CompilerVersion,
    pub name: String,
    pub path: String,
}

impl View for ArtifactIdentity {
    type V = ArtifactKey;

    open spec fn view(&self) -> ArtifactKey {
        ArtifactKey { version: self.version@, name: self.name@, path: self.path@ }
    }
}

impl ArtifactIdentity {
    pub fn new(version: CompilerVersion, name: String, path: String) -> (r: ArtifactIdentity)
        ensures
            r == (ArtifactIdentity { version, name, path }),
    {
        ArtifactIdentity { version, name, path }
    }

    /// Whether two identities name the same artifact.
    pub fn same(&self, other: &ArtifactIdentity) -> (r: bool)
        ensures
            r == (self@ == other@),
    {
        self.version.same(&other.version) && self.name == other.name && self.path == other.path
    }
}

} // verus!
