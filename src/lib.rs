//! Extension runtime core: binary inspection of extension components, path
//! rules for the sandbox, and the decision logic of the host-import layer.
use vstd::prelude::*;

pub mod text;
pub mod paths;
pub mod rel_path;
pub mod extension_builder;
pub mod types;
pub mod extension;
pub mod capability_granter;
pub mod http_client;
pub mod github;
pub mod wasm_host;
pub mod terminal;

verus! {

/// A semantic version: major, minor, patch.
#[derive(Debug, Clone, Copy, PartialEq, Eq, Structural)]
pub struct Version {
    pub major: u64,
    pub minor: u64,
    pub patch: u64,
}

/// The decimal digits of `n`.
pub open spec fn decimal(n: nat) -> Seq<char>
    decreases n,
{
    if n < 10 {
        seq![('0' as u8 + n) as char]
    } else {
        decimal(n / 10).push(('0' as u8 + n % 10) as char)
    }
}

/// The text of a version: `major.minor.patch` in decimal.
pub open spec fn version_text(v: Version) -> Seq<char> {
    decimal(v.major as nat) + "."@ + decimal(v.minor as nat) + "."@ + decimal(v.patch as nat)
}

/// Relies on `semver::Version`'s `Display`: the three numbers in decimal
/// joined by dots, with no pre-release or build part.
#[verifier::external_body]
fn semver_text(major: u64, minor: u64, patch: u64) -> (r: String)
    ensures
        r@ == version_text(Version { major, minor, patch }),
{
    semver::Version::new(major, minor, patch).to_string()
}

impl Version {
    pub fn new(major: u64, minor: u64, patch: u64) -> (r: Version)
        ensures
            r == (Version { major, minor, patch }),
    {
        Version { major, minor, patch }
    }

    /// The version as text, `1.3.6` for instance.
    pub fn to_string(&self) -> (r: String)
        ensures
            r@ == version_text(*self),
    {
        semver_text(self.major, self.minor, self.patch)
    }
}


/// How an operation on the resource table failed.
#[derive(Debug, Clone, Copy, PartialEq, Eq, Structural)]
pub enum ResourceTableFailure {
    Full,
    NotPresent,
    WrongType,
    HasChildren,
}

/// An error of the host while serving a guest call.
#[derive(Debug, Clone)]
pub struct WasmRuntimeError {
    pub message: String,
}

pub open spec fn resource_table_text(f: ResourceTableFailure) -> Seq<char> {
    match f {
        ResourceTableFailure::Full => "ResourceTable has no free keys"@,
        ResourceTableFailure::NotPresent => "Resource not present in table"@,
        ResourceTableFailure::WrongType => "Resource present in table, but with a different type"@,
        ResourceTableFailure::HasChildren => "Resource cannot be deleted because child resources exist in the table. Consult wit docs for the particular resource to see which methods may return child resources."@,
    }
}

impl WasmRuntimeError {
    /// The error for a failed operation on the resource table.
    pub fn from_resource_table(f: ResourceTableFailure) -> (r: WasmRuntimeError)
        ensures
            r.message@ == resource_table_text(f),
    {
        let text = match f {
            ResourceTableFailure::Full => "ResourceTable has no free keys",
            ResourceTableFailure::NotPresent => "Resource not present in table",
            ResourceTableFailure::WrongType => "Resource present in table, but with a different type",
            ResourceTableFailure::HasChildren => "Resource cannot be deleted because child resources exist in the table. Consult wit docs for the particular resource to see which methods may return child resources.",
        };
        WasmRuntimeError { message: String::from_str(text) }
    }
}

} // verus!
