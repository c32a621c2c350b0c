use vstd::prelude::*;

verus! {

/// The fixed set of lint groups.
#[derive(Clone, Copy, Debug, PartialEq, Eq, Structural)]
pub enum Group {
    Style,
    Correctness,
    Suspicious,
    Complexity,
    Perf,
    Pedantic,
    Restriction,
    Cargo,
    Nursery,
    Internal,
}

/// Whether a lint's check runs in the early or the late analysis pass.
#[derive(Clone, Copy, Debug, PartialEq, Eq, Structural)]
pub enum PassKind {
    Early,
    Late,
}

/// Lifecycle state of a lint.
#[derive(Clone, Debug)]
pub enum Status {
    Active,
    Deprecated { reason: Option<String> },
    Uplifted,
}

/// One declared lint and its metadata.
#[derive(Clone, Debug)]
pub struct LintRecord {
    pub identity: String,
    pub group: Group,
    pub pass: PassKind,
    pub status: Status,
    pub doc: String,
    pub module: String,
    pub msrv: Option<String>,
}

/// A place in a dependent artifact that names a lint.
#[derive(Clone, Debug)]
pub struct UsageSite {
    pub identity: String,
    pub file: String,
    pub line: usize,
}

pub open spec fn is_active(r: LintRecord) -> bool {
    r.status is Active
}

/// Active lints of group `g` appear in that group's membership list.
pub open spec fn in_group(r: LintRecord, g: Group) -> bool {
    is_active(r) && r.group == g
}

/// Active, non-internal lints are the ones registered and counted.
pub open spec fn is_public_active(r: LintRecord) -> bool {
    is_active(r) && r.group != Group::Internal
}

pub open spec fn group_name(g: Group) -> Seq<char> {
    match g {
        Group::Style => "style"@,
        Group::Correctness => "correctness"@,
        Group::Suspicious => "suspicious"@,
        Group::Complexity => "complexity"@,
        Group::Perf => "perf"@,
        Group::Pedantic => "pedantic"@,
        Group::Restriction => "restriction"@,
        Group::Cargo => "cargo"@,
        Group::Nursery => "nursery"@,
        Group::Internal => "internal"@,
    }
}

impl Group {
    /// The name under which the group is written in artifacts.
    pub fn name(self) -> (r: &'static str)
        ensures
            r@ == group_name(self),
    {
        match self {
            Group::Style => "style",
            Group::Correctness => "correctness",
            Group::Suspicious => "suspicious",
            Group::Complexity => "complexity",
            Group::Perf => "perf",
            Group::Pedantic => "pedantic",
            Group::Restriction => "restriction",
            Group::Cargo => "cargo",
            Group::Nursery => "nursery",
            Group::Internal => "internal",
        }
    }
}

impl LintRecord {
    pub fn is_active(&self) -> (r: bool)
        ensures
            r == is_active(*self),
    {
        match self.status {
            Status::Active => true,
            _ => false,
        }
    }
}

} // verus!
