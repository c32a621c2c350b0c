use vstd::prelude::*;
use crate::lint::{LintRecord, UsageSite};

verus! {

/// No two records share an identity.
pub open spec fn ids_unique(s: Seq<LintRecord>) -> bool {
    forall|i: int, j: int|
        0 <= i < s.len() && 0 <= j < s.len() && i != j ==> s[i].identity@ != s[j].identity@
}

pub open spec fn has_id(s: Seq<LintRecord>, id: Seq<char>) -> bool {
    exists|i: int| 0 <= i < s.len() && s[i].identity@ == id
}

/// Every usage site names a declared lint.
pub open spec fn usages_resolve(s: Seq<LintRecord>, u: Seq<UsageSite>) -> bool {
    forall|k: int| 0 <= k < u.len() ==> has_id(s, #[trigger] u[k].identity@)
}

/// The identity of some usage site that names no declared lint.
pub open spec fn is_dangling(s: Seq<LintRecord>, u: Seq<UsageSite>, id: Seq<char>) -> bool {
    exists|k: int| 0 <= k < u.len() && u[k].identity@ == id && !has_id(s, id)
}

/// An identity that two distinct records share.
pub open spec fn is_duplicated(s: Seq<LintRecord>, id: Seq<char>) -> bool {
    exists|i: int, j: int|
        0 <= i < s.len() && 0 <= j < s.len() && i != j && s[i].identity@ == id
            && s[j].identity@ == id
}

#[derive(Debug)]
pub enum RegistryError {
    DuplicateIdentity(String),
    DanglingUsage(String),
}

/// The set of lint records and the usage sites that refer to them.
pub struct Registry {
    pub lints: Vec<LintRecord>,
    pub usages: Vec<UsageSite>,
}

impl Registry {
    pub open spec fn wf(&self) -> bool {
        &&& ids_unique(self.lints@)
        &&& usages_resolve(self.lints@, self.usages@)
    }

    /// Validates scanned records and usage sites and takes them as a registry.
    pub fn build(lints: Vec<LintRecord>, usages: Vec<UsageSite>) -> (r: Result<
        Registry,
        RegistryError,
    >)
        ensures
            match r {
                Ok(reg) => reg.wf() && reg.lints@ == lints@ && reg.usages@ == usages@,
                Err(RegistryError::DuplicateIdentity(id)) => is_duplicated(lints@, id@),
                Err(RegistryError::DanglingUsage(id)) => ids_unique(lints@) && is_dangling(
                    lints@,
                    usages@,
                    id@,
                ),
            },
            r is Ok <==> ids_unique(lints@) && usages_resolve(lints@, usages@),
    {
        let mut i: usize = 0;
        while i < lints.len()
            invariant
                i <= lints@.len(),
                forall|a: int, b: int|
                    0 <= a < i && 0 <= b < i && a != b ==> lints@[a].identity@
                        != lints@[b].identity@,
            decreases lints@.len() - i,
        {
            let mut j: usize = 0;
            while j < i
                invariant
                    i < lints@.len(),
                    j <= i,
                    forall|b: int| 0 <= b < j ==> lints@[b].identity@ != lints@[i as int].identity@,
                decreases i - j,
            {
                if lints[j].identity == lints[i].identity {
                    return Err(RegistryError::DuplicateIdentity(lints[i].identity.clone()));
                }
                j = j + 1;
            }
            i = i + 1;
        }
        let mut k: usize = 0;
        while k < usages.len()
            invariant
                k <= usages@.len(),
                ids_unique(lints@),
                forall|c: int| 0 <= c < k ==> has_id(lints@, #[trigger] usages@[c].identity@),
            decreases usages@.len() - k,
        {
            match find_in(&lints, &usages[k].identity) {
                Some(_) => {},
                None => {
                    return Err(RegistryError::DanglingUsage(usages[k].identity.clone()));
                },
            }
            k = k + 1;
        }
        Ok(Registry { lints, usages })
    }

    /// Position of the lint with identity `name`, if any.
    pub fn find(&self, name: &String) -> (r: Option<usize>)
        ensures
            match r {
                Some(i) => i < self.lints@.len() && self.lints@[i as int].identity@ == name@,
                None => !has_id(self.lints@, name@),
            },
    {
        find_in(&self.lints, name)
    }
}

pub fn find_in(lints: &Vec<LintRecord>, name: &String) -> (r: Option<usize>)
    ensures
        match r {
            Some(i) => i < lints@.len() && lints@[i as int].identity@ == name@,
            None => !has_id(lints@, name@),
        },
{
    let mut i: usize = 0;
    while i < lints.len()
        invariant
            i <= lints@.len(),
            forall|a: int| 0 <= a < i ==> lints@[a].identity@ != name@,
        decreases lints@.len() - i,
    {
        if lints[i].identity == *name {
            return Some(i);
        }
        i = i + 1;
    }
    None
}

} // verus!
