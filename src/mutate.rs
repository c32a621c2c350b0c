use vstd::prelude::*;
use crate::lint::{is_active, Group, LintRecord, PassKind, Status};
use crate::registry::{has_id, Registry};

verus! {

#[derive(Debug)]
pub enum MutationError {
    /// No lint has the given identity.
    UnknownLint,
    /// The lint is already deprecated or uplifted.
    NotActive,
    /// The rename target is already the identity of another lint.
    NameCollision,
}

/// Position of the record with identity `id`.
pub open spec fn pos_of(s: Seq<LintRecord>, id: Seq<char>) -> int {
    choose|i: int| 0 <= i < s.len() && s[i].identity@ == id
}

/// Why a mutation of lint `id` may not start.
pub open spec fn target_error(s: Seq<LintRecord>, id: Seq<char>) -> Option<MutationError> {
    if !has_id(s, id) {
        Some(MutationError::UnknownLint)
    } else if !is_active(s[pos_of(s, id)]) {
        Some(MutationError::NotActive)
    } else {
        None
    }
}

/// `b` equals `a` but for its identity.
pub open spec fn same_but_identity(a: LintRecord, b: LintRecord) -> bool {
    &&& a.group == b.group
    &&& a.pass == b.pass
    &&& a.status == b.status
    &&& a.doc == b.doc
    &&& a.module == b.module
    &&& a.msrv == b.msrv
}

/// `b` equals `a` but for its status.
pub open spec fn same_but_status(a: LintRecord, b: LintRecord) -> bool {
    &&& a.identity == b.identity
    &&& a.group == b.group
    &&& a.pass == b.pass
    &&& a.doc == b.doc
    &&& a.module == b.module
    &&& a.msrv == b.msrv
}

/// Registry `after` is `before` with lint `a` called `b`, in its record and in every
/// usage site that named it.
pub open spec fn renamed(before: Registry, after: Registry, a: Seq<char>, b: Seq<char>) -> bool {
    let p = pos_of(before.lints@, a);
    &&& after.lints@.len() == before.lints@.len()
    &&& after.lints@[p].identity@ == b
    &&& same_but_identity(before.lints@[p], after.lints@[p])
    &&& forall|j: int| 0 <= j < before.lints@.len() && j != p ==> after.lints@[j] == before.lints@[j]
    &&& after.usages@.len() == before.usages@.len()
    &&& forall|k: int|
        0 <= k < before.usages@.len() ==> {
            let u = before.usages@[k];
            let v = #[trigger] after.usages@[k];
            &&& v.file == u.file
            &&& v.line == u.line
            &&& v.identity@ == (if u.identity@ == a { b } else { u.identity@ })
        }
}

/// Registry `after` is `before` with only the status of lint `a` changed.
pub open spec fn status_changed(before: Registry, after: Registry, a: Seq<char>) -> bool {
    let p = pos_of(before.lints@, a);
    &&& after.lints@.len() == before.lints@.len()
    &&& same_but_status(before.lints@[p], after.lints@[p])
    &&& forall|j: int| 0 <= j < before.lints@.len() && j != p ==> after.lints@[j] == before.lints@[j]
    &&& after.usages@ == before.usages@
}

/// Renames lint `old_name` to `new_name` in its record and in every usage site.
/// Fails without any change when the lint is unknown or not active, or when
/// another lint, active or deprecated, already has `new_name`.
pub fn rename(reg: &mut Registry, old_name: &String, new_name: &String) -> (r: Result<
    (),
    MutationError,
>)
    requires
        old(reg).wf(),
    ensures
        final(reg).wf(),
        match target_error(old(reg).lints@, old_name@) {
            Some(e) => r == Err::<(), MutationError>(e),
            None => if has_id(old(reg).lints@, new_name@) && new_name@ != old_name@ {
                r == Err::<(), MutationError>(MutationError::NameCollision)
            } else {
                r is Ok
            },
        },
        r is Err ==> *final(reg) == *old(reg),
        r is Ok ==> renamed(*old(reg), *final(reg), old_name@, new_name@),
{
    let p = match reg.find(old_name) {
        Some(p) => p,
        None => return Err(MutationError::UnknownLint),
    };
    if !reg.lints[p].is_active() {
        return Err(MutationError::NotActive);
    }
    match reg.find(new_name) {
        Some(q) => {
            if q != p {
                return Err(MutationError::NameCollision);
            }
        },
        None => {},
    }
    let ghost before = *reg;
    reg.lints[p].identity = new_name.clone();
    let mut k: usize = 0;
    while k < reg.usages.len()
        invariant
            before.wf(),
            p < before.lints@.len(),
            before.lints@[p as int].identity@ == old_name@,
            reg.lints@ == before.lints@.update(
                p as int,
                reg.lints@[p as int],
            ),
            reg.lints@[p as int].identity@ == new_name@,
            same_but_identity(before.lints@[p as int], reg.lints@[p as int]),
            reg.usages@.len() == before.usages@.len(),
            k <= reg.usages@.len(),
            forall|c: int|
                k <= c < reg.usages@.len() ==> #[trigger] reg.usages@[c] == before.usages@[c],
            forall|c: int|
                0 <= c < k ==> {
                    let u = before.usages@[c];
                    let v = #[trigger] reg.usages@[c];
                    &&& v.file == u.file
                    &&& v.line == u.line
                    &&& v.identity@ == (if u.identity@ == old_name@ {
                        new_name@
                    } else {
                        u.identity@
                    })
                },
        decreases reg.usages@.len() - k,
    {
        if reg.usages[k].identity == *old_name {
            reg.usages[k].identity = new_name.clone();
        }
        k = k + 1;
    }
    proof {
        assert(pos_of(before.lints@, old_name@) == p as int);
        assert forall|c: int| 0 <= c < reg.usages@.len() implies has_id(
            reg.lints@,
            #[trigger] reg.usages@[c].identity@,
        ) by {
            let id = before.usages@[c].identity@;
            if id == old_name@ {
            } else {
                let i = choose|i: int| 0 <= i < before.lints@.len() && before.lints@[i].identity@ == id;
                assert(i != p);
                assert(reg.lints@[i].identity@ == id);
            }
        }
    }
    Ok(())
}

/// Marks active lint `name` as uplifted into the host toolchain.
pub fn uplift(reg: &mut Registry, name: &String) -> (r: Result<(), MutationError>)
    requires
        old(reg).wf(),
    ensures
        final(reg).wf(),
        match target_error(old(reg).lints@, name@) {
            Some(e) => r == Err::<(), MutationError>(e),
            None => r is Ok,
        },
        r is Err ==> *final(reg) == *old(reg),
        r is Ok ==> status_changed(*old(reg), *final(reg), name@) && final(reg).lints@[pos_of(
            old(reg).lints@,
            name@,
        )].status is Uplifted,
{
    set_status(reg, name, Status::Uplifted)
}

/// Marks active lint `name` as deprecated, with an optional reason.
pub fn deprecate(reg: &mut Registry, name: &String, reason: Option<String>) -> (r: Result<
    (),
    MutationError,
>)
    requires
        old(reg).wf(),
    ensures
        final(reg).wf(),
        match target_error(old(reg).lints@, name@) {
            Some(e) => r == Err::<(), MutationError>(e),
            None => r is Ok,
        },
        r is Err ==> *final(reg) == *old(reg),
        r is Ok ==> status_changed(*old(reg), *final(reg), name@) && final(reg).lints@[pos_of(
            old(reg).lints@,
            name@,
        )].status == (Status::Deprecated { reason }),
{
    set_status(reg, name, Status::Deprecated { reason })
}

fn set_status(reg: &mut Registry, name: &String, st: Status) -> (r: Result<(), MutationError>)
    requires
        old(reg).wf(),
    ensures
        final(reg).wf(),
        match target_error(old(reg).lints@, name@) {
            Some(e) => r == Err::<(), MutationError>(e),
            None => r is Ok,
        },
        r is Err ==> *final(reg) == *old(reg),
        r is Ok ==> status_changed(*old(reg), *final(reg), name@) && final(reg).lints@[pos_of(
            old(reg).lints@,
            name@,
        )].status == st,
{
    let p = match reg.find(name) {
        Some(p) => p,
        None => return Err(MutationError::UnknownLint),
    };
    if !reg.lints[p].is_active() {
        return Err(MutationError::NotActive);
    }
    let ghost before = *reg;
    reg.lints[p].status = st;
    proof {
        assert(pos_of(before.lints@, name@) == p as int);
        assert forall|c: int| 0 <= c < reg.usages@.len() implies has_id(
            reg.lints@,
            #[trigger] reg.usages@[c].identity@,
        ) by {
            let id = before.usages@[c].identity@;
            let i = choose|i: int| 0 <= i < before.lints@.len() && before.lints@[i].identity@ == id;
            assert(reg.lints@[i].identity@ == id);
        }
    }
    Ok(())
}

/// Adds a new active lint named `name`, unless a lint of that name exists.
pub fn create_lint(
    reg: &mut Registry,
    name: &String,
    group: Group,
    pass: PassKind,
    module: &String,
    msrv: Option<String>,
) -> (r: Result<(), MutationError>)
    requires
        old(reg).wf(),
    ensures
        final(reg).wf(),
        r is Err <==> has_id(old(reg).lints@, name@),
        r is Err ==> r == Err::<(), MutationError>(MutationError::NameCollision) && *final(reg) == *old(
            reg,
        ),
        r is Ok ==> {
            let n = old(reg).lints@.len();
            let x = final(reg).lints@[n as int];
            &&& final(reg).lints@.len() == n + 1
            &&& final(reg).lints@.subrange(0, n as int) == old(reg).lints@
            &&& final(reg).usages@ == old(reg).usages@
            &&& x.identity@ == name@
            &&& x.group == group
            &&& x.pass == pass
            &&& x.status is Active
            &&& x.module@ == module@
            &&& x.doc@.len() == 0
            &&& x.msrv == msrv
        },
{
    if reg.find(name).is_some() {
        return Err(MutationError::NameCollision);
    }
    let ghost before = *reg;
    let rec = LintRecord {
        identity: name.clone(),
        group,
        pass,
        status: Status::Active,
        doc: String::new(),
        module: module.clone(),
        msrv,
    };
    reg.lints.push(rec);
    proof {
        assert(reg.lints@.subrange(0, before.lints@.len() as int) =~= before.lints@);
        assert forall|c: int| 0 <= c < reg.usages@.len() implies has_id(
            reg.lints@,
            #[trigger] reg.usages@[c].identity@,
        ) by {
            let id = before.usages@[c].identity@;
            let i = choose|i: int| 0 <= i < before.lints@.len() && before.lints@[i].identity@ == id;
            assert(reg.lints@[i] == before.lints@[i]);
        }
    }
    Ok(())
}

} // verus!
