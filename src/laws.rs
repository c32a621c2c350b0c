use vstd::prelude::*;
use crate::lint::{is_active, is_public_active, Group, LintRecord};
use crate::registry::{has_id, Registry};
use crate::render::{listed, selects, summary, Listing};
use crate::reconcile::{
    first_from, lemma_first_from, lemma_first_is, occurs_at, reconciles, span, spliced, up_to_date,
    Artifact, Mode, Outcome, ReconcileError,
};
use crate::mutate::{pos_of, renamed, status_changed};

verus! {

/// A rendered list holds `x` exactly when some selected record is called `x`.
pub proof fn lemma_listed_contains(s: Seq<LintRecord>, l: Listing, x: Seq<char>)
    ensures
        listed(s, l).contains(x) <==> exists|i: int|
            0 <= i < s.len() && selects(l, s[i]) && s[i].identity@ == x,
    decreases s.len(),
{
    if s.len() > 0 {
        let d = s.drop_last();
        lemma_listed_contains(d, l, x);
        if listed(s, l).contains(x) {
            if selects(l, s.last()) && s.last().identity@ == x {
            } else {
                if selects(l, s.last()) {
                    let k = choose|k: int| 0 <= k < listed(s, l).len() && listed(s, l)[k] == x;
                    assert(k < listed(d, l).len());
                    assert(listed(d, l).contains(x));
                }
                let i = choose|i: int| 0 <= i < d.len() && selects(l, d[i]) && d[i].identity@ == x;
                assert(s[i] == d[i]);
            }
        } else {
            assert forall|i: int| 0 <= i < s.len() && selects(l, s[i]) implies s[i].identity@ != x by {
                if i < s.len() - 1 {
                    assert(s[i] == d[i]);
                    if d[i].identity@ == x {
                        assert(listed(d, l).contains(x));
                        let k = choose|k: int| 0 <= k < listed(d, l).len() && listed(d, l)[k] == x;
                        assert(listed(s, l)[k] == x);
                    }
                } else {
                    if s[i].identity@ == x {
                        assert(listed(s, l)[listed(s, l).len() - 1] == x);
                    }
                }
            }
        }
    }
}

/// Two registries whose records select alike and differ only by renaming `a` to `b`
/// render the same lists up to that renaming.
pub proof fn lemma_listed_renamed(
    s1: Seq<LintRecord>,
    s2: Seq<LintRecord>,
    l: Listing,
    a: Seq<char>,
    b: Seq<char>,
)
    requires
        s1.len() == s2.len(),
        forall|i: int| 0 <= i < s1.len() ==> selects(l, s1[i]) == selects(l, s2[i]),
        forall|i: int|
            0 <= i < s1.len() ==> s2[i].identity@ == (if s1[i].identity@ == a {
                b
            } else {
                s1[i].identity@
            }),
    ensures
        listed(s2, l) == listed(s1, l).map_values(|x: Seq<char>| if x == a { b } else { x }),
    decreases s1.len(),
{
    if s1.len() > 0 {
        lemma_listed_renamed(s1.drop_last(), s2.drop_last(), l, a, b);
        assert(listed(s2, l) =~= listed(s1, l).map_values(|x: Seq<char>| if x == a { b } else { x }));
    }
}

/// Changing one record changes the length of a rendered list by the change in
/// whether that record is selected.
pub proof fn lemma_listed_len_one_change(s1: Seq<LintRecord>, s2: Seq<LintRecord>, l: Listing, p: int)
    requires
        s1.len() == s2.len(),
        0 <= p < s1.len(),
        forall|j: int| 0 <= j < s1.len() && j != p ==> s1[j] == s2[j],
    ensures
        listed(s2, l).len() + (if selects(l, s1[p]) { 1int } else { 0 }) == listed(s1, l).len() + (
        if selects(l, s2[p]) {
            1int
        } else {
            0
        }),
    decreases s1.len(),
{
    let n = s1.len();
    if p == n - 1 {
        assert(s1.drop_last() =~= s2.drop_last());
    } else {
        lemma_listed_len_one_change(s1.drop_last(), s2.drop_last(), l, p);
    }
}

/// Writing an artifact and then writing it again changes nothing the second time,
/// provided the end delimiter does not occur in the block or across its end.
pub proof fn law_write_idempotent(
    t: Seq<char>,
    start: Seq<char>,
    end: Seq<char>,
    block: Seq<char>,
    a: int,
    e: int,
    mode: Mode,
    r: Result<Outcome, ReconcileError>,
)
    requires
        span(t, start, end) == Some((a, e)),
        first_from(block + end, end, 0) == Some(block.len() as int),
        reconciles(
            spliced(t, a, e, block),
            start,
            end,
            block,
            mode,
            r,
        ),
    ensures
        r matches Ok(Outcome::UpToDate),
{
    let s = first_from(t, start, 0)->0;
    lemma_first_from(t, start, 0);
    lemma_first_from(t, end, a);
    let t2 = spliced(t, a, e, block);
    let be = block + end;
    lemma_first_from(be, end, 0);
    assert forall|j: int| 0 <= j <= s implies occurs_at(t2, start, j) == occurs_at(t, start, j) by {
        assert(t2.subrange(j, j + start.len()) =~= t.subrange(j, j + start.len()));
    }
    lemma_first_is(t2, start, 0, s);
    assert forall|m: int| 0 <= m < be.len() implies t2[a + m] == be[m] by {
        if m >= block.len() {
            assert(t.subrange(e, e + end.len())[m - block.len()] == end[m - block.len()]);
        }
    }
    assert forall|j: int| a <= j <= a + block.len() implies occurs_at(t2, end, j) == occurs_at(
        be,
        end,
        j - a,
    ) by {
        assert(t2.subrange(j, j + end.len()) =~= be.subrange(j - a, j - a + end.len()));
    }
    lemma_first_is(t2, end, a, a + block.len());
    assert(t2.subrange(a, a + block.len()) =~= block);
    assert(up_to_date(t2, start, end, block));
}

/// Check mode reports the artifact up to date exactly when write mode would not
/// write it, and reports drift exactly when write mode would rewrite it.
pub proof fn law_check_write_agree(
    t: Seq<char>,
    start: Seq<char>,
    end: Seq<char>,
    block: Seq<char>,
    rc: Result<Outcome, ReconcileError>,
    rw: Result<Outcome, ReconcileError>,
)
    requires
        reconciles(t, start, end, block, Mode::Check, rc),
        reconciles(t, start, end, block, Mode::Write, rw),
    ensures
        (rc matches Ok(Outcome::UpToDate)) <==> (rw matches Ok(Outcome::UpToDate)),
        (rc matches Ok(Outcome::Drift)) <==> (rw matches Ok(Outcome::Written(_))),
        rc is Err <==> rw is Err,
{
}

/// Over a set of artifacts, check mode finds all of them up to date exactly when
/// write mode rewrites none of them and finds all of them up to date.
pub proof fn law_sync_check_write_agree(
    arts: Seq<Artifact>,
    rc: Seq<Result<Outcome, ReconcileError>>,
    rw: Seq<Result<Outcome, ReconcileError>>,
)
    requires
        rc.len() == arts.len(),
        rw.len() == arts.len(),
        forall|i: int|
            0 <= i < arts.len() ==> reconciles(
                arts[i].text@,
                arts[i].start@,
                arts[i].end@,
                arts[i].block@,
                Mode::Check,
                #[trigger] rc[i],
            ),
        forall|i: int|
            0 <= i < arts.len() ==> reconciles(
                arts[i].text@,
                arts[i].start@,
                arts[i].end@,
                arts[i].block@,
                Mode::Write,
                #[trigger] rw[i],
            ),
    ensures
        (forall|i: int| 0 <= i < rc.len() ==> #[trigger] rc[i] matches Ok(Outcome::UpToDate)) <==> (
        forall|i: int| 0 <= i < rw.len() ==> #[trigger] rw[i] matches Ok(Outcome::UpToDate)),
        forall|i: int|
            0 <= i < rc.len() ==> ((#[trigger] rc[i] matches Ok(Outcome::Drift)) <==> (
            rw[i] matches Ok(Outcome::Written(_)))),
{
    assert forall|i: int| 0 <= i < rc.len() implies ((#[trigger] rc[i] matches Ok(Outcome::UpToDate))
        <==> (rw[i] matches Ok(Outcome::UpToDate))) && ((rc[i] matches Ok(Outcome::Drift)) <==> (
    rw[i] matches Ok(Outcome::Written(_)))) by {
        law_check_write_agree(
            arts[i].text@,
            arts[i].start@,
            arts[i].end@,
            arts[i].block@,
            rc[i],
            rw[i],
        );
    }
    if forall|i: int| 0 <= i < rc.len() ==> #[trigger] rc[i] matches Ok(Outcome::UpToDate) {
        assert forall|i: int| 0 <= i < rw.len() implies #[trigger] rw[i] matches Ok(
            Outcome::UpToDate,
        ) by {
            assert(rc[i] matches Ok(Outcome::UpToDate));
        }
    }
    if forall|i: int| 0 <= i < rw.len() ==> #[trigger] rw[i] matches Ok(Outcome::UpToDate) {
        assert forall|i: int| 0 <= i < rc.len() implies #[trigger] rc[i] matches Ok(
            Outcome::UpToDate,
        ) by {
            assert(rw[i] matches Ok(Outcome::UpToDate));
        }
    }
}

/// Distinct active lints of a registry have distinct identities.
pub proof fn law_active_unique(reg: Registry)
    requires
        reg.wf(),
    ensures
        forall|i: int, j: int|
            0 <= i < reg.lints@.len() && 0 <= j < reg.lints@.len() && i != j && is_active(
                reg.lints@[i],
            ) && is_active(reg.lints@[j]) ==> reg.lints@[i].identity@ != reg.lints@[j].identity@,
{
}

/// Every usage site of a registry names one of its lints.
pub proof fn law_usages_resolve(reg: Registry)
    requires
        reg.wf(),
    ensures
        forall|k: int|
            0 <= k < reg.usages@.len() ==> has_id(reg.lints@, #[trigger] reg.usages@[k].identity@),
{
}

/// After lint `a` is renamed to `b`, nothing names `a`: no record, no usage site and
/// no rendered list; every list that held `a` holds `b` in its place.
pub proof fn law_rename_propagates(before: Registry, after: Registry, a: Seq<char>, b: Seq<char>)
    requires
        before.wf(),
        has_id(before.lints@, a),
        a != b,
        renamed(before, after, a, b),
    ensures
        !has_id(after.lints@, a),
        has_id(after.lints@, b),
        forall|k: int| 0 <= k < after.usages@.len() ==> after.usages@[k].identity@ != a,
        forall|l: Listing|
            listed(after.lints@, l) == listed(before.lints@, l).map_values(
                |x: Seq<char>| if x == a { b } else { x },
            ),
        forall|l: Listing| !(#[trigger] listed(after.lints@, l)).contains(a),
        forall|l: Listing|
            (#[trigger] listed(before.lints@, l)).contains(a) ==> listed(after.lints@, l).contains(b),
{
    let s1 = before.lints@;
    let s2 = after.lints@;
    let p = pos_of(s1, a);
    assert forall|i: int| 0 <= i < s2.len() implies s2[i].identity@ != a by {
        if i != p {
            assert(s1[i].identity@ != s1[p].identity@);
        }
    }
    assert(s2[p].identity@ == b);
    assert forall|k: int| 0 <= k < after.usages@.len() implies after.usages@[k].identity@ != a by {
        assert(after.usages@[k] == after.usages@[k]);
    }
    assert forall|l: Listing|
        listed(s2, l) == listed(s1, l).map_values(|x: Seq<char>| if x == a { b } else { x }) by {
        assert forall|i: int|
            0 <= i < s1.len() implies s2[i].identity@ == (if s1[i].identity@ == a {
                b
            } else {
                s1[i].identity@
            }) by {
            if i != p {
                assert(s1[i].identity@ != s1[p].identity@);
            }
        }
        lemma_listed_renamed(s1, s2, l, a, b);
    }
    assert forall|l: Listing| !(#[trigger] listed(s2, l)).contains(a) by {
        lemma_listed_contains(s2, l, a);
    }
    assert forall|l: Listing| (#[trigger] listed(s1, l)).contains(a) implies listed(s2, l).contains(
        b,
    ) by {
        lemma_listed_contains(s1, l, a);
        lemma_listed_contains(s2, l, b);
        let i = choose|i: int| 0 <= i < s1.len() && selects(l, s1[i]) && s1[i].identity@ == a;
        assert(i == p);
    }
}

/// After active, non-internal lint `a` is deprecated, no group lists it, the
/// deprecated pseudo-group does, and the summary count is one lower.
pub proof fn law_deprecate_excludes(before: Registry, after: Registry, a: Seq<char>)
    requires
        before.wf(),
        has_id(before.lints@, a),
        is_public_active(before.lints@[pos_of(before.lints@, a)]),
        status_changed(before, after, a),
        after.lints@[pos_of(before.lints@, a)].status is Deprecated,
    ensures
        forall|g: Group| !(#[trigger] listed(after.lints@, Listing::Members(g))).contains(a),
        listed(after.lints@, Listing::Deprecated).contains(a),
        summary(after.lints@) + 1 == summary(before.lints@),
{
    let s1 = before.lints@;
    let s2 = after.lints@;
    let p = pos_of(s1, a);
    assert forall|g: Group| !(#[trigger] listed(s2, Listing::Members(g))).contains(a) by {
        lemma_listed_contains(s2, Listing::Members(g), a);
        assert forall|i: int|
            0 <= i < s2.len() && selects(Listing::Members(g), s2[i]) implies s2[i].identity@
            != a by {
            if i != p {
                assert(s1[i].identity@ != s1[p].identity@);
            }
        }
    }
    lemma_listed_contains(s2, Listing::Deprecated, a);
    assert(selects(Listing::Deprecated, s2[p]));
    lemma_listed_len_one_change(s1, s2, Listing::Public, p);
}

} // verus!
