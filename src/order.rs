use vstd::prelude::*;
use vstd::string::StrSliceExecFns;
use vstd::multiset::{lemma_multiset_empty_len, Multiset};
use vstd::seq_lib::{to_multiset_build, to_multiset_insert};
use crate::lint::LintRecord;
use crate::registry::Registry;
use crate::render::{lines, render_lines, views};

verus! {

/// Lexicographic order of identities, character by character.
pub open spec fn id_lt(a: Seq<char>, b: Seq<char>) -> bool
    decreases a.len(),
{
    if a.len() == 0 {
        b.len() > 0
    } else if b.len() == 0 {
        false
    } else if a[0] != b[0] {
        a[0] < b[0]
    } else {
        id_lt(a.drop_first(), b.drop_first())
    }
}

pub proof fn lemma_lt_irreflexive(a: Seq<char>)
    ensures
        !id_lt(a, a),
    decreases a.len(),
{
    if a.len() > 0 {
        lemma_lt_irreflexive(a.drop_first());
    }
}

pub proof fn lemma_lt_transitive(a: Seq<char>, b: Seq<char>, c: Seq<char>)
    requires
        id_lt(a, b),
        id_lt(b, c),
    ensures
        id_lt(a, c),
    decreases a.len(),
{
    if a.len() > 0 && a[0] == b[0] && b[0] == c[0] {
        lemma_lt_transitive(a.drop_first(), b.drop_first(), c.drop_first());
    }
}

pub proof fn lemma_lt_total(a: Seq<char>, b: Seq<char>)
    requires
        a != b,
    ensures
        id_lt(a, b) || id_lt(b, a),
    decreases a.len(),
{
    if a.len() == 0 && b.len() == 0 {
        assert(a =~= b);
    } else if a.len() == 0 || b.len() == 0 {
    } else if a[0] == b[0] {
        assert(a =~= seq![a[0]] + a.drop_first());
        assert(b =~= seq![b[0]] + b.drop_first());
        if a.drop_first() == b.drop_first() {
            assert(a =~= b);
        }
        lemma_lt_total(a.drop_first(), b.drop_first());
    }
}

/// Records in non-decreasing order of identity.
pub open spec fn sorted_by_identity(s: Seq<LintRecord>) -> bool {
    forall|i: int, j: int| 0 <= i < j < s.len() ==> !id_lt(s[j].identity@, s[i].identity@)
}

/// Identities in strictly increasing order.
pub open spec fn strictly_sorted(s: Seq<Seq<char>>) -> bool {
    forall|i: int, j: int| 0 <= i < j < s.len() ==> id_lt(s[i], s[j])
}

/// Whether `a` comes strictly before `b`.
pub fn str_lt(a: &String, b: &String) -> (r: bool)
    ensures
        r == id_lt(a@, b@),
{
    let na = a.as_str().unicode_len();
    let nb = b.as_str().unicode_len();
    let mut i: usize = 0;
    assert(a@.skip(0) =~= a@);
    assert(b@.skip(0) =~= b@);
    while i < na && i < nb
        invariant
            na == a@.len(),
            nb == b@.len(),
            i <= na,
            i <= nb,
            id_lt(a@, b@) == id_lt(a@.skip(i as int), b@.skip(i as int)),
        decreases na - i,
    {
        let ca = a.as_str().get_char(i);
        let cb = b.as_str().get_char(i);
        if ca != cb {
            return ca < cb;
        }
        assert(a@.skip(i as int).drop_first() =~= a@.skip(i + 1));
        assert(b@.skip(i as int).drop_first() =~= b@.skip(i + 1));
        i = i + 1;
    }
    i < nb
}

/// Orders scanned records by identity, so that every rendering follows that order.
pub fn sort_by_identity(v: Vec<LintRecord>) -> (r: Vec<LintRecord>)
    ensures
        r@.to_multiset() == v@.to_multiset(),
        sorted_by_identity(r@),
{
    let ghost orig = v@;
    let mut v = v;
    let mut out: Vec<LintRecord> = Vec::new();
    proof {
        out@.to_multiset_ensures();
        lemma_multiset_empty_len(out@.to_multiset());
        assert(out@.to_multiset().add(v@.to_multiset()) =~= orig.to_multiset());
    }
    while v.len() > 0
        invariant
            out@.to_multiset().add(v@.to_multiset()) == orig.to_multiset(),
            sorted_by_identity(out@),
        decreases v@.len(),
    {
        let ghost v_old = v@;
        let x = v.pop().unwrap();
        proof {
            assert(v_old =~= v@.push(x));
            to_multiset_build(v@, x);
        }
        let mut k: usize = 0;
        while k < out.len() && !str_lt(&x.identity, &out[k].identity)
            invariant
                k <= out@.len(),
                forall|c: int| 0 <= c < k ==> !id_lt(x.identity@, #[trigger] out@[c].identity@),
            decreases out@.len() - k,
        {
            k = k + 1;
        }
        let ghost out_old = out@;
        out.insert(k, x);
        proof {
            to_multiset_insert(out_old, k as int, x);
            assert(out@.to_multiset().add(v@.to_multiset()) =~= orig.to_multiset());
            assert forall|i: int, j: int| 0 <= i < j < out@.len() implies !id_lt(
                out@[j].identity@,
                out@[i].identity@,
            ) by {
                if j == k && i < k {
                    assert(out@[i] == out_old[i]);
                } else if i == k && j > k {
                    assert(out@[j] == out_old[j - 1]);
                    assert(id_lt(x.identity@, out_old[k as int].identity@));
                    if id_lt(out_old[j - 1].identity@, x.identity@) {
                        if j - 1 > k {
                            lemma_lt_transitive(
                                out_old[j - 1].identity@,
                                x.identity@,
                                out_old[k as int].identity@,
                            );
                        } else {
                            lemma_lt_transitive(
                                x.identity@,
                                out_old[j - 1].identity@,
                                x.identity@,
                            );
                            lemma_lt_irreflexive(x.identity@);
                        }
                    }
                }
            }
        }
    }
    proof {
        v@.to_multiset_ensures();
        lemma_multiset_empty_len(v@.to_multiset());
        assert(out@.to_multiset().add(Multiset::empty()) =~= out@.to_multiset());
    }
    out
}

/// `m` lists each declaring module of `s` once, in increasing order.
pub open spec fn is_module_list(s: Seq<LintRecord>, m: Seq<Seq<char>>) -> bool {
    &&& strictly_sorted(m)
    &&& forall|x: Seq<char>|
        m.contains(x) <==> exists|i: int| 0 <= i < s.len() && (#[trigger] s[i]).module@ == x
}

proof fn lemma_insert_sorted(w: Seq<Seq<char>>, k: int, m: Seq<char>)
    requires
        strictly_sorted(w),
        0 <= k <= w.len(),
        forall|c: int| 0 <= c < k ==> id_lt(w[c], m),
        k < w.len() ==> id_lt(m, w[k]),
    ensures
        strictly_sorted(w.insert(k, m)),
{
    let w2 = w.insert(k, m);
    assert forall|a: int, b: int| 0 <= a < b < w2.len() implies id_lt(w2[a], w2[b]) by {
        if b == k {
        } else if a == k {
            if b - 1 > k {
                lemma_lt_transitive(m, w[k], w[b - 1]);
            }
        } else if a < k && b > k {
        } else if b < k {
        } else {
        }
    }
}

/// The declaring modules of the registry, sorted and without repeats.
pub fn module_list(reg: &Registry) -> (r: Vec<String>)
    ensures
        is_module_list(reg.lints@, views(r@)),
{
    let s = &reg.lints;
    let mut out: Vec<String> = Vec::new();
    let mut i: usize = 0;
    while i < s.len()
        invariant
            i <= s@.len(),
            strictly_sorted(views(out@)),
            forall|c: int|
                0 <= c < views(out@).len() ==> exists|j: int|
                    0 <= j < i && s@[j].module@ == #[trigger] views(out@)[c],
            forall|j: int| 0 <= j < i ==> views(out@).contains((#[trigger] s@[j]).module@),
        decreases s@.len() - i,
    {
        let m = &s[i].module;
        let ghost w = views(out@);
        let mut k: usize = 0;
        while k < out.len() && str_lt(&out[k], m)
            invariant
                k <= out@.len(),
                w == views(out@),
                forall|c: int| 0 <= c < k ==> id_lt(#[trigger] w[c], m@),
            decreases out@.len() - k,
        {
            k = k + 1;
        }
        if k < out.len() && out[k] == *m {
            assert(w[k as int] == s@[i as int].module@);
        } else {
            out.insert(k, m.clone());
            proof {
                assert(views(out@) =~= w.insert(k as int, m@));
                if k < w.len() {
                    lemma_lt_total(w[k as int], m@);
                }
                lemma_insert_sorted(w, k as int, m@);
                assert forall|c: int| 0 <= c < views(out@).len() implies exists|j: int|
                    0 <= j < i + 1 && s@[j].module@ == #[trigger] views(out@)[c] by {
                    if c < k {
                        assert(views(out@)[c] == w[c]);
                    } else if c > k {
                        assert(views(out@)[c] == w[c - 1]);
                    } else {
                        assert(s@[i as int].module@ == views(out@)[c]);
                    }
                }
                assert forall|j: int| 0 <= j < i + 1 implies views(out@).contains(
                    (#[trigger] s@[j]).module@,
                ) by {
                    if j < i {
                        let c = choose|c: int| 0 <= c < w.len() && w[c] == s@[j].module@;
                        if c < k {
                            assert(views(out@)[c] == w[c]);
                        } else {
                            assert(views(out@)[c + 1] == w[c]);
                        }
                    } else {
                        assert(views(out@)[k as int] == s@[j].module@);
                    }
                }
            }
        }
        i = i + 1;
    }
    proof {
        assert forall|x: Seq<char>|
            views(out@).contains(x) implies exists|j: int|
                0 <= j < s@.len() && (#[trigger] s@[j]).module@ == x by {
            let c = choose|c: int| 0 <= c < views(out@).len() && views(out@)[c] == x;
            assert(exists|j: int| 0 <= j < i && s@[j].module@ == #[trigger] views(out@)[c]);
        }
    }
    out
}

/// The module-visibility declarations: `pub mod m;` per declaring module, sorted.
pub fn render_modules(reg: &Registry) -> (r: Vec<char>)
    ensures
        exists|m: Seq<Seq<char>>|
            is_module_list(reg.lints@, m) && r@ == lines(m, "pub mod "@, ";\n"@),
{
    let mods = module_list(reg);
    render_lines(&mods, "pub mod ", ";\n")
}

} // verus!
