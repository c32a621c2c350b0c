use vstd::prelude::*;
use vstd::string::StrSliceExecFns;
use crate::lint::{in_group, is_public_active, group_name, Group, LintRecord, PassKind};
use crate::registry::Registry;

verus! {

/// Which lints a rendered list is made of.
#[derive(Clone, Copy, Debug, PartialEq, Eq, Structural)]
pub enum Listing {
    /// Active members of one group.
    Members(Group),
    /// The deprecated pseudo-group.
    Deprecated,
    /// The uplifted pseudo-group.
    Uplifted,
    /// Active, non-internal lints of one pass kind: the lint-store registration table.
    Registered(PassKind),
    /// All active, non-internal lints: those the summary counts.
    Public,
}

pub open spec fn selects(l: Listing, r: LintRecord) -> bool {
    match l {
        Listing::Members(g) => in_group(r, g),
        Listing::Deprecated => r.status is Deprecated,
        Listing::Uplifted => r.status is Uplifted,
        Listing::Registered(p) => is_public_active(r) && r.pass == p,
        Listing::Public => is_public_active(r),
    }
}

/// Identities of the records that `l` selects, in registry order.
pub open spec fn listed(s: Seq<LintRecord>, l: Listing) -> Seq<Seq<char>>
    decreases s.len(),
{
    if s.len() == 0 {
        Seq::empty()
    } else if selects(l, s.last()) {
        listed(s.drop_last(), l).push(s.last().identity@)
    } else {
        listed(s.drop_last(), l)
    }
}

/// The summary count: active, non-internal lints.
pub open spec fn summary(s: Seq<LintRecord>) -> nat {
    listed(s, Listing::Public).len()
}

pub open spec fn views(v: Seq<String>) -> Seq<Seq<char>> {
    v.map_values(|x: String| x@)
}

/// One line `prefix + id + suffix` per identity.
pub open spec fn lines(ids: Seq<Seq<char>>, prefix: Seq<char>, suffix: Seq<char>) -> Seq<char>
    decreases ids.len(),
{
    if ids.len() == 0 {
        Seq::empty()
    } else {
        lines(ids.drop_last(), prefix, suffix) + prefix + ids.last() + suffix
    }
}

/// One registration entry per record of pass `p`, carrying its group and identity.
pub open spec fn registration(s: Seq<LintRecord>, p: PassKind) -> Seq<char>
    decreases s.len(),
{
    if s.len() == 0 {
        Seq::empty()
    } else if selects(Listing::Registered(p), s.last()) {
        registration(s.drop_last(), p) + "    "@ + group_name(s.last().group) + "::"@
            + s.last().identity@ + ",\n"@
    } else {
        registration(s.drop_last(), p)
    }
}

/// One markdown link reference per record, with the identity as anchor text.
pub open spec fn link_refs(s: Seq<LintRecord>, base: Seq<char>) -> Seq<char>
    decreases s.len(),
{
    if s.len() == 0 {
        Seq::empty()
    } else {
        link_refs(s.drop_last(), base) + "["@ + s.last().identity@ + "]: "@ + base
            + s.last().identity@ + "\n"@
    }
}

pub open spec fn digit(d: nat) -> char {
    if d == 0 {
        '0'
    } else if d == 1 {
        '1'
    } else if d == 2 {
        '2'
    } else if d == 3 {
        '3'
    } else if d == 4 {
        '4'
    } else if d == 5 {
        '5'
    } else if d == 6 {
        '6'
    } else if d == 7 {
        '7'
    } else if d == 8 {
        '8'
    } else {
        '9'
    }
}

/// Decimal digits of `n`, without leading zeros.
pub open spec fn decimal(n: nat) -> Seq<char>
    decreases n,
{
    if n < 10 {
        seq![digit(n)]
    } else {
        decimal(n / 10).push(digit(n % 10))
    }
}

/// Appends the characters of `s` to `out`.
pub fn push_str(out: &mut Vec<char>, s: &str)
    ensures
        final(out)@ == old(out)@ + s@,
{
    let n = s.unicode_len();
    let mut i: usize = 0;
    while i < n
        invariant
            n == s@.len(),
            i <= n,
            out@ == old(out)@ + s@.subrange(0, i as int),
        decreases n - i,
    {
        let c = s.get_char(i);
        out.push(c);
        assert(s@.subrange(0, i + 1) =~= s@.subrange(0, i as int).push(c));
        i = i + 1;
    }
    assert(s@.subrange(0, n as int) =~= s@);
}

/// Identities of the records that `l` selects, in registry order.
pub fn listed_ids(reg: &Registry, l: Listing) -> (r: Vec<String>)
    ensures
        views(r@) == listed(reg.lints@, l),
{
    let s = &reg.lints;
    let mut r: Vec<String> = Vec::new();
    let mut i: usize = 0;
    while i < s.len()
        invariant
            i <= s@.len(),
            views(r@) == listed(s@.subrange(0, i as int), l),
        decreases s@.len() - i,
    {
        let rec = &s[i];
        assert(s@.subrange(0, i + 1).drop_last() =~= s@.subrange(0, i as int));
        let sel = match l {
            Listing::Members(g) => rec.is_active() && rec.group == g,
            Listing::Deprecated => match rec.status {
                crate::lint::Status::Deprecated { .. } => true,
                _ => false,
            },
            Listing::Uplifted => match rec.status {
                crate::lint::Status::Uplifted => true,
                _ => false,
            },
            Listing::Registered(p) => rec.is_active() && rec.group != Group::Internal && rec.pass
                == p,
            Listing::Public => rec.is_active() && rec.group != Group::Internal,
        };
        if sel {
            r.push(rec.identity.clone());
            assert(views(r@) =~= views(r@.drop_last()).push(rec.identity@));
        }
        i = i + 1;
    }
    assert(s@.subrange(0, s@.len() as int) =~= s@);
    r
}

/// The number of active, non-internal lints.
pub fn summary_count(reg: &Registry) -> (r: usize)
    ensures
        r == summary(reg.lints@),
{
    let ids = listed_ids(reg, Listing::Public);
    assert(views(ids@).len() == ids@.len());
    ids.len()
}

/// Text of a list: one line `prefix + id + suffix` per identity.
pub fn render_lines(ids: &Vec<String>, prefix: &str, suffix: &str) -> (r: Vec<char>)
    ensures
        r@ == lines(views(ids@), prefix@, suffix@),
{
    let mut r: Vec<char> = Vec::new();
    let mut i: usize = 0;
    while i < ids.len()
        invariant
            i <= ids@.len(),
            r@ == lines(views(ids@.subrange(0, i as int)), prefix@, suffix@),
        decreases ids@.len() - i,
    {
        assert(views(ids@.subrange(0, i + 1)).drop_last() =~= views(ids@.subrange(0, i as int)));
        push_str(&mut r, prefix);
        push_str(&mut r, ids[i].as_str());
        push_str(&mut r, suffix);
        i = i + 1;
    }
    assert(ids@.subrange(0, ids@.len() as int) =~= ids@);
    r
}

/// Text of the list that `l` selects, one line `prefix + id + suffix` per lint.
pub fn render_listing(reg: &Registry, l: Listing, prefix: &str, suffix: &str) -> (r: Vec<char>)
    ensures
        r@ == lines(listed(reg.lints@, l), prefix@, suffix@),
{
    let ids = listed_ids(reg, l);
    render_lines(&ids, prefix, suffix)
}

/// The lint-store registration table of one pass kind.
pub fn render_registration(reg: &Registry, p: PassKind) -> (r: Vec<char>)
    ensures
        r@ == registration(reg.lints@, p),
{
    let s = &reg.lints;
    let mut r: Vec<char> = Vec::new();
    let mut i: usize = 0;
    while i < s.len()
        invariant
            i <= s@.len(),
            r@ == registration(s@.subrange(0, i as int), p),
        decreases s@.len() - i,
    {
        let rec = &s[i];
        assert(s@.subrange(0, i + 1).drop_last() =~= s@.subrange(0, i as int));
        if rec.is_active() && rec.group != Group::Internal && rec.pass == p {
            push_str(&mut r, "    ");
            push_str(&mut r, rec.group.name());
            push_str(&mut r, "::");
            push_str(&mut r, rec.identity.as_str());
            push_str(&mut r, ",\n");
        }
        i = i + 1;
    }
    assert(s@.subrange(0, s@.len() as int) =~= s@);
    r
}

/// Changelog link references: `[id]: base + id` per lint.
pub fn render_link_refs(reg: &Registry, base: &str) -> (r: Vec<char>)
    ensures
        r@ == link_refs(reg.lints@, base@),
{
    let s = &reg.lints;
    let mut r: Vec<char> = Vec::new();
    let mut i: usize = 0;
    while i < s.len()
        invariant
            i <= s@.len(),
            r@ == link_refs(s@.subrange(0, i as int), base@),
        decreases s@.len() - i,
    {
        let rec = &s[i];
        assert(s@.subrange(0, i + 1).drop_last() =~= s@.subrange(0, i as int));
        push_str(&mut r, "[");
        push_str(&mut r, rec.identity.as_str());
        push_str(&mut r, "]: ");
        push_str(&mut r, base);
        push_str(&mut r, rec.identity.as_str());
        push_str(&mut r, "\n");
        i = i + 1;
    }
    assert(s@.subrange(0, s@.len() as int) =~= s@);
    r
}

fn digit_char(d: usize) -> (c: char)
    requires
        d < 10,
    ensures
        c == digit(d as nat),
{
    if d == 0 {
        '0'
    } else if d == 1 {
        '1'
    } else if d == 2 {
        '2'
    } else if d == 3 {
        '3'
    } else if d == 4 {
        '4'
    } else if d == 5 {
        '5'
    } else if d == 6 {
        '6'
    } else if d == 7 {
        '7'
    } else if d == 8 {
        '8'
    } else {
        '9'
    }
}

/// Decimal text of `n`.
pub fn render_decimal(n: usize) -> (r: Vec<char>)
    ensures
        r@ == decimal(n as nat),
    decreases n,
{
    if n < 10 {
        let mut r: Vec<char> = Vec::new();
        r.push(digit_char(n));
        assert(r@ =~= seq![digit(n as nat)]);
        r
    } else {
        let mut r = render_decimal(n / 10);
        r.push(digit_char(n % 10));
        r
    }
}

/// The summary count rendered as decimal text.
pub fn render_summary(reg: &Registry) -> (r: Vec<char>)
    ensures
        r@ == decimal(summary(reg.lints@)),
{
    render_decimal(summary_count(reg))
}

} // verus!
