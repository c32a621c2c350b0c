use vstd::prelude::*;
use vstd::string::StrSliceExecFns;
use crate::lint::{Group, LintRecord, PassKind, Status};

verus! {

#[derive(Debug)]
pub enum ScanError {
    /// A declaration at this line lacks its name or its group.
    MalformedDeclaration { line: usize },
}

/// The line without its leading spaces.
pub open spec fn strip(l: Seq<char>) -> Seq<char>
    decreases l.len(),
{
    if l.len() > 0 && l[0] == ' ' {
        strip(l.drop_first())
    } else {
        l
    }
}

pub open spec fn starts(l: Seq<char>, p: Seq<char>) -> bool {
    p.len() <= l.len() && l.subrange(0, p.len() as int) == p
}

pub open spec fn is_decl_start(l: Seq<char>) -> bool {
    strip(l) == "declare_clippy_lint! {"@
}

/// Doc comments and attributes that precede a declaration's fields.
pub open spec fn is_preamble(l: Seq<char>) -> bool {
    starts(strip(l), "///"@) || starts(strip(l), "#["@)
}

pub open spec fn lower_char(c: char) -> char {
    if 'A' <= c && c <= 'Z' {
        ((c as u32) + 32) as char
    } else {
        c
    }
}

/// The normalized identity of a declared name: ASCII letters in lower case.
pub open spec fn normalize(n: Seq<char>) -> Seq<char> {
    n.map_values(|c: char| lower_char(c))
}

/// The name that a field line `pub NAME,` declares.
pub open spec fn name_of(l: Seq<char>) -> Option<Seq<char>> {
    let s = strip(l);
    if starts(s, "pub "@) && s.len() > 5 && s.last() == ',' {
        Some(s.subrange(4, s.len() - 1))
    } else {
        None
    }
}

/// The group written `w`.
pub open spec fn group_named(w: Seq<char>) -> Option<Group> {
    if w == "style"@ {
        Some(Group::Style)
    } else if w == "correctness"@ {
        Some(Group::Correctness)
    } else if w == "suspicious"@ {
        Some(Group::Suspicious)
    } else if w == "complexity"@ {
        Some(Group::Complexity)
    } else if w == "perf"@ {
        Some(Group::Perf)
    } else if w == "pedantic"@ {
        Some(Group::Pedantic)
    } else if w == "restriction"@ {
        Some(Group::Restriction)
    } else if w == "cargo"@ {
        Some(Group::Cargo)
    } else if w == "nursery"@ {
        Some(Group::Nursery)
    } else if w == "internal"@ {
        Some(Group::Internal)
    } else {
        None
    }
}

/// The group that a field line `group,` names.
pub open spec fn group_of(l: Seq<char>) -> Option<Group> {
    let s = strip(l);
    if s.len() > 0 && s.last() == ',' {
        group_named(s.drop_last())
    } else {
        None
    }
}

/// The summary of a declaration whose first line is `l`: the text of a `/// ` line.
pub open spec fn doc_of(l: Seq<char>) -> Seq<char> {
    let s = strip(l);
    if starts(s, "/// "@) {
        s.subrange(4, s.len() as int)
    } else {
        Seq::empty()
    }
}

/// The first line at or after `j` that is not part of a declaration's preamble.
pub open spec fn first_field(lines: Seq<Seq<char>>, j: int) -> int
    decreases lines.len() - j,
{
    if j < 0 || j >= lines.len() || !is_preamble(lines[j]) {
        j
    } else {
        first_field(lines, j + 1)
    }
}

/// The declarations of `lines` from line `i` on, as identity, group and doc summary, or the
/// line of the first malformed one.
pub open spec fn decls(lines: Seq<Seq<char>>, i: int) -> Result<Seq<(Seq<char>, Group, Seq<char>)>, int>
    decreases lines.len() - i,
    via decls_decreases
{
    if i < 0 || i >= lines.len() {
        Ok(Seq::empty())
    } else if !is_decl_start(lines[i]) {
        decls(lines, i + 1)
    } else {
        let f = first_field(lines, i + 1);
        if f + 1 >= lines.len() || name_of(lines[f]) is None || group_of(lines[f + 1]) is None {
            Err(i)
        } else {
            match decls(lines, f + 2) {
                Err(e) => Err(e),
                Ok(rest) => Ok(
                    seq![
                        (
                            normalize(name_of(lines[f])->0),
                            group_of(lines[f + 1])->0,
                            if i + 1 < f { doc_of(lines[i + 1]) } else { Seq::empty() },
                        ),
                    ] + rest,
                ),
            }
        }
    }
}

proof fn lemma_first_field(lines: Seq<Seq<char>>, j: int)
    ensures
        j <= first_field(lines, j),
        0 <= j < lines.len() ==> first_field(lines, j) <= lines.len(),
    decreases lines.len() - j,
{
    if 0 <= j < lines.len() && is_preamble(lines[j]) {
        lemma_first_field(lines, j + 1);
    }
}

#[via_fn]
proof fn decls_decreases(lines: Seq<Seq<char>>, i: int) {
    lemma_first_field(lines, i + 1);
}

pub open spec fn line_views(v: Seq<Vec<char>>) -> Seq<Seq<char>> {
    v.map_values(|x: Vec<char>| x@)
}

/// Relies on `String`'s `FromIterator<char>`: the string holds the given characters.
#[verifier::external_body]
fn string_of(v: &Vec<char>) -> (r: String)
    ensures
        r@ == v@,
{
    v.iter().collect()
}

fn lead(l: &Vec<char>) -> (k: usize)
    ensures
        k <= l@.len(),
        strip(l@) == l@.subrange(k as int, l@.len() as int),
{
    let mut k: usize = 0;
    assert(l@.subrange(0, l@.len() as int) =~= l@);
    while k < l.len() && l[k] == ' '
        invariant
            k <= l@.len(),
            strip(l@) == strip(l@.subrange(k as int, l@.len() as int)),
        decreases l@.len() - k,
    {
        assert(l@.subrange(k as int, l@.len() as int).drop_first() =~= l@.subrange(
            k + 1,
            l@.len() as int,
        ));
        k = k + 1;
    }
    k
}

/// Whether `l` from position `k` on begins with `p`.
fn has_prefix(l: &Vec<char>, k: usize, p: &str) -> (r: bool)
    requires
        k <= l@.len(),
    ensures
        r == starts(l@.subrange(k as int, l@.len() as int), p@),
{
    let n = p.unicode_len();
    let len = l.len();
    if n > len - k {
        return false;
    }
    let mut m: usize = 0;
    while m < n
        invariant
            len == l@.len(),
            n == p@.len(),
            k + n <= l@.len(),
            m <= n,
            forall|x: int| 0 <= x < m ==> l@[k + x] == p@[x],
        decreases n - m,
    {
        if l[k + m] != p.get_char(m) {
            assert(l@.subrange(k as int, l@.len() as int).subrange(0, n as int)[m as int]
                != p@[m as int]);
            return false;
        }
        m = m + 1;
    }
    assert(l@.subrange(k as int, l@.len() as int).subrange(0, n as int) =~= p@);
    true
}

/// Whether `l` from position `k` up to `e` is exactly `p`.
fn equals_range(l: &Vec<char>, k: usize, e: usize, p: &str) -> (r: bool)
    requires
        k <= e <= l@.len(),
    ensures
        r == (l@.subrange(k as int, e as int) == p@),
{
    if e - k != p.unicode_len() {
        return false;
    }
    let mut m: usize = 0;
    while m < e - k
        invariant
            k <= e <= l@.len(),
            e - k == p@.len(),
            m <= e - k,
            forall|x: int| 0 <= x < m ==> l@[k + x] == p@[x],
        decreases e - k - m,
    {
        if l[k + m] != p.get_char(m) {
            assert(l@.subrange(k as int, e as int)[m as int] != p@[m as int]);
            return false;
        }
        m = m + 1;
    }
    assert(l@.subrange(k as int, e as int) =~= p@);
    true
}

fn is_preamble_line(l: &Vec<char>) -> (r: bool)
    ensures
        r == is_preamble(l@),
{
    let k = lead(l);
    has_prefix(l, k, "///") || has_prefix(l, k, "#[")
}

fn lower(c: char) -> (r: char)
    ensures
        r == lower_char(c),
{
    if 'A' <= c && c <= 'Z' {
        ((c as u8) + 32) as char
    } else {
        c
    }
}

/// The normalized name that field line `l` declares.
fn parse_name(l: &Vec<char>) -> (r: Option<String>)
    ensures
        match r {
            Some(s) => name_of(l@) is Some && s@ == normalize(name_of(l@)->0),
            None => name_of(l@) is None,
        },
{
    let k = lead(l);
    let ghost s = strip(l@);
    let n = l.len();
    if !(has_prefix(l, k, "pub ") && n - k > 5 && l[n - 1] == ',') {
        assert(s.len() == n - k);
        proof {
            if s.len() > 0 {
                assert(s.last() == l@[n - 1]);
            }
        }
        return None;
    }
    let mut v: Vec<char> = Vec::new();
    let mut m: usize = k + 4;
    while m < n - 1
        invariant
            n == l@.len(),
            k + 5 < n,
            k + 4 <= m <= n - 1,
            v@ == normalize(l@.subrange(k + 4, m as int)),
        decreases n - 1 - m,
    {
        v.push(lower(l[m]));
        assert(normalize(l@.subrange(k + 4, m + 1)) =~= normalize(l@.subrange(k + 4, m as int)).push(
            lower_char(l@[m as int]),
        ));
        m = m + 1;
    }
    assert(s.subrange(4, s.len() - 1) =~= l@.subrange(k + 4, n - 1));
    Some(string_of(&v))
}

/// The group that the name `l[k..e]` denotes.
fn parse_group_name(l: &Vec<char>, k: usize, e: usize) -> (r: Option<Group>)
    requires
        k <= e <= l@.len(),
    ensures
        r == group_named(l@.subrange(k as int, e as int)),
{
    if equals_range(l, k, e, "style") {
        Some(Group::Style)
    } else if equals_range(l, k, e, "correctness") {
        Some(Group::Correctness)
    } else if equals_range(l, k, e, "suspicious") {
        Some(Group::Suspicious)
    } else if equals_range(l, k, e, "complexity") {
        Some(Group::Complexity)
    } else if equals_range(l, k, e, "perf") {
        Some(Group::Perf)
    } else if equals_range(l, k, e, "pedantic") {
        Some(Group::Pedantic)
    } else if equals_range(l, k, e, "restriction") {
        Some(Group::Restriction)
    } else if equals_range(l, k, e, "cargo") {
        Some(Group::Cargo)
    } else if equals_range(l, k, e, "nursery") {
        Some(Group::Nursery)
    } else if equals_range(l, k, e, "internal") {
        Some(Group::Internal)
    } else {
        None
    }
}

/// The group whose name is `w`.
pub fn parse_group_word(w: &Vec<char>) -> (r: Option<Group>)
    ensures
        r == group_named(w@),
{
    assert(w@.subrange(0, w@.len() as int) =~= w@);
    parse_group_name(w, 0, w.len())
}

fn parse_group(l: &Vec<char>) -> (r: Option<Group>)
    ensures
        r == group_of(l@),
{
    let k = lead(l);
    let n = l.len();
    if n == k || l[n - 1] != ',' {
        proof {
            if n > k {
                assert(strip(l@).last() == l@[n - 1]);
            }
        }
        return None;
    }
    assert(strip(l@).drop_last() =~= l@.subrange(k as int, n - 1));
    parse_group_name(l, k, n - 1)
}

fn parse_doc(l: &Vec<char>) -> (r: String)
    ensures
        r@ == doc_of(l@),
{
    let k = lead(l);
    let n = l.len();
    let mut v: Vec<char> = Vec::new();
    if has_prefix(l, k, "/// ") {
        proof {
            reveal_strlit("/// ");
        }
        let mut m: usize = k + 4;
        while m < n
            invariant
                n == l@.len(),
                k + 4 <= m <= n,
                v@ == l@.subrange(k + 4, m as int),
            decreases n - m,
        {
            v.push(l[m]);
            assert(l@.subrange(k + 4, m + 1) =~= l@.subrange(k + 4, m as int).push(l@[m as int]));
            m = m + 1;
        }
        assert(strip(l@).subrange(4, strip(l@).len() as int) =~= l@.subrange(k + 4, n as int));
    }
    string_of(&v)
}

fn is_decl_start_line(l: &Vec<char>) -> (r: bool)
    ensures
        r == is_decl_start(l@),
{
    let k = lead(l);
    equals_range(l, k, l.len(), "declare_clippy_lint! {")
}

/// What a scanned record states, as `decls` lists it.
pub open spec fn summary_of(r: LintRecord) -> (Seq<char>, Group, Seq<char>) {
    (r.identity@, r.group, r.doc@)
}

/// Reads the lint declarations of one source file, given as lines. Each becomes an
/// active record of pass `pass` declared in `module`.
pub fn scan_file(lines: &Vec<Vec<char>>, module: &String, pass: PassKind) -> (r: Result<
    Vec<LintRecord>,
    ScanError,
>)
    ensures
        match r {
            Ok(v) => decls(line_views(lines@), 0) == Ok::<_, int>(v@.map_values(|x: LintRecord| summary_of(x)))
                && forall|i: int|
                0 <= i < v@.len() ==> {
                    let x = #[trigger] v@[i];
                    &&& x.status is Active
                    &&& x.pass == pass
                    &&& x.module@ == module@
                    &&& x.msrv is None
                },
            Err(ScanError::MalformedDeclaration { line }) => decls(line_views(lines@), 0) == Err::<
                Seq<(Seq<char>, Group, Seq<char>)>,
                int,
            >(line as int),
        },
{
    let ghost ls = line_views(lines@);
    let n = lines.len();
    let mut acc: Vec<LintRecord> = Vec::new();
    let mut i: usize = 0;
    while i < n
        invariant
            n == lines@.len(),
            ls == line_views(lines@),
            i <= n,
            decls(ls, 0) == match decls(ls, i as int) {
                Ok(rest) => Ok(acc@.map_values(|x: LintRecord| summary_of(x)) + rest),
                Err(e) => Err(e),
            },
            forall|c: int|
                0 <= c < acc@.len() ==> {
                    let x = #[trigger] acc@[c];
                    &&& x.status is Active
                    &&& x.pass == pass
                    &&& x.module@ == module@
                    &&& x.msrv is None
                },
        decreases n - i,
    {
        assert(ls[i as int] == lines@[i as int]@);
        if !is_decl_start_line(&lines[i]) {
            i = i + 1;
        } else {
            let mut f: usize = i + 1;
            proof {
                lemma_first_field(ls, i + 1);
            }
            while f < n && is_preamble_line(&lines[f])
                invariant
                    n == lines@.len(),
                    ls == line_views(lines@),
                    i < f <= n,
                    first_field(ls, i + 1) == first_field(ls, f as int),
                decreases n - f,
            {
                assert(ls[f as int] == lines@[f as int]@);
                f = f + 1;
            }
            proof {
                if f < n {
                    assert(ls[f as int] == lines@[f as int]@);
                }
            }
            if f >= n - 1 {
                return Err(ScanError::MalformedDeclaration { line: i });
            }
            assert(ls[f as int] == lines@[f as int]@);
            assert(ls[f + 1] == lines@[f + 1]@);
            let name = match parse_name(&lines[f]) {
                Some(name) => name,
                None => return Err(ScanError::MalformedDeclaration { line: i }),
            };
            let group = match parse_group(&lines[f + 1]) {
                Some(g) => g,
                None => return Err(ScanError::MalformedDeclaration { line: i }),
            };
            let doc = if i + 1 < f {
                assert(ls[i + 1] == lines@[i + 1]@);
                parse_doc(&lines[i + 1])
            } else {
                String::new()
            };
            let rec = LintRecord {
                identity: name,
                group,
                pass,
                status: Status::Active,
                doc,
                module: module.clone(),
                msrv: None,
            };
            let ghost before = acc@;
            acc.push(rec);
            assert(acc@.map_values(|x: LintRecord| summary_of(x)) =~= before.map_values(
                |x: LintRecord| summary_of(x),
            ).push(summary_of(rec)));
            proof {
                match decls(ls, f + 2) {
                    Ok(rest) => {
                        assert(acc@.map_values(|x: LintRecord| summary_of(x)) + rest =~= before.map_values(
                            |x: LintRecord| summary_of(x),
                        ) + (seq![summary_of(rec)] + rest));
                    },
                    Err(_) => {},
                }
            }
            i = f + 2;
        }
    }
    assert(acc@.map_values(|x: LintRecord| summary_of(x)) + Seq::empty() =~= acc@.map_values(
        |x: LintRecord| summary_of(x),
    ));
    Ok(acc)
}

} // verus!
