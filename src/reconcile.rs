use vstd::prelude::*;

verus! {

/// Whether to compare an artifact or rewrite it.
#[derive(Clone, Copy, Debug, PartialEq, Eq, Structural)]
pub enum Mode {
    Check,
    Write,
}

/// Result of reconciling one artifact.
#[derive(Debug)]
pub enum Outcome {
    /// The owned block already holds the canonical text.
    UpToDate,
    /// Check mode found the owned block out of date.
    Drift,
    /// Write mode replaced the owned block: the new file text.
    Written(Vec<char>),
}

#[derive(Debug)]
pub enum ReconcileError {
    /// The file lacks the start or the end delimiter of its managed block.
    MissingDelimiter,
}

/// A file with a managed block, the block's delimiters, and the block's canonical text.
pub struct Artifact {
    pub text: Vec<char>,
    pub start: Vec<char>,
    pub end: Vec<char>,
    pub block: Vec<char>,
}

pub open spec fn occurs_at(t: Seq<char>, p: Seq<char>, i: int) -> bool {
    0 <= i && i + p.len() <= t.len() && t.subrange(i, i + p.len()) == p
}

/// The first position at or after `i` where `p` occurs in `t`.
pub open spec fn first_from(t: Seq<char>, p: Seq<char>, i: int) -> Option<int>
    decreases t.len() + 1 - i,
{
    if i < 0 || i + p.len() > t.len() {
        None
    } else if occurs_at(t, p, i) {
        Some(i)
    } else {
        first_from(t, p, i + 1)
    }
}

/// The owned region: from just after the first start delimiter to the first end
/// delimiter that follows it.
pub open spec fn span(t: Seq<char>, start: Seq<char>, end: Seq<char>) -> Option<(int, int)> {
    match first_from(t, start, 0) {
        None => None,
        Some(s) => match first_from(t, end, s + start.len()) {
            None => None,
            Some(e) => Some((s + start.len(), e)),
        },
    }
}

pub open spec fn up_to_date(t: Seq<char>, start: Seq<char>, end: Seq<char>, block: Seq<char>) -> bool {
    match span(t, start, end) {
        None => false,
        Some((a, e)) => t.subrange(a, e) == block,
    }
}

/// The text with its owned region replaced by `block`; the rest is kept as it is.
pub open spec fn spliced(t: Seq<char>, a: int, e: int, block: Seq<char>) -> Seq<char> {
    t.subrange(0, a) + block + t.subrange(e, t.len() as int)
}

/// What reconciling `t` in `mode` must give.
pub open spec fn reconciles(
    t: Seq<char>,
    start: Seq<char>,
    end: Seq<char>,
    block: Seq<char>,
    mode: Mode,
    r: Result<Outcome, ReconcileError>,
) -> bool {
    match span(t, start, end) {
        None => r is Err,
        Some((a, e)) => if t.subrange(a, e) == block {
            r matches Ok(Outcome::UpToDate)
        } else if mode == Mode::Check {
            r matches Ok(Outcome::Drift)
        } else {
            r matches Ok(Outcome::Written(nt)) && nt@ == spliced(t, a, e, block)
        },
    }
}

pub proof fn lemma_first_from(t: Seq<char>, p: Seq<char>, i: int)
    requires
        0 <= i,
    ensures
        match first_from(t, p, i) {
            Some(k) => i <= k && occurs_at(t, p, k) && forall|j: int|
                i <= j < k ==> !occurs_at(t, p, j),
            None => forall|j: int| i <= j ==> !occurs_at(t, p, j),
        },
    decreases t.len() + 1 - i,
{
    if i + p.len() > t.len() {
    } else if occurs_at(t, p, i) {
    } else {
        lemma_first_from(t, p, i + 1);
    }
}

pub proof fn lemma_first_is(t: Seq<char>, p: Seq<char>, i: int, k: int)
    requires
        0 <= i <= k,
        occurs_at(t, p, k),
        forall|j: int| i <= j < k ==> !occurs_at(t, p, j),
    ensures
        first_from(t, p, i) == Some(k),
    decreases k - i,
{
    if i < k {
        lemma_first_is(t, p, i + 1, k);
    }
}

fn matches_at(t: &Vec<char>, p: &Vec<char>, i: usize) -> (r: bool)
    requires
        i + p@.len() <= t@.len(),
    ensures
        r == occurs_at(t@, p@, i as int),
{
    let n = t.len();
    let mut k: usize = 0;
    while k < p.len()
        invariant
            n == t@.len(),
            i + p@.len() <= t@.len(),
            k <= p@.len(),
            forall|m: int| 0 <= m < k ==> t@[i + m] == p@[m],
        decreases p@.len() - k,
    {
        if t[i + k] != p[k] {
            assert(t@.subrange(i as int, i + p@.len())[k as int] != p@[k as int]);
            return false;
        }
        k = k + 1;
    }
    assert(t@.subrange(i as int, i + p@.len()) =~= p@);
    true
}

/// First position at or after `from` where `p` occurs in `t`.
pub fn find_from(t: &Vec<char>, p: &Vec<char>, from: usize) -> (r: Option<usize>)
    ensures
        match r {
            Some(k) => first_from(t@, p@, from as int) == Some(k as int),
            None => first_from(t@, p@, from as int) is None,
        },
{
    if p.len() > t.len() {
        return None;
    }
    let last = t.len() - p.len();
    let mut i = from;
    while i <= last
        invariant
            last == t@.len() - p@.len(),
            from <= i,
            first_from(t@, p@, from as int) == first_from(t@, p@, i as int),
        decreases last + 1 - i,
    {
        if matches_at(t, p, i) {
            return Some(i);
        }
        if i == last {
            return None;
        }
        i = i + 1;
    }
    None
}

fn same_chars(t: &Vec<char>, a: usize, e: usize, block: &Vec<char>) -> (r: bool)
    requires
        a <= e <= t@.len(),
    ensures
        r == (t@.subrange(a as int, e as int) == block@),
{
    if e - a != block.len() {
        return false;
    }
    let mut k: usize = 0;
    while k < block.len()
        invariant
            e - a == block@.len(),
            e <= t@.len(),
            k <= block@.len(),
            forall|m: int| 0 <= m < k ==> t@[a + m] == block@[m],
        decreases block@.len() - k,
    {
        if t[a + k] != block[k] {
            assert(t@.subrange(a as int, e as int)[k as int] != block@[k as int]);
            return false;
        }
        k = k + 1;
    }
    assert(t@.subrange(a as int, e as int) =~= block@);
    true
}

fn copy_range(out: &mut Vec<char>, t: &Vec<char>, a: usize, e: usize)
    requires
        a <= e <= t@.len(),
    ensures
        final(out)@ == old(out)@ + t@.subrange(a as int, e as int),
{
    let mut k = a;
    while k < e
        invariant
            a <= k <= e,
            e <= t@.len(),
            out@ == old(out)@ + t@.subrange(a as int, k as int),
        decreases e - k,
    {
        out.push(t[k]);
        assert(t@.subrange(a as int, k + 1) =~= t@.subrange(a as int, k as int).push(t@[k as int]));
        k = k + 1;
    }
}

/// Compares the managed block of `text` with `block`; in write mode, gives the text
/// with the block replaced, touching nothing outside the delimiters.
pub fn reconcile(text: &Vec<char>, start: &Vec<char>, end: &Vec<char>, block: &Vec<char>, mode: Mode) -> (r:
    Result<Outcome, ReconcileError>)
    ensures
        reconciles(text@, start@, end@, block@, mode, r),
{
    let s = match find_from(text, start, 0) {
        Some(s) => s,
        None => return Err(ReconcileError::MissingDelimiter),
    };
    proof {
        lemma_first_from(text@, start@, 0);
    }
    let n = text.len();
    let a = s + start.len();
    let e = match find_from(text, end, a) {
        Some(e) => e,
        None => return Err(ReconcileError::MissingDelimiter),
    };
    proof {
        lemma_first_from(text@, end@, a as int);
    }
    if same_chars(text, a, e, block) {
        return Ok(Outcome::UpToDate);
    }
    match mode {
        Mode::Check => Ok(Outcome::Drift),
        Mode::Write => {
            let mut nt: Vec<char> = Vec::new();
            copy_range(&mut nt, text, 0, a);
            copy_range(&mut nt, block, 0, block.len());
            copy_range(&mut nt, text, e, text.len());
            assert(block@.subrange(0, block@.len() as int) =~= block@);
            Ok(Outcome::Written(nt))
        },
    }
}

/// Reconciles every artifact; a failure on one does not stop the others.
pub fn synchronize(artifacts: &Vec<Artifact>, mode: Mode) -> (r: Vec<Result<Outcome, ReconcileError>>)
    ensures
        r@.len() == artifacts@.len(),
        forall|i: int|
            0 <= i < r@.len() ==> reconciles(
                artifacts@[i].text@,
                artifacts@[i].start@,
                artifacts@[i].end@,
                artifacts@[i].block@,
                mode,
                #[trigger] r@[i],
            ),
{
    let mut r: Vec<Result<Outcome, ReconcileError>> = Vec::new();
    let mut i: usize = 0;
    while i < artifacts.len()
        invariant
            i <= artifacts@.len(),
            r@.len() == i,
            forall|j: int|
                0 <= j < i ==> reconciles(
                    artifacts@[j].text@,
                    artifacts@[j].start@,
                    artifacts@[j].end@,
                    artifacts@[j].block@,
                    mode,
                    #[trigger] r@[j],
                ),
        decreases artifacts@.len() - i,
    {
        let a = &artifacts[i];
        r.push(reconcile(&a.text, &a.start, &a.end, &a.block, mode));
        i = i + 1;
    }
    r
}

} // verus!
