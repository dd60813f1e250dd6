//! Structured diagnostics: what went wrong, where, and which parts of a line
//! to highlight.
use vstd::prelude::*;
use crate::text::{decimal_of, occurs_at};

verus! {

/// A part of a line to highlight.
#[derive(Debug)]
pub enum Wrong {
    /// A byte range given as `(start, length)`.
    Bit((usize, usize)),
    /// Every non-overlapping occurrence of this text in the line.
    Str(String),
}

/// An excerpt of an input line for a diagnostic.
#[derive(Debug)]
pub struct Line {
    /// The text of the line.
    pub line: String,
    /// Its index in the file, when known.
    pub index: Option<usize>,
    /// The parts of it to highlight.
    pub wrong: Vec<Wrong>,
}

impl Line {
    /// Builds an excerpt.
    pub fn new(line: String, index: Option<usize>, wrong: Vec<Wrong>) -> (r: Self)
        ensures
            r.line == line,
            r.index == index,
            r.wrong == wrong,
    {
        Line { line, index, wrong }
    }
}

/// The UTF-8 bytes of a text.
pub open spec fn bytes_of(s: Seq<char>) -> Seq<u8> {
    vstd::utf8::encode_utf8(s)
}

/// Whether position `p` lies in one of the half-open ranges.
pub open spec fn covers(rs: Seq<(int, int)>, p: int) -> bool {
    exists|i: int| #![trigger rs[i]] 0 <= i < rs.len() && rs[i].0 <= p < rs[i].1
}

/// Ranges as pairs of integers.
pub open spec fn as_spans(v: Seq<(usize, usize)>) -> Seq<(int, int)> {
    v.map_values(|r: (usize, usize)| (r.0 as int, r.1 as int))
}

/// The non-overlapping occurrences of `t` in `s` at or after `i`, found left to right.
pub open spec fn hits(s: Seq<u8>, t: Seq<u8>, i: int) -> Seq<(int, int)>
    decreases s.len() - i,
{
    if t.len() == 0 || i < 0 || i + t.len() > s.len() {
        seq![]
    } else if occurs_at(s, t, i) {
        seq![(i, i + t.len())] + hits(s, t, i + t.len())
    } else {
        hits(s, t, i + 1)
    }
}

/// The ranges that one part to highlight designates in a line.
pub open spec fn wrong_spans(line: Seq<u8>, w: Wrong) -> Seq<(int, int)> {
    match w {
        Wrong::Bit((start, len)) => seq![(start as int, start + len)],
        Wrong::Str(t) => hits(line, bytes_of(t@), 0),
    }
}

/// The ranges that all parts to highlight designate in a line.
pub open spec fn all_spans(line: Seq<u8>, ws: Seq<Wrong>) -> Seq<(int, int)>
    decreases ws.len(),
{
    if ws.len() == 0 {
        seq![]
    } else {
        all_spans(line, ws.drop_last()) + wrong_spans(line, ws.last())
    }
}

/// Ranges that are non-empty, in increasing order, and that neither overlap nor touch.
pub open spec fn canonical(rs: Seq<(int, int)>) -> bool {
    &&& forall|i: int| 0 <= i < rs.len() ==> #[trigger] rs[i].0 < rs[i].1
    &&& forall|i: int, j: int| 0 <= i < j < rs.len() ==> #[trigger] rs[i].1 < #[trigger] rs[j].0
}

/// The underline for canonical ranges: one marker under each covered position,
/// a space under each uncovered one, up to the end of the last range.
pub open spec fn underline_of(rs: Seq<(int, int)>) -> Seq<char> {
    let n = if rs.len() == 0 { 0 } else { rs.last().1 };
    Seq::new(n as nat, |p: int| if covers(rs, p) { '^' } else { ' ' })
}

/// Whether the bytes `t` occur in `s` at position `i`.
fn bytes_occur_at(s: &Vec<u8>, t: &Vec<u8>, i: usize) -> (r: bool)
    ensures
        r == occurs_at(s@, t@, i as int),
{
    if i > s.len() || t.len() > s.len() - i {
        return false;
    }
    let mut k: usize = 0;
    while k < t.len()
        invariant
            k <= t.len(),
            i + t.len() <= s.len(),
            forall|j: int| 0 <= j < k ==> s@[i + j] == t@[j],
        decreases t.len() - k,
    {
        if s[i + k] != t[k] {
            assert(s@.subrange(i as int, i + t.len())[k as int] != t@[k as int]);
            return false;
        }
        k = k + 1;
    }
    assert(s@.subrange(i as int, i + t.len()) =~= t@);
    true
}

proof fn lemma_covers_concat(a: Seq<(int, int)>, b: Seq<(int, int)>, p: int)
    ensures
        covers(a + b, p) == (covers(a, p) || covers(b, p)),
{
    if covers(a + b, p) {
        let i = choose|i: int| 0 <= i < (a + b).len() && #[trigger] (a + b)[i].0 <= p < (a + b)[i].1;
        if i < a.len() {
            assert(a[i] == (a + b)[i]);
        } else {
            assert(b[i - a.len()] == (a + b)[i]);
        }
    }
    if covers(a, p) {
        let i = choose|i: int| 0 <= i < a.len() && #[trigger] a[i].0 <= p < a[i].1;
        assert((a + b)[i] == a[i]);
    }
    if covers(b, p) {
        let i = choose|i: int| 0 <= i < b.len() && #[trigger] b[i].0 <= p < b[i].1;
        assert((a + b)[i + a.len()] == b[i]);
    }
}

proof fn lemma_covers_one(a: int, b: int, p: int)
    ensures
        covers(seq![(a, b)], p) == (a <= p < b),
{
    let s = seq![(a, b)];
    if a <= p < b {
        assert(s[0].0 <= p < s[0].1);
    }
    if covers(s, p) {
        let i = choose|i: int| 0 <= i < s.len() && #[trigger] s[i].0 <= p < s[i].1;
        assert(i == 0);
    }
}

/// Adds the range `[a, b)` to canonical ranges, merging it with those it
/// overlaps or touches.
fn insert_range(out: &mut Vec<(usize, usize)>, a: usize, b: usize)
    requires
        canonical(as_spans(old(out)@)),
        a < b,
    ensures
        canonical(as_spans(final(out)@)),
        forall|p: int|
            covers(as_spans(final(out)@), p) <==> (covers(as_spans(old(out)@), p) || a <= p < b),
{
    let ghost o = as_spans(out@);
    let mut res: Vec<(usize, usize)> = Vec::new();
    let mut lo = a;
    let mut hi = b;
    let mut placed = false;
    let mut k: usize = 0;
    assert(o.subrange(0, 0) =~= Seq::<(int, int)>::empty());
    assert(as_spans(res@) =~= Seq::<(int, int)>::empty());
    while k < out.len()
        invariant
            o == as_spans(out@),
            canonical(o),
            k <= out@.len(),
            lo < hi,
            lo <= a,
            b <= hi,
            canonical(as_spans(res@)),
            forall|i: int, j: int|
                0 <= i < res@.len() && k <= j < out@.len() ==> #[trigger] res@[i].1 < #[trigger] out@[j].0,
            !placed ==> forall|i: int| 0 <= i < res@.len() ==> #[trigger] res@[i].1 < lo,
            forall|p: int|
                #![trigger covers(as_spans(res@), p)]
                #![trigger covers(o.subrange(0, k as int), p)]
                (covers(as_spans(res@), p) || (!placed && lo <= p < hi)) <==> (covers(
                    o.subrange(0, k as int),
                    p,
                ) || a <= p < b),
        decreases out@.len() - k,
    {
        let (s, e) = out[k];
        let ghost r0 = as_spans(res@);
        let ghost pre = o.subrange(0, k as int);
        assert(o[k as int] == (s as int, e as int));
        assert(o.subrange(0, k + 1) =~= pre + seq![(s as int, e as int)]);
        assert(s < e);
        assert forall|j: int| k < j < out@.len() implies e < #[trigger] out@[j].0 by {
            assert(o[k as int].1 < o[j].0);
        }
        if placed || e < lo {
            res.push((s, e));
            assert(as_spans(res@) =~= r0 + seq![(s as int, e as int)]);
            assert forall|p: int|
                #![trigger covers(as_spans(res@), p)]
                #![trigger covers(o.subrange(0, k + 1), p)]
                (covers(as_spans(res@), p) || (!placed && lo <= p < hi)) <==> (covers(
                    o.subrange(0, k + 1),
                    p,
                ) || a <= p < b) by {
                lemma_covers_concat(r0, seq![(s as int, e as int)], p);
                lemma_covers_concat(pre, seq![(s as int, e as int)], p);
                lemma_covers_one(s as int, e as int, p);
            }
        } else if s > hi {
            res.push((lo, hi));
            let ghost r1 = as_spans(res@);
            res.push((s, e));
            assert(r1 =~= r0 + seq![(lo as int, hi as int)]);
            assert(as_spans(res@) =~= r1 + seq![(s as int, e as int)]);
            assert forall|p: int|
                #![trigger covers(as_spans(res@), p)]
                #![trigger covers(o.subrange(0, k + 1), p)]
                (covers(as_spans(res@), p) || (false && lo <= p < hi)) <==> (covers(
                    o.subrange(0, k + 1),
                    p,
                ) || a <= p < b) by {
                lemma_covers_concat(r0, seq![(lo as int, hi as int)], p);
                lemma_covers_concat(r1, seq![(s as int, e as int)], p);
                lemma_covers_concat(pre, seq![(s as int, e as int)], p);
                lemma_covers_one(s as int, e as int, p);
                lemma_covers_one(lo as int, hi as int, p);
            }
            placed = true;
        } else {
            let nlo = if s < lo { s } else { lo };
            let nhi = if e > hi { e } else { hi };
            assert forall|p: int|
                #![trigger covers(as_spans(res@), p)]
                #![trigger covers(o.subrange(0, k + 1), p)]
                (covers(as_spans(res@), p) || (nlo <= p < nhi)) <==> (covers(
                    o.subrange(0, k + 1),
                    p,
                ) || a <= p < b) by {
                lemma_covers_concat(pre, seq![(s as int, e as int)], p);
                lemma_covers_one(s as int, e as int, p);
            }
            lo = nlo;
            hi = nhi;
        }
        k = k + 1;
    }
    assert(o.subrange(0, out@.len() as int) =~= o);
    if !placed {
        let ghost r0 = as_spans(res@);
        res.push((lo, hi));
        assert(as_spans(res@) =~= r0 + seq![(lo as int, hi as int)]);
        assert forall|p: int|
            covers(as_spans(res@), p) <==> (covers(o, p) || a <= p < b) by {
            lemma_covers_concat(r0, seq![(lo as int, hi as int)], p);
            lemma_covers_one(lo as int, hi as int, p);
        }
    }
    *out = res;
}

/// Adds every occurrence of `t` in `s` found from `i` on to canonical ranges.
fn insert_hits(out: &mut Vec<(usize, usize)>, s: &Vec<u8>, t: &Vec<u8>, i: usize)
    requires
        canonical(as_spans(old(out)@)),
    ensures
        canonical(as_spans(final(out)@)),
        forall|p: int|
            covers(as_spans(final(out)@), p) <==> (covers(as_spans(old(out)@), p) || covers(
                hits(s@, t@, i as int),
                p,
            )),
    decreases s@.len() - i,
{
    if t.len() == 0 || i > s.len() || t.len() > s.len() - i {
        return;
    }
    if bytes_occur_at(s, t, i) {
        let ghost before = as_spans(out@);
        insert_range(out, i, i + t.len());
        insert_hits(out, s, t, i + t.len());
        assert forall|p: int|
            covers(as_spans(out@), p) <==> (covers(before, p) || covers(hits(s@, t@, i as int), p)) by {
            lemma_covers_concat(seq![(i as int, i + t.len())], hits(s@, t@, i + t.len()), p);
            lemma_covers_one(i as int, i + t.len(), p);
        }
    } else {
        insert_hits(out, s, t, i + 1);
    }
}

/// The ranges to highlight in `line`: every range that some part designates,
/// sorted, with touching and overlapping ranges merged into one. A range
/// that would end past the largest `usize` ends there.
pub fn construct_range(wrong: &Vec<Wrong>, line: &str) -> (r: Vec<(usize, usize)>)
    ensures
        canonical(as_spans(r@)),
        forall|p: int|
            p < usize::MAX ==> (covers(as_spans(r@), p) <==> covers(
                all_spans(bytes_of(line@), wrong@),
                p,
            )),
        forall|p: int| covers(as_spans(r@), p) ==> 0 <= p < usize::MAX,
{
    let bytes = line.as_bytes_vec();
    let mut out: Vec<(usize, usize)> = Vec::new();
    assert(as_spans(out@) =~= Seq::<(int, int)>::empty());
    assert(wrong@.subrange(0, 0) =~= Seq::<Wrong>::empty());
    let mut w: usize = 0;
    while w < wrong.len()
        invariant
            bytes@ == bytes_of(line@),
            w <= wrong.len(),
            canonical(as_spans(out@)),
            forall|p: int|
                p < usize::MAX ==> (covers(as_spans(out@), p) <==> covers(
                    all_spans(bytes@, wrong@.subrange(0, w as int)),
                    p,
                )),
        decreases wrong.len() - w,
    {
        let ghost prev = all_spans(bytes@, wrong@.subrange(0, w as int));
        let ghost before = as_spans(out@);
        assert(wrong@.subrange(0, w + 1).drop_last() =~= wrong@.subrange(0, w as int));
        match &wrong[w] {
            Wrong::Bit((start, len)) => {
                let end = if *len > usize::MAX - *start {
                    usize::MAX
                } else {
                    *start + *len
                };
                if *start < end {
                    insert_range(&mut out, *start, end);
                }
                assert forall|p: int| p < usize::MAX implies (covers(as_spans(out@), p)
                    <==> covers(all_spans(bytes@, wrong@.subrange(0, w + 1)), p)) by {
                    lemma_covers_concat(prev, seq![(*start as int, *start + *len)], p);
                    lemma_covers_one(*start as int, *start + *len, p);
                }
            },
            Wrong::Str(t) => {
                let tb = t.as_str().as_bytes_vec();
                insert_hits(&mut out, &bytes, &tb, 0);
                assert forall|p: int| p < usize::MAX implies (covers(as_spans(out@), p)
                    <==> covers(all_spans(bytes@, wrong@.subrange(0, w + 1)), p)) by {
                    lemma_covers_concat(prev, hits(bytes@, tb@, 0), p);
                }
            },
        }
        w = w + 1;
    }
    assert(wrong@.subrange(0, wrong.len() as int) =~= wrong@);
    assert forall|p: int| covers(as_spans(out@), p) implies 0 <= p < usize::MAX by {
        let i = choose|i: int| #![trigger as_spans(out@)[i]] 0 <= i < as_spans(out@).len()
            && as_spans(out@)[i].0 <= p < as_spans(out@)[i].1;
        assert(as_spans(out@)[i] == (out@[i].0 as int, out@[i].1 as int));
    }
    out
}

proof fn lemma_canonical_gap(rs: Seq<(int, int)>, k: int, p: int)
    requires
        canonical(rs),
        0 <= k < rs.len(),
        k == 0 ==> 0 <= p,
        k > 0 ==> rs[k - 1].1 <= p,
        p < rs[k].1,
    ensures
        covers(rs, p) == (rs[k].0 <= p),
{
    if covers(rs, p) {
        let i = choose|i: int| #![trigger rs[i]] 0 <= i < rs.len() && rs[i].0 <= p < rs[i].1;
        if i < k {
            assert(rs[i].1 <= rs[k - 1].1 || i == k - 1) by {
                if i < k - 1 {
                    assert(rs[i].1 < rs[k - 1].0);
                }
            }
        } else if i > k {
            assert(rs[k].1 < rs[i].0);
        }
    }
    if rs[k].0 <= p {
        assert(rs[k].0 <= p < rs[k].1);
    }
}

/// Appends `count` copies of a one-character text.
fn push_repeat(s: &mut String, t: &str, count: usize)
    requires
        t@.len() == 1,
    ensures
        final(s)@ == old(s)@ + Seq::new(count as nat, |i: int| t@[0]),
{
    let mut k: usize = 0;
    while k < count
        invariant
            t@.len() == 1,
            k <= count,
            s@ == old(s)@ + Seq::new(k as nat, |i: int| t@[0]),
        decreases count - k,
    {
        s.append(t);
        k = k + 1;
        assert(s@ =~= old(s)@ + Seq::new(k as nat, |i: int| t@[0]));
    }
}

/// Renders canonical ranges as an underline: `^` under each highlighted
/// position and a space under each other one, up to the last range's end.
pub fn underline(ranges: &Vec<(usize, usize)>) -> (r: String)
    requires
        canonical(as_spans(ranges@)),
    ensures
        r@ == underline_of(as_spans(ranges@)),
{
    let ghost rs = as_spans(ranges@);
    let mut s = String::new();
    let mut cursor: usize = 0;
    let mut k: usize = 0;
    proof {
        reveal_strlit(" ");
        reveal_strlit("^");
    }
    while k < ranges.len()
        invariant
            rs == as_spans(ranges@),
            canonical(rs),
            k <= ranges.len(),
            k == 0 ==> cursor == 0,
            k > 0 ==> cursor == ranges@[k - 1].1,
            s@ == Seq::new(cursor as nat, |p: int| if covers(rs, p) { '^' } else { ' ' }),
            " "@ == seq![' '],
            "^"@ == seq!['^'],
        decreases ranges.len() - k,
    {
        let (start, end) = ranges[k];
        assert(rs[k as int] == (start as int, end as int));
        if k > 0 {
            assert(rs[k - 1] == (ranges@[k - 1].0 as int, ranges@[k - 1].1 as int));
            assert(rs[k - 1].1 < rs[k as int].0);
        }
        push_repeat(&mut s, " ", start - cursor);
        push_repeat(&mut s, "^", end - start);
        assert forall|p: int| 0 <= p < end implies #[trigger] s@[p] == (if covers(rs, p) {
            '^'
        } else {
            ' '
        }) by {
            if p >= cursor {
                lemma_canonical_gap(rs, k as int, p);
            }
        }
        assert(s@ =~= Seq::new(end as nat, |p: int| if covers(rs, p) { '^' } else { ' ' }));
        cursor = end;
        k = k + 1;
    }
    s
}

impl Line {
    /// The underline that marks the highlighted parts of this line.
    pub fn underline(&self) -> (r: String)
        ensures
            exists|rs: Seq<(int, int)>|
                canonical(rs) && r@ == underline_of(rs) && (forall|p: int|
                    p < usize::MAX ==> (covers(rs, p) <==> covers(
                        all_spans(bytes_of(self.line@), self.wrong@),
                        p,
                    ))) && (forall|p: int| covers(rs, p) ==> 0 <= p < usize::MAX),
    {
        let r = construct_range(&self.wrong, self.line.as_str());
        underline(&r)
    }
}


/// Canonical ranges that cover exactly the positions of `[s, e)` are that one range.
pub proof fn lemma_single_run(rs: Seq<(int, int)>, s: int, e: int)
    requires
        canonical(rs),
        s < e,
        forall|p: int| covers(rs, p) <==> s <= p < e,
    ensures
        rs == seq![(s, e)],
{
    assert(covers(rs, s));
    assert(rs.len() > 0);
    let a = rs[0].0;
    let b = rs[0].1;
    assert(a <= s) by {
        let i = choose|i: int| #![trigger rs[i]] 0 <= i < rs.len() && rs[i].0 <= s < rs[i].1;
        if i > 0 {
            assert(rs[0].1 < rs[i].0);
        }
    }
    assert(a == s) by {
        assert(covers(rs, a)) by {
            assert(rs[0].0 <= a < rs[0].1);
        }
    }
    assert(b <= e) by {
        assert(covers(rs, b - 1)) by {
            assert(rs[0].0 <= b - 1 < rs[0].1);
        }
    }
    assert(b == e) by {
        if b < e {
            assert(covers(rs, b));
            let i = choose|i: int| #![trigger rs[i]] 0 <= i < rs.len() && rs[i].0 <= b < rs[i].1;
            if i > 0 {
                assert(rs[0].1 < rs[i].0);
            }
        }
    }
    if rs.len() > 1 {
        assert(rs[0].1 < rs[1].0);
        assert(covers(rs, rs[1].0)) by {
            assert(rs[1].0 <= rs[1].0 < rs[1].1);
        }
    }
    assert(rs =~= seq![(s, e)]);
}

/// Touching ranges coalesce: the parts `(start, n)` and `(start + n, m)` of
/// non-zero lengths are highlighted as the one range `[start, start + n + m)`,
/// whatever canonical ranges cover what they designate.
pub proof fn lemma_touching_ranges_merge(
    line: Seq<u8>,
    start: usize,
    n: usize,
    m: usize,
    rs: Seq<(int, int)>,
)
    requires
        n > 0,
        m > 0,
        start + n + m <= usize::MAX,
        canonical(rs),
        forall|p: int|
            p < usize::MAX ==> (covers(rs, p) <==> covers(
                all_spans(line, seq![Wrong::Bit((start, n)), Wrong::Bit(((start + n) as usize, m))]),
                p,
            )),
        forall|p: int| covers(rs, p) ==> 0 <= p < usize::MAX,
    ensures
        rs == seq![(start as int, start + n + m)],
{
    let ws = seq![Wrong::Bit((start, n)), Wrong::Bit(((start + n) as usize, m))];
    assert(ws.drop_last() =~= seq![Wrong::Bit((start, n))]);
    assert(ws.drop_last().drop_last() =~= Seq::<Wrong>::empty());
    let sp = all_spans(line, ws);
    let w1 = seq![Wrong::Bit((start, n))];
    assert(all_spans(line, w1) == all_spans(line, w1.drop_last()) + wrong_spans(line, w1.last()));
    assert(all_spans(line, w1) =~= seq![(start as int, start + n)]);
    assert(sp == all_spans(line, w1) + wrong_spans(line, ws.last()));
    assert(sp =~= seq![(start as int, start + n)] + seq![((start + n) as int, start + n + m)]);
    assert forall|p: int| covers(rs, p) <==> start <= p < start + n + m by {
        lemma_covers_concat(seq![(start as int, start + n)], seq![((start + n) as int, start + n + m)], p);
        lemma_covers_one(start as int, start + n, p);
        lemma_covers_one((start + n) as int, start + n + m, p);
    }
    lemma_single_run(rs, start as int, start + n + m);
}

/// What kind of failure a diagnostic reports.
#[derive(Debug, Clone, Copy, PartialEq, Eq, Structural)]
pub enum ErrorKind {
    /// A failure with no more specific kind.
    General,
    /// The input could not be read.
    Io,
    /// A line starts with a keyword that the schema does not declare.
    UnknownKeyword,
    /// A line's token count does not fit its keyword's format.
    FormatMismatch,
    /// A keyword appears a number of times that its occurrence forbids.
    OccurrenceViolation,
    /// A token could not be converted to the requested type.
    TokenConversion,
}

/// A structured diagnostic: a headline, and optionally help, the file and
/// line concerned, an excerpt with highlighted parts, the keywords that
/// could have been meant, and the error that caused it.
#[derive(Debug)]
pub struct ParseFileError {
    /// What kind of failure this is.
    pub kind: ErrorKind,
    /// The headline message.
    pub error: String,
    /// Help on how to fix the input.
    pub help: Option<String>,
    /// The name of the file concerned.
    pub file: Option<String>,
    /// The offending line.
    pub line: Option<Line>,
    /// Where in the program the diagnostic was raised.
    pub source_file: Option<String>,
    /// The keywords that the input could have used.
    pub suggestions: Vec<String>,
    /// The error that caused this one.
    pub source: Option<Box<ParseFileError>>,
}

impl ParseFileError {
    /// A diagnostic with a headline and nothing else.
    pub fn new(error: &str) -> (r: Self)
        ensures
            r.kind == ErrorKind::General,
            r.error@ == error@,
            r.help is None,
            r.file is None,
            r.line is None,
            r.source_file is None,
            r.suggestions@.len() == 0,
            r.source is None,
    {
        ParseFileError {
            kind: ErrorKind::General,
            error: error.to_owned(),
            help: None,
            file: None,
            line: None,
            source_file: None,
            suggestions: Vec::new(),
            source: None,
        }
    }

    /// The same diagnostic with this excerpt text; an index and highlights
    /// given before are kept, and there are none otherwise.
    pub fn line(self, line: &str) -> (r: Self)
        ensures
            r.line matches Some(l) && l.line@ == line@ && match self.line {
                Some(old) => l.index == old.index && l.wrong == old.wrong,
                None => l.index is None && l.wrong@.len() == 0,
            },
            r.kind == self.kind && r.error == self.error && r.help == self.help && r.file == self.file,
            r.source_file == self.source_file && r.suggestions == self.suggestions,
    {
        let ParseFileError { kind, error, help, file, line: old, source_file, suggestions, source } = self;
        let l = match old {
            Some(o) => Line { line: line.to_owned(), ..o },
            None => Line::new(line.to_owned(), None, Vec::new()),
        };
        ParseFileError { kind, error, help, file, line: Some(l), source_file, suggestions, source }
    }

    /// The same diagnostic with this help.
    pub fn help(self, help: &str) -> (r: Self)
        ensures
            r.help matches Some(h) && h@ == help@,
            r.kind == self.kind && r.error == self.error && r.line == self.line && r.file == self.file,
            r.source_file == self.source_file && r.suggestions == self.suggestions,
    {
        ParseFileError { help: Some(help.to_owned()), ..self }
    }

    /// The same diagnostic with the place in the program that raised it.
    pub fn source_file(self, source_file: &str) -> (r: Self)
        ensures
            r.source_file matches Some(s) && s@ == source_file@,
            r.kind == self.kind && r.error == self.error && r.line == self.line && r.file == self.file,
            r.help == self.help && r.suggestions == self.suggestions,
    {
        ParseFileError { source_file: Some(source_file.to_owned()), ..self }
    }

    /// The same diagnostic with the index of its excerpt's line.
    pub fn index(self, index: usize) -> (r: Self)
        requires
            self.line is Some,
        ensures
            r.line matches Some(l) && l.index == Some(index) && l.line == self.line->0.line
                && l.wrong == self.line->0.wrong,
            r.kind == self.kind && r.error == self.error && r.help == self.help && r.file == self.file,
            r.source_file == self.source_file && r.suggestions == self.suggestions,
    {
        let ParseFileError { kind, error, help, file, line, source_file, suggestions, source } = self;
        let l = line.unwrap();
        ParseFileError {
            kind,
            error,
            help,
            file,
            line: Some(Line { index: Some(index), ..l }),
            source_file,
            suggestions,
            source,
        }
    }

    /// The same diagnostic highlighting these `(start, length)` byte ranges of its excerpt.
    pub fn wrong_bit(self, wrong_bit: Vec<(usize, usize)>) -> (r: Self)
        requires
            self.line is Some,
        ensures
            r.line matches Some(l) && l.index == self.line->0.index && l.line == self.line->0.line
                && l.wrong@.len() == wrong_bit@.len() && forall|i: int|
                0 <= i < wrong_bit@.len() ==> #[trigger] l.wrong@[i] == Wrong::Bit(wrong_bit@[i]),
            r.kind == self.kind && r.error == self.error && r.help == self.help && r.file == self.file,
            r.source_file == self.source_file && r.suggestions == self.suggestions,
    {
        let mut wrong: Vec<Wrong> = Vec::new();
        let mut i: usize = 0;
        while i < wrong_bit.len()
            invariant
                i <= wrong_bit@.len(),
                wrong@.len() == i,
                forall|j: int| 0 <= j < i ==> #[trigger] wrong@[j] == Wrong::Bit(wrong_bit@[j]),
            decreases wrong_bit@.len() - i,
        {
            wrong.push(Wrong::Bit(wrong_bit[i]));
            i = i + 1;
        }
        let ParseFileError { kind, error, help, file, line, source_file, suggestions, source } = self;
        let l = line.unwrap();
        ParseFileError {
            kind,
            error,
            help,
            file,
            line: Some(Line { wrong, ..l }),
            source_file,
            suggestions,
            source,
        }
    }
}

/// The padding of a gutter: one space per digit of the line index and one
/// more, or a single space without an index.
pub open spec fn padding_of(n: Option<usize>) -> Seq<char> {
    match n {
        Some(k) => Seq::new(decimal_of(k as nat).len() + 1, |i: int| ' '),
        None => seq![' '],
    }
}

/// The padding of a gutter for a line index.
pub fn n_to_padding(n: Option<usize>) -> (r: String)
    ensures
        r@ == padding_of(n),
{
    let mut s = String::new();
    proof { reveal_strlit(" "); }
    match n {
        Some(k) => {
            let d = crate::text::decimal(k);
            let count = d.as_str().unicode_len();
            push_repeat(&mut s, " ", count);
            push_repeat(&mut s, " ", 1);
            assert(s@ =~= padding_of(n));
        },
        None => {
            push_repeat(&mut s, " ", 1);
            assert(s@ =~= padding_of(n));
        },
    }
    s
}

/// The gutter of a diagnostic: the padding for a line index, after a bar
/// when the diagnostic has a cause to show below it.
pub fn padding<E>(source: &Option<E>, n: Option<usize>) -> (r: String)
    ensures
        source is Some ==> r@ == "│ "@ + padding_of(n),
        source is None ==> r@ == padding_of(n),
{
    let p = n_to_padding(n);
    match source {
        Some(_) => "│ ".to_owned().concat(p.as_str()),
        None => p,
    }
}

} // verus!
