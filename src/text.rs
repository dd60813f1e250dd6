//! Character-level text handling: white space, trimming, comment removal and
//! splitting a line into tokens.
use vstd::prelude::*;

verus! {

/// Whether a character has Unicode's `White_Space` property, the property
/// that `char::is_whitespace` tests.
pub open spec fn white(c: char) -> bool {
    let u = c as u32;
    ||| 0x09 <= u <= 0x0d
    ||| u == 0x20
    ||| u == 0x85
    ||| u == 0xa0
    ||| u == 0x1680
    ||| 0x2000 <= u <= 0x200a
    ||| u == 0x2028
    ||| u == 0x2029
    ||| u == 0x202f
    ||| u == 0x205f
    ||| u == 0x3000
}

/// Whether a character is white space.
pub fn is_white(c: char) -> (r: bool)
    ensures
        r == white(c),
{
    let u = c as u32;
    (0x09 <= u && u <= 0x0d) || u == 0x20 || u == 0x85 || u == 0xa0 || u == 0x1680 || (0x2000 <= u
        && u <= 0x200a) || u == 0x2028 || u == 0x2029 || u == 0x202f || u == 0x205f || u == 0x3000
}

/// The characters of a string slice, in order.
pub fn chars_of(s: &str) -> (r: Vec<char>)
    ensures
        r@ == s@,
{
    let mut r: Vec<char> = Vec::new();
    for c in it: s.chars()
        invariant
            r@ == it.seq().subrange(0, it.index() as int),
    {
        r.push(c);
    }
    r
}


/// The first position at or after `i` that does not hold white space (or the length).
pub open spec fn skip_white(s: Seq<char>, i: int) -> int
    decreases s.len() - i,
{
    if 0 <= i < s.len() && white(s[i]) {
        skip_white(s, i + 1)
    } else {
        i
    }
}

/// The position just past the last character before `j`, and not before `a`,
/// that is not white space (or `a`).
pub open spec fn back_white(s: Seq<char>, a: int, j: int) -> int
    decreases j - a,
{
    if a < j && j <= s.len() && white(s[j - 1]) {
        back_white(s, a, j - 1)
    } else {
        j
    }
}

/// The text without its leading and trailing white space.
pub open spec fn trim(s: Seq<char>) -> Seq<char> {
    let a = skip_white(s, 0);
    s.subrange(a, back_white(s, a, s.len() as int))
}

/// Whether `m` occurs in `s` starting at position `i`.
pub open spec fn occurs_at<A>(s: Seq<A>, m: Seq<A>, i: int) -> bool {
    0 <= i && i + m.len() <= s.len() && s.subrange(i, i + m.len()) == m
}

/// The first position at or after `i` where `m` occurs in `s`, if any.
pub open spec fn find_from<A>(s: Seq<A>, m: Seq<A>, i: int) -> Option<int>
    decreases s.len() + 1 - i,
{
    if i < 0 || i + m.len() > s.len() {
        None
    } else if occurs_at(s, m, i) {
        Some(i)
    } else {
        find_from(s, m, i + 1)
    }
}

/// The text up to the first occurrence of the marker, or all of it.
pub open spec fn cut_at(s: Seq<char>, m: Seq<char>) -> Seq<char> {
    match find_from(s, m, 0) {
        Some(i) => s.subrange(0, i),
        None => s,
    }
}

/// A line with its trailing comment removed (when a marker is given) and then trimmed.
pub open spec fn stripped(s: Seq<char>, marker: Option<Seq<char>>) -> Seq<char> {
    match marker {
        Some(m) => trim(cut_at(s, m)),
        None => trim(s),
    }
}

pub proof fn lemma_skip_white_bounds(s: Seq<char>, i: int)
    requires
        0 <= i <= s.len(),
    ensures
        i <= skip_white(s, i) <= s.len(),
        forall|k: int| i <= k < skip_white(s, i) ==> white(s[k]),
        skip_white(s, i) < s.len() ==> !white(s[skip_white(s, i)]),
    decreases s.len() - i,
{
    if i < s.len() && white(s[i]) {
        lemma_skip_white_bounds(s, i + 1);
    }
}

proof fn lemma_back_white_bounds(s: Seq<char>, a: int, j: int)
    requires
        0 <= a <= j <= s.len(),
    ensures
        a <= back_white(s, a, j) <= j,
        forall|k: int| back_white(s, a, j) <= k < j ==> white(s[k]),
        a < back_white(s, a, j) ==> !white(s[back_white(s, a, j) - 1]),
    decreases j - a,
{
    if a < j && white(s[j - 1]) {
        lemma_back_white_bounds(s, a, j - 1);
    }
}

/// Index of the first non-white character at or after `i`.
fn skip_white_exec(v: &Vec<char>, i: usize) -> (r: usize)
    requires
        i <= v.len(),
    ensures
        r == skip_white(v@, i as int),
{
    let mut k = i;
    while k < v.len() && is_white(v[k])
        invariant
            i <= k <= v.len(),
            skip_white(v@, k as int) == skip_white(v@, i as int),
        decreases v.len() - k,
    {
        k = k + 1;
    }
    k
}

/// The number of white-space characters that start `s`.
pub fn leading_white(s: &str) -> (r: usize)
    ensures
        r == skip_white(s@, 0),
        r <= s@.len(),
{
    let v = chars_of(s);
    proof { lemma_skip_white_bounds(v@, 0); }
    skip_white_exec(&v, 0)
}

/// The characters of `s` without leading and trailing white space.
pub fn trim_chars(v: &Vec<char>) -> (r: (usize, usize))
    ensures
        r.0 <= r.1 <= v.len(),
        v@.subrange(r.0 as int, r.1 as int) == trim(v@),
{
    let a = skip_white_exec(v, 0);
    proof { lemma_skip_white_bounds(v@, 0); }
    let mut b = v.len();
    while a < b && is_white(v[b - 1])
        invariant
            a <= b <= v.len(),
            back_white(v@, a as int, b as int) == back_white(v@, a as int, v.len() as int),
        decreases b - a,
    {
        b = b - 1;
    }
    (a, b)
}


/// Whether `m` occurs in `v` at position `i`.
fn occurs_at_exec(v: &Vec<char>, m: &Vec<char>, i: usize) -> (r: bool)
    ensures
        r == occurs_at(v@, m@, i as int),
{
    if i > v.len() || m.len() > v.len() - i {
        return false;
    }
    let mut k: usize = 0;
    while k < m.len()
        invariant
            k <= m.len(),
            i + m.len() <= v.len(),
            forall|j: int| 0 <= j < k ==> v@[i + j] == m@[j],
        decreases m.len() - k,
    {
        if v[i + k] != m[k] {
            assert(v@.subrange(i as int, i + m.len())[k as int] != m@[k as int]);
            return false;
        }
        k = k + 1;
    }
    assert(v@.subrange(i as int, i + m.len()) =~= m@);
    true
}

/// The first position where `m` occurs in `v`.
pub fn find_chars(v: &Vec<char>, m: &Vec<char>) -> (r: Option<usize>)
    ensures
        r matches Some(i) ==> find_from(v@, m@, 0) == Some(i as int),
        r is None ==> find_from(v@, m@, 0) is None,
{
    if m.len() > v.len() {
        return None;
    }
    let last = v.len() - m.len();
    let mut i: usize = 0;
    while i <= last
        invariant
            last + m.len() == v.len(),
            i <= last + 1,
            find_from(v@, m@, i as int) == find_from(v@, m@, 0),
        decreases last + 1 - i,
    {
        if occurs_at_exec(v, m, i) {
            return Some(i);
        }
        if i == last {
            assert(find_from(v@, m@, i as int + 1) is None);
            return None;
        }
        i = i + 1;
    }
    None
}

/// The view of an optional marker.
pub open spec fn marker_view(m: Option<&str>) -> Option<Seq<char>> {
    match m {
        Some(s) => Some(s@),
        None => None,
    }
}

/// Removes the trailing comment that starts at the first occurrence of the
/// marker (when one is given), then the leading and trailing white space.
pub fn pre_parse(line: String, comment: Option<&str>) -> (r: String)
    ensures
        r@ == stripped(line@, marker_view(comment)),
{
    let v = chars_of(line.as_str());
    let end: usize = match comment {
        Some(m) => {
            let mv = chars_of(m);
            match find_chars(&v, &mv) {
                Some(i) => {
                    proof { lemma_find_bounds(v@, mv@, 0); }
                    i
                },
                None => v.len(),
            }
        },
        None => v.len(),
    };
    let cut: &str = line.as_str().substring_char(0, end);
    let cv = chars_of(cut);
    let (a, b) = trim_chars(&cv);
    let t: &str = cut.substring_char(a, b);
    proof {
        if let Some(m) = comment {
            assert(cut@ =~= cut_at(line@, m@));
        } else {
            assert(cut@ =~= line@);
        }
    }
    t.to_owned()
}

pub proof fn lemma_find_bounds(s: Seq<char>, m: Seq<char>, i: int)
    requires
        0 <= i,
    ensures
        find_from(s, m, i) matches Some(k) ==> i <= k && occurs_at(s, m, k)
            && k + m.len() <= s.len(),
        find_from(s, m, i) matches Some(k) ==> forall|j: int| i <= j < k ==> !occurs_at(s, m, j),
        find_from(s, m, i) is None ==> forall|j: int| i <= j ==> !occurs_at(s, m, j),
    decreases s.len() + 1 - i,
{
    if i < 0 || i + m.len() > s.len() {
    } else if occurs_at(s, m, i) {
    } else {
        lemma_find_bounds(s, m, i + 1);
    }
}


/// The white-space separated words of `s`, in order: maximal runs of
/// characters that are not white space.
pub open spec fn words(s: Seq<char>) -> Seq<Seq<char>>
    decreases s.len(),
{
    if s.len() == 0 {
        seq![]
    } else {
        let w = words(s.drop_last());
        let c = s.last();
        if white(c) {
            w
        } else if s.len() >= 2 && !white(s[s.len() - 2]) && w.len() > 0 {
            w.update(w.len() - 1, w.last().push(c))
        } else {
            w.push(seq![c])
        }
    }
}

/// The texts held by a sequence of strings.
pub open spec fn views(v: Seq<String>) -> Seq<Seq<char>> {
    v.map_values(|t: String| t@)
}

/// Splits a text into its white-space separated tokens.
pub fn split_tokens(s: &str) -> (r: Vec<String>)
    ensures
        views(r@) == words(s@),
{
    let v = chars_of(s);
    let mut toks: Vec<String> = Vec::new();
    let mut start: usize = 0;
    let mut in_word = false;
    let mut i: usize = 0;
    assert(v@.subrange(0, 0) =~= Seq::<char>::empty());
    while i < v.len()
        invariant
            v@ == s@,
            i <= v.len(),
            in_word ==> start < i,
            in_word ==> forall|k: int| start <= k < i ==> !white(v@[k]),
            in_word ==> words(v@.subrange(0, i as int)) == views(toks@).push(
                v@.subrange(start as int, i as int),
            ),
            !in_word ==> words(v@.subrange(0, i as int)) == views(toks@),
            !in_word && i > 0 ==> white(v@[i - 1]),
        decreases v.len() - i,
    {
        let c = v[i];
        let pre = Ghost(v@.subrange(0, i as int));
        assert(v@.subrange(0, i + 1).drop_last() =~= pre@);
        assert(v@.subrange(0, i + 1).last() == c);
        if is_white(c) {
            if in_word {
                let t = s.substring_char(start, i);
                let ghost old_toks = toks@;
                toks.push(t.to_owned());
                assert(views(toks@) =~= views(old_toks).push(v@.subrange(start as int, i as int)));
                in_word = false;
            }
        } else {
            if in_word {
                assert(v@.subrange(start as int, i + 1) =~= v@.subrange(start as int, i as int).push(c));
                let ghost w = words(pre@);
                assert(w.len() > 0);
                assert(w.update(w.len() - 1, w.last().push(c)) =~= views(toks@).push(
                    v@.subrange(start as int, i + 1),
                ));
            } else {
                assert(v@.subrange(i as int, i + 1) =~= seq![c]);
                start = i;
                in_word = true;
            }
        }
        i = i + 1;
    }
    assert(v@.subrange(0, v.len() as int) =~= v@);
    if in_word {
        let t = s.substring_char(start, v.len());
        let ghost old_toks = toks@;
        toks.push(t.to_owned());
        assert(views(toks@) =~= views(old_toks).push(v@.subrange(start as int, v.len() as int)));
    }
    toks
}


/// The character of a decimal digit.
pub open spec fn digit_char(d: nat) -> char {
    if d == 0 { '0' }
    else if d == 1 { '1' }
    else if d == 2 { '2' }
    else if d == 3 { '3' }
    else if d == 4 { '4' }
    else if d == 5 { '5' }
    else if d == 6 { '6' }
    else if d == 7 { '7' }
    else if d == 8 { '8' }
    else { '9' }
}

/// The decimal writing of a natural number, most significant digit first.
pub open spec fn decimal_of(n: nat) -> Seq<char>
    decreases n,
{
    if n < 10 {
        seq![digit_char(n)]
    } else {
        decimal_of(n / 10).push(digit_char(n % 10))
    }
}

fn digit_str(d: usize) -> (r: &'static str)
    requires
        d < 10,
    ensures
        r@ == seq![digit_char(d as nat)],
{
    if d == 0 {
        proof { reveal_strlit("0"); }
        "0"
    } else if d == 1 {
        proof { reveal_strlit("1"); }
        "1"
    } else if d == 2 {
        proof { reveal_strlit("2"); }
        "2"
    } else if d == 3 {
        proof { reveal_strlit("3"); }
        "3"
    } else if d == 4 {
        proof { reveal_strlit("4"); }
        "4"
    } else if d == 5 {
        proof { reveal_strlit("5"); }
        "5"
    } else if d == 6 {
        proof { reveal_strlit("6"); }
        "6"
    } else if d == 7 {
        proof { reveal_strlit("7"); }
        "7"
    } else if d == 8 {
        proof { reveal_strlit("8"); }
        "8"
    } else {
        proof { reveal_strlit("9"); }
        "9"
    }
}

/// The decimal writing of `n`.
pub fn decimal(n: usize) -> (r: String)
    ensures
        r@ == decimal_of(n as nat),
    decreases n,
{
    if n < 10 {
        digit_str(n).to_owned()
    } else {
        let mut r = decimal(n / 10);
        r.append(digit_str(n % 10));
        r
    }
}



/// Whether two texts are the same.
pub fn text_eq(a: &str, b: &str) -> (r: bool)
    ensures
        r == (a@ == b@),
{
    let x = chars_of(a);
    let y = chars_of(b);
    if x.len() != y.len() {
        return false;
    }
    let mut i: usize = 0;
    while i < x.len()
        invariant
            x@ == a@,
            y@ == b@,
            x@.len() == y@.len(),
            i <= x@.len(),
            forall|j: int| 0 <= j < i ==> x@[j] == y@[j],
        decreases x@.len() - i,
    {
        if x[i] != y[i] {
            return false;
        }
        i = i + 1;
    }
    assert(x@ =~= y@);
    true
}


proof fn lemma_trim_parts(s: Seq<char>)
    ensures
        ({
            let a = skip_white(s, 0);
            let b = back_white(s, a, s.len() as int);
            &&& 0 <= a <= b <= s.len()
            &&& trim(s) == s.subrange(a, b)
            &&& a < b ==> !white(s[a]) && !white(s[b - 1])
        }),
{
    lemma_skip_white_bounds(s, 0);
    let a = skip_white(s, 0);
    lemma_back_white_bounds(s, a, s.len() as int);
    let b = back_white(s, a, s.len() as int);
    if a < b && a < s.len() {
    }
}

/// Trimming a trimmed text changes nothing.
pub proof fn lemma_trim_idempotent(s: Seq<char>)
    ensures
        trim(trim(s)) == trim(s),
{
    lemma_trim_parts(s);
    let t = trim(s);
    lemma_trim_parts(t);
    if t.len() > 0 {
        assert(skip_white(t, 0) == 0);
        lemma_back_white_bounds(t, 0, t.len() as int);
        assert(back_white(t, 0, t.len() as int) == t.len());
        assert(trim(t) =~= t);
    } else {
        assert(trim(t) =~= t);
    }
}

/// A text in which the marker does not occur is left whole by cutting at it.
proof fn lemma_cut_absent(s: Seq<char>, m: Seq<char>)
    requires
        forall|j: int| 0 <= j ==> !occurs_at(s, m, j),
    ensures
        cut_at(s, m) == s,
{
    lemma_find_bounds(s, m, 0);
    if let Some(k) = find_from(s, m, 0) {
        assert(occurs_at(s, m, k));
    }
}

proof fn lemma_sub_absent(s: Seq<char>, m: Seq<char>, a: int, b: int)
    requires
        0 <= a <= b <= s.len(),
        forall|j: int| 0 <= j ==> !occurs_at(s, m, j),
    ensures
        forall|j: int| 0 <= j ==> !occurs_at(s.subrange(a, b), m, j),
{
    assert forall|j: int| 0 <= j implies !occurs_at(s.subrange(a, b), m, j) by {
        if occurs_at(s.subrange(a, b), m, j) {
            assert(s.subrange(a, b).subrange(j, j + m.len()) =~= s.subrange(a + j, a + j + m.len()));
            assert(occurs_at(s, m, a + j));
        }
    }
}

/// After cutting at the first occurrence of a non-empty marker, the marker
/// no longer occurs.
proof fn lemma_cut_has_no_marker(s: Seq<char>, m: Seq<char>)
    requires
        m.len() > 0,
    ensures
        forall|j: int| 0 <= j ==> !occurs_at(cut_at(s, m), m, j),
{
    lemma_find_bounds(s, m, 0);
    match find_from(s, m, 0) {
        Some(k) => {
            assert forall|j: int| 0 <= j implies !occurs_at(cut_at(s, m), m, j) by {
                let c = s.subrange(0, k);
                if occurs_at(c, m, j) {
                    assert(c.subrange(j, j + m.len()) =~= s.subrange(j, j + m.len()));
                    assert(occurs_at(s, m, j));
                }
            }
        },
        None => {},
    }
}

/// Stripping is idempotent, and when the marker does not occur in a line
/// (or no marker is given) stripping only trims it.
pub proof fn lemma_strip_idempotent(s: Seq<char>, marker: Option<Seq<char>>)
    ensures
        stripped(stripped(s, marker), marker) == stripped(s, marker),
        marker is None ==> stripped(s, marker) == trim(s),
        marker matches Some(m) && (forall|j: int| 0 <= j ==> !occurs_at(s, m, j)) ==> stripped(
            s,
            marker,
        ) == trim(s),
{
    match marker {
        None => {
            lemma_trim_idempotent(s);
        },
        Some(m) => {
            let c = cut_at(s, m);
            lemma_trim_parts(c);
            lemma_trim_idempotent(c);
            if m.len() == 0 {
                assert(occurs_at(s, m, 0)) by {
                    assert(s.subrange(0, 0) =~= m);
                }
                assert(c =~= Seq::<char>::empty());
                let t = trim(c);
                assert(occurs_at(t, m, 0)) by {
                    assert(t.subrange(0, 0) =~= m);
                }
                assert(cut_at(t, m) =~= t);
            } else {
                lemma_cut_has_no_marker(s, m);
                let a = skip_white(c, 0);
                let b = back_white(c, a, c.len() as int);
                lemma_sub_absent(c, m, a, b);
                lemma_cut_absent(trim(c), m);
            }
            if forall|j: int| 0 <= j ==> !occurs_at(s, m, j) {
                lemma_cut_absent(s, m);
            }
        },
    }
}

} // verus!
