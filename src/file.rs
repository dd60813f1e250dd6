//! Validating a whole file against a schema: per-line matching and shape
//! checks, then the per-keyword occurrence check.
use vstd::prelude::*;
use crate::diag::{bytes_of, ErrorKind, Line, ParseFileError, Wrong};
use crate::format::size_accepts;
use crate::line::{FoundLine, ParsedLine};
use crate::occurrence::{occurrence_accepts, occurrence_message, Occurrence};
use crate::rule::{help_text, is_mismatch, ExpectedLine, Keyword, Rule};
use crate::text::{
    cut_at, find_from, leading_white, lemma_find_bounds, lemma_skip_white_bounds, marker_view, occurs_at,
    pre_parse, skip_white, split_tokens, stripped, text_eq, trim, views, white, words,
};

verus! {

/// The lines found for one keyword, with the schema entry of that keyword.
#[derive(Debug)]
pub struct KeyData {
    /// The lines found so far.
    pub data: FoundLine,
    /// The schema entry.
    pub rule: ExpectedLine,
}

impl KeyData {
    /// Pairs found lines with their schema entry.
    pub fn new(data: FoundLine, rule: ExpectedLine) -> (r: Self)
        ensures
            r.data == data,
            r.rule == rule,
    {
        KeyData { data, rule }
    }
}

/// A schema with a table of found lines per keyword, in declaration order.
#[derive(Debug)]
pub struct FileData(pub Vec<KeyData>);

/// The schema entries of a table.
pub open spec fn schema_of(ks: Seq<KeyData>) -> Seq<ExpectedLine> {
    ks.map_values(|kd: KeyData| kd.rule)
}

/// The keywords of a schema.
pub open spec fn keywords_of(els: Seq<ExpectedLine>) -> Seq<Seq<char>> {
    els.map_values(|el: ExpectedLine| el.k.keyword@)
}

/// The first entry at or after `k` whose keyword is `w`.
pub open spec fn key_from(els: Seq<ExpectedLine>, w: Seq<char>, k: int) -> Option<int>
    decreases els.len() - k,
{
    if k < 0 || k >= els.len() {
        None
    } else if els[k].k.keyword@ == w {
        Some(k)
    } else {
        key_from(els, w, k + 1)
    }
}

/// The tokens of a raw line once its comment and surrounding white space are removed.
pub open spec fn line_tokens(raw: Seq<char>, marker: Option<Seq<char>>) -> Seq<Seq<char>> {
    words(stripped(raw, marker))
}

/// Whether a raw line is acceptable: blank, or a declared keyword followed
/// by a body of an accepted length.
pub open spec fn line_ok(els: Seq<ExpectedLine>, raw: Seq<char>, marker: Option<Seq<char>>) -> bool {
    let t = line_tokens(raw, marker);
    t.len() == 0 || (key_from(els, t[0], 0) matches Some(k) && size_accepts(
        els[k].format.size,
        (t.len() - 1) as nat,
    ))
}

/// Whether a raw line is one of the keyword at entry `k`.
pub open spec fn line_of(els: Seq<ExpectedLine>, raw: Seq<char>, marker: Option<Seq<char>>, k: int) -> bool {
    let t = line_tokens(raw, marker);
    t.len() > 0 && key_from(els, t[0], 0) == Some(k)
}

/// The entries that the first `n` lines give to the keyword at entry `k`:
/// body tokens and line index, in file order.
pub open spec fn entries(
    els: Seq<ExpectedLine>,
    lines: Seq<Seq<char>>,
    marker: Option<Seq<char>>,
    k: int,
    n: int,
) -> Seq<(Seq<Seq<char>>, nat)>
    decreases n,
{
    if n <= 0 {
        seq![]
    } else {
        let prev = entries(els, lines, marker, k, n - 1);
        if line_of(els, lines[n - 1], marker, k) {
            prev.push((line_tokens(lines[n - 1], marker).drop_first(), (n - 1) as nat))
        } else {
            prev
        }
    }
}

/// The first unacceptable line at or after `i`.
pub open spec fn first_bad(
    els: Seq<ExpectedLine>,
    lines: Seq<Seq<char>>,
    marker: Option<Seq<char>>,
    i: int,
) -> Option<int>
    decreases lines.len() - i,
{
    if i < 0 || i >= lines.len() {
        None
    } else if !line_ok(els, lines[i], marker) {
        Some(i)
    } else {
        first_bad(els, lines, marker, i + 1)
    }
}

/// The help listing of a schema's keywords, one `\t- keyword: description` per line.
pub open spec fn keyword_list(els: Seq<ExpectedLine>) -> Seq<char>
    decreases els.len(),
{
    if els.len() == 0 {
        seq![]
    } else {
        let item = "\t- "@ + els.last().k.keyword@ + ": "@ + els.last().k.desc@;
        if els.len() == 1 {
            item
        } else {
            keyword_list(els.drop_last()) + "\n"@ + item
        }
    }
}

/// The keyword of a line as `(start, length)` in bytes: the first token,
/// after the line's leading white space.
pub open spec fn keyword_bit(raw: Seq<char>, kw: Seq<char>) -> (usize, usize) {
    (bytes_of(raw.subrange(0, skip_white(raw, 0))).len() as usize, bytes_of(kw).len() as usize)
}

/// Whether `e` is the unknown-keyword diagnostic for the token `kw` that
/// starts the raw line `raw` at `index` of `file`.
pub open spec fn is_unknown(
    e: ParseFileError,
    els: Seq<ExpectedLine>,
    file: Seq<char>,
    raw: Seq<char>,
    index: usize,
    kw: Seq<char>,
) -> bool {
    &&& e.kind == ErrorKind::UnknownKeyword
    &&& e.error@ == "unsupported keyword "@ + kw
    &&& e.help matches Some(h) && h@ == "no rule for keyword "@ + kw
        + "\nhere is a list of valid keyword:\n"@ + keyword_list(els)
    &&& e.file matches Some(f) && f@ == file
    &&& e.line matches Some(l) && l.line@ == raw && l.index == Some(index) && l.wrong@.len() == 1
        && l.wrong@[0] == Wrong::Bit(keyword_bit(raw, kw))
    &&& e.source_file is None
    &&& views(e.suggestions@) == keywords_of(els)
    &&& e.source is None
}

/// Whether `e` is the diagnostic of the unacceptable raw line `raw` at `index`.
pub open spec fn is_line_error(
    e: ParseFileError,
    els: Seq<ExpectedLine>,
    file: Seq<char>,
    raw: Seq<char>,
    index: usize,
    marker: Option<Seq<char>>,
) -> bool {
    let t = line_tokens(raw, marker);
    match key_from(els, t[0], 0) {
        None => is_unknown(e, els, file, raw, index, t[0]),
        Some(k) => is_mismatch(e, els[k], file, raw, index, (t.len() - 1) as nat),
    }
}

proof fn lemma_key_from(els: Seq<ExpectedLine>, w: Seq<char>, k: int)
    requires
        0 <= k,
    ensures
        key_from(els, w, k) matches Some(j) ==> k <= j < els.len() && els[j].k.keyword@ == w,
        key_from(els, w, k) is None ==> forall|j: int| k <= j < els.len() ==> els[j].k.keyword@ != w,
    decreases els.len() - k,
{
    if k < els.len() && els[k].k.keyword@ != w {
        lemma_key_from(els, w, k + 1);
    }
}

impl FileData {
    /// A table from its entries.
    pub fn new(data: Vec<KeyData>) -> (r: Self)
        ensures
            r.0 == data,
    {
        FileData(data)
    }

    /// The keywords of the schema, in declaration order.
    pub fn keywords(&self) -> (r: Vec<&Keyword>)
        ensures
            r@.len() == self.0@.len(),
            forall|i: int| 0 <= i < r@.len() ==> *r@[i] == self.0@[i].rule.k,
    {
        let mut r: Vec<&Keyword> = Vec::new();
        let mut i: usize = 0;
        while i < self.0.len()
            invariant
                i <= self.0@.len(),
                r@.len() == i,
                forall|j: int| 0 <= j < i ==> *r@[j] == self.0@[j].rule.k,
            decreases self.0@.len() - i,
        {
            r.push(&self.0[i].rule.k);
            i = i + 1;
        }
        r
    }

    /// The entry of the keyword `w`, if the schema declares it.
    pub fn position(&self, w: &str) -> (r: Option<usize>)
        ensures
            r matches Some(k) ==> key_from(schema_of(self.0@), w@, 0) == Some(k as int),
            r is None ==> key_from(schema_of(self.0@), w@, 0) is None,
    {
        let ghost els = schema_of(self.0@);
        let mut k: usize = 0;
        while k < self.0.len()
            invariant
                els == schema_of(self.0@),
                k <= self.0@.len(),
                key_from(els, w@, k as int) == key_from(els, w@, 0),
            decreases self.0@.len() - k,
        {
            assert(els[k as int] == self.0@[k as int].rule);
            if text_eq(self.0[k].rule.k.keyword.as_str(), w) {
                return Some(k);
            }
            k = k + 1;
        }
        None
    }
}


/// The unknown-keyword diagnostic for the token `kw` that starts `raw`.
fn unknown_keyword(name: &str, data: &FileData, raw: String, i: usize, kw: String) -> (r:
    ParseFileError)
    ensures
        is_unknown(r, schema_of(data.0@), name@, raw@, i, kw@),
{
    let ghost els = schema_of(data.0@);
    let mut list = String::new();
    let mut suggestions: Vec<String> = Vec::new();
    let mut k: usize = 0;
    assert(els.subrange(0, 0) =~= Seq::<ExpectedLine>::empty());
    while k < data.0.len()
        invariant
            els == schema_of(data.0@),
            k <= data.0@.len(),
            list@ == keyword_list(els.subrange(0, k as int)),
            views(suggestions@) == keywords_of(els.subrange(0, k as int)),
        decreases data.0@.len() - k,
    {
        let el = &data.0[k].rule;
        assert(els.subrange(0, k + 1).drop_last() =~= els.subrange(0, k as int));
        assert(els.subrange(0, k + 1).last() == *el);
        let item = "\t- ".to_owned().concat(el.k.keyword.as_str()).concat(": ").concat(
            el.k.desc.as_str(),
        );
        if k == 0 {
            list = item;
        } else {
            list = list.concat("\n").concat(item.as_str());
        }
        let ghost old_s = suggestions@;
        suggestions.push(el.k.keyword.clone());
        assert(views(suggestions@) =~= views(old_s).push(el.k.keyword@));
        assert(keywords_of(els.subrange(0, k + 1)) =~= keywords_of(els.subrange(0, k as int)).push(
            el.k.keyword@,
        ));
        k = k + 1;
    }
    assert(els.subrange(0, data.0@.len() as int) =~= els);
    let help = "no rule for keyword ".to_owned().concat(kw.as_str()).concat(
        "\nhere is a list of valid keyword:\n",
    ).concat(list.as_str());
    let error = "unsupported keyword ".to_owned().concat(kw.as_str());
    let lead = leading_white(raw.as_str());
    let start = raw.as_str().substring_char(0, lead).len();
    let mut wrong: Vec<Wrong> = Vec::new();
    wrong.push(Wrong::Bit((start, kw.as_str().len())));
    ParseFileError {
        kind: ErrorKind::UnknownKeyword,
        error,
        help: Some(help),
        file: Some(name.to_owned()),
        line: Some(Line::new(raw, Some(i), wrong)),
        source_file: None,
        suggestions,
        source: None,
    }
}

/// Matches and checks one raw line: nothing for a blank line, the keyword's
/// entry and the line's body tokens for a good one, a diagnostic otherwise.
pub fn parse(name: &str, comment: Option<&str>, data: &FileData, line: &String, i: usize) -> (r:
    Result<Option<(usize, ParsedLine)>, ParseFileError>)
    ensures
        r is Ok <==> line_ok(schema_of(data.0@), line@, marker_view(comment)),
        r matches Ok(None) ==> line_tokens(line@, marker_view(comment)).len() == 0,
        r matches Ok(Some((k, pl))) ==> k < data.0@.len() && line_of(
            schema_of(data.0@),
            line@,
            marker_view(comment),
            k as int,
        ) && pl@ == (line_tokens(line@, marker_view(comment)).drop_first(), i as nat),
        r matches Err(e) ==> is_line_error(
            e,
            schema_of(data.0@),
            name@,
            line@,
            i,
            marker_view(comment),
        ),
{
    let ghost els = schema_of(data.0@);
    let ghost t = line_tokens(line@, marker_view(comment));
    let diluted = pre_parse(line.clone(), comment);
    let mut split = split_tokens(diluted.as_str());
    assert(views(split@) == t);
    if split.len() == 0 {
        return Ok(None);
    }
    let kw = split.remove(0);
    assert(views(split@) =~= t.drop_first());
    assert(kw@ == t[0]);
    match data.position(kw.as_str()) {
        None => Err(unknown_keyword(name, data, line.clone(), i, kw)),
        Some(k) => {
            proof { lemma_key_from(els, t[0], 0); }
            assert(els[k as int] == data.0@[k as int].rule);
            match data.0[k].rule.check(name, line.clone(), &split, i) {
                Ok(()) => Ok(Some((k, ParsedLine::new(split, i)))),
                Err(e) => Err(e),
            }
        },
    }
}


/// Whether `e` is the occurrence diagnostic for `el`, whose keyword appears
/// `count` times in `file`.
pub open spec fn is_violation(e: ParseFileError, el: ExpectedLine, file: Seq<char>, count: nat) -> bool {
    &&& e.kind == ErrorKind::OccurrenceViolation
    &&& e.error@ == el.k.keyword@ + " "@ + occurrence_message(el.occurrence, count)
    &&& e.help matches Some(h) && h@ == help_text(el)
    &&& e.file matches Some(f) && f@ == file
    &&& e.line is None
    &&& e.source_file is None
    &&& e.suggestions@.len() == 0
    &&& e.source is None
}

/// How many lines entry `k` of the table holds once the lines are scanned.
pub open spec fn count_after(
    ks: Seq<KeyData>,
    lines: Seq<Seq<char>>,
    marker: Option<Seq<char>>,
    k: int,
) -> nat {
    ks[k].data.0@.len() + entries(schema_of(ks), lines, marker, k, lines.len() as int).len()
}

/// The first entry at or after `k` whose count, once the lines are scanned,
/// its occurrence rejects.
pub open spec fn first_violation(
    ks: Seq<KeyData>,
    lines: Seq<Seq<char>>,
    marker: Option<Seq<char>>,
    k: int,
) -> Option<int>
    decreases ks.len() - k,
{
    if k < 0 || k >= ks.len() {
        None
    } else if !occurrence_accepts(ks[k].rule.occurrence, count_after(ks, lines, marker, k)) {
        Some(k)
    } else {
        first_violation(ks, lines, marker, k + 1)
    }
}

/// The occurrence diagnostic for an entry.
fn violation(name: &str, el: &ExpectedLine, count: usize, msg: String) -> (r: ParseFileError)
    requires
        msg@ == occurrence_message(el.occurrence, count as nat),
    ensures
        is_violation(r, *el, name@, count as nat),
{
    ParseFileError {
        kind: ErrorKind::OccurrenceViolation,
        error: el.k.keyword.as_str().to_owned().concat(" ").concat(msg.as_str()),
        help: Some(el.help()),
        file: Some(name.to_owned()),
        line: None,
        source_file: None,
        suggestions: Vec::new(),
        source: None,
    }
}

proof fn lemma_line_of_unique(
    els: Seq<ExpectedLine>,
    raw: Seq<char>,
    marker: Option<Seq<char>>,
    k: int,
    j: int,
)
    requires
        line_of(els, raw, marker, k),
        j != k,
    ensures
        !line_of(els, raw, marker, j),
{
}

/// Whether the table `ks` is `ks0` with the entries of all `lines` appended.
pub open spec fn filled(
    ks: Seq<KeyData>,
    ks0: Seq<KeyData>,
    lines: Seq<Seq<char>>,
    marker: Option<Seq<char>>,
) -> bool {
    &&& ks.len() == ks0.len()
    &&& forall|k: int|
        0 <= k < ks0.len() ==> #[trigger] ks[k].rule == ks0[k].rule && ks[k].data@ == ks0[k].data@
            + entries(schema_of(ks0), lines, marker, k, lines.len() as int)
}

/// A file validated against a schema: its name and the lines found per keyword.
#[derive(Debug)]
pub struct SpofedFile {
    /// The name of the file.
    pub path: String,
    /// The schema with the lines found for each keyword.
    pub data: FileData,
}

impl SpofedFile {
    /// Validates the lines of a file against the schema of `rule`: each
    /// non-blank line must start with a declared keyword and have a body of
    /// an accepted length, and then each keyword must appear as often as its
    /// occurrence accepts. Fails on the first bad line, or else on the first
    /// entry whose count is rejected; otherwise appends each line's body
    /// tokens and index to its keyword's entry, in file order.
    pub fn new(path: &str, lines: &Vec<String>, comment: Option<&str>, rule: FileData) -> (r:
        Result<SpofedFile, ParseFileError>)
        ensures
            match first_bad(schema_of(rule.0@), views(lines@), marker_view(comment), 0) {
                Some(i) => r matches Err(e) && is_line_error(
                    e,
                    schema_of(rule.0@),
                    path@,
                    lines@[i]@,
                    i as usize,
                    marker_view(comment),
                ),
                None => match first_violation(rule.0@, views(lines@), marker_view(comment), 0) {
                    Some(k) => r matches Err(e) && is_violation(
                        e,
                        rule.0@[k].rule,
                        path@,
                        count_after(rule.0@, views(lines@), marker_view(comment), k),
                    ),
                    None => r matches Ok(f) && f.path@ == path@ && filled(
                        f.data.0@,
                        rule.0@,
                        views(lines@),
                        marker_view(comment),
                    ),
                },
            },
    {
        let ghost els = schema_of(rule.0@);
        let ghost lv = views(lines@);
        let ghost m = marker_view(comment);
        let ghost ks0 = rule.0@;
        let mut data = rule;
        let mut i: usize = 0;
        while i < lines.len()
            invariant
                i <= lines@.len(),
                lv == views(lines@),
                m == marker_view(comment),
                ks0 == rule.0@,
                data.0@.len() == ks0.len(),
                els == schema_of(ks0),
                schema_of(data.0@) == els,
                first_bad(els, lv, m, i as int) == first_bad(els, lv, m, 0),
                forall|k: int|
                    0 <= k < ks0.len() ==> #[trigger] data.0@[k].data@ == ks0[k].data@ + entries(
                        els,
                        lv,
                        m,
                        k,
                        i as int,
                    ),
            decreases lines@.len() - i,
        {
            let res = parse(path, comment, &data, &lines[i], i);
            assert(lv[i as int] == lines@[i as int]@);
            let ghost fo = res;
            match res {
                Err(e) => {
                    assert(!line_ok(els, lv[i as int], m));
                    assert(first_bad(els, lv, m, i as int) == Some(i as int));
                    return Err(e);
                },
                Ok(found) => {
                    assert(line_ok(els, lv[i as int], m));
                    assert(first_bad(els, lv, m, i as int) == first_bad(els, lv, m, i + 1));
                    let ghost before = data.0@;
                    match found {
                        None => {},
                        Some((k, pl)) => {
                            let mut kd = data.0.remove(k);
                            kd.data.push(pl);
                            data.0.insert(k, kd);
                        },
                    }
                    assert(schema_of(data.0@) =~= els);
                    assert forall|k: int|
                        0 <= k < ks0.len() implies #[trigger] data.0@[k].data@ == ks0[k].data@
                        + entries(els, lv, m, k, i + 1) by {
                        if let Ok(Some((j, pl))) = fo {
                            assert(line_of(els, lv[i as int], m, j as int));
                            if k == j {
                                assert(data.0@[k].data@ =~= before[k].data@.push(pl@));
                            } else {
                                lemma_line_of_unique(els, lv[i as int], m, j as int, k);
                                assert(data.0@[k] == before[k]);
                            }
                        }
                    }
                },
            }
            i = i + 1;
        }
        let mut k: usize = 0;
        while k < data.0.len()
            invariant
                k <= data.0@.len(),
                i == lines@.len(),
                lv == views(lines@),
                m == marker_view(comment),
                ks0 == rule.0@,
                data.0@.len() == ks0.len(),
                els == schema_of(ks0),
                schema_of(data.0@) == els,
                first_bad(els, lv, m, 0) is None,
                first_violation(ks0, lv, m, k as int) == first_violation(ks0, lv, m, 0),
                forall|k: int|
                    0 <= k < ks0.len() ==> #[trigger] data.0@[k].data@ == ks0[k].data@ + entries(
                        els,
                        lv,
                        m,
                        k,
                        lines@.len() as int,
                    ),
            decreases data.0@.len() - k,
        {
            let el = &data.0[k].rule;
            let n = data.0[k].data.len();
            assert(els[k as int] == data.0@[k as int].rule);
            assert(ks0[k as int].rule == els[k as int]);
            assert(data.0@[k as int].data@.len() == data.0@[k as int].data.0@.len());
            assert(ks0[k as int].data@.len() == ks0[k as int].data.0@.len());
            assert(n == count_after(ks0, lv, m, k as int));
            match el.occurrence.check(n) {
                Ok(()) => {},
                Err(msg) => {
                    assert(first_violation(ks0, lv, m, k as int) == Some(k as int));
                    return Err(violation(path, el, n, msg));
                },
            }
            k = k + 1;
        }
        assert(first_violation(ks0, lv, m, k as int) is None);
        assert forall|k: int| 0 <= k < ks0.len() implies #[trigger] data.0@[k].rule == ks0[k].rule by {
            assert(schema_of(data.0@)[k] == schema_of(ks0)[k]);
        }
        assert(filled(data.0@, ks0, lv, m));
        Ok(SpofedFile { path: path.to_owned(), data })
    }
}


/// A blank line, or one whose tokens are all in a comment, is acceptable and
/// gives no entry to any keyword.
pub proof fn lemma_blank_line(els: Seq<ExpectedLine>, raw: Seq<char>, marker: Option<Seq<char>>)
    requires
        line_tokens(raw, marker).len() == 0,
    ensures
        line_ok(els, raw, marker),
        forall|k: int| !line_of(els, raw, marker, k),
{
}

proof fn lemma_skip_all_white(s: Seq<char>, i: int)
    requires
        0 <= i <= s.len(),
        forall|j: int| i <= j < s.len() ==> white(s[j]),
    ensures
        skip_white(s, i) == s.len(),
    decreases s.len() - i,
{
    if i < s.len() {
        lemma_skip_all_white(s, i + 1);
    }
}

/// A line whose first non-white text is the comment marker has no tokens.
pub proof fn lemma_comment_line_is_blank(raw: Seq<char>, m: Seq<char>)
    requires
        occurs_at(raw, m, skip_white(raw, 0)),
    ensures
        line_tokens(raw, Some(m)).len() == 0,
{
    lemma_skip_white_bounds(raw, 0);
    lemma_find_bounds(raw, m, 0);
    let k = find_from(raw, m, 0)->0;
    let c = raw.subrange(0, k);
    assert(cut_at(raw, m) == c);
    lemma_skip_all_white(c, 0);
    assert(trim(c) =~= Seq::<char>::empty());
    assert(words(Seq::<char>::empty()).len() == 0);
}

/// The entries that the first `n` lines give to the keyword at entry `k` are
/// exactly that keyword's lines among them, each with its body tokens, in
/// file order.
pub proof fn lemma_entries_in_file_order(
    els: Seq<ExpectedLine>,
    lines: Seq<Seq<char>>,
    marker: Option<Seq<char>>,
    k: int,
    n: int,
)
    requires
        0 <= n <= lines.len(),
    ensures
        forall|j: int|
            0 <= j < entries(els, lines, marker, k, n).len() ==> {
                let e = #[trigger] entries(els, lines, marker, k, n)[j];
                &&& e.1 < n
                &&& line_of(els, lines[e.1 as int], marker, k)
                &&& e.0 == line_tokens(lines[e.1 as int], marker).drop_first()
            },
        forall|j1: int, j2: int|
            0 <= j1 < j2 < entries(els, lines, marker, k, n).len() ==> (#[trigger] entries(
                els,
                lines,
                marker,
                k,
                n,
            )[j1]).1 < (#[trigger] entries(els, lines, marker, k, n)[j2]).1,
        forall|i: int|
            0 <= i < n && #[trigger] line_of(els, lines[i], marker, k) ==> exists|j: int|
                0 <= j < entries(els, lines, marker, k, n).len() && (#[trigger] entries(
                    els,
                    lines,
                    marker,
                    k,
                    n,
                )[j]).1 == i,
    decreases n,
{
    if n > 0 {
        lemma_entries_in_file_order(els, lines, marker, k, n - 1);
        let prev = entries(els, lines, marker, k, n - 1);
        let cur = entries(els, lines, marker, k, n);
        if line_of(els, lines[n - 1], marker, k) {
            assert(cur == prev.push((line_tokens(lines[n - 1], marker).drop_first(), (n - 1) as nat)));
            assert forall|i: int|
                0 <= i < n && #[trigger] line_of(els, lines[i], marker, k) implies exists|j: int|
                0 <= j < cur.len() && (#[trigger] cur[j]).1 == i by {
                if i == n - 1 {
                    assert(cur[prev.len() as int].1 == i);
                } else {
                    let j = choose|j: int| 0 <= j < prev.len() && (#[trigger] prev[j]).1 == i;
                    assert(cur[j] == prev[j]);
                }
            }
        } else {
            assert(cur == prev);
        }
    }
}

/// A file is valid for a table when every line is acceptable and, once
/// scanned, every keyword's count is accepted by its occurrence.
pub open spec fn valid_file(ks: Seq<KeyData>, lines: Seq<Seq<char>>, marker: Option<Seq<char>>) -> bool {
    &&& forall|i: int| 0 <= i < lines.len() ==> line_ok(schema_of(ks), #[trigger] lines[i], marker)
    &&& forall|k: int|
        0 <= k < ks.len() ==> occurrence_accepts(
            ks[k].rule.occurrence,
            #[trigger] count_after(ks, lines, marker, k),
        )
}

proof fn lemma_no_bad(els: Seq<ExpectedLine>, lines: Seq<Seq<char>>, marker: Option<Seq<char>>, i: int)
    requires
        0 <= i,
        forall|j: int| 0 <= j < lines.len() ==> line_ok(els, #[trigger] lines[j], marker),
    ensures
        first_bad(els, lines, marker, i) is None,
    decreases lines.len() - i,
{
    if i < lines.len() {
        lemma_no_bad(els, lines, marker, i + 1);
    }
}

proof fn lemma_no_violation(ks: Seq<KeyData>, lines: Seq<Seq<char>>, marker: Option<Seq<char>>, k: int)
    requires
        0 <= k,
        valid_file(ks, lines, marker),
    ensures
        first_violation(ks, lines, marker, k) is None,
    decreases ks.len() - k,
{
    if k < ks.len() {
        lemma_no_violation(ks, lines, marker, k + 1);
    }
}

/// A valid file is accepted: validation reports no bad line and no rejected
/// count, so it succeeds and fills each keyword's entry (empty beforehand)
/// with exactly that keyword's lines, in file order.
pub proof fn lemma_valid_file_accepted(ks: Seq<KeyData>, lines: Seq<Seq<char>>, marker: Option<Seq<char>>)
    requires
        valid_file(ks, lines, marker),
    ensures
        first_bad(schema_of(ks), lines, marker, 0) is None,
        first_violation(ks, lines, marker, 0) is None,
        forall|k: int|
            0 <= k < ks.len() && ks[k].data.0@.len() == 0 ==> #[trigger] count_after(
                ks,
                lines,
                marker,
                k,
            ) == entries(schema_of(ks), lines, marker, k, lines.len() as int).len(),
{
    lemma_no_bad(schema_of(ks), lines, marker, 0);
    lemma_no_violation(ks, lines, marker, 0);
}


impl FileData {
    /// A table for a schema: each entry of the schema, in order, with no lines yet.
    pub fn from_rule(rule: Rule) -> (r: Self)
        ensures
            schema_of(r.0@) == rule.0@,
            forall|k: int| 0 <= k < r.0@.len() ==> (#[trigger] r.0@[k]).data.0@.len() == 0,
    {
        let mut els = rule.0;
        let ghost all = els@;
        let mut data: Vec<KeyData> = Vec::new();
        while els.len() > 0
            invariant
                all == schema_of(data@) + els@,
                forall|k: int| 0 <= k < data@.len() ==> (#[trigger] data@[k]).data.0@.len() == 0,
            decreases els@.len(),
        {
            let el = els.remove(0);
            let ghost before = data@;
            data.push(KeyData::new(FoundLine::new(), el));
            assert(schema_of(data@) =~= schema_of(before).push(el));
            assert(all =~= schema_of(data@) + els@);
        }
        assert(all =~= schema_of(data@));
        FileData(data)
    }
}

/// Whether a raw line holds the keyword of `el` with a body of a length
/// that its format rejects.
pub open spec fn misfit(el: ExpectedLine, raw: Seq<char>) -> bool {
    line_of(seq![el], raw, None, 0) && !size_accepts(
        el.format.size,
        (line_tokens(raw, None).len() - 1) as nat,
    )
}

/// The first line at or after `i` that holds the keyword of `el` with a
/// rejected body length.
pub open spec fn first_misfit(el: ExpectedLine, lines: Seq<Seq<char>>, i: int) -> Option<int>
    decreases lines.len() - i,
{
    if i < 0 || i >= lines.len() {
        None
    } else if misfit(el, lines[i]) {
        Some(i)
    } else {
        first_misfit(el, lines, i + 1)
    }
}

/// Collects the lines of one keyword from lines already free of comments,
/// checking each one's body length and then the number of lines.
pub fn get_line(name: &str, lines: &Vec<String>, el: &ExpectedLine) -> (r: Result<
    Vec<ParsedLine>,
    ParseFileError,
>)
    ensures
        match first_misfit(*el, views(lines@), 0) {
            Some(i) => r matches Err(e) && is_mismatch(
                e,
                *el,
                name@,
                lines@[i]@,
                i as usize,
                (line_tokens(lines@[i]@, None).len() - 1) as nat,
            ),
            None => if occurrence_accepts(
                el.occurrence,
                entries(seq![*el], views(lines@), None, 0, lines@.len() as int).len(),
            ) {
                r matches Ok(v) && v@.map_values(|p: ParsedLine| p@) == entries(
                    seq![*el],
                    views(lines@),
                    None,
                    0,
                    lines@.len() as int,
                )
            } else {
                r matches Err(e) && is_violation(
                    e,
                    *el,
                    name@,
                    entries(seq![*el], views(lines@), None, 0, lines@.len() as int).len(),
                )
            },
        },
{
    let ghost els = seq![*el];
    let ghost lv = views(lines@);
    let mut ret: Vec<ParsedLine> = Vec::new();
    let mut i: usize = 0;
    while i < lines.len()
        invariant
            i <= lines@.len(),
            els == seq![*el],
            lv == views(lines@),
            first_misfit(*el, lv, i as int) == first_misfit(*el, lv, 0),
            ret@.map_values(|p: ParsedLine| p@) == entries(els, lv, None, 0, i as int),
        decreases lines@.len() - i,
    {
        let ghost raw = lv[i as int];
        let ghost t = line_tokens(raw, None);
        assert(raw == lines@[i as int]@);
        let diluted = pre_parse(lines[i].clone(), None);
        let mut split = split_tokens(diluted.as_str());
        assert(views(split@) == t);
        let ghost before = ret@.map_values(|p: ParsedLine| p@);
        if split.len() > 0 {
            let kw = split.remove(0);
            assert(views(split@) =~= t.drop_first());
            assert(key_from(els, t[0], 1) is None);
            if text_eq(kw.as_str(), el.k.keyword.as_str()) {
                assert(line_of(els, raw, None, 0));
                match el.check(name, lines[i].clone(), &split, i) {
                    Ok(()) => {
                        ret.push(ParsedLine::new(split, i));
                        assert(ret@.map_values(|p: ParsedLine| p@) =~= before.push(
                            (t.drop_first(), i as nat),
                        ));
                    },
                    Err(e) => {
                        assert(first_misfit(*el, lv, i as int) == Some(i as int));
                        return Err(e);
                    },
                }
            } else {
                assert(!line_of(els, raw, None, 0));
            }
        }
        i = i + 1;
    }
    let n = ret.len();
    assert(ret@.map_values(|p: ParsedLine| p@).len() == n);
    match el.occurrence.check(n) {
        Ok(()) => Ok(ret),
        Err(msg) => Err(violation(name, el, n, msg)),
    }
}


/// A type whose values name the entries of one schema, such as an enum with
/// one variant per keyword.
pub trait FileDataKey: Sized {
    /// The position of this key's entry in the schema.
    spec fn key_index(&self) -> usize;

    /// The schema, with its entries in the order that `index` gives.
    fn build() -> FileData;

    /// The position of this key's entry in the schema.
    fn index(&self) -> (r: usize)
        ensures
            r == self.key_index(),
    ;
}

impl SpofedFile {
    /// The entry that `key` names, if the table has that position.
    pub fn entry<K: FileDataKey>(&self, key: &K) -> (r: Option<&KeyData>)
        ensures
            key.key_index() < self.data.0@.len() ==> r == Some(
                &self.data.0@[key.key_index() as int],
            ),
            key.key_index() >= self.data.0@.len() ==> r is None,
    {
        let i = key.index();
        if i < self.data.0.len() {
            Some(&self.data.0[i])
        } else {
            None
        }
    }

    /// The name of the file.
    pub fn name(&self) -> (r: String)
        ensures
            r == self.path,
    {
        self.path.clone()
    }

    /// The lines found for `keyword` with its schema entry, if the schema declares it.
    pub fn get(&self, keyword: &str) -> (r: Option<&KeyData>)
        ensures
            match key_from(schema_of(self.data.0@), keyword@, 0) {
                Some(k) => r == Some(&self.data.0@[k]),
                None => r is None,
            },
    {
        match self.data.position(keyword) {
            Some(k) => {
                proof { lemma_key_from(schema_of(self.data.0@), keyword@, 0); }
                Some(&self.data.0[k])
            },
            None => None,
        }
    }
}


proof fn lemma_entries_same_prefix(
    els: Seq<ExpectedLine>,
    a: Seq<Seq<char>>,
    b: Seq<Seq<char>>,
    marker: Option<Seq<char>>,
    k: int,
    n: int,
)
    requires
        0 <= n <= a.len(),
        n <= b.len(),
        forall|i: int| 0 <= i < n ==> a[i] == b[i],
    ensures
        entries(els, a, marker, k, n) == entries(els, b, marker, k, n),
    decreases n,
{
    if n > 0 {
        lemma_entries_same_prefix(els, a, b, marker, k, n - 1);
    }
}

proof fn lemma_entries_blank_lines(
    els: Seq<ExpectedLine>,
    l: Seq<Seq<char>>,
    marker: Option<Seq<char>>,
    k: int,
    n1: int,
    n: int,
)
    requires
        0 <= n1 <= n <= l.len(),
        forall|j: int| n1 <= j < l.len() ==> line_tokens(#[trigger] l[j], marker).len() == 0,
    ensures
        entries(els, l, marker, k, n) == entries(els, l, marker, k, n1),
    decreases n,
{
    if n > n1 {
        lemma_entries_blank_lines(els, l, marker, k, n1, n - 1);
        assert(line_tokens(l[n - 1], marker).len() == 0);
    }
}

proof fn lemma_no_bad_in_blank(els: Seq<ExpectedLine>, l: Seq<Seq<char>>, marker: Option<Seq<char>>, i: int)
    requires
        0 <= i,
        forall|j: int| i <= j < l.len() ==> line_tokens(#[trigger] l[j], marker).len() == 0,
    ensures
        first_bad(els, l, marker, i) is None,
    decreases l.len() - i,
{
    if i < l.len() {
        assert(line_tokens(l[i], marker).len() == 0);
        lemma_no_bad_in_blank(els, l, marker, i + 1);
    }
}

proof fn lemma_first_bad_blank_tail(
    els: Seq<ExpectedLine>,
    l1: Seq<Seq<char>>,
    blank: Seq<Seq<char>>,
    marker: Option<Seq<char>>,
    i: int,
)
    requires
        0 <= i <= l1.len(),
        forall|j: int| 0 <= j < blank.len() ==> line_tokens(#[trigger] blank[j], marker).len() == 0,
    ensures
        first_bad(els, l1 + blank, marker, i) == first_bad(els, l1, marker, i),
    decreases l1.len() - i,
{
    let l2 = l1 + blank;
    if i < l1.len() {
        assert(l2[i] == l1[i]);
        lemma_first_bad_blank_tail(els, l1, blank, marker, i + 1);
    } else {
        assert forall|j: int| i <= j < l2.len() implies line_tokens(#[trigger] l2[j], marker).len()
            == 0 by {
            assert(l2[j] == blank[j - l1.len()]);
        }
        lemma_no_bad_in_blank(els, l2, marker, i);
    }
}

proof fn lemma_first_violation_same_counts(
    ks: Seq<KeyData>,
    a: Seq<Seq<char>>,
    b: Seq<Seq<char>>,
    marker: Option<Seq<char>>,
    k: int,
)
    requires
        0 <= k,
        forall|j: int| 0 <= j < ks.len() ==> #[trigger] count_after(ks, a, marker, j) == count_after(ks, b, marker, j),
    ensures
        first_violation(ks, a, marker, k) == first_violation(ks, b, marker, k),
    decreases ks.len() - k,
{
    if k < ks.len() {
        assert(count_after(ks, a, marker, k) == count_after(ks, b, marker, k));
        lemma_first_violation_same_counts(ks, a, b, marker, k + 1);
    }
}

/// Appending blank or fully commented lines to a file changes nothing:
/// the same first bad line, the same entries for every keyword, the same
/// counts and the same first rejected count, so validation gives the same
/// result.
pub proof fn lemma_blank_lines_appended(
    ks: Seq<KeyData>,
    lines: Seq<Seq<char>>,
    blank: Seq<Seq<char>>,
    marker: Option<Seq<char>>,
)
    requires
        forall|j: int| 0 <= j < blank.len() ==> line_tokens(#[trigger] blank[j], marker).len() == 0,
    ensures
        first_bad(schema_of(ks), lines + blank, marker, 0) == first_bad(schema_of(ks), lines, marker, 0),
        forall|k: int|
            #[trigger] entries(schema_of(ks), lines + blank, marker, k, (lines + blank).len() as int)
                == entries(schema_of(ks), lines, marker, k, lines.len() as int),
        forall|k: int|
            0 <= k < ks.len() ==> #[trigger] count_after(ks, lines + blank, marker, k) == count_after(
                ks,
                lines,
                marker,
                k,
            ),
        first_violation(ks, lines + blank, marker, 0) == first_violation(ks, lines, marker, 0),
{
    let els = schema_of(ks);
    let l2 = lines + blank;
    lemma_first_bad_blank_tail(els, lines, blank, marker, 0);
    assert forall|j: int| lines.len() <= j < l2.len() implies line_tokens(#[trigger] l2[j], marker).len()
        == 0 by {
        assert(l2[j] == blank[j - lines.len()]);
    }
    assert forall|k: int|
        #[trigger] entries(els, l2, marker, k, l2.len() as int) == entries(
            els,
            lines,
            marker,
            k,
            lines.len() as int,
        ) by {
        lemma_entries_blank_lines(els, l2, marker, k, lines.len() as int, l2.len() as int);
        lemma_entries_same_prefix(els, lines, l2, marker, k, lines.len() as int);
    }
    assert forall|k: int| 0 <= k < ks.len() implies #[trigger] count_after(ks, l2, marker, k)
        == count_after(ks, lines, marker, k) by {
        assert(entries(els, l2, marker, k, l2.len() as int) == entries(
            els,
            lines,
            marker,
            k,
            lines.len() as int,
        ));
    }
    lemma_first_violation_same_counts(ks, l2, lines, marker, 0);
}

proof fn lemma_violation_by(ks: Seq<KeyData>, lines: Seq<Seq<char>>, marker: Option<Seq<char>>, i: int, k: int)
    requires
        0 <= i <= k < ks.len(),
        !occurrence_accepts(ks[k].rule.occurrence, count_after(ks, lines, marker, k)),
    ensures
        first_violation(ks, lines, marker, i) matches Some(j) && i <= j <= k,
        (forall|j: int|
            i <= j < k ==> occurrence_accepts(ks[j].rule.occurrence, #[trigger] count_after(ks, lines, marker, j)))
            ==> first_violation(ks, lines, marker, i) == Some(k),
    decreases k - i,
{
    if i < k {
        lemma_violation_by(ks, lines, marker, i + 1, k);
    }
}

/// A keyword declared `Once` whose lines, in a file whose lines are all
/// acceptable, number other than one makes validation fail on occurrences:
/// at that keyword, or at an earlier entry whose count is rejected too.
pub proof fn lemma_once_rejects_other_counts(
    ks: Seq<KeyData>,
    lines: Seq<Seq<char>>,
    marker: Option<Seq<char>>,
    k: int,
)
    requires
        0 <= k < ks.len(),
        ks[k].rule.occurrence == Occurrence::Once,
        count_after(ks, lines, marker, k) != 1,
        forall|i: int| 0 <= i < lines.len() ==> line_ok(schema_of(ks), #[trigger] lines[i], marker),
    ensures
        first_bad(schema_of(ks), lines, marker, 0) is None,
        first_violation(ks, lines, marker, 0) matches Some(j) && j <= k,
        (forall|j: int|
            0 <= j < k ==> occurrence_accepts(ks[j].rule.occurrence, #[trigger] count_after(ks, lines, marker, j)))
            ==> first_violation(ks, lines, marker, 0) == Some(k),
{
    lemma_no_bad(schema_of(ks), lines, marker, 0);
    lemma_violation_by(ks, lines, marker, 0, k);
}

} // verus!
