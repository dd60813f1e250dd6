//! The schema: keywords, what each keyword's line must look like, and how
//! often it may appear.
use vstd::prelude::*;
use crate::diag::{bytes_of, ErrorKind, Line, ParseFileError, Wrong};
use crate::format::{size_accepts, size_text, Format};
use crate::occurrence::Occurrence;
use crate::text::{decimal, decimal_of, leading_white, skip_white, text_eq};

verus! {

/// A keyword and its description for users.
#[derive(Debug)]
pub struct Keyword {
    /// The token that starts the keyword's lines.
    pub keyword: String,
    /// What the keyword's lines define.
    pub desc: String,
}

impl Keyword {
    /// Declares a keyword.
    pub fn new(keyword: &str, desc: &str) -> (r: Self)
        ensures
            r.keyword@ == keyword@,
            r.desc@ == desc@,
    {
        Keyword { keyword: keyword.to_owned(), desc: desc.to_owned() }
    }
}

/// One entry of a schema: a keyword, its lines' format and its occurrence.
#[derive(Debug)]
pub struct ExpectedLine {
    /// The keyword.
    pub k: Keyword,
    /// The shape of each of its lines.
    pub format: Format,
    /// How many of its lines a file may have.
    pub occurrence: Occurrence,
}

/// The help text of a schema entry: what the keyword defines and the format
/// its lines follow.
pub open spec fn help_text(el: ExpectedLine) -> Seq<char> {
    el.k.keyword@ + " define "@ + el.k.desc@ + "\nthe line must follow the format: `"@
        + el.k.keyword@ + " "@ + el.format.token@ + "`"@
}

/// The headline of a format mismatch.
pub open spec fn mismatch_message(el: ExpectedLine, got: nat) -> Seq<char> {
    "expected "@ + size_text(el.format.size) + " token after "@ + el.k.keyword@ + ", got "@
        + decimal_of(got)
}

/// Where a line's body starts, in characters: just past the keyword, which
/// is the line's first token.
pub open spec fn keyword_end(raw: Seq<char>, kw_len: nat) -> int {
    let e = skip_white(raw, 0) + kw_len;
    if e <= raw.len() { e } else { raw.len() as int }
}

/// The body of a line as `(start, length)` in bytes: from the end of the
/// keyword to the end of the line.
pub open spec fn body_bit(raw: Seq<char>, kw_len: nat) -> (usize, usize) {
    let e = keyword_end(raw, kw_len);
    (
        bytes_of(raw.subrange(0, e)).len() as usize,
        bytes_of(raw.subrange(e, raw.len() as int)).len() as usize,
    )
}

/// Whether `e` is the format-mismatch diagnostic for `el` on the raw line
/// `raw` at `index` of `file`, whose body has `got` tokens.
pub open spec fn is_mismatch(
    e: ParseFileError,
    el: ExpectedLine,
    file: Seq<char>,
    raw: Seq<char>,
    index: usize,
    got: nat,
) -> bool {
    &&& e.kind == ErrorKind::FormatMismatch
    &&& e.error@ == mismatch_message(el, got)
    &&& e.help matches Some(h) && h@ == help_text(el)
    &&& e.file matches Some(f) && f@ == file
    &&& e.line matches Some(l) && l.line@ == raw && l.index == Some(index) && l.wrong@.len() == 1
        && l.wrong@[0] == Wrong::Bit(body_bit(raw, el.k.keyword@.len()))
    &&& e.source_file is None
    &&& e.suggestions@.len() == 0
    &&& e.source is None
}

/// The `(start, length)` bytes of a line's body.
fn body_span(raw: &str, kw_len: usize) -> (r: (usize, usize))
    ensures
        r == body_bit(raw@, kw_len as nat),
{
    let n = raw.unicode_len();
    let a = leading_white(raw);
    let e: usize = if kw_len <= n - a {
        a + kw_len
    } else {
        n
    };
    let head = raw.substring_char(0, e);
    let rest = raw.substring_char(e, n);
    (head.len(), rest.len())
}

impl ExpectedLine {
    /// Builds a schema entry.
    pub fn new(k: Keyword, format: Format, occurrence: Occurrence) -> (r: Self)
        ensures
            r.k == k,
            r.format == format,
            r.occurrence == occurrence,
    {
        ExpectedLine { k, format, occurrence }
    }

    /// What the keyword defines and the format its lines must follow.
    pub fn help(&self) -> (r: String)
        ensures
            r@ == help_text(*self),
    {
        self.k.keyword.as_str().to_owned().concat(" define ").concat(self.k.desc.as_str()).concat(
            "\nthe line must follow the format: `",
        ).concat(self.k.keyword.as_str()).concat(" ").concat(self.format.token.as_str()).concat(
            "`",
        )
    }

    /// Checks the body tokens of a line of this keyword; on a wrong count, the
    /// diagnostic highlights the body of the raw line.
    pub fn check(&self, file_name: &str, line: String, token: &Vec<String>, line_index: usize) -> (r:
        Result<(), ParseFileError>)
        ensures
            r is Ok <==> size_accepts(self.format.size, token@.len()),
            r matches Err(e) ==> is_mismatch(
                e,
                *self,
                file_name@,
                line@,
                line_index,
                token@.len(),
            ),
    {
        match self.format.check(token) {
            Ok(_) => Ok(()),
            Err((expected, got)) => {
                let error = "expected ".to_owned().concat(expected.as_str()).concat(
                    " token after ",
                ).concat(self.k.keyword.as_str()).concat(", got ").concat(decimal(got).as_str());
                let bit = body_span(line.as_str(), self.k.keyword.as_str().unicode_len());
                let mut wrong: Vec<Wrong> = Vec::new();
                wrong.push(Wrong::Bit(bit));
                Err(
                    ParseFileError {
                        kind: ErrorKind::FormatMismatch,
                        error,
                        help: Some(self.help()),
                        file: Some(file_name.to_owned()),
                        line: Some(Line::new(line, Some(line_index), wrong)),
                        source_file: None,
                        suggestions: Vec::new(),
                        source: None,
                    },
                )
            },
        }
    }
}


/// Whether no two entries of a schema share a keyword.
pub open spec fn unique_keywords(els: Seq<ExpectedLine>) -> bool {
    forall|i: int, j: int|
        0 <= i < j < els.len() ==> #[trigger] els[i].k.keyword@ != #[trigger] els[j].k.keyword@
}

/// The position of the entry for the keyword `w`.
pub open spec fn entry_of(els: Seq<ExpectedLine>, w: Seq<char>) -> Option<int> {
    if exists|i: int| 0 <= i < els.len() && #[trigger] els[i].k.keyword@ == w {
        Some(choose|i: int| 0 <= i < els.len() && #[trigger] els[i].k.keyword@ == w)
    } else {
        None
    }
}

/// A schema under construction: one entry per keyword, in the order the
/// keywords were first added.
pub struct Rule(pub Vec<ExpectedLine>);

impl Rule {
    /// Well formed: no keyword has two entries.
    pub open spec fn wf(&self) -> bool {
        unique_keywords(self.0@)
    }

    /// An empty schema.
    pub fn new() -> (r: Self)
        ensures
            r.wf(),
            r.0@.len() == 0,
    {
        Rule(Vec::new())
    }

    /// The index of the entry for `keyword`.
    fn find(&self, keyword: &str) -> (r: Option<usize>)
        requires
            self.wf(),
        ensures
            r matches Some(i) ==> i < self.0@.len() && entry_of(self.0@, keyword@) == Some(i as int),
            r is None ==> entry_of(self.0@, keyword@) is None,
    {
        let mut i: usize = 0;
        while i < self.0.len()
            invariant
                self.wf(),
                i <= self.0@.len(),
                forall|j: int| 0 <= j < i ==> #[trigger] self.0@[j].k.keyword@ != keyword@,
            decreases self.0@.len() - i,
        {
            if text_eq(self.0[i].k.keyword.as_str(), keyword) {
                let ghost w = keyword@;
                assert(self.0@[i as int].k.keyword@ == w);
                let ghost c = choose|j: int| 0 <= j < self.0@.len() && #[trigger] self.0@[j].k.keyword@ == w;
                assert(c == i as int) by {
                    if c < i {
                    } else if c > i {
                        assert(self.0@[i as int].k.keyword@ != self.0@[c].k.keyword@);
                    }
                }
                return Some(i);
            }
            i = i + 1;
        }
        None
    }

    /// Adds an entry; an entry with the same keyword is replaced.
    pub fn add(&mut self, el: ExpectedLine)
        requires
            old(self).wf(),
        ensures
            final(self).wf(),
            match entry_of(old(self).0@, el.k.keyword@) {
                Some(i) => final(self).0@ == old(self).0@.update(i, el),
                None => final(self).0@ == old(self).0@.push(el),
            },
    {
        match self.find(el.k.keyword.as_str()) {
            Some(i) => {
                self.0.set(i, el);
                assert(self.wf()) by {
                    assert forall|a: int, b: int|
                        0 <= a < b < self.0@.len() implies #[trigger] self.0@[a].k.keyword@
                        != #[trigger] self.0@[b].k.keyword@ by {
                        if a != i && b != i {
                            assert(old(self).0@[a].k.keyword@ != old(self).0@[b].k.keyword@);
                        } else if a == i {
                            assert(old(self).0@[a].k.keyword@ != old(self).0@[b].k.keyword@);
                        } else {
                            assert(old(self).0@[a].k.keyword@ != old(self).0@[b].k.keyword@);
                        }
                    }
                }
            },
            None => {
                let ghost w = el.k.keyword@;
                self.0.push(el);
                assert(self.wf()) by {
                    assert forall|a: int, b: int|
                        0 <= a < b < self.0@.len() implies #[trigger] self.0@[a].k.keyword@
                        != #[trigger] self.0@[b].k.keyword@ by {
                        if b == self.0@.len() - 1 {
                            assert(!(0 <= a < old(self).0@.len() && old(self).0@[a].k.keyword@ == w));
                        } else {
                            assert(old(self).0@[a].k.keyword@ != old(self).0@[b].k.keyword@);
                        }
                    }
                }
            },
        }
    }

    /// The entry of `keyword`, if there is one.
    pub fn get(&self, keyword: &str) -> (r: Option<&ExpectedLine>)
        requires
            self.wf(),
        ensures
            match entry_of(self.0@, keyword@) {
                Some(i) => r == Some(&self.0@[i]),
                None => r is None,
            },
    {
        match self.find(keyword) {
            Some(i) => Some(&self.0[i]),
            None => None,
        }
    }

    /// The declared keywords, in the order they were added.
    pub fn keywords(&self) -> (r: Vec<&Keyword>)
        ensures
            r@.len() == self.0@.len(),
            forall|i: int| 0 <= i < r@.len() ==> *r@[i] == self.0@[i].k,
    {
        let mut r: Vec<&Keyword> = Vec::new();
        let mut i: usize = 0;
        while i < self.0.len()
            invariant
                i <= self.0@.len(),
                r@.len() == i,
                forall|j: int| 0 <= j < i ==> *r@[j] == self.0@[j].k,
            decreases self.0@.len() - i,
        {
            r.push(&self.0[i].k);
            i = i + 1;
        }
        r
    }
}

impl Default for Rule {
    fn default() -> (r: Self)
        ensures
            r.wf(),
            r.0@.len() == 0,
    {
        Rule::new()
    }
}

} // verus!
