//! The expected shape of a line body: how many tokens follow the keyword.
use vstd::prelude::*;
use crate::text::{decimal, decimal_of, split_tokens, words};

verus! {

/// How the token count of a format is declared.
#[derive(Debug, Clone, Copy, PartialEq, Eq, Structural)]
pub enum ExpectedSize {
    /// As many tokens as the format's template has.
    Fixed,
    /// Any number of tokens.
    Undefined,
    /// Between the two bounds, both included.
    Range(usize, usize),
}

impl Default for ExpectedSize {
    fn default() -> (r: Self)
        ensures
            r == ExpectedSize::Fixed,
    {
        ExpectedSize::Fixed
    }
}

/// The accepted token counts of a line body.
#[derive(Debug, Clone, Copy, PartialEq, Eq, Structural)]
pub enum Size {
    /// Exactly this many tokens.
    Fixed(usize),
    /// Any number of tokens.
    Undefined,
    /// Between the two bounds, both included.
    Range(usize, usize),
}

/// Whether `n` tokens are accepted by `s`.
pub open spec fn size_accepts(s: Size, n: nat) -> bool {
    match s {
        Size::Fixed(k) => n == k,
        Size::Undefined => true,
        Size::Range(lo, hi) => lo <= n <= hi,
    }
}

/// The short description of a size: the count, `undefined`, or `min-max`.
pub open spec fn size_text(s: Size) -> Seq<char> {
    match s {
        Size::Fixed(k) => decimal_of(k as nat),
        Size::Undefined => "undefined"@,
        Size::Range(lo, hi) => decimal_of(lo as nat) + "-"@ + decimal_of(hi as nat),
    }
}

impl Size {
    /// Builds the size that a declaration gives to a template.
    pub open spec fn declared(e: ExpectedSize, template: Seq<char>) -> Size {
        match e {
            ExpectedSize::Fixed => Size::Fixed(words(template).len() as usize),
            ExpectedSize::Undefined => Size::Undefined,
            ExpectedSize::Range(lo, hi) => Size::Range(lo, hi),
        }
    }

    /// Whether `size` tokens are accepted.
    pub fn in_range(&self, size: usize) -> (r: bool)
        ensures
            r == size_accepts(*self, size as nat),
    {
        match self {
            Size::Fixed(expected) => size == *expected,
            Size::Undefined => true,
            Size::Range(min, max) => size >= *min && size <= *max,
        }
    }

    /// The short description of this size.
    pub fn to_string(&self) -> (r: String)
        ensures
            r@ == size_text(*self),
    {
        match self {
            Size::Fixed(expected) => decimal(*expected),
            Size::Undefined => {
                proof { reveal_strlit("undefined"); }
                "undefined".to_owned()
            },
            Size::Range(min, max) => {
                let mut r = decimal(*min);
                r.append("-");
                r.append(decimal(*max).as_str());
                r
            },
        }
    }

    /// Accepts `size` tokens, or gives the expected description and `size`.
    pub fn check(&self, size: usize) -> (r: Result<(), (String, usize)>)
        ensures
            r is Ok <==> size_accepts(*self, size as nat),
            r matches Err((d, n)) ==> d@ == size_text(*self) && n == size,
    {
        if self.in_range(size) {
            Ok(())
        } else {
            Err((self.to_string(), size))
        }
    }
}

/// The expected shape of a line body: a template and its accepted token count.
#[derive(Debug)]
pub struct Format {
    /// The template shown to users, such as `R G B`.
    pub token: String,
    /// The accepted token count.
    pub size: Size,
}

impl Format {
    /// Builds a format from its template; a fixed size counts the template's tokens.
    pub fn new(token: &str, expected_size: ExpectedSize) -> (r: Self)
        ensures
            r.token@ == token@,
            r.size == Size::declared(expected_size, token@),
    {
        let size = match expected_size {
            ExpectedSize::Fixed => {
                let t = split_tokens(token);
                proof { assert(t@.len() == crate::text::views(t@).len()); }
                Size::Fixed(t.len())
            },
            ExpectedSize::Undefined => Size::Undefined,
            ExpectedSize::Range(min, max) => Size::Range(min, max),
        };
        Format { token: token.to_owned(), size }
    }

    /// Checks the token count of a line body.
    pub fn check(&self, token: &Vec<String>) -> (r: Result<(), (String, usize)>)
        ensures
            r is Ok <==> size_accepts(self.size, token.len() as nat),
            r matches Err((d, n)) ==> d@ == size_text(self.size) && n == token.len(),
    {
        self.size.check(token.len())
    }
}

} // verus!
