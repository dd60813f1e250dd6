//! What a validated file holds: the body tokens of each matched line.
use vstd::prelude::*;
use crate::text::views;

verus! {

/// The body tokens of one matched line and the line's index in the file.
#[derive(Debug, Clone, PartialEq)]
pub struct ParsedLine(pub Vec<String>, pub usize);

impl View for ParsedLine {
    type V = (Seq<Seq<char>>, nat);

    open spec fn view(&self) -> (Seq<Seq<char>>, nat) {
        (views(self.0@), self.1 as nat)
    }
}

impl ParsedLine {
    /// A matched line from its body tokens and its index.
    pub fn new(token: Vec<String>, line_index: usize) -> (r: Self)
        ensures
            r.0 == token,
            r.1 == line_index,
    {
        ParsedLine(token, line_index)
    }

    /// The token at `index`, if there is one.
    pub fn get(&self, index: usize) -> (r: Option<&String>)
        ensures
            index < self.0@.len() ==> r == Some(&self.0@[index as int]),
            index >= self.0@.len() ==> r is None,
    {
        if index < self.0.len() {
            Some(&self.0[index])
        } else {
            None
        }
    }

    /// Takes the token at `index`.
    pub fn take(self, index: usize) -> (r: String)
        requires
            index < self.0@.len(),
        ensures
            r == self.0@[index as int],
    {
        let mut v = self.0;
        v.remove(index)
    }
}

/// The matched lines of one keyword, in file order.
#[derive(Debug, Clone, PartialEq)]
pub struct FoundLine(pub Vec<ParsedLine>);

impl View for FoundLine {
    type V = Seq<(Seq<Seq<char>>, nat)>;

    open spec fn view(&self) -> Seq<(Seq<Seq<char>>, nat)> {
        self.0@.map_values(|p: ParsedLine| p@)
    }
}

impl FoundLine {
    /// No lines.
    pub fn new() -> (r: Self)
        ensures
            r.0@.len() == 0,
    {
        FoundLine(Vec::new())
    }

    /// Appends a matched line.
    pub fn push(&mut self, pl: ParsedLine)
        ensures
            final(self).0@ == old(self).0@.push(pl),
    {
        self.0.push(pl);
    }

    /// The number of lines.
    pub fn len(&self) -> (r: usize)
        ensures
            r == self.0@.len(),
    {
        self.0.len()
    }

    /// Whether there are no lines.
    pub fn is_empty(&self) -> (r: bool)
        ensures
            r == (self.0@.len() == 0),
    {
        self.0.len() == 0
    }

    /// The first line.
    pub fn get_once(&self) -> (r: &ParsedLine)
        requires
            self.0@.len() > 0,
        ensures
            *r == self.0@[0],
    {
        &self.0[0]
    }

    /// The first token of the first line.
    pub fn get_first_token(&self) -> (r: &String)
        requires
            self.0@.len() > 0,
            self.0@[0].0@.len() > 0,
        ensures
            *r == self.0@[0].0@[0],
    {
        &self.0[0].0[0]
    }

    /// Takes the first line.
    pub fn take_once(self) -> (r: ParsedLine)
        requires
            self.0@.len() > 0,
        ensures
            r == self.0@[0],
    {
        let mut v = self.0;
        v.remove(0)
    }

    /// Takes the first token of the first line.
    pub fn take_first_token(self) -> (r: String)
        requires
            self.0@.len() > 0,
            self.0@[0].0@.len() > 0,
        ensures
            r == self.0@[0].0@[0],
    {
        self.take_once().take(0)
    }
}

impl Default for FoundLine {
    fn default() -> (r: Self)
        ensures
            r.0@.len() == 0,
    {
        FoundLine::new()
    }
}

} // verus!
