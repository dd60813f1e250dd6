//! The keys offered by a terminal prompt.
use vstd::prelude::*;

verus! {

/// A key that a prompt accepts, with how to present it.
#[derive(Debug)]
pub struct AskKey {
    /// The key.
    pub key: char,
    /// What choosing it means.
    pub description: Option<String>,
    /// Whether the other letter case is accepted too.
    pub alt: bool,
    /// The escape sequence to show the key with.
    pub color: Option<String>,
}

/// The owned text of an optional text.
fn owned(s: Option<&str>) -> (r: Option<String>)
    ensures
        s is None <==> r is None,
        s matches Some(t) ==> r->0@ == t@,
{
    match s {
        Some(t) => Some(t.to_owned()),
        None => None,
    }
}

impl AskKey {
    /// Declares a key.
    pub fn new(key: char, description: Option<&str>, alt: bool, color: Option<&str>) -> (r: Self)
        ensures
            r.key == key,
            r.alt == alt,
            description is None <==> r.description is None,
            description matches Some(d) ==> r.description->0@ == d@,
            color is None <==> r.color is None,
            color matches Some(c) ==> r.color->0@ == c@,
    {
        AskKey { key, description: owned(description), alt, color: owned(color) }
    }
}

impl From<char> for AskKey {
    fn from(key: char) -> (r: Self) {
        AskKey { key, description: None, alt: true, color: None }
    }
}

impl vstd::std_specs::convert::FromSpecImpl<char> for AskKey {
    open spec fn obeys_from_spec() -> bool {
        true
    }

    open spec fn from_spec(key: char) -> Self {
        AskKey { key, description: None, alt: true, color: None }
    }
}

} // verus!
