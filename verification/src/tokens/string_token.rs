//! The text of a JSON string, with its escapes already resolved.

use vstd::prelude::*;

verus! {

/// `String::push` of the standard library. Taken on trust from its
/// documentation: the call appends `ch` to the end of `s` and changes nothing
/// else of it.
pub assume_specification[ std::string::String::push ](s: &mut std::string::String, ch: char)
    ensures
        final(s)@ == old(s)@.push(ch),
;

/// A decoded string: the characters between the quotes, each escape sequence
/// replaced by the character it stands for.
#[derive(Clone, Debug, PartialEq)]
pub struct StringToken {
    value: Vec<char>,
}

impl View for StringToken {
    type V = Seq<char>;

    closed spec fn view(&self) -> Seq<char> {
        self.value@
    }
}

impl StringToken {
    /// The empty string.
    pub fn new() -> (token: StringToken)
        ensures
            token@ == Seq::<char>::empty(),
    {
        StringToken { value: Vec::new() }
    }

    /// The token that holds the characters of `s`.
    pub fn from(s: &'static str) -> (token: StringToken)
        ensures
            token@ == s@,
    {
        let mut value: Vec<char> = Vec::new();
        for c in iter: s.chars()
            invariant
                iter.seq() == s@,
                value@ == iter.seq().take(iter.index()),
        {
            value.push(c);
            assert(value@ =~= iter.seq().take(iter.index() + 1));
        }
        assert(value@ =~= s@);
        StringToken { value }
    }

    /// The characters of the token as a `String`.
    pub fn as_string(self) -> (s: String)
        ensures
            s@ == self@,
    {
        let mut s = String::new();
        let mut i: usize = 0;
        while i < self.value.len()
            invariant
                i <= self.value@.len(),
                s@ == self.value@.take(i as int),
            decreases self.value@.len() - i,
        {
            s.push(self.value[i]);
            assert(s@ =~= self.value@.take(i + 1));
            i += 1;
        }
        assert(s@ =~= self.value@);
        s
    }

    /// Appends `c` and hands the token back, so that calls can be chained.
    pub fn add_char(&mut self, c: char) -> (token: &mut StringToken)
        ensures
            token@ == old(self)@.push(c),
            *final(self) == *final(token),
    {
        self.value.push(c);
        self
    }

    /// The number of characters in the token.
    pub fn len(&self) -> (n: usize)
        ensures
            n == self@.len(),
    {
        self.value.len()
    }
}

} // verus!
