//! Byte patterns compiled into byte-level regular expressions.
//!
//! A pattern is handed to the regex engine as a sequence of `\xHH` escapes, one
//! per byte, so that any byte value can be searched for.
use crate::error::ErrorKind;
use crate::pattern::first_occurrence;
use vstd::prelude::*;

verus! {

/// Relies on String::push: appends one character.
pub assume_specification[ String::push ](s: &mut String, ch: char)
    ensures
        final(s)@ == old(s)@.push(ch),
;

#[verifier::external_type_specification]
#[verifier::external_body]
pub struct ExRegex(regex::bytes::Regex);

#[verifier::external_type_specification]
#[verifier::external_body]
pub struct ExRegexError(regex::Error);

/// The lower-case hexadecimal digits.
pub open spec fn hex_digits() -> Seq<char> {
    seq!['0', '1', '2', '3', '4', '5', '6', '7', '8', '9', 'a', 'b', 'c', 'd', 'e', 'f']
}

/// The regex escape that matches the byte `b`.
pub open spec fn byte_escape(b: u8) -> Seq<char> {
    seq!['\\', 'x', hex_digits()[(b / 16) as int], hex_digits()[(b % 16) as int]]
}

/// The regex source that matches exactly the bytes of `p`.
pub open spec fn escaped(p: Seq<u8>) -> Seq<char>
    decreases p.len(),
{
    if p.len() == 0 {
        Seq::empty()
    } else {
        escaped(p.drop_last()) + byte_escape(p.last())
    }
}

/// Builds the regex source that matches exactly the bytes of `p`.
pub fn escape_bytes(p: &[u8]) -> (r: String)
    ensures
        r@ == escaped(p@),
{
    let digits: [char; 16] = [
        '0', '1', '2', '3', '4', '5', '6', '7', '8', '9', 'a', 'b', 'c', 'd', 'e', 'f',
    ];
    let mut s = String::new();
    let mut i: usize = 0;
    while i < p.len()
        invariant
            i <= p@.len(),
            digits@ == hex_digits(),
            s@ == escaped(p@.subrange(0, i as int)),
        decreases p@.len() - i,
    {
        let b = p[i];
        s.push('\\');
        s.push('x');
        s.push(digits[(b / 16) as usize]);
        s.push(digits[(b % 16) as usize]);
        assert(p@.subrange(0, i + 1).drop_last() =~= p@.subrange(0, i as int));
        assert(s@ =~= escaped(p@.subrange(0, i + 1)));
        i = i + 1;
    }
    assert(p@.subrange(0, p@.len() as int) =~= p@);
    s
}

/// Whether the regex engine, with Unicode turned off, accepts `source`.
pub uninterp spec fn regex_builds(source: Seq<char>) -> bool;

/// A compiled byte pattern.
pub struct LiteralRegex {
    re: regex::bytes::Regex,
    pattern: Vec<u8>,
}

/// Relies on regex::bytes::RegexBuilder::build with Unicode turned off: in that
/// mode `\xHH` matches the single byte HH, so a source made of such escapes
/// matches exactly the bytes of `pattern`.
#[verifier::external_body]
fn compile_escaped(source: &str, pattern: Vec<u8>) -> (r: Result<LiteralRegex, regex::Error>)
    requires
        source@ == escaped(pattern@),
    ensures
        r is Ok <==> regex_builds(source@),
        r matches Ok(m) ==> m.pattern@ == pattern@,
{
    match regex::bytes::RegexBuilder::new(source).unicode(false).build() {
        Ok(re) => Ok(LiteralRegex { re, pattern }),
        Err(e) => Err(e),
    }
}

/// Relies on regex::bytes::Regex::find, which returns the leftmost match. A
/// `LiteralRegex` is only ever made by `compile_escaped`, so its regex matches
/// exactly the bytes of its pattern, and the leftmost match is the first
/// occurrence of those bytes.
#[verifier::external_body]
fn find_leftmost(m: &LiteralRegex, hay: &[u8]) -> (r: Option<usize>)
    ensures
        match r {
            Some(k) => first_occurrence(hay@, m.pattern@) == Some(k as int),
            None => first_occurrence(hay@, m.pattern@) is None,
        },
{
    match m.re.find(hay) {
        Some(found) => Some(found.start()),
        None => None,
    }
}

impl LiteralRegex {
    /// The bytes this regex matches.
    pub closed spec fn pattern(&self) -> Seq<u8> {
        self.pattern@
    }

    /// Compiles `pattern`. Fails with `InvalidInput` when the pattern is empty
    /// or the regex engine rejects it.
    pub fn new(pattern: &[u8]) -> (r: Result<LiteralRegex, ErrorKind>)
        ensures
            r is Ok <==> pattern@.len() > 0 && regex_builds(escaped(pattern@)),
            match r {
                Ok(m) => m.pattern() == pattern@ && pattern@.len() > 0,
                Err(e) => e == ErrorKind::InvalidInput,
            },
    {
        if pattern.len() == 0 {
            return Err(ErrorKind::InvalidInput);
        }
        let source = escape_bytes(pattern);
        let mut owned: Vec<u8> = Vec::new();
        crate::pattern::append_bytes(&mut owned, pattern);
        assert(owned@ =~= pattern@);
        match compile_escaped(source.as_str(), owned) {
            Ok(m) => Ok(m),
            Err(_) => Err(ErrorKind::InvalidInput),
        }
    }

    /// The length of the pattern.
    pub fn len(&self) -> (r: usize)
        ensures
            r == self.pattern().len(),
    {
        self.pattern.len()
    }

    /// The index of the first occurrence of the pattern in `hay`.
    pub fn find(&self, hay: &[u8]) -> (r: Option<usize>)
        ensures
            match r {
                Some(k) => first_occurrence(hay@, self.pattern()) == Some(k as int),
                None => first_occurrence(hay@, self.pattern()) is None,
            },
    {
        find_leftmost(self, hay)
    }
}

} // verus!
