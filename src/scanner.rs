//! A forward, chunked search for a byte pattern in a source that is read a
//! window at a time.
//!
//! The scanner decides which window of the source to read next; whoever holds
//! the source reads exactly that window and hands it back. Consecutive windows
//! overlap by one byte less than the pattern, so an occurrence that straddles
//! the end of one window lies whole in the next. Every window holds at least
//! as many bytes as the pattern, and the last one ends at the end of the
//! source, so no occurrence near the end is missed.
use crate::error::ErrorKind;
use crate::matcher::{escaped, regex_builds, LiteralRegex};
use crate::pattern::{first_from, first_occurrence, lemma_first_from, lemma_first_from_skip, occurs_at, search_result};
use vstd::prelude::*;

verus! {

/// The number of bytes read at a time, for patterns of at most half as many.
pub const CHUNK_SIZE: usize = 8192;

/// The window length used for a pattern of `m` bytes: at least twice the
/// pattern, so that each window moves the search on by more than the
/// pattern's length.
pub open spec fn chunk_len_for(m: nat) -> nat {
    if m <= CHUNK_SIZE / 2 {
        CHUNK_SIZE as nat
    } else if m <= usize::MAX / 2 {
        2 * m
    } else {
        m
    }
}

/// The smaller of `a` and `b`.
pub open spec fn min(a: int, b: int) -> int {
    if a < b { a } else { b }
}

/// What the scanner asks for next.
#[derive(Clone, Copy, Debug, PartialEq, Eq, Structural)]
pub enum ScanStep {
    /// Read exactly `len` bytes of the source, starting at `offset`.
    Read { offset: u64, len: usize },
    /// The pattern first occurs at this offset.
    Found(u64),
    /// The pattern does not occur in the source.
    NotFound,
}

/// The state of a chunked search.
pub struct PatternScanner {
    pattern_len: usize,
    source_len: u64,
    chunk_len: usize,
    offset: u64,
    len: usize,
    reading: bool,
}

impl PatternScanner {
    /// The length of the pattern searched for.
    pub closed spec fn pattern_len(&self) -> nat {
        self.pattern_len as nat
    }

    /// The length of the source searched.
    pub closed spec fn source_len(&self) -> nat {
        self.source_len as nat
    }

    /// The window the scanner waits for, while the search goes on.
    pub closed spec fn awaits(&self) -> Option<(u64, usize)> {
        if self.reading {
            Some((self.offset, self.len))
        } else {
            None
        }
    }

    /// The internal consistency of the state.
    pub closed spec fn wf(&self) -> bool {
        &&& self.pattern_len >= 1
        &&& self.chunk_len == chunk_len_for(self.pattern_len as nat)
        &&& self.reading ==> {
            &&& self.len >= self.pattern_len
            &&& self.offset + self.len <= self.source_len
            &&& self.len == min(self.chunk_len as int, self.source_len - self.offset)
        }
    }

    /// The window waited for lies in the source and holds the pattern's length.
    pub proof fn lemma_window_bounds(&self)
        requires
            self.wf(),
        ensures
            self.pattern_len() >= 1,
            self.awaits() matches Some((o, n)) ==> o + n <= self.source_len() && n >= self.pattern_len(),
    {
    }

    /// The window that follows a window ending at `end` without a match.
    pub open spec fn next_window(m: nat, source_len: nat, end: int) -> (u64, usize) {
        let offset = end - (m - 1);
        (offset as u64, min(chunk_len_for(m) as int, source_len - offset) as usize)
    }

    /// Starts a search for a pattern of `pattern_len` bytes in a source of
    /// `source_len` bytes. A source shorter than the pattern holds no
    /// occurrence; otherwise the first window starts at offset zero.
    pub fn new(pattern_len: usize, source_len: u64) -> (r: (PatternScanner, ScanStep))
        requires
            pattern_len >= 1,
        ensures
            r.0.wf(),
            r.0.pattern_len() == pattern_len,
            r.0.source_len() == source_len,
            source_len < pattern_len ==> r.1 == ScanStep::NotFound && r.0.awaits() is None,
            source_len >= pattern_len ==> {
                let len = min(chunk_len_for(pattern_len as nat) as int, source_len as int) as usize;
                &&& r.1 == (ScanStep::Read { offset: 0, len })
                &&& r.0.awaits() == Some((0u64, len))
            },
    {
        let chunk_len = if pattern_len <= CHUNK_SIZE / 2 {
            CHUNK_SIZE
        } else if pattern_len <= usize::MAX / 2 {
            2 * pattern_len
        } else {
            pattern_len
        };
        if source_len < pattern_len as u64 {
            let s = PatternScanner { pattern_len, source_len, chunk_len, offset: 0, len: 0, reading: false };
            return (s, ScanStep::NotFound);
        }
        let len: usize = if (chunk_len as u64) < source_len { chunk_len } else { source_len as usize };
        let s = PatternScanner { pattern_len, source_len, chunk_len, offset: 0, len, reading: true };
        (s, ScanStep::Read { offset: 0, len })
    }

    /// Takes the window asked for and decides what comes next: the offset of
    /// the first occurrence in the window, the end of the search when the
    /// window reached the end of the source, or the next window, which starts
    /// one byte less than the pattern before the end of this one.
    pub fn feed(&mut self, matcher: &LiteralRegex, chunk: &[u8]) -> (r: ScanStep)
        requires
            old(self).wf(),
            old(self).awaits() matches Some((_, n)) && chunk@.len() == n,
            matcher.pattern().len() == old(self).pattern_len(),
        ensures
            final(self).wf(),
            final(self).pattern_len() == old(self).pattern_len(),
            final(self).source_len() == old(self).source_len(),
            ({
                let (offset, n) = old(self).awaits().unwrap();
                let end = offset + n;
                match first_occurrence(chunk@, matcher.pattern()) {
                    Some(j) => r == ScanStep::Found((offset + j) as u64) && final(self).awaits() is None,
                    None => if end == old(self).source_len() {
                        r == ScanStep::NotFound && final(self).awaits() is None
                    } else {
                        let (o, l) = Self::next_window(old(self).pattern_len(), old(self).source_len(), end);
                        r == (ScanStep::Read { offset: o, len: l }) && final(self).awaits() == Some((o, l))
                    },
                }
            }),
    {
        match matcher.find(chunk) {
            Some(j) => {
                self.reading = false;
                proof {
                    lemma_first_from(chunk@, matcher.pattern(), 0);
                }
                ScanStep::Found(self.offset + j as u64)
            },
            None => {
                let end = self.offset + self.len as u64;
                if end == self.source_len {
                    self.reading = false;
                    ScanStep::NotFound
                } else {
                    let offset = end - (self.pattern_len as u64 - 1);
                    let rest = self.source_len - offset;
                    let len: usize = if (self.chunk_len as u64) < rest { self.chunk_len } else { rest as usize };
                    self.offset = offset;
                    self.len = len;
                    ScanStep::Read { offset, len }
                }
            },
        }
    }
}

/// Where the pattern occurs in a window `s[off..off + n]` is where it occurs
/// in `s` between `off` and the last start that fits in the window.
pub proof fn lemma_window(s: Seq<u8>, p: Seq<u8>, off: int, n: int)
    requires
        0 <= off,
        0 <= n,
        off + n <= s.len(),
        p.len() >= 1,
    ensures
        ({
            let c = s.subrange(off, off + n);
            match first_occurrence(c, p) {
                Some(j) => first_from(s, p, off) == Some(off + j),
                None => forall|t: int| off <= t <= off + n - p.len() ==> !occurs_at(s, p, t),
            }
        }),
{
    let c = s.subrange(off, off + n);
    assert forall|j: int| 0 <= j && j + p.len() <= n implies (occurs_at(c, p, j) <==> occurs_at(s, p, off + j)) by {
        assert(c.subrange(j, j + p.len()) =~= s.subrange(off + j, off + j + p.len()));
    }
    lemma_first_from(c, p, 0);
    match first_occurrence(c, p) {
        Some(j) => {
            assert forall|t: int| off <= t < off + j implies !occurs_at(s, p, t) by {
                assert(!occurs_at(c, p, t - off));
                assert(c.subrange(t - off, t - off + p.len()) =~= s.subrange(t, t + p.len()));
            }
            lemma_first_from_skip(s, p, off, off + j);
        },
        None => {
            assert forall|t: int| off <= t <= off + n - p.len() implies !occurs_at(s, p, t) by {
                assert(!occurs_at(c, p, t - off));
            }
        },
    }
}

/// Searches `source` for the pattern of `matcher` window by window, as a
/// reader of a file would. Returns the offset of the first occurrence, or
/// `None` when the pattern does not occur.
pub fn find_in(matcher: &LiteralRegex, source: &[u8]) -> (r: Option<u64>)
    ensures
        r == search_result(source@, matcher.pattern()),
{
    let s = Ghost(source@);
    let p = Ghost(matcher.pattern());
    if matcher.len() == 0 {
        assert(source@.subrange(0, 0) =~= p@);
        return Some(0);
    }
    let (mut scanner, mut step) = PatternScanner::new(matcher.len(), source.len() as u64);
    loop
        invariant
            scanner.wf(),
            scanner.pattern_len() == p@.len(),
            scanner.source_len() == s@.len(),
            s@ == source@,
            source@.len() == source.len(),
            p@ == matcher.pattern(),
            p@.len() >= 1,
            match step {
                ScanStep::Read { offset, len } => {
                    &&& scanner.awaits() == Some((offset, len))
                    &&& offset + len <= s@.len()
                    &&& first_from(s@, p@, 0) == first_from(s@, p@, offset as int)
                },
                ScanStep::Found(k) => search_result(s@, p@) == Some(k),
                ScanStep::NotFound => search_result(s@, p@) is None,
            },
        decreases
            match step {
                ScanStep::Read { offset, len } => s@.len() + 1 - offset,
                _ => 0,
            },
    {
        match step {
            ScanStep::Read { offset, len } => {
                let start = offset as usize;
                let chunk = &source[start..start + len];
                proof {
                    lemma_window(s@, p@, offset as int, len as int);
                }
                let next = scanner.feed(matcher, chunk);
                proof {
                    if next is Read || next is NotFound {
                        let stop = offset + len - p@.len() + 1;
                        lemma_first_from_skip(s@, p@, offset as int, stop);
                        if next is NotFound {
                            lemma_first_from(s@, p@, stop);
                        }
                    }
                }
                step = next;
            },
            ScanStep::Found(k) => return Some(k),
            ScanStep::NotFound => return None,
        }
    }
}

/// Compiles `pattern` and searches `source` for it window by window.
///
/// Fails with `InvalidInput` when the pattern is empty or cannot be compiled,
/// and with `NotFound` when it does not occur.
pub fn search(source: &[u8], pattern: &[u8]) -> (r: Result<u64, ErrorKind>)
    ensures
        pattern@.len() > 0 && regex_builds(escaped(pattern@)) ==> r == match search_result(
            source@,
            pattern@,
        ) {
            Some(k) => Ok::<u64, ErrorKind>(k),
            None => Err(ErrorKind::NotFound),
        },
        !(pattern@.len() > 0 && regex_builds(escaped(pattern@))) ==> r == Err::<u64, ErrorKind>(
            ErrorKind::InvalidInput,
        ),
{
    let matcher = match LiteralRegex::new(pattern) {
        Ok(m) => m,
        Err(e) => return Err(e),
    };
    match find_in(&matcher, source) {
        Some(k) => Ok(k),
        None => Err(ErrorKind::NotFound),
    }
}

/// An occurrence that starts in a window but runs past its end lies whole in
/// the next window: windows overlap by one byte less than the pattern and are
/// at least twice as long as it.
pub proof fn lemma_straddling_occurrence_in_next_window(m: nat, source_len: nat, end: int, k: int)
    requires
        1 <= m <= usize::MAX / 2,
        source_len <= u64::MAX,
        m <= end < source_len,
        0 <= k < end < k + m <= source_len,
    ensures
        ({
            let (o, l) = PatternScanner::next_window(m, source_len, end);
            &&& o <= k
            &&& k + m <= o + l
        }),
{
}

} // verus!
