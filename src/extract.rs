//! Finding the configuration: directly in the image, or in the image once it
//! has been decompressed with one of the known formats.
//!
//! The search runs as a sequence of stages. Stage zero looks for the marker in
//! the image itself; stage `i + 1` looks for the magic number of the `i`-th
//! format, decompresses the image from there and looks for the marker in what
//! comes out. The first stage that yields a configuration ends the search.
use crate::codec::{
    decoded, decompress, format_at, format_in_order, gzip_decoded, Format, FORMAT_COUNT,
};
use crate::error::ErrorKind;
use crate::lzop::lzo_init;
use crate::matcher::{escaped, regex_builds, LiteralRegex};
use crate::pattern::{
    first_from, first_occurrence, lemma_absent_not_found, lemma_first_from, lemma_first_from_skip,
    occurs, occurs_at,
};
use crate::scanner::{chunk_len_for, find_in, lemma_window, min, PatternScanner, ScanStep};
use vstd::prelude::*;

verus! {

/// The number of literal bytes before the gzip stream in the marker.
pub const MARKER_PREFIX_LEN: usize = 8;

/// The marker that precedes the embedded configuration: "IKCFG_ST" followed
/// by the first bytes of a gzip stream.
pub open spec fn marker() -> Seq<u8> {
    seq![0x49u8, 0x4b, 0x43, 0x46, 0x47, 0x5f, 0x53, 0x54, 0x1f, 0x8b, 0x08]
}

/// The marker that precedes the embedded configuration.
pub fn marker_bytes() -> (r: Vec<u8>)
    ensures
        r@ == marker(),
{
    let r = vec![0x49u8, 0x4b, 0x43, 0x46, 0x47, 0x5f, 0x53, 0x54, 0x1f, 0x8b, 0x08];
    assert(r@ =~= marker());
    r
}

/// The configuration stored directly in `s`: the gzip stream that follows the
/// literal part of the first marker.
pub open spec fn config_in(s: Seq<u8>) -> Option<Seq<u8>> {
    match first_occurrence(s, marker()) {
        Some(k) => gzip_decoded(s.subrange(k + MARKER_PREFIX_LEN, s.len() as int)),
        None => None,
    }
}

/// The pattern searched for in the image at stage `s`.
pub open spec fn stage_pattern(s: int) -> Seq<u8> {
    if s == 0 {
        marker()
    } else {
        format_at(s - 1).magic_spec()
    }
}

/// How far past the pattern's first byte the stage reads the image.
pub open spec fn stage_skip(s: int) -> int {
    if s == 0 {
        MARKER_PREFIX_LEN as int
    } else {
        0
    }
}

/// What stage `s` makes of the image from the read position on.
pub open spec fn stage_outcome_of_rest(s: int, rest: Seq<u8>) -> Option<Seq<u8>> {
    if s == 0 {
        gzip_decoded(rest)
    } else {
        match decoded(format_at(s - 1), rest) {
            Some(inner) => config_in(inner),
            None => None,
        }
    }
}

/// What stage `s` yields for `image`.
pub open spec fn stage_result(image: Seq<u8>, s: int) -> Option<Seq<u8>> {
    match first_occurrence(image, stage_pattern(s)) {
        Some(k) => stage_outcome_of_rest(s, image.subrange(k + stage_skip(s), image.len() as int)),
        None => None,
    }
}

/// What the stages from `s` on yield for `image`: the first configuration found.
pub open spec fn outcome_from(image: Seq<u8>, s: int) -> Option<Seq<u8>>
    decreases FORMAT_COUNT + 1 - s,
{
    if s < 0 || s > FORMAT_COUNT {
        None
    } else {
        match stage_result(image, s) {
            Some(c) => Some(c),
            None => outcome_from(image, s + 1),
        }
    }
}

/// The configuration extracted from `image`, if any.
pub open spec fn extracted(image: Seq<u8>) -> Option<Seq<u8>> {
    outcome_from(image, 0)
}

/// Whether the regex engine accepts the escaped pattern of every stage.
pub open spec fn patterns_build() -> bool {
    forall|s: int| 0 <= s <= FORMAT_COUNT ==> regex_builds(escaped(#[trigger] stage_pattern(s)))
}

/// The compiled patterns and the LZO library state that a search needs.
pub struct Engines {
    marker: LiteralRegex,
    magics: Vec<LiteralRegex>,
    lzo: Box<minilzo_rs::LZO>,
}

impl Engines {
    /// Each matcher matches the pattern of its stage.
    pub closed spec fn wf(&self) -> bool {
        &&& self.marker.pattern() == marker()
        &&& self.magics@.len() == FORMAT_COUNT
        &&& forall|i: int| 0 <= i < FORMAT_COUNT ==> #[trigger] self.magics@[i].pattern() == format_at(i).magic_spec()
    }

    /// Compiles the marker and every magic number and sets up the LZO library.
    ///
    /// Fails with `InvalidInput` when a pattern does not compile and with
    /// `Unavailable` when the LZO library cannot be set up.
    pub fn new() -> (r: Result<Engines, ErrorKind>)
        ensures
            r matches Ok(e) ==> e.wf(),
            r == Err::<Engines, ErrorKind>(ErrorKind::InvalidInput) <==> !patterns_build(),
            r matches Err(k) ==> k == ErrorKind::InvalidInput || k == ErrorKind::Unavailable,
    {
        let marker = match LiteralRegex::new(marker_bytes().as_slice()) {
            Ok(m) => m,
            Err(e) => {
                assert(!regex_builds(escaped(stage_pattern(0))));
                return Err(e);
            },
        };
        let mut magics: Vec<LiteralRegex> = Vec::new();
        let mut i: usize = 0;
        while i < FORMAT_COUNT
            invariant
                i <= FORMAT_COUNT,
                magics@.len() == i,
                forall|j: int| 0 <= j < i ==> #[trigger] magics@[j].pattern() == format_at(j).magic_spec(),
                forall|s: int| 0 <= s <= i ==> regex_builds(escaped(#[trigger] stage_pattern(s))),
            decreases FORMAT_COUNT - i,
        {
            let m = match LiteralRegex::new(format_in_order(i).magic().as_slice()) {
                Ok(m) => m,
                Err(e) => {
                    assert(!regex_builds(escaped(stage_pattern(i + 1))));
                    return Err(e);
                },
            };
            magics.push(m);
            assert(regex_builds(escaped(stage_pattern(i + 1))));
            i = i + 1;
        }
        let lzo = match lzo_init() {
            Ok(l) => Box::new(l),
            Err(_) => return Err(ErrorKind::Unavailable),
        };
        Ok(Engines { marker, magics, lzo })
    }

    /// The matcher of stage `s`.
    fn stage_matcher(&self, s: usize) -> (r: &LiteralRegex)
        requires
            self.wf(),
            s <= FORMAT_COUNT,
        ensures
            r.pattern() == stage_pattern(s as int),
    {
        if s == 0 {
            &self.marker
        } else {
            let r = &self.magics[s - 1];
            assert(r.pattern() == format_at(s - 1).magic_spec());
            r
        }
    }

    /// The configuration stored directly in `s`.
    pub fn config_in(&self, s: &[u8]) -> (r: Option<Vec<u8>>)
        requires
            self.wf(),
        ensures
            match r {
                Some(v) => config_in(s@) == Some(v@),
                None => config_in(s@) is None,
            },
    {
        match find_in(&self.marker, s) {
            Some(k) => {
                proof {
                    lemma_first_from(s@, marker(), 0);
                    assert(s@.len() == s.len());
                }
                let start = k as usize + MARKER_PREFIX_LEN;
                match decompress(&self.lzo, Format::Gzip, &s[start..s.len()]) {
                    Ok(v) => Some(v),
                    Err(_) => None,
                }
            },
            None => None,
        }
    }

    /// What stage `s` makes of the image from the read position on.
    pub fn stage_outcome(&self, s: usize, rest: &[u8]) -> (r: Option<Vec<u8>>)
        requires
            self.wf(),
            s <= FORMAT_COUNT,
        ensures
            match r {
                Some(v) => stage_outcome_of_rest(s as int, rest@) == Some(v@),
                None => stage_outcome_of_rest(s as int, rest@) is None,
            },
    {
        if s == 0 {
            match decompress(&self.lzo, Format::Gzip, rest) {
                Ok(v) => Some(v),
                Err(_) => None,
            }
        } else {
            match decompress(&self.lzo, format_in_order(s - 1), rest) {
                Ok(inner) => self.config_in(inner.as_slice()),
                Err(_) => None,
            }
        }
    }
}

/// What the search asks of whoever holds the image, or how it ended.
#[derive(Debug)]
pub enum Request {
    /// Read exactly `len` bytes of the image, starting at `offset`.
    Read { offset: u64, len: usize },
    /// Read the image from `offset` to its end.
    ReadRest { offset: u64 },
    /// The configuration text.
    Config(Vec<u8>),
    /// No stage yielded a configuration.
    NotFound,
}

/// The state of a search through the stages.
pub struct Cascade {
    engines: Engines,
    image_len: u64,
    stage: usize,
    scanner: PatternScanner,
    rest_at: Option<u64>,
    finished: bool,
}

impl Cascade {
    /// The length of the image searched.
    pub closed spec fn image_len(&self) -> nat {
        self.image_len as nat
    }

    /// The current stage; one past the last when every stage failed.
    pub closed spec fn stage(&self) -> int {
        self.stage as int
    }

    /// The search for the current stage's pattern.
    pub closed spec fn scanner(&self) -> PatternScanner {
        self.scanner
    }

    /// Where the image is to be read to its end, once the pattern was found.
    pub closed spec fn rest_at(&self) -> Option<u64> {
        self.rest_at
    }

    /// Whether the search has ended.
    pub closed spec fn finished(&self) -> bool {
        self.finished
    }

    /// The internal consistency of the state.
    pub closed spec fn wf(&self) -> bool {
        &&& self.engines.wf()
        &&& self.stage <= FORMAT_COUNT + 1
        &&& !self.finished ==> self.stage <= FORMAT_COUNT
        &&& !self.finished && self.rest_at is None ==> {
            &&& self.scanner.wf()
            &&& self.scanner.pattern_len() == stage_pattern(self.stage as int).len()
            &&& self.scanner.source_len() == self.image_len
            &&& self.scanner.awaits() is Some
        }
        &&& !self.finished && self.rest_at is Some ==> self.rest_at.unwrap() <= self.image_len
    }

    /// The state after entering stage `from` or a later one: the stages
    /// passed over hold patterns longer than the image, and either the
    /// search for the entered stage's pattern begins with its first window,
    /// or every stage is exhausted.
    pub open spec fn entered(&self, from: int, req: Request) -> bool {
        &&& self.wf()
        &&& from <= self.stage() <= FORMAT_COUNT + 1
        &&& forall|t: int| from <= t < self.stage() ==> self.image_len() < #[trigger] stage_pattern(t).len()
        &&& if self.stage() == FORMAT_COUNT + 1 {
            &&& req is NotFound
            &&& self.finished()
        } else {
            let m = stage_pattern(self.stage()).len();
            let len = min(chunk_len_for(m) as int, self.image_len() as int) as usize;
            &&& !self.finished()
            &&& self.rest_at() is None
            &&& self.image_len() >= stage_pattern(self.stage()).len()
            &&& self.scanner().awaits() == Some((0u64, len))
            &&& req == (Request::Read { offset: 0, len })
        }
    }

    /// Enters stage `from`, or the first later stage whose pattern fits in the image.
    fn enter(engines: Engines, image_len: u64, from: usize) -> (r: (Cascade, Request))
        requires
            engines.wf(),
            from <= FORMAT_COUNT + 1,
        ensures
            r.0.entered(from as int, r.1),
            r.0.image_len() == image_len,
    {
        let mut s = from;
        while s <= FORMAT_COUNT
            invariant
                from <= s <= FORMAT_COUNT + 1,
                engines.wf(),
                forall|t: int| from <= t < s ==> image_len < #[trigger] stage_pattern(t).len(),
            decreases FORMAT_COUNT + 1 - s,
        {
            let m = engines.stage_matcher(s);
            let (scanner, step) = PatternScanner::new(m.len(), image_len);
            match step {
                ScanStep::Read { offset, len } => {
                    let c = Cascade { engines, image_len, stage: s, scanner, rest_at: None, finished: false };
                    return (c, Request::Read { offset, len });
                },
                _ => {},
            }
            s = s + 1;
        }
        let (scanner, _) = PatternScanner::new(1, 0);
        let c = Cascade { engines, image_len, stage: FORMAT_COUNT + 1, scanner, rest_at: None, finished: true };
        (c, Request::NotFound)
    }

    /// Starts a search in an image of `image_len` bytes.
    pub fn start(engines: Engines, image_len: u64) -> (r: (Cascade, Request))
        requires
            engines.wf(),
        ensures
            r.0.entered(0, r.1),
            r.0.image_len() == image_len,
    {
        Self::enter(engines, image_len, 0)
    }

    /// The state and request after `old` took the window `chunk`.
    pub open spec fn after_chunk(old: Cascade, chunk: Seq<u8>, new: Cascade, r: Request) -> bool {
        &&& new.image_len() == old.image_len()
        &&& {
            let (offset, n) = old.scanner().awaits().unwrap();
            let p = stage_pattern(old.stage());
            match first_occurrence(chunk, p) {
                Some(j) => {
                    let at = (offset + j + stage_skip(old.stage())) as u64;
                    &&& new.wf()
                    &&& new.stage() == old.stage()
                    &&& !new.finished()
                    &&& new.rest_at() == Some(at)
                    &&& r == (Request::ReadRest { offset: at })
                },
                None => if offset + n == old.image_len() {
                    new.entered(old.stage() + 1, r)
                } else {
                    let (o, l) = PatternScanner::next_window(p.len(), old.image_len(), offset + n);
                    &&& new.wf()
                    &&& new.stage() == old.stage()
                    &&& !new.finished()
                    &&& new.rest_at() is None
                    &&& new.scanner().awaits() == Some((o, l))
                    &&& r == (Request::Read { offset: o, len: l })
                },
            }
        }
    }

    /// Takes the window of the image asked for by `Request::Read`.
    ///
    /// When the window holds the stage's pattern, asks for the image from the
    /// pattern on (past the marker's literal part at stage zero); when the
    /// window ended the image without it, enters the next stage; otherwise
    /// asks for the next window.
    pub fn on_chunk(self, chunk: &[u8]) -> (r: (Cascade, Request))
        requires
            self.wf(),
            !self.finished(),
            self.rest_at() is None,
            self.scanner().awaits() matches Some((_, n)) && chunk@.len() == n,
        ensures
            Self::after_chunk(self, chunk@, r.0, r.1),
    {
        let Cascade { engines, image_len, stage, mut scanner, rest_at, finished } = self;
        let m = engines.stage_matcher(stage);
        proof {
            lemma_first_from(chunk@, m.pattern(), 0);
            scanner.lemma_window_bounds();
        }
        let step = scanner.feed(m, chunk);
        match step {
            ScanStep::Found(k) => {
                let skip: u64 = if stage == 0 { MARKER_PREFIX_LEN as u64 } else { 0 };
                let at = k + skip;
                let c = Cascade { engines, image_len, stage, scanner, rest_at: Some(at), finished: false };
                (c, Request::ReadRest { offset: at })
            },
            ScanStep::NotFound => Self::enter(engines, image_len, stage + 1),
            ScanStep::Read { offset, len } => {
                let c = Cascade { engines, image_len, stage, scanner, rest_at: None, finished: false };
                (c, Request::Read { offset, len })
            },
        }
    }

    /// The state and request after `old` took the rest of the image.
    pub open spec fn after_rest(old: Cascade, rest: Seq<u8>, new: Cascade, r: Request) -> bool {
        &&& new.image_len() == old.image_len()
        &&& match stage_outcome_of_rest(old.stage(), rest) {
            Some(c) => new.finished() && (r matches Request::Config(v) && v@ == c),
            None => new.entered(old.stage() + 1, r),
        }
    }

    /// Takes the image from the position asked for by `Request::ReadRest` to
    /// its end, and finishes the current stage: the configuration when the
    /// stage yields one, else the next stage.
    pub fn on_rest(self, rest: &[u8]) -> (r: (Cascade, Request))
        requires
            self.wf(),
            !self.finished(),
            self.rest_at() matches Some(at) && rest@.len() == self.image_len() - at,
        ensures
            Self::after_rest(self, rest@, r.0, r.1),
    {
        let Cascade { engines, image_len, stage, scanner, rest_at, finished } = self;
        match engines.stage_outcome(stage, rest) {
            Some(config) => {
                let c = Cascade { engines, image_len, stage, scanner, rest_at: None, finished: true };
                (c, Request::Config(config))
            },
            None => Self::enter(engines, image_len, stage + 1),
        }
    }
}

/// A pattern longer than the source does not occur in it.
proof fn lemma_too_short(s: Seq<u8>, p: Seq<u8>)
    requires
        s.len() < p.len(),
    ensures
        first_occurrence(s, p) is None,
{
    lemma_first_from(s, p, 0);
}

/// After entering stage `from` or a later one, the stages passed over yielded
/// nothing, and the search state matches the request.
proof fn lemma_entered(image: Seq<u8>, from: int, c: Cascade, req: Request)
    requires
        c.entered(from, req),
        0 <= from,
        c.image_len() == image.len(),
    ensures
        outcome_from(image, from) == outcome_from(image, c.stage()),
        req is NotFound ==> outcome_from(image, c.stage()) is None,
    decreases c.stage() - from,
{
    if from < c.stage() {
        lemma_too_short(image, stage_pattern(from));
        assert(image.len() < stage_pattern(from).len());
        lemma_entered(image, from + 1, c, req);
    }
}

/// What holds between the search state, the request and the image while a
/// search runs.
pub open spec fn driver_inv(image: Seq<u8>, c: Cascade, req: Request) -> bool {
    &&& c.image_len() == image.len()
    &&& match req {
        Request::Read { offset, len } => {
            &&& c.wf()
            &&& !c.finished()
            &&& c.rest_at() is None
            &&& 0 <= c.stage() <= FORMAT_COUNT
            &&& c.scanner().awaits() == Some((offset, len))
            &&& first_from(image, stage_pattern(c.stage()), 0) == first_from(image, stage_pattern(c.stage()), offset as int)
            &&& extracted(image) == outcome_from(image, c.stage())
        },
        Request::ReadRest { offset } => {
            &&& c.wf()
            &&& !c.finished()
            &&& c.rest_at() == Some(offset)
            &&& 0 <= c.stage() <= FORMAT_COUNT
            &&& offset >= stage_skip(c.stage())
            &&& first_occurrence(image, stage_pattern(c.stage())) == Some(offset - stage_skip(c.stage()))
            &&& extracted(image) == outcome_from(image, c.stage())
        },
        Request::Config(v) => extracted(image) == Some(v@),
        Request::NotFound => extracted(image) is None,
    }
}

/// How far a search still has to go: stages left, then whether a window is
/// still to be read, then how much of the image lies past the window.
pub open spec fn remaining(image_len: nat, c: Cascade, req: Request) -> (int, int, int) {
    match req {
        Request::Read { offset, .. } => (FORMAT_COUNT + 2 - c.stage(), 1, image_len + 1 - offset),
        Request::ReadRest { .. } => (FORMAT_COUNT + 2 - c.stage(), 0, 0),
        _ => (0, 0, 0),
    }
}

/// `a` comes before `b` in lexicographic order, and both are non-negative.
pub open spec fn lex_less(a: (int, int, int), b: (int, int, int)) -> bool {
    &&& a.0 >= 0 && a.1 >= 0 && a.2 >= 0
    &&& b.0 >= 0 && b.1 >= 0 && b.2 >= 0
    &&& (a.0 < b.0 || (a.0 == b.0 && (a.1 < b.1 || (a.1 == b.1 && a.2 < b.2))))
}

/// Entering a stage after the stages before it yielded nothing keeps the
/// search consistent with the image.
proof fn lemma_entered_inv(image: Seq<u8>, from: int, c: Cascade, req: Request)
    requires
        c.entered(from, req),
        0 <= from,
        c.image_len() == image.len(),
        extracted(image) == outcome_from(image, from),
    ensures
        driver_inv(image, c, req),
        c.stage() >= from,
{
    lemma_entered(image, from, c, req);
}

/// Taking the window asked for keeps the search consistent with the image,
/// and moves it forward.
proof fn lemma_chunk_step(
    image: Seq<u8>,
    c: Cascade,
    req: Request,
    chunk: Seq<u8>,
    c2: Cascade,
    r2: Request,
)
    requires
        driver_inv(image, c, req),
        req matches Request::Read { offset, len } && chunk == image.subrange(offset as int, offset + len),
        Cascade::after_chunk(c, chunk, c2, r2),
    ensures
        driver_inv(image, c2, r2),
        lex_less(remaining(image.len(), c2, r2), remaining(image.len(), c, req)),
{
    let (offset, len) = match req {
        Request::Read { offset, len } => (offset, len),
        _ => (0u64, 0usize),
    };
    let s = c.stage();
    let p = stage_pattern(s);
    c.scanner().lemma_window_bounds();
    lemma_window(image, p, offset as int, len as int);
    lemma_first_from(chunk, p, 0);
    match first_occurrence(chunk, p) {
        Some(j) => {
            assert(occurs_at(chunk, p, j));
        },
        None => {
            let stop = offset + len - p.len() + 1;
            lemma_first_from_skip(image, p, offset as int, stop);
            if offset + len == image.len() {
                lemma_first_from(image, p, stop);
                lemma_entered_inv(image, s + 1, c2, r2);
            }
        },
    }
}

/// Taking the rest of the image keeps the search consistent with the image,
/// and moves it forward.
proof fn lemma_rest_step(
    image: Seq<u8>,
    c: Cascade,
    req: Request,
    rest: Seq<u8>,
    c2: Cascade,
    r2: Request,
)
    requires
        driver_inv(image, c, req),
        req matches Request::ReadRest { offset } && rest == image.subrange(offset as int, image.len() as int),
        Cascade::after_rest(c, rest, c2, r2),
    ensures
        driver_inv(image, c2, r2),
        lex_less(remaining(image.len(), c2, r2), remaining(image.len(), c, req)),
{
    let s = c.stage();
    if stage_outcome_of_rest(s, rest) is None {
        lemma_entered_inv(image, s + 1, c2, r2);
    }
}

/// Searches an image held in memory through every stage, window by window as
/// a reader of a file would, and returns the configuration found, if any.
pub fn extract_with(engines: Engines, image: &[u8]) -> (r: Option<Vec<u8>>)
    requires
        engines.wf(),
    ensures
        match r {
            Some(v) => extracted(image@) == Some(v@),
            None => extracted(image@) is None,
        },
{
    let ghost img = image@;
    let (mut c, mut req) = Cascade::start(engines, image.len() as u64);
    proof {
        lemma_entered_inv(img, 0, c, req);
    }
    loop
        invariant
            img == image@,
            image@.len() == image.len(),
            driver_inv(img, c, req),
        decreases remaining(img.len(), c, req).0, remaining(img.len(), c, req).1, remaining(img.len(), c, req).2,
    {
        match req {
            Request::Read { offset, len } => {
                proof {
                    c.scanner().lemma_window_bounds();
                }
                let start = offset as usize;
                let chunk = &image[start..start + len];
                let ghost (c0, r0) = (c, req);
                let (c2, r2) = c.on_chunk(chunk);
                proof {
                    lemma_chunk_step(img, c0, r0, chunk@, c2, r2);
                }
                c = c2;
                req = r2;
            },
            Request::ReadRest { offset } => {
                let rest = &image[offset as usize..image.len()];
                let ghost (c0, r0) = (c, req);
                let (c2, r2) = c.on_rest(rest);
                proof {
                    lemma_rest_step(img, c0, r0, rest@, c2, r2);
                }
                c = c2;
                req = r2;
            },
            Request::Config(v) => return Some(v),
            Request::NotFound => return None,
        }
    }
}

/// Extracts the configuration from an image held in memory.
///
/// Fails with `NotFound` when no stage yields a configuration, and with the
/// error of `Engines::new` when the search cannot be set up.
pub fn extract_config(image: &[u8]) -> (r: Result<Vec<u8>, ErrorKind>)
    ensures
        r matches Ok(v) ==> extracted(image@) == Some(v@),
        r == Err::<Vec<u8>, ErrorKind>(ErrorKind::NotFound) ==> extracted(image@) is None,
        r matches Err(k) ==> k == ErrorKind::NotFound || k == ErrorKind::InvalidInput || k == ErrorKind::Unavailable,
        !patterns_build() ==> r == Err::<Vec<u8>, ErrorKind>(ErrorKind::InvalidInput),
        patterns_build() && r != Err::<Vec<u8>, ErrorKind>(ErrorKind::Unavailable) ==> match extracted(image@) {
            Some(c) => r matches Ok(v) && v@ == c,
            None => r == Err::<Vec<u8>, ErrorKind>(ErrorKind::NotFound),
        },
{
    let engines = match Engines::new() {
        Ok(e) => e,
        Err(e) => return Err(e),
    };
    match extract_with(engines, image) {
        Some(v) => Ok(v),
        None => Err(ErrorKind::NotFound),
    }
}

/// An image that holds neither the marker nor any format's magic number
/// yields no configuration.
pub proof fn lemma_nothing_recognised_not_found(image: Seq<u8>)
    requires
        forall|s: int| 0 <= s <= FORMAT_COUNT ==> !occurs(image, #[trigger] stage_pattern(s)),
    ensures
        extracted(image) is None,
{
    assert forall|s: int| 0 <= s <= FORMAT_COUNT implies #[trigger] stage_result(image, s) is None by {
        lemma_absent_not_found(image, stage_pattern(s));
    }
    lemma_outcome_none(image, 0);
}

/// With no stage from `s` on yielding anything, nothing is extracted.
proof fn lemma_outcome_none(image: Seq<u8>, s: int)
    requires
        0 <= s,
        forall|t: int| s <= t <= FORMAT_COUNT ==> #[trigger] stage_result(image, t) is None,
    ensures
        outcome_from(image, s) is None,
    decreases FORMAT_COUNT + 1 - s,
{
    if s <= FORMAT_COUNT {
        lemma_outcome_none(image, s + 1);
    }
}

} // verus!
