//! `Content-Length: <n>\r\n\r\n<body>` framing.
//!
//! A frame owns its complete on-wire bytes, so what was read can be written
//! back unchanged whatever headers it carried and whether or not its body is
//! JSON. The grammar is stated over byte sequences; reading from a socket or a
//! pipe drives the same [`HeaderBlock`] that [`read_frame`] drives over bytes
//! already in memory.

use crate::text;
use vstd::prelude::*;
use vstd::slice::{slice_subrange, slice_to_vec};
use vstd::string::StrSliceExecFns;
use vstd::utf8::*;

verus! {

// ---------------------------------------------------------------------------
// Header lines
// ---------------------------------------------------------------------------

/// Why the value of a `Content-Length` header is not a length.
#[derive(Debug, Clone, Copy, PartialEq, Eq, Structural)]
pub enum LengthError {
    /// Nothing but white space.
    Empty,
    /// A character that is not a decimal digit.
    InvalidDigit,
    /// A number that does not fit a `usize`.
    Overflow,
}

/// The length that `s` denotes: decimal digits, with one leading `+` allowed.
/// The text is judged from left to right, so a number that is already too
/// large is `Overflow` whatever follows it.
pub open spec fn parse_length(s: Seq<char>) -> Result<usize, LengthError> {
    let digits = if s.len() > 0 && s[0] == '+' {
        s.drop_first()
    } else {
        s
    };
    let run = text::digits_len(digits);
    if s.len() == 0 {
        Err(LengthError::Empty)
    } else if text::decimal_value(digits.take(run as int)) > usize::MAX {
        Err(LengthError::Overflow)
    } else if digits.len() == 0 || run < digits.len() {
        Err(LengthError::InvalidDigit)
    } else {
        Ok(text::decimal_value(digits) as usize)
    }
}

/// What one header line says.
#[derive(Debug, Clone, Copy, PartialEq, Eq, Structural)]
pub enum HeaderLine {
    /// The blank line that ends the header block.
    End,
    /// A `Content-Length` header with this length.
    Length(usize),
    /// Any other header; kept, not interpreted.
    Other,
}

/// Why a frame could not be read.
#[derive(Debug)]
pub enum FrameError {
    /// The stream ended in the middle of a header block.
    HeaderEof,
    /// The stream ended in the middle of a body.
    BodyEof,
    /// A header line is not UTF-8.
    InvalidUtf8,
    /// A header line without a colon; the line, without its terminator.
    MalformedHeader(String),
    /// A `Content-Length` that is not a length.
    BadContentLength(LengthError),
    /// A header block without a `Content-Length`.
    MissingContentLength,
}

/// The value of a [`FrameError`].
pub enum FrameFault {
    HeaderEof,
    BodyEof,
    InvalidUtf8,
    MalformedHeader(Seq<char>),
    BadContentLength(LengthError),
    MissingContentLength,
}

impl View for FrameError {
    type V = FrameFault;

    open spec fn view(&self) -> FrameFault {
        match self {
            FrameError::HeaderEof => FrameFault::HeaderEof,
            FrameError::BodyEof => FrameFault::BodyEof,
            FrameError::InvalidUtf8 => FrameFault::InvalidUtf8,
            FrameError::MalformedHeader(line) => FrameFault::MalformedHeader(line@),
            FrameError::BadContentLength(e) => FrameFault::BadContentLength(*e),
            FrameError::MissingContentLength => FrameFault::MissingContentLength,
        }
    }
}

/// The index of the first colon in `s`; its length if there is none.
pub open spec fn colon_index(s: Seq<char>) -> nat
    decreases s.len(),
{
    if s.len() == 0 || s[0] == ':' {
        0
    } else {
        1 + colon_index(s.drop_first())
    }
}

/// The code of `c` with the letters `A`..=`Z` folded onto `a`..=`z`.
pub open spec fn ascii_lower(c: char) -> int {
    if 'A' <= c <= 'Z' {
        c as int + 32
    } else {
        c as int
    }
}

/// `a` and `b` differ at most in the case of ASCII letters.
pub open spec fn eq_ignore_case(a: Seq<char>, b: Seq<char>) -> bool {
    a.len() == b.len() && forall|i: int|
        0 <= i < a.len() ==> ascii_lower(#[trigger] a[i]) == ascii_lower(b[i])
}

/// What a header line (with its terminator) says.
pub open spec fn header_line(line: Seq<u8>) -> Result<HeaderLine, FrameFault> {
    let content = text::trim_line_end(decode_utf8(line));
    let colon = colon_index(content);
    if !valid_utf8(line) {
        Err(FrameFault::InvalidUtf8)
    } else if content.len() == 0 {
        Ok(HeaderLine::End)
    } else if colon == content.len() {
        Err(FrameFault::MalformedHeader(content))
    } else if eq_ignore_case(text::trim(content.take(colon as int)), "content-length"@) {
        match parse_length(text::trim(content.skip(colon as int + 1))) {
            Ok(n) => Ok(HeaderLine::Length(n)),
            Err(e) => Err(FrameFault::BadContentLength(e)),
        }
    } else {
        Ok(HeaderLine::Other)
    }
}

/// The length that a header value denotes.
pub fn read_length(value: &[char]) -> (r: Result<usize, LengthError>)
    ensures
        r == parse_length(value@),
{
    if value.len() == 0 {
        return Err(LengthError::Empty);
    }
    let start: usize = if value[0] == '+' {
        1
    } else {
        0
    };
    let digits: &[char] = slice_subrange(value, start, value.len());
    proof {
        assert(digits@ =~= if value@[0] == '+' {
            value@.drop_first()
        } else {
            value@
        });
        text::lemma_digits_len(digits@);
        assert(digits@.take(0) =~= Seq::<char>::empty());
    }
    if digits.len() == 0 {
        return Err(LengthError::InvalidDigit);
    }
    let mut n: usize = 0;
    let mut i: usize = 0;
    while i < digits.len()
        invariant
            i <= digits@.len(),
            value@.len() > 0,
            digits@.len() > 0,
            digits@ == (if value@[0] == '+' {
                value@.drop_first()
            } else {
                value@
            }),
            forall|k: int| 0 <= k < i ==> text::is_digit(#[trigger] digits@[k]),
            n == text::decimal_value(digits@.take(i as int)),
        decreases digits.len() - i,
    {
        let c: char = digits[i];
        if c < '0' || '9' < c {
            proof {
                text::lemma_digits_len_is(digits@, i as nat);
            }
            return Err(LengthError::InvalidDigit);
        }
        let d: usize = c as usize - '0' as usize;
        proof {
            assert(digits@.take(i + 1).drop_last() =~= digits@.take(i as int));
            assert(text::decimal_value(digits@.take(i + 1)) == n * 10 + d);
        }
        if n > (usize::MAX - d) / 10 {
            proof {
                assert(n * 10 + d > usize::MAX);
                text::lemma_digits_len(digits@);
                let run = text::digits_len(digits@);
                if run <= i {
                    assert(text::is_digit(digits@[run as int]));
                }
                text::lemma_decimal_value_monotone(digits@, i + 1, run as int);
            }
            return Err(LengthError::Overflow);
        }
        n = n * 10 + d;
        i = i + 1;
    }
    proof {
        text::lemma_digits_len_is(digits@, i as nat);
        assert(digits@.take(i as int) =~= digits@);
    }
    Ok(n)
}

fn lower(c: char) -> (r: u32)
    ensures
        r == ascii_lower(c),
{
    if 'A' <= c && c <= 'Z' {
        c as u32 + 32
    } else {
        c as u32
    }
}

/// Whether two texts differ at most in the case of ASCII letters.
fn same_ignoring_case(a: &[char], b: &[char]) -> (r: bool)
    ensures
        r == eq_ignore_case(a@, b@),
{
    if a.len() != b.len() {
        return false;
    }
    let mut i: usize = 0;
    while i < a.len()
        invariant
            i <= a@.len(),
            a@.len() == b@.len(),
            forall|k: int| 0 <= k < i ==> ascii_lower(#[trigger] a@[k]) == ascii_lower(b@[k]),
        decreases a.len() - i,
    {
        if lower(a[i]) != lower(b[i]) {
            return false;
        }
        i = i + 1;
    }
    true
}

/// Where the first colon of `s` stands.
fn find_colon(s: &[char]) -> (r: usize)
    ensures
        r == colon_index(s@),
        r <= s@.len(),
{
    let mut i: usize = 0;
    assert(s@.skip(0) =~= s@);
    while i < s.len() && s[i] != ':'
        invariant
            i <= s@.len(),
            colon_index(s@) == i + colon_index(s@.skip(i as int)),
        decreases s.len() - i,
    {
        assert(s@.skip(i as int).drop_first() =~= s@.skip(i + 1));
        i = i + 1;
    }
    i
}

/// Interpret one header line, given with its terminator.
pub fn read_header_line(line: &[u8]) -> (r: Result<HeaderLine, FrameError>)
    ensures
        match r {
            Ok(h) => header_line(line@) == Ok::<HeaderLine, FrameFault>(h),
            Err(e) => header_line(line@) == Err::<HeaderLine, FrameFault>(e@),
        },
{
    let line_text: &str = match text::utf8_text(line) {
        Some(s) => s,
        None => return Err(FrameError::InvalidUtf8),
    };
    let chars: Vec<char> = text::chars_of(line_text);
    let content: &[char] = text::without_line_end(chars.as_slice());
    if content.len() == 0 {
        return Ok(HeaderLine::End);
    }
    let colon: usize = find_colon(content);
    if colon == content.len() {
        assert(content@ =~= line_text@.subrange(0, content@.len() as int));
        return Err(FrameError::MalformedHeader(line_text.substring_char(0, content.len()).to_owned()));
    }
    let name: &[char] = text::trimmed(slice_subrange(content, 0, colon));
    let value: &[char] = text::trimmed(slice_subrange(content, colon + 1, content.len()));
    assert(content@.subrange(0, colon as int) =~= content@.take(colon as int));
    assert(content@.subrange(colon + 1, content@.len() as int) =~= content@.skip(colon + 1));
    let wanted: Vec<char> = text::chars_of("content-length");
    if same_ignoring_case(name, wanted.as_slice()) {
        match read_length(value) {
            Ok(n) => Ok(HeaderLine::Length(n)),
            Err(e) => Err(FrameError::BadContentLength(e)),
        }
    } else {
        Ok(HeaderLine::Other)
    }
}

// ---------------------------------------------------------------------------
// Frames
// ---------------------------------------------------------------------------

/// One LSP frame, holding its complete on-wire representation: the header
/// block, the blank line, and the body from `body_offset` on.
#[derive(Debug, PartialEq, Eq)]
pub struct Frame {
    raw: Vec<u8>,
    body_offset: usize,
}

/// The value of a [`Frame`].
pub struct FrameView {
    /// The complete on-wire bytes.
    pub bytes: Seq<u8>,
    /// Where the body begins.
    pub body_offset: nat,
}

impl FrameView {
    /// The body bytes only.
    pub open spec fn body(self) -> Seq<u8> {
        self.bytes.skip(self.body_offset as int)
    }

    /// The body begins within the frame.
    pub open spec fn well_formed(self) -> bool {
        self.body_offset <= self.bytes.len()
    }
}

impl View for Frame {
    type V = FrameView;

    closed spec fn view(&self) -> FrameView {
        FrameView { bytes: self.raw@, body_offset: self.body_offset as nat }
    }
}

/// The canonical header block that announces a body of `n` bytes.
pub open spec fn canonical_header(n: nat) -> Seq<u8> {
    encode_utf8("Content-Length: "@ + text::decimal(n) + "\r\n\r\n"@)
}

/// The frame that carries `body` behind the canonical header block.
pub open spec fn canonical_frame(body: Seq<u8>) -> FrameView {
    FrameView {
        bytes: canonical_header(body.len()) + body,
        body_offset: canonical_header(body.len()).len(),
    }
}

impl Frame {
    #[verifier::type_invariant]
    closed spec fn body_in_range(self) -> bool {
        self.body_offset <= self.raw@.len()
    }

    /// Frame a body behind a canonical `Content-Length` header. For messages
    /// the proxy originates; forwarded traffic keeps the bytes it came with.
    pub fn from_body(body: &[u8]) -> (frame: Frame)
        ensures
            frame@ == canonical_frame(body@),
    {
        let mut header: String = "Content-Length: ".to_owned();
        header.append(text::decimal_string(body.len() as u64).as_str());
        header.append("\r\n\r\n");
        let mut raw: Vec<u8> = slice_to_vec(header.as_str().as_bytes());
        let body_offset: usize = raw.len();
        raw.extend_from_slice(body);
        assert(raw@ =~= canonical_header(body@.len()) + body@);
        Frame { raw, body_offset }
    }

    /// The complete on-wire bytes (headers + body). What forwarding writes.
    pub fn as_bytes(&self) -> (r: &[u8])
        ensures
            r@ == self@.bytes,
    {
        self.raw.as_slice()
    }

    /// The body bytes only. What snooping decodes.
    pub fn body(&self) -> (r: &[u8])
        ensures
            r@ == self@.body(),
            self@.well_formed(),
    {
        proof {
            use_type_invariant(self);
        }
        assert(self@.body() =~= self.raw@.subrange(self.body_offset as int, self.raw@.len() as int));
        slice_subrange(self.raw.as_slice(), self.body_offset, self.raw.len())
    }

    /// Consume the frame, yielding its on-wire bytes.
    pub fn into_bytes(self) -> (r: Vec<u8>)
        ensures
            r@ == self@.bytes,
    {
        self.raw
    }
}

impl Clone for Frame {
    fn clone(&self) -> (r: Frame)
        ensures
            r@ == self@,
    {
        proof {
            use_type_invariant(self);
        }
        Frame { raw: slice_to_vec(self.raw.as_slice()), body_offset: self.body_offset }
    }
}

// ---------------------------------------------------------------------------
// Reading frames
// ---------------------------------------------------------------------------

/// How long the first line of `s` is, its `\n` included; all of `s` if there
/// is no `\n`.
pub open spec fn line_len(s: Seq<u8>) -> nat
    decreases s.len(),
{
    if s.len() == 0 {
        0
    } else if s[0] == 10 {
        1
    } else {
        1 + line_len(s.drop_first())
    }
}

/// The outcome of reading a header block: how many bytes were taken, and the
/// length of the body it announces, or the fault that ended it.
pub struct HeaderScan {
    pub taken: nat,
    pub outcome: Result<usize, FrameFault>,
}

/// Read a header block at the front of `s`, the headers before it having
/// announced `declared`. The last `Content-Length` counts. A line that the end
/// of the stream cut off before its `\n` does not end the block: the stream
/// ended inside it.
pub open spec fn scan_header(s: Seq<u8>, declared: Option<usize>) -> HeaderScan
    decreases s.len(),
{
    let n = line_len(s);
    if s.len() == 0 || n == 0 || n > s.len() {
        HeaderScan { taken: 0, outcome: Err(FrameFault::HeaderEof) }
    } else {
        match header_line(s.take(n as int)) {
            Err(fault) => HeaderScan { taken: n, outcome: Err(fault) },
            Ok(_) if s[n - 1] != 10 => HeaderScan {
                taken: n,
                outcome: Err(FrameFault::HeaderEof),
            },
            Ok(HeaderLine::End) => HeaderScan {
                taken: n,
                outcome: match declared {
                    Some(len) => Ok(len),
                    None => Err(FrameFault::MissingContentLength),
                },
            },
            Ok(HeaderLine::Length(len)) => {
                let rest = scan_header(s.skip(n as int), Some(len));
                HeaderScan { taken: n + rest.taken, outcome: rest.outcome }
            },
            Ok(HeaderLine::Other) => {
                let rest = scan_header(s.skip(n as int), declared);
                HeaderScan { taken: n + rest.taken, outcome: rest.outcome }
            },
        }
    }
}

/// The outcome of reading one frame: how many bytes were taken, and the frame,
/// or `None` at a clean end of the stream, or the fault.
pub struct FrameRead {
    pub taken: nat,
    pub outcome: Result<Option<FrameView>, FrameFault>,
}

/// Read one frame at the front of `s`. An end of the stream is clean only at
/// a frame boundary.
pub open spec fn frame_at(s: Seq<u8>) -> FrameRead {
    let header = scan_header(s, None);
    if s.len() == 0 {
        FrameRead { taken: 0, outcome: Ok(None) }
    } else {
        match header.outcome {
            Err(fault) => FrameRead { taken: header.taken, outcome: Err(fault) },
            Ok(len) => if header.taken + len <= s.len() {
                FrameRead {
                    taken: header.taken + len as nat,
                    outcome: Ok(
                        Some(
                            FrameView {
                                bytes: s.take(header.taken + len as int),
                                body_offset: header.taken,
                            },
                        ),
                    ),
                }
            } else {
                FrameRead { taken: s.len(), outcome: Err(FrameFault::BodyEof) }
            },
        }
    }
}

/// What a header block wants next.
#[derive(Debug, Clone, Copy, PartialEq, Eq, Structural)]
pub enum HeaderStep {
    /// Another line.
    More,
    /// A body of this many bytes.
    Body(usize),
    /// Nothing: the stream ended cleanly before a frame began.
    Closed,
}

/// What a header block makes of the next line, the lines before it being
/// `taken` and having announced `declared`. An empty line stands for the end
/// of the stream; one without its `\n` was cut off by it.
pub open spec fn header_step(taken: Seq<u8>, declared: Option<usize>, line: Seq<u8>) -> Result<
    HeaderStep,
    FrameFault,
> {
    if line.len() == 0 {
        if taken.len() == 0 {
            Ok(HeaderStep::Closed)
        } else {
            Err(FrameFault::HeaderEof)
        }
    } else {
        match header_line(line) {
            Err(fault) => Err(fault),
            Ok(_) if line.last() != 10 => Err(FrameFault::HeaderEof),
            Ok(HeaderLine::End) => match declared {
                Some(n) => Ok(HeaderStep::Body(n)),
                None => Err(FrameFault::MissingContentLength),
            },
            Ok(_) => Ok(HeaderStep::More),
        }
    }
}

/// The length announced once `line` has followed headers that announced
/// `declared`.
pub open spec fn declared_after(declared: Option<usize>, line: Seq<u8>) -> Option<usize> {
    match header_line(line) {
        Ok(HeaderLine::Length(n)) => Some(n),
        _ => declared,
    }
}

/// A header block under construction: the bytes of its lines so far, and the
/// length they announce. Whoever owns the stream feeds it line by line.
pub struct HeaderBlock {
    raw: Vec<u8>,
    declared: Option<usize>,
}

impl HeaderBlock {
    /// The bytes of the lines so far.
    pub closed spec fn taken(self) -> Seq<u8> {
        self.raw@
    }

    /// The body length announced so far.
    pub closed spec fn declared(self) -> Option<usize> {
        self.declared
    }

    /// The block before its first line.
    pub fn new() -> (r: HeaderBlock)
        ensures
            r.taken() == Seq::<u8>::empty(),
            r.declared() is None,
    {
        HeaderBlock { raw: Vec::new(), declared: None }
    }

    /// Take the next line, given with its terminator; an empty one at the end
    /// of the stream.
    pub fn push_line(&mut self, line: &[u8]) -> (r: Result<HeaderStep, FrameError>)
        ensures
            match r {
                Ok(step) => header_step(old(self).taken(), old(self).declared(), line@) == Ok::<
                    HeaderStep,
                    FrameFault,
                >(step),
                Err(e) => header_step(old(self).taken(), old(self).declared(), line@) == Err::<
                    HeaderStep,
                    FrameFault,
                >(e@),
            },
            final(self).taken() == old(self).taken() + line@,
            line@.len() > 0 ==> final(self).declared() == declared_after(
                old(self).declared(),
                line@,
            ),
            line@.len() == 0 ==> final(self).declared() == old(self).declared(),
    {
        if line.len() == 0 {
            assert(self.taken() =~= old(self).taken() + line@);
            if self.raw.len() == 0 {
                return Ok(HeaderStep::Closed);
            }
            return Err(FrameError::HeaderEof);
        }
        self.raw.extend_from_slice(line);
        assert(self.raw@ =~= old(self).raw@ + line@);
        let said: HeaderLine = match read_header_line(line) {
            Ok(said) => said,
            Err(e) => return Err(e),
        };
        match said {
            HeaderLine::Length(n) => {
                self.declared = Some(n);
            },
            _ => {},
        }
        if line[line.len() - 1] != 10 {
            return Err(FrameError::HeaderEof);
        }
        match said {
            HeaderLine::End => match self.declared {
                Some(n) => Ok(HeaderStep::Body(n)),
                None => Err(FrameError::MissingContentLength),
            },
            _ => Ok(HeaderStep::More),
        }
    }

    /// The frame of this block and its body.
    pub fn complete(self, body: &[u8]) -> (frame: Frame)
        requires
            self.declared() == Some(body@.len() as usize),
        ensures
            frame@ == (FrameView {
                bytes: self.taken() + body@,
                body_offset: self.taken().len(),
            }),
    {
        let mut raw: Vec<u8> = self.raw;
        let body_offset: usize = raw.len();
        raw.extend_from_slice(body);
        assert(raw@ =~= self.raw@ + body@);
        Frame { raw, body_offset }
    }
}

/// A stream of bytes that are already in memory.
pub struct ByteReader<'a> {
    data: &'a [u8],
    pos: usize,
}

impl<'a> ByteReader<'a> {
    #[verifier::type_invariant]
    closed spec fn pos_in_range(self) -> bool {
        self.pos <= self.data@.len()
    }

    /// The bytes not read yet.
    pub closed spec fn remaining(self) -> Seq<u8> {
        self.data@.skip(self.pos as int)
    }

    /// A stream that yields `data`.
    pub fn new(data: &'a [u8]) -> (r: ByteReader<'a>)
        ensures
            r.remaining() == data@,
    {
        assert(data@.skip(0) =~= data@);
        ByteReader { data, pos: 0 }
    }

    /// Take the next line, its `\n` included; what is left if no `\n` follows.
    fn read_line(&mut self) -> (line: &'a [u8])
        ensures
            line_len(old(self).remaining()) <= old(self).remaining().len(),
            line@ == old(self).remaining().take(line_len(old(self).remaining()) as int),
            final(self).remaining() == old(self).remaining().skip(
                line_len(old(self).remaining()) as int,
            ),
    {
        proof {
            use_type_invariant(&*self);
        }
        let data: &'a [u8] = self.data;
        let start: usize = self.pos;
        let ghost rest = data@.skip(start as int);
        let mut end: usize = start;
        assert(rest.skip(0) =~= rest);
        while end < data.len() && data[end] != 10
            invariant
                start <= end <= data@.len(),
                rest == data@.skip(start as int),
                line_len(rest) == (end - start) + line_len(rest.skip(end - start)),
            decreases data.len() - end,
        {
            assert(rest.skip(end - start)[0] == data@[end as int]);
            assert(rest.skip(end - start).drop_first() =~= rest.skip(end + 1 - start));
            end = end + 1;
        }
        if end < data.len() {
            assert(rest.skip(end - start)[0] == data@[end as int]);
            end = end + 1;
        } else {
            assert(rest.skip(end - start).len() == 0);
        }
        self.pos = end;
        assert(data@.subrange(start as int, end as int) =~= rest.take(line_len(rest) as int));
        assert(data@.skip(end as int) =~= rest.skip(line_len(rest) as int));
        slice_subrange(data, start, end)
    }

    /// Take the next `n` bytes; everything, with `None`, if fewer are left.
    fn read_exact(&mut self, n: usize) -> (r: Option<&'a [u8]>)
        ensures
            match r {
                Some(bytes) => {
                    &&& n <= old(self).remaining().len()
                    &&& bytes@ == old(self).remaining().take(n as int)
                    &&& final(self).remaining() == old(self).remaining().skip(n as int)
                },
                None => {
                    &&& n > old(self).remaining().len()
                    &&& final(self).remaining() == Seq::<u8>::empty()
                },
            },
    {
        proof {
            use_type_invariant(&*self);
        }
        let data: &'a [u8] = self.data;
        let start: usize = self.pos;
        if n > data.len() - start {
            self.pos = data.len();
            assert(data@.skip(data@.len() as int) =~= Seq::<u8>::empty());
            return None;
        }
        let end: usize = start + n;
        self.pos = end;
        assert(data@.subrange(start as int, end as int) =~= data@.skip(start as int).take(n as int));
        assert(data@.skip(end as int) =~= data@.skip(start as int).skip(n as int));
        Some(slice_subrange(data, start, end))
    }
}

/// The value of what [`read_frame`] returns.
pub open spec fn read_view(r: Result<Option<Frame>, FrameError>) -> Result<
    Option<FrameView>,
    FrameFault,
> {
    match r {
        Ok(Some(frame)) => Ok(Some(frame@)),
        Ok(None) => Ok(None),
        Err(e) => Err(e@),
    }
}

/// Read one frame.
///
/// `Ok(None)` is a clean end of the stream at a frame boundary. An end in the
/// middle of a frame, or malformed data, is an error. Unknown headers are
/// tolerated and kept; only `Content-Length` is interpreted.
pub fn read_frame(reader: &mut ByteReader<'_>) -> (r: Result<Option<Frame>, FrameError>)
    ensures
        read_view(r) == frame_at(old(reader).remaining()).outcome,
        final(reader).remaining() == old(reader).remaining().skip(
            frame_at(old(reader).remaining()).taken as int,
        ),
{
    let ghost stream = reader.remaining();
    let mut block: HeaderBlock = HeaderBlock::new();
    assert(stream.skip(0) =~= stream);
    loop
        invariant
            block.taken().len() <= stream.len(),
            block.taken() == stream.take(block.taken().len() as int),
            reader.remaining() == stream.skip(block.taken().len() as int),
            stream == old(reader).remaining(),
            scan_header(stream, None).outcome == scan_header(
                reader.remaining(),
                block.declared(),
            ).outcome,
            scan_header(stream, None).taken == block.taken().len() + scan_header(
                reader.remaining(),
                block.declared(),
            ).taken,
        decreases reader.remaining().len(),
    {
        let ghost before = reader.remaining();
        let ghost n = line_len(before);
        proof {
            lemma_line_len(before);
            assert(before.take(n as int) =~= stream.subrange(
                block.taken().len() as int,
                (block.taken().len() + n) as int,
            ));
            assert(stream.take(block.taken().len() as int) + before.take(n as int) =~= stream.take(
                (block.taken().len() + n) as int,
            ));
            assert(before.skip(n as int) =~= stream.skip((block.taken().len() + n) as int));
        }
        let line: &[u8] = reader.read_line();
        match block.push_line(line) {
            Err(e) => {
                return Err(e);
            },
            Ok(HeaderStep::Closed) => {
                return Ok(None);
            },
            Ok(HeaderStep::More) => {},
            Ok(HeaderStep::Body(len)) => {
                let ghost h = block.taken().len();
                match reader.read_exact(len) {
                    None => {
                        assert(stream.skip(stream.len() as int) =~= Seq::<u8>::empty());
                        return Err(FrameError::BodyEof);
                    },
                    Some(body) => {
                        assert(stream.take(h as int) + stream.skip(h as int).take(len as int)
                            =~= stream.take(h + len));
                        assert(stream.skip(h as int).skip(len as int) =~= stream.skip(h + len));
                        return Ok(Some(block.complete(body)));
                    },
                }
            },
        }
    }
}

/// Append a frame's on-wire bytes to `sink`, verbatim.
pub fn write_frame(sink: &mut Vec<u8>, frame: &Frame)
    ensures
        final(sink)@ == old(sink)@ + frame@.bytes,
{
    sink.extend_from_slice(frame.as_bytes());
    assert(sink@ =~= old(sink)@ + frame@.bytes);
}

// ---------------------------------------------------------------------------
// Laws
// ---------------------------------------------------------------------------

proof fn lemma_line_len(s: Seq<u8>)
    ensures
        line_len(s) <= s.len(),
        s.len() > 0 ==> line_len(s) > 0,
        forall|i: int| 0 <= i < line_len(s) - 1 ==> s[i] != 10,
        line_len(s) < s.len() ==> s[line_len(s) - 1] == 10,
    decreases s.len(),
{
    if s.len() > 0 && s[0] != 10 {
        let rest = s.drop_first();
        lemma_line_len(rest);
        assert forall|i: int| 0 <= i < line_len(s) - 1 implies s[i] != 10 by {
            if i > 0 {
                assert(s[i] == rest[i - 1]);
            }
        }
        if line_len(s) < s.len() {
            assert(s[line_len(s) - 1] == rest[line_len(rest) - 1]);
        }
    }
}

/// A line that ends at its first `\n`.
proof fn lemma_line_len_is(s: Seq<u8>, n: nat)
    requires
        0 < n <= s.len(),
        s[n - 1] == 10,
        forall|i: int| 0 <= i < n - 1 ==> s[i] != 10,
    ensures
        line_len(s) == n,
    decreases s.len(),
{
    if n > 1 {
        let rest = s.drop_first();
        assert(rest[n - 2] == s[n - 1]);
        assert forall|i: int| 0 <= i < n - 2 implies rest[i] != 10 by {
            assert(rest[i] == s[i + 1]);
        }
        lemma_line_len_is(rest, (n - 1) as nat);
    }
}

proof fn lemma_colon_index_is(s: Seq<char>, n: nat)
    requires
        n < s.len(),
        s[n as int] == ':',
        forall|i: int| 0 <= i < n ==> s[i] != ':',
    ensures
        colon_index(s) == n,
    decreases s.len(),
{
    if n > 0 {
        let rest = s.drop_first();
        assert(rest[n - 1] == s[n as int]);
        assert forall|i: int| 0 <= i < n - 1 implies rest[i] != ':' by {
            assert(rest[i] == s[i + 1]);
        }
        lemma_colon_index_is(rest, (n - 1) as nat);
    }
}

/// A length is read back from its decimal digits.
pub proof fn length_reads_back(n: usize)
    ensures
        parse_length(text::decimal(n as nat)) == Ok::<usize, LengthError>(n),
{
    let s = text::decimal(n as nat);
    text::lemma_decimal(n as nat);
    assert(text::is_digit(s[0]));
    text::lemma_digits_len_is(s, s.len());
    assert(s.take(s.len() as int) =~= s);
}

/// The lines of the canonical header block, and what they say.
proof fn lemma_canonical_lines(n: usize)
    ensures
        ({
            let first = encode_utf8("Content-Length: "@ + text::decimal(n as nat) + "\r\n"@);
            let blank = encode_utf8("\r\n"@);
            &&& canonical_header(n as nat) == first + blank
            &&& header_line(first) == Ok::<HeaderLine, FrameFault>(HeaderLine::Length(n))
            &&& header_line(blank) == Ok::<HeaderLine, FrameFault>(HeaderLine::End)
            &&& first.len() > 0 && first.last() == 10
            &&& forall|i: int| 0 <= i < first.len() - 1 ==> first[i] != 10
            &&& blank.len() == 2 && blank[0] == 13 && blank[1] == 10
        }),
{
    reveal_strlit("Content-Length: ");
    reveal_strlit("content-length");
    reveal_strlit("\r\n");
    reveal_strlit("\r\n\r\n");
    let dec = text::decimal(n as nat);
    text::lemma_decimal(n as nat);
    text::lemma_decimal_ascii(n as nat);
    let lead = "Content-Length: "@;
    let crlf = "\r\n"@;
    let content = lead + dec;
    let first_chars = content + crlf;
    let all_chars = lead + dec + "\r\n\r\n"@;
    assert(is_ascii_chars(lead));
    assert(is_ascii_chars(crlf));
    assert forall|i: int| 0 <= i < first_chars.len() implies '\0' <= #[trigger] first_chars[i]
        <= '\u{7f}' by {
        if lead.len() <= i < content.len() {
            assert(first_chars[i] == dec[i - lead.len()]);
        }
    }
    assert(all_chars =~= first_chars + crlf);
    assert(is_ascii_chars(all_chars));
    is_ascii_chars_encode_utf8(all_chars);
    is_ascii_chars_encode_utf8(first_chars);
    is_ascii_chars_encode_utf8(crlf);
    let first = encode_utf8(first_chars);
    let blank = encode_utf8(crlf);
    let header = canonical_header(n as nat);
    assert forall|i: int| 0 <= i < header.len() implies header[i] == (first + blank)[i] by {
        assert(header[i] == all_chars[i] as u8);
        if i < first.len() {
            assert(first[i] == first_chars[i] as u8);
        } else {
            assert(blank[i - first.len()] == crlf[i - first.len()] as u8);
        }
    }
    assert(header =~= first + blank);
    encode_utf8_valid_utf8(first_chars);
    encode_utf8_decode_utf8(first_chars);
    encode_utf8_valid_utf8(crlf);
    encode_utf8_decode_utf8(crlf);

    // The blank line.
    assert(text::trim_line_end(crlf) =~= Seq::<char>::empty()) by {
        reveal_with_fuel(text::trim_line_end, 3);
    }

    // The length line: its content, its name and its value.
    assert(first_chars.drop_last().drop_last() =~= content);
    assert(first_chars.drop_last().last() == '\r');
    assert(content.last() == dec.last());
    assert(text::is_digit(dec[dec.len() - 1]));
    assert(text::trim_line_end(first_chars) == content) by {
        reveal_with_fuel(text::trim_line_end, 3);
    }
    lemma_colon_index_is(content, 14);
    let name = content.take(14);
    assert(name =~= lead.take(14));
    assert(text::trim(name) == name);
    assert(eq_ignore_case(name, "content-length"@));
    let value = content.skip(15);
    assert(value.drop_first() =~= dec);
    assert(text::is_digit(dec[0]));
    assert(text::trim_start(value) == dec) by {
        reveal_with_fuel(text::trim_start, 2);
    }
    assert(text::trim(value) == dec);
    length_reads_back(n);

    // Where the line ends.
    assert forall|i: int| 0 <= i < first.len() - 1 implies first[i] != 10 by {
        assert(first[i] == first_chars[i] as u8);
        if lead.len() <= i < content.len() {
            assert(text::is_digit(dec[i - lead.len()]));
        }
    }
    assert(first[first.len() - 1] == first_chars[first_chars.len() - 1] as u8);
    assert(blank[0] == crlf[0] as u8);
    assert(blank[1] == crlf[1] as u8);
}

/// What is framed is read back: whatever follows it on the stream, the frame
/// of `body` is read as that frame, and exactly its bytes are taken.
pub proof fn framed_body_reads_back(body: Seq<u8>, rest: Seq<u8>)
    requires
        body.len() <= usize::MAX,
    ensures
        frame_at(canonical_frame(body).bytes + rest) == (FrameRead {
            taken: canonical_frame(body).bytes.len(),
            outcome: Ok(Some(canonical_frame(body))),
        }),
        canonical_frame(body).body() == body,
        canonical_frame(body).well_formed(),
{
    let n = body.len() as usize;
    let frame = canonical_frame(body);
    let s = frame.bytes + rest;
    let first = encode_utf8("Content-Length: "@ + text::decimal(n as nat) + "\r\n"@);
    let blank = encode_utf8("\r\n"@);
    lemma_canonical_lines(n);
    assert(frame.body() =~= body);
    lemma_line_len_is(s, first.len());
    assert(s.take(first.len() as int) =~= first);
    let after = s.skip(first.len() as int);
    assert(after =~= blank + body + rest);
    lemma_line_len_is(after, 2);
    assert(after.take(2) =~= blank);
    reveal_with_fuel(scan_header, 3);
    assert(scan_header(after, Some(n)).outcome == Ok::<usize, FrameFault>(n));
    assert(scan_header(s, None).taken == first.len() + 2);
    assert(s.take(frame.bytes.len() as int) =~= frame.bytes);
}

proof fn lemma_scan_taken(s: Seq<u8>, declared: Option<usize>)
    ensures
        scan_header(s, declared).taken <= s.len(),
        s.len() > 0 ==> scan_header(s, declared).taken > 0,
    decreases s.len(),
{
    lemma_line_len(s);
    let n = line_len(s);
    if s.len() > 0 {
        match header_line(s.take(n as int)) {
            Ok(HeaderLine::Length(len)) => {
                lemma_scan_taken(s.skip(n as int), Some(len));
            },
            Ok(HeaderLine::Other) => {
                lemma_scan_taken(s.skip(n as int), declared);
            },
            _ => {},
        }
    }
}

/// A frame that is read holds exactly the bytes taken from the stream, so
/// writing it back gives the stream what it had; and its body begins within it.
pub proof fn read_frame_is_verbatim(s: Seq<u8>)
    ensures
        frame_at(s).taken <= s.len(),
        frame_at(s).outcome matches Ok(Some(frame)) ==> {
            &&& frame.well_formed()
            &&& frame.bytes.len() == frame_at(s).taken > 0
            &&& frame.bytes + s.skip(frame_at(s).taken as int) == s
        },
{
    lemma_scan_taken(s, None);
    if let Ok(Some(frame)) = frame_at(s).outcome {
        assert(frame.bytes + s.skip(frame_at(s).taken as int) =~= s);
    }
}

/// A header block is read from its own bytes alone.
proof fn lemma_scan_local(s: Seq<u8>, t: Seq<u8>, declared: Option<usize>)
    requires
        scan_header(s, declared).outcome is Ok,
        scan_header(s, declared).taken <= t.len(),
        t.take(scan_header(s, declared).taken as int) == s.take(
            scan_header(s, declared).taken as int,
        ),
    ensures
        scan_header(t, declared) == scan_header(s, declared),
    decreases s.len(),
{
    lemma_line_len(s);
    lemma_scan_taken(s, declared);
    let n = line_len(s);
    let taken = scan_header(s, declared).taken;
    assert forall|i: int| 0 <= i < taken implies s[i] == t[i] by {
        assert(s[i] == s.take(taken as int)[i]);
        assert(t[i] == t.take(taken as int)[i]);
    }
    assert(s.len() > 0);
    assert(s[n - 1] == 10);
    let next = match header_line(s.take(n as int)) {
        Ok(HeaderLine::Length(len)) => Some(len),
        _ => declared,
    };
    if header_line(s.take(n as int)) == Ok::<HeaderLine, FrameFault>(HeaderLine::End) {
        assert(taken == n);
        lemma_line_len_is(t, n);
        assert(t.take(n as int) =~= s.take(n as int));
    } else {
        let rest = s.skip(n as int);
        assert(taken == n + scan_header(rest, next).taken);
        lemma_scan_taken(rest, next);
        lemma_line_len_is(t, n);
        assert(t.take(n as int) =~= s.take(n as int));
        let sub = scan_header(rest, next).taken;
        assert(t.skip(n as int).take(sub as int) =~= rest.take(sub as int)) by {
            assert forall|i: int| 0 <= i < sub implies t.skip(n as int).take(sub as int)[i]
                == rest.take(sub as int)[i] by {
                assert(s[n + i] == t[n + i]);
            }
        }
        lemma_scan_local(rest, t.skip(n as int), next);
    }
}

/// A frame that was read can be written back and read again: whatever follows
/// it, the same frame comes out.
pub proof fn reread_frame_is_same(s: Seq<u8>, frame: FrameView, rest: Seq<u8>)
    requires
        frame_at(s).outcome == Ok::<Option<FrameView>, FrameFault>(Some(frame)),
    ensures
        frame_at(frame.bytes + rest) == (FrameRead {
            taken: frame.bytes.len(),
            outcome: Ok(Some(frame)),
        }),
{
    read_frame_is_verbatim(s);
    lemma_scan_taken(s, None);
    let h = frame.body_offset;
    let t = frame.bytes + rest;
    assert(t.take(h as int) =~= s.take(h as int));
    lemma_scan_local(s, t, None);
    assert(t.take(frame.bytes.len() as int) =~= frame.bytes);
}

/// An end of the stream inside a frame is an error: a stream that is cut off
/// before the end of its first frame, but not before its first byte, gives no
/// frame and no clean end.
pub proof fn cut_off_frame_is_an_error(s: Seq<u8>, cut: int)
    requires
        frame_at(s).outcome matches Ok(Some(_)),
        0 < cut < frame_at(s).taken,
    ensures
        frame_at(s.take(cut)).outcome is Err,
{
    let t = s.take(cut);
    read_frame_is_verbatim(s);
    match frame_at(t).outcome {
        Ok(Some(frame)) => {
            read_frame_is_verbatim(t);
            let rest = s.skip(frame.bytes.len() as int);
            reread_frame_is_same(t, frame, rest);
            assert(frame.bytes + rest =~= s);
        },
        _ => {},
    }
}

/// The frames of a stream, up to its end or the first fault.
pub open spec fn frames_in(s: Seq<u8>) -> Seq<FrameView>
    decreases s.len(),
{
    let read = frame_at(s);
    match read.outcome {
        Ok(Some(frame)) if 0 < read.taken <= s.len() => seq![frame] + frames_in(
            s.skip(read.taken as int),
        ),
        _ => Seq::empty(),
    }
}

/// What is left of a stream once its frames were read, up to its end or the
/// first fault.
pub open spec fn unread(s: Seq<u8>) -> Seq<u8>
    decreases s.len(),
{
    let read = frame_at(s);
    match read.outcome {
        Ok(Some(_)) if 0 < read.taken <= s.len() => unread(s.skip(read.taken as int)),
        _ => s.skip(read.taken as int),
    }
}

/// Whether a stream consists of whole frames only.
pub open spec fn ends_cleanly(s: Seq<u8>) -> bool
    decreases s.len(),
{
    let read = frame_at(s);
    match read.outcome {
        Ok(Some(_)) if 0 < read.taken <= s.len() => ends_cleanly(s.skip(read.taken as int)),
        Ok(None) => true,
        _ => false,
    }
}

/// The bytes that writing `frames` one after the other puts on the wire.
pub open spec fn wire_bytes(frames: Seq<FrameView>) -> Seq<u8>
    decreases frames.len(),
{
    if frames.len() == 0 {
        Seq::empty()
    } else {
        frames[0].bytes + wire_bytes(frames.drop_first())
    }
}

/// Writing one more frame appends its bytes.
pub proof fn wire_bytes_of_one_more(frames: Seq<FrameView>, frame: FrameView)
    ensures
        wire_bytes(frames.push(frame)) == wire_bytes(frames) + frame.bytes,
    decreases frames.len(),
{
    if frames.len() > 0 {
        wire_bytes_of_one_more(frames.drop_first(), frame);
        assert(frames.push(frame).drop_first() =~= frames.drop_first().push(frame));
        assert(wire_bytes(frames.push(frame)) =~= wire_bytes(frames) + frame.bytes);
    } else {
        assert(frames.push(frame).drop_first() =~= frames);
        assert(wire_bytes(frames.push(frame)) =~= wire_bytes(frames) + frame.bytes);
    }
}

/// Forwarding is transparent: the frames of a stream, written back one after
/// the other, are the bytes the stream began with, and all of its bytes if it
/// ended at a frame boundary.
pub proof fn forwarded_stream_is_verbatim(s: Seq<u8>)
    ensures
        wire_bytes(frames_in(s)).is_prefix_of(s),
        ends_cleanly(s) ==> wire_bytes(frames_in(s)) == s,
    decreases s.len(),
{
    read_frame_is_verbatim(s);
    let read = frame_at(s);
    match read.outcome {
        Ok(Some(frame)) => {
            let rest = s.skip(read.taken as int);
            forwarded_stream_is_verbatim(rest);
            assert(frames_in(s).drop_first() =~= frames_in(rest));
            let w = wire_bytes(frames_in(rest));
            assert(w =~= rest.subrange(0, w.len() as int));
            assert(frame.bytes + rest =~= s);
            assert(frame.bytes + w =~= s.subrange(0, (frame.bytes.len() + w.len()) as int));
        },
        _ => {
            assert(Seq::<u8>::empty() =~= s.subrange(0, 0));
        },
    }
}

/// A frame that reads back from its own bytes.
pub open spec fn whole(frame: FrameView) -> bool {
    frame_at(frame.bytes) == (FrameRead { taken: frame.bytes.len(), outcome: Ok(Some(frame)) })
}

/// Every frame of a stream is a whole frame.
pub proof fn frames_read_are_whole(s: Seq<u8>)
    ensures
        forall|i: int| 0 <= i < frames_in(s).len() ==> whole(#[trigger] frames_in(s)[i]),
    decreases s.len(),
{
    read_frame_is_verbatim(s);
    let read = frame_at(s);
    match read.outcome {
        Ok(Some(frame)) => {
            let rest = s.skip(read.taken as int);
            frames_read_are_whole(rest);
            reread_frame_is_same(s, frame, Seq::empty());
            assert(frame.bytes + Seq::<u8>::empty() =~= frame.bytes);
            assert forall|i: int| 0 <= i < frames_in(s).len() implies whole(
                #[trigger] frames_in(s)[i],
            ) by {
                if i > 0 {
                    assert(frames_in(s)[i] == frames_in(rest)[i - 1]);
                }
            }
        },
        _ => {},
    }
}

/// Every framed body is a whole frame.
pub proof fn framed_body_is_whole(body: Seq<u8>)
    requires
        body.len() <= usize::MAX,
    ensures
        whole(canonical_frame(body)),
{
    let frame = canonical_frame(body);
    framed_body_reads_back(body, Seq::empty());
    assert(frame.bytes + Seq::<u8>::empty() =~= frame.bytes);
}

/// Frames are never interleaved: whole frames, written one after the other in
/// any order, are read as exactly those frames in that order.
pub proof fn written_frames_read_back(frames: Seq<FrameView>)
    requires
        forall|i: int| 0 <= i < frames.len() ==> whole(#[trigger] frames[i]),
    ensures
        frames_in(wire_bytes(frames)) == frames,
        ends_cleanly(wire_bytes(frames)),
    decreases frames.len(),
{
    if frames.len() > 0 {
        let rest = frames.drop_first();
        assert forall|i: int| 0 <= i < rest.len() implies whole(#[trigger] rest[i]) by {
            assert(rest[i] == frames[i + 1]);
        }
        written_frames_read_back(rest);
        assert(whole(frames[0]));
        reread_frame_is_same(frames[0].bytes, frames[0], wire_bytes(rest));
        read_frame_is_verbatim(wire_bytes(frames));
        assert(wire_bytes(frames).skip(frames[0].bytes.len() as int) =~= wire_bytes(rest));
        assert(frames_in(wire_bytes(frames)) =~= frames);
    }
}

/// A line: it ends in `\n` and holds no other.
pub open spec fn is_line(line: Seq<u8>) -> bool {
    &&& line.len() > 0
    &&& line.last() == 10
    &&& forall|i: int| 0 <= i < line.len() - 1 ==> line[i] != 10
}

/// A line ends at its first `\n`, and whatever follows is not part of it.
pub proof fn lines_end_at_the_first_newline(line: Seq<u8>, rest: Seq<u8>)
    requires
        is_line(line),
    ensures
        line_len(line + rest) == line.len(),
{
    assert forall|i: int| 0 <= i < line.len() - 1 implies (line + rest)[i] != 10 by {
        assert((line + rest)[i] == line[i]);
    }
    lemma_line_len_is(line + rest, line.len());
}

/// The bytes of some lines, one after the other.
pub open spec fn lines_bytes(lines: Seq<Seq<u8>>) -> Seq<u8>
    decreases lines.len(),
{
    if lines.len() == 0 {
        Seq::empty()
    } else {
        lines[0] + lines_bytes(lines.drop_first())
    }
}

/// Whether every line is a header with a colon: a length or any other.
pub open spec fn are_headers(lines: Seq<Seq<u8>>) -> bool {
    forall|i: int|
        0 <= i < lines.len() ==> is_line(#[trigger] lines[i]) && (header_line(lines[i]) matches Ok(
            h,
        ) && !(h is End))
}

/// Other headers do not matter, wherever they stand: a block of headers of
/// which the last `Content-Length` announces the length of the body, a blank
/// line, and the body are read as the frame of exactly these bytes with that
/// body, whatever follows.
pub proof fn other_headers_do_not_matter(
    lines: Seq<Seq<u8>>,
    last: int,
    blank: Seq<u8>,
    body: Seq<u8>,
    rest: Seq<u8>,
)
    requires
        are_headers(lines),
        0 <= last < lines.len(),
        header_line(lines[last]) matches Ok(HeaderLine::Length(n)) && n == body.len(),
        forall|i: int|
            last < i < lines.len() ==> !(header_line(#[trigger] lines[i]) matches Ok(
                HeaderLine::Length(_),
            )),
        is_line(blank),
        header_line(blank) matches Ok(HeaderLine::End),
    ensures
        ({
            let head = lines_bytes(lines) + blank;
            let read = frame_at(head + body + rest);
            &&& read.taken == head.len() + body.len()
            &&& read.outcome matches Ok(Some(frame)) && frame.bytes == head + body && frame.body()
                == body
        }),
{
    let head = lines_bytes(lines) + blank;
    let s = head + body + rest;
    lemma_scan_lines(lines, blank, body + rest, None);
    assert(lines_bytes(lines) + blank + (body + rest) =~= s);
    lemma_announced(lines, None, last);
    assert(s.take((head.len() + body.len()) as int) =~= head + body);
    assert((head + body).skip(head.len() as int) =~= body);
}

/// A block of headers without a `Content-Length` has no body to read.
pub proof fn a_block_needs_a_length(lines: Seq<Seq<u8>>, blank: Seq<u8>, rest: Seq<u8>)
    requires
        are_headers(lines),
        forall|i: int|
            0 <= i < lines.len() ==> !(header_line(#[trigger] lines[i]) matches Ok(
                HeaderLine::Length(_),
            )),
        is_line(blank),
        header_line(blank) matches Ok(HeaderLine::End),
    ensures
        frame_at(lines_bytes(lines) + blank + rest).outcome == Err::<
            Option<FrameView>,
            FrameFault,
        >(FrameFault::MissingContentLength),
{
    lemma_scan_lines(lines, blank, rest, None);
    lemma_announced(lines, None, -1);
}

/// A line that is no header ends the reading with its fault, whatever came
/// before it and whatever follows.
pub proof fn a_bad_line_is_a_fault(
    lines: Seq<Seq<u8>>,
    bad: Seq<u8>,
    rest: Seq<u8>,
    fault: FrameFault,
)
    requires
        are_headers(lines),
        is_line(bad),
        header_line(bad) == Err::<HeaderLine, FrameFault>(fault),
    ensures
        frame_at(lines_bytes(lines) + bad + rest).outcome == Err::<Option<FrameView>, FrameFault>(
            fault,
        ),
{
    lemma_scan_bad(lines, bad, rest, None);
}

/// A body that is shorter than announced is a fault, and so is a header block
/// that the stream does not finish.
pub proof fn short_streams_are_faults(lines: Seq<Seq<u8>>, last: int, blank: Seq<u8>, body: Seq<u8>)
    requires
        are_headers(lines),
        0 <= last < lines.len(),
        header_line(lines[last]) matches Ok(HeaderLine::Length(n)) && n > body.len(),
        forall|i: int|
            last < i < lines.len() ==> !(header_line(#[trigger] lines[i]) matches Ok(
                HeaderLine::Length(_),
            )),
        is_line(blank),
        header_line(blank) matches Ok(HeaderLine::End),
    ensures
        frame_at(lines_bytes(lines) + blank + body).outcome == Err::<
            Option<FrameView>,
            FrameFault,
        >(FrameFault::BodyEof),
        frame_at(lines_bytes(lines)).outcome == Err::<Option<FrameView>, FrameFault>(
            FrameFault::HeaderEof,
        ),
        frame_at(Seq::empty()).outcome == Ok::<Option<FrameView>, FrameFault>(None),
{
    lemma_scan_lines(lines, blank, body, None);
    lemma_announced(lines, None, last);
    lemma_scan_open(lines, None);
    assert(lines_bytes(lines).len() > 0) by {
        assert(is_line(lines[0]));
    }
}

/// The length that the lines announce, those before them having announced
/// `declared`.
spec fn announced(lines: Seq<Seq<u8>>, declared: Option<usize>) -> Option<usize>
    decreases lines.len(),
{
    if lines.len() == 0 {
        declared
    } else {
        announced(
            lines.drop_first(),
            match header_line(lines[0]) {
                Ok(HeaderLine::Length(n)) => Some(n),
                _ => declared,
            },
        )
    }
}

proof fn lemma_announced(lines: Seq<Seq<u8>>, declared: Option<usize>, last: int)
    requires
        -1 <= last < lines.len(),
        last >= 0 ==> (header_line(lines[last]) matches Ok(HeaderLine::Length(_))),
        forall|i: int|
            last < i < lines.len() ==> !(header_line(#[trigger] lines[i]) matches Ok(
                HeaderLine::Length(_),
            )),
    ensures
        last < 0 ==> announced(lines, declared) == declared,
        last >= 0 ==> (header_line(lines[last]) matches Ok(HeaderLine::Length(n)) && announced(
            lines,
            declared,
        ) == Some(n)),
    decreases lines.len(),
{
    if lines.len() > 0 {
        let rest = lines.drop_first();
        let next = match header_line(lines[0]) {
            Ok(HeaderLine::Length(n)) => Some(n),
            _ => declared,
        };
        assert forall|i: int| last - 1 < i < rest.len() && i >= 0 implies !(header_line(
            #[trigger] rest[i],
        ) matches Ok(HeaderLine::Length(_))) by {
            assert(rest[i] == lines[i + 1]);
        }
        if last > 0 {
            assert(rest[last - 1] == lines[last]);
            lemma_announced(rest, next, last - 1);
        } else {
            lemma_announced(rest, next, -1);
        }
    }
}

proof fn lemma_headers_rest(lines: Seq<Seq<u8>>)
    requires
        are_headers(lines),
        lines.len() > 0,
    ensures
        are_headers(lines.drop_first()),
        is_line(lines[0]),
        header_line(lines[0]) matches Ok(h) && !(h is End),
{
    assert forall|i: int| 0 <= i < lines.drop_first().len() implies is_line(
        #[trigger] lines.drop_first()[i],
    ) && (header_line(lines.drop_first()[i]) matches Ok(h) && !(h is End)) by {
        assert(lines.drop_first()[i] == lines[i + 1]);
    }
}

proof fn lemma_first_line(line: Seq<u8>, rest: Seq<u8>)
    requires
        is_line(line),
    ensures
        line_len(line + rest) == line.len(),
        (line + rest).take(line.len() as int) == line,
        (line + rest).skip(line.len() as int) == rest,
        (line + rest)[line.len() - 1] == 10,
{
    lines_end_at_the_first_newline(line, rest);
    assert((line + rest).take(line.len() as int) =~= line);
    assert((line + rest).skip(line.len() as int) =~= rest);
}

proof fn lemma_scan_lines(
    lines: Seq<Seq<u8>>,
    blank: Seq<u8>,
    tail: Seq<u8>,
    declared: Option<usize>,
)
    requires
        are_headers(lines),
        is_line(blank),
        header_line(blank) matches Ok(HeaderLine::End),
    ensures
        scan_header(lines_bytes(lines) + blank + tail, declared) == (HeaderScan {
            taken: lines_bytes(lines).len() + blank.len(),
            outcome: match announced(lines, declared) {
                Some(n) => Ok(n),
                None => Err(FrameFault::MissingContentLength),
            },
        }),
    decreases lines.len(),
{
    let s = lines_bytes(lines) + blank + tail;
    if lines.len() == 0 {
        assert(s =~= blank + tail);
        lemma_first_line(blank, tail);
    } else {
        let others = lines.drop_first();
        let after = lines_bytes(others) + blank + tail;
        assert(s =~= lines[0] + after);
        lemma_headers_rest(lines);
        lemma_first_line(lines[0], after);
        let next = match header_line(lines[0]) {
            Ok(HeaderLine::Length(n)) => Some(n),
            _ => declared,
        };
        lemma_scan_lines(others, blank, tail, next);
    }
}

proof fn lemma_scan_bad(
    lines: Seq<Seq<u8>>,
    bad: Seq<u8>,
    rest: Seq<u8>,
    declared: Option<usize>,
)
    requires
        are_headers(lines),
        is_line(bad),
        header_line(bad) is Err,
    ensures
        header_line(bad) matches Err(fault) && scan_header(
            lines_bytes(lines) + bad + rest,
            declared,
        ).outcome == Err::<usize, FrameFault>(fault),
    decreases lines.len(),
{
    let s = lines_bytes(lines) + bad + rest;
    if lines.len() == 0 {
        assert(s =~= bad + rest);
        lemma_first_line(bad, rest);
    } else {
        let others = lines.drop_first();
        let after = lines_bytes(others) + bad + rest;
        assert(s =~= lines[0] + after);
        lemma_headers_rest(lines);
        lemma_first_line(lines[0], after);
        let next = match header_line(lines[0]) {
            Ok(HeaderLine::Length(n)) => Some(n),
            _ => declared,
        };
        lemma_scan_bad(others, bad, rest, next);
    }
}

proof fn lemma_scan_open(lines: Seq<Seq<u8>>, declared: Option<usize>)
    requires
        are_headers(lines),
    ensures
        scan_header(lines_bytes(lines), declared).outcome == Err::<usize, FrameFault>(
            FrameFault::HeaderEof,
        ),
    decreases lines.len(),
{
    if lines.len() > 0 {
        let others = lines.drop_first();
        lemma_headers_rest(lines);
        lemma_first_line(lines[0], lines_bytes(others));
        let next = match header_line(lines[0]) {
            Ok(HeaderLine::Length(n)) => Some(n),
            _ => declared,
        };
        lemma_scan_open(others, next);
    }
}

/// The text of a header line `name:value`.
pub open spec fn header_text(name: Seq<char>, value: Seq<char>) -> Seq<char> {
    name + seq![':'] + value + seq!['\r', '\n']
}

/// What a header line says, by its text: the name is what stands before the
/// first colon. A name other than `Content-Length`, in whatever case and with
/// whatever white space around it, is tolerated with any value; a length is
/// what its value denotes, white space aside.
pub proof fn headers_by_name_and_value(name: Seq<char>, value: Seq<char>)
    requires
        !name.contains(':'),
        value.len() > 0 ==> value.last() != '\r' && value.last() != '\n',
    ensures
        ({
            let said = header_line(encode_utf8(header_text(name, value)));
            if eq_ignore_case(text::trim(name), "content-length"@) {
                match parse_length(text::trim(value)) {
                    Ok(n) => said == Ok::<HeaderLine, FrameFault>(HeaderLine::Length(n)),
                    Err(e) => said == Err::<HeaderLine, FrameFault>(
                        FrameFault::BadContentLength(e),
                    ),
                }
            } else {
                said == Ok::<HeaderLine, FrameFault>(HeaderLine::Other)
            }
        }),
{
    let whole_text = header_text(name, value);
    let content = name + seq![':'] + value;
    let end = seq!['\r', '\n'];
    let line = encode_utf8(whole_text);
    assert(valid_utf8(line)) by {
        encode_utf8_valid_utf8(whole_text);
    }
    assert(decode_utf8(line) == whole_text) by {
        encode_utf8_decode_utf8(whole_text);
    }
    assert(content.last() != '\r' && content.last() != '\n') by {
        if value.len() > 0 {
            assert(content.last() == value.last());
        } else {
            assert(content.last() == ':');
        }
    }
    text::line_ends_are_cut_off(content, end);
    assert(content[name.len() as int] == ':');
    assert forall|i: int| 0 <= i < name.len() implies content[i] != ':' by {
        assert(content[i] == name[i]);
        assert(name.contains(name[i]));
    }
    lemma_colon_index_is(content, name.len());
    assert(content.take(name.len() as int) =~= name);
    assert(content.skip(name.len() as int + 1) =~= value);
}

/// A line of text without a colon is malformed, and reported as it stands
/// without its terminator; a line of nothing but its terminator is blank.
pub proof fn lines_without_a_colon(content: Seq<char>, end: Seq<char>)
    requires
        !content.contains(':'),
        content.len() > 0 ==> content.last() != '\r' && content.last() != '\n',
        end == seq!['\n'] || end == seq!['\r', '\n'],
    ensures
        content.len() == 0 ==> header_line(encode_utf8(content + end)) == Ok::<
            HeaderLine,
            FrameFault,
        >(HeaderLine::End),
        content.len() > 0 ==> header_line(encode_utf8(content + end)) == Err::<
            HeaderLine,
            FrameFault,
        >(FrameFault::MalformedHeader(content)),
{
    let line = encode_utf8(content + end);
    assert(valid_utf8(line)) by {
        encode_utf8_valid_utf8(content + end);
    }
    assert(decode_utf8(line) == content + end) by {
        encode_utf8_decode_utf8(content + end);
    }
    assert(text::trim_line_end(content + end) == content) by {
        text::line_ends_are_cut_off(content, end);
    }
    lemma_no_colon(content);
}

/// Bytes that are no UTF-8 are a fault of their own.
pub proof fn lines_are_utf8(line: Seq<u8>)
    requires
        !valid_utf8(line),
    ensures
        header_line(line) == Err::<HeaderLine, FrameFault>(FrameFault::InvalidUtf8),
{
}

proof fn lemma_no_colon(s: Seq<char>)
    requires
        !s.contains(':'),
    ensures
        colon_index(s) == s.len(),
    decreases s.len(),
{
    if s.len() > 0 {
        assert(s.contains(s[0]));
        let rest = s.drop_first();
        assert forall|i: int| 0 <= i < rest.len() implies rest[i] != ':' by {
            assert(rest[i] == s[i + 1]);
            assert(s.contains(s[i + 1]));
        }
        lemma_no_colon(rest);
    }
}

/// Names are compared letter by letter, the ASCII letters whatever their case
/// and everything else exactly.
pub proof fn names_ignore_ascii_case(a: Seq<char>, b: Seq<char>)
    ensures
        eq_ignore_case(a, b) <==> a.len() == b.len() && forall|i: int|
            0 <= i < a.len() ==> {
                let (x, y) = ((#[trigger] a[i]) as int, b[i] as int);
                ||| x == y
                ||| 65 <= x <= 90 && y == x + 32
                ||| 65 <= y <= 90 && x == y + 32
            },
{
    assert forall|i: int| 0 <= i < a.len() && a.len() == b.len() implies ((ascii_lower(
        #[trigger] a[i],
    ) == ascii_lower(b[i])) <==> {
        let (x, y) = (a[i] as int, b[i] as int);
        ||| x == y
        ||| 65 <= x <= 90 && y == x + 32
        ||| 65 <= y <= 90 && x == y + 32
    }) by {}
}

/// A length is decimal digits, with white space around them and one `+` in
/// front allowed, and its value is theirs.
pub proof fn lengths_are_their_digits(digits: Seq<char>)
    requires
        digits.len() > 0,
        forall|i: int| 0 <= i < digits.len() ==> text::is_digit(#[trigger] digits[i]),
    ensures
        text::decimal_value(digits) <= usize::MAX ==> {
            &&& parse_length(digits) == Ok::<usize, LengthError>(
                text::decimal_value(digits) as usize,
            )
            &&& parse_length(seq!['+'] + digits) == Ok::<usize, LengthError>(
                text::decimal_value(digits) as usize,
            )
        },
        text::decimal_value(digits) > usize::MAX ==> {
            &&& parse_length(digits) == Err::<usize, LengthError>(LengthError::Overflow)
            &&& parse_length(seq!['+'] + digits) == Err::<usize, LengthError>(
                LengthError::Overflow,
            )
        },
{
    text::lemma_digits_len_is(digits, digits.len());
    assert(digits.take(digits.len() as int) =~= digits);
    assert(text::is_digit(digits[0]));
    assert((seq!['+'] + digits).drop_first() =~= digits);
}

/// Anything but digits behind an optional `+` is no length: nothing at all is
/// `Empty`; a sign alone, or a character that is no digit behind digits that
/// still fit, is `InvalidDigit`.
pub proof fn other_text_is_no_length(digits: Seq<char>, c: char, rest: Seq<char>)
    requires
        forall|i: int| 0 <= i < digits.len() ==> text::is_digit(#[trigger] digits[i]),
        text::decimal_value(digits) <= usize::MAX,
        !text::is_digit(c),
        digits.len() == 0 ==> c != '+',
    ensures
        parse_length(Seq::empty()) == Err::<usize, LengthError>(LengthError::Empty),
        parse_length(seq!['+']) == Err::<usize, LengthError>(LengthError::InvalidDigit),
        parse_length(digits + seq![c] + rest) == Err::<usize, LengthError>(
            LengthError::InvalidDigit,
        ),
{
    let s = digits + seq![c] + rest;
    assert(s[digits.len() as int] == c);
    assert forall|i: int| 0 <= i < digits.len() implies text::is_digit(#[trigger] s[i]) by {
        assert(s[i] == digits[i]);
    }
    text::lemma_digits_len_is(s, digits.len());
    assert(s.take(digits.len() as int) =~= digits);
    if digits.len() > 0 {
        assert(s[0] == digits[0]);
        assert(text::is_digit(digits[0]));
    }
    assert(seq!['+'].drop_first() =~= Seq::<char>::empty());
    assert(Seq::<char>::empty().take(0) =~= Seq::<char>::empty());
}

/// The frame that the proxy writes is the header `Content-Length: n`, a blank
/// line, and the body.
pub proof fn canonical_frames_are_spelled_out(body: Seq<u8>)
    ensures
        canonical_frame(body).bytes == encode_utf8(
            "Content-Length: "@ + text::decimal(body.len()) + "\r\n\r\n"@,
        ) + body,
        canonical_frame(body).body_offset + body.len() == canonical_frame(body).bytes.len(),
        canonical_frame(body).body() == body,
{
    assert(canonical_frame(body).body() =~= body);
}

/// The body of a frame is what its bytes hold from the offset on.
pub proof fn bodies_are_suffixes(header: Seq<u8>, body: Seq<u8>)
    ensures
        (FrameView { bytes: header + body, body_offset: header.len() }).body() == body,
{
    assert((header + body).skip(header.len() as int) =~= body);
    assert((FrameView { bytes: header + body, body_offset: header.len() }).body() =~= body);
}

proof fn lemma_ascii_line(content: Seq<char>)
    requires
        is_ascii_chars(content),
        !content.contains('\n'),
    ensures
        is_line(encode_utf8(content + seq!['\r', '\n'])),
{
    let chars = content + seq!['\r', '\n'];
    assert forall|i: int| 0 <= i < chars.len() implies '\0' <= #[trigger] chars[i] <= '\u{7f}' by {
        if i < content.len() {
            assert(chars[i] == content[i]);
        }
    }
    assert(is_ascii_chars(chars));
    is_ascii_chars_encode_utf8(chars);
    let line = encode_utf8(chars);
    assert(line[line.len() - 1] == chars[chars.len() - 1] as u8);
    assert forall|i: int| 0 <= i < line.len() - 1 implies line[i] != 10 by {
        assert(line[i] == chars[i] as u8);
        if i < content.len() {
            assert(chars[i] == content[i]);
            assert(content.contains(content[i]));
            assert(chars[i] != '\n');
        }
    }
}

/// A frame with a second header, before or behind its length, is read with its
/// bytes and its body as they are, whatever that header is.
pub proof fn a_second_header_may_stand_anywhere(
    name: Seq<char>,
    value: Seq<char>,
    body: Seq<u8>,
    rest: Seq<u8>,
)
    requires
        is_ascii_chars(name),
        is_ascii_chars(value),
        !name.contains(':') && !name.contains('\n') && !value.contains('\n'),
        value.len() > 0 ==> value.last() != '\r',
        !eq_ignore_case(text::trim(name), "content-length"@),
        body.len() <= usize::MAX,
    ensures
        ({
            let length = encode_utf8("Content-Length: "@ + text::decimal(body.len()) + "\r\n"@);
            let other = encode_utf8(header_text(name, value));
            let blank = encode_utf8("\r\n"@);
            let before = frame_at(other + length + blank + body + rest);
            let behind = frame_at(length + other + blank + body + rest);
            &&& before.outcome matches Ok(Some(frame)) && frame.bytes == other + length + blank
                + body && frame.body() == body
            &&& behind.outcome matches Ok(Some(frame)) && frame.bytes == length + other + blank
                + body && frame.body() == body
        }),
{
    let length = encode_utf8("Content-Length: "@ + text::decimal(body.len()) + "\r\n"@);
    let other = encode_utf8(header_text(name, value));
    let blank = encode_utf8("\r\n"@);
    lemma_canonical_lines(body.len() as usize);
    assert(value.len() > 0 ==> value.contains(value.last()));
    headers_by_name_and_value(name, value);
    let content = name + seq![':'] + value;
    assert forall|i: int| 0 <= i < content.len() implies '\0' <= #[trigger] content[i] <= '\u{7f}'
        && content[i] != '\n' by {
        if i < name.len() {
            assert(content[i] == name[i]);
            assert(name.contains(name[i]));
        } else if i > name.len() {
            assert(content[i] == value[i - name.len() - 1]);
            assert(value.contains(value[i - name.len() - 1]));
        }
    }
    lemma_ascii_line(content);
    reveal_with_fuel(lines_bytes, 3);
    let first = seq![other, length];
    assert(first.drop_first() =~= seq![length]);
    assert(seq![length].drop_first() =~= Seq::<Seq<u8>>::empty());
    assert(lines_bytes(first) =~= other + length);
    other_headers_do_not_matter(first, 1, blank, body, rest);
    let second = seq![length, other];
    assert(second.drop_first() =~= seq![other]);
    assert(seq![other].drop_first() =~= Seq::<Seq<u8>>::empty());
    assert(lines_bytes(second) =~= length + other);
    other_headers_do_not_matter(second, 0, blank, body, rest);
}

/// What is left unread of a stream of whole frames followed by something else
/// is what reading that leaves.
pub proof fn whole_frames_are_read_away(frames: Seq<FrameView>, rest: Seq<u8>)
    requires
        forall|i: int| 0 <= i < frames.len() ==> whole(#[trigger] frames[i]),
    ensures
        frames_in(wire_bytes(frames) + rest) == frames + frames_in(rest),
        unread(wire_bytes(frames) + rest) == unread(rest),
        frame_at(rest).outcome is Err ==> unread(rest) == rest.skip(frame_at(rest).taken as int),
        unread(Seq::empty()) == Seq::<u8>::empty(),
    decreases frames.len(),
{
    if frames.len() > 0 {
        let others = frames.drop_first();
        assert forall|i: int| 0 <= i < others.len() implies whole(#[trigger] others[i]) by {
            assert(others[i] == frames[i + 1]);
        }
        whole_frames_are_read_away(others, rest);
        let after = wire_bytes(others) + rest;
        let s = wire_bytes(frames) + rest;
        assert(whole(frames[0]));
        assert(s =~= frames[0].bytes + after);
        reread_frame_is_same(frames[0].bytes, frames[0], after);
        read_frame_is_verbatim(s);
        assert(s.skip(frames[0].bytes.len() as int) =~= after);
        assert(frames_in(s) =~= frames + frames_in(rest));
    } else {
        assert(wire_bytes(frames) + rest =~= rest);
        assert(frames + frames_in(rest) =~= frames_in(rest));
    }
}

} // verus!
