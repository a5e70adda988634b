//! The LSP base-protocol envelope: `Content-Length: N\r\n` header lines, a
//! blank line, then exactly `N` bytes of body.

use vstd::prelude::*;
use vstd::slice::{slice_subrange, slice_to_vec};
use vstd::utf8::{valid_utf8, partial_valid_utf8_extend_ascii_block, is_leading_byte_width_1};

verus! {

/// Why a frame could not be read.
#[derive(Debug, Clone, Copy, PartialEq, Eq, Structural)]
pub enum FrameError {
    /// The stream ended after a header line and before the blank line.
    UnexpectedEof,
    /// A header line is not valid UTF-8.
    InvalidHeaderEncoding,
    /// The value of a `Content-Length` header is not a decimal `usize`.
    InvalidContentLength,
    /// The headers ended without a `Content-Length` header.
    MissingContentLength,
    /// The stream holds fewer body bytes than `Content-Length` announced.
    TruncatedBody,
}

/// What one header line says.
#[derive(Debug, Clone, Copy, PartialEq, Eq, Structural)]
pub enum HeaderLine {
    /// The blank line that ends the headers.
    End,
    /// A `Content-Length` header with its value.
    ContentLength(usize),
    /// Any other header; it is ignored.
    Other,
}

// ---------------------------------------------------------------------------
// Decimal numbers
// ---------------------------------------------------------------------------

pub open spec fn is_digit(b: u8) -> bool {
    48 <= b <= 57
}

pub open spec fn all_digits(d: Seq<u8>) -> bool {
    forall|i: int| 0 <= i < d.len() ==> is_digit(#[trigger] d[i])
}

/// The value of a string of decimal digits, most significant first.
pub open spec fn digits_value(d: Seq<u8>) -> nat
    decreases d.len(),
{
    if d.len() == 0 {
        0
    } else {
        digits_value(d.drop_last()) * 10 + (d.last() - 48) as nat
    }
}

/// What `str::parse::<usize>` accepts: an optional `+`, then one or more
/// ASCII digits whose value fits in a `usize`.
pub open spec fn parse_usize_spec(s: Seq<u8>) -> Option<usize> {
    if s.len() == 0 {
        None
    } else {
        let d = if s[0] == 43u8 { s.drop_first() } else { s };
        if d.len() == 0 || !all_digits(d) || digits_value(d) > usize::MAX {
            None
        } else {
            Some(digits_value(d) as usize)
        }
    }
}

/// The shortest decimal spelling of `n`.
pub open spec fn decimal(n: nat) -> Seq<u8>
    decreases n,
{
    if n < 10 {
        seq![(48 + n) as u8]
    } else {
        decimal(n / 10).push((48 + n % 10) as u8)
    }
}

pub proof fn lemma_decimal(n: nat)
    ensures
        decimal(n).len() >= 1,
        all_digits(decimal(n)),
        digits_value(decimal(n)) == n,
    decreases n,
{
    if n < 10 {
        let s = decimal(n);
        assert(s.drop_last() =~= Seq::<u8>::empty());
        assert(digits_value(s.drop_last()) == 0);
    } else {
        lemma_decimal(n / 10);
        let s = decimal(n / 10).push((48 + n % 10) as u8);
        assert(s == decimal(n));
        assert(s.drop_last() =~= decimal(n / 10));
        assert(s.last() == (48 + n % 10) as u8);
        assert((n / 10) * 10 + n % 10 == n);
        assert forall|i: int| 0 <= i < s.len() implies is_digit(#[trigger] s[i]) by {
            if i < s.len() - 1 {
                assert(s[i] == decimal(n / 10)[i]);
            }
        }
    }
}

/// Digits never get smaller by appending more digits.
pub proof fn lemma_digits_value_prefix(d: Seq<u8>, k: int)
    requires
        0 <= k <= d.len(),
        all_digits(d),
    ensures
        digits_value(d.subrange(0, k)) <= digits_value(d),
    decreases d.len(),
{
    if k < d.len() {
        let p = d.drop_last();
        assert(all_digits(p)) by {
            assert forall|i: int| 0 <= i < p.len() implies is_digit(#[trigger] p[i]) by {
                assert(p[i] == d[i]);
            }
        }
        lemma_digits_value_prefix(p, k);
        assert(p.subrange(0, k) =~= d.subrange(0, k));
    } else {
        assert(d.subrange(0, k) =~= d);
    }
}

pub proof fn lemma_parse_decimal(n: usize)
    ensures
        parse_usize_spec(decimal(n as nat)) == Some(n),
{
    lemma_decimal(n as nat);
    let s = decimal(n as nat);
    assert(is_digit(s[0]));
}

/// Parses a `Content-Length` value as `str::parse::<usize>` does.
pub fn parse_usize(s: &[u8]) -> (r: Option<usize>)
    ensures
        r == parse_usize_spec(s@),
{
    if s.len() == 0 {
        return None;
    }
    let start: usize = if s[0] == 43u8 { 1 } else { 0 };
    let ghost d = if s@[0] == 43u8 { s@.drop_first() } else { s@ };
    assert(d =~= s@.subrange(start as int, s@.len() as int));
    if start == s.len() {
        return None;
    }
    let mut acc: usize = 0;
    let mut i: usize = start;
    while i < s.len()
        invariant
            start <= i <= s@.len(),
            start < s@.len(),
            d == s@.subrange(start as int, s@.len() as int),
            d == (if s@[0] == 43u8 { s@.drop_first() } else { s@ }),
            all_digits(s@.subrange(start as int, i as int)),
            acc as nat == digits_value(s@.subrange(start as int, i as int)),
        decreases s@.len() - i,
    {
        let c = s[i];
        if c < 48u8 || c > 57u8 {
            assert(d[i - start] == c);
            assert(!is_digit(d[i - start]));
            assert(!all_digits(d));
            return None;
        }
        let ghost prev = s@.subrange(start as int, i as int);
        let ghost next = s@.subrange(start as int, i + 1);
        assert(next.drop_last() =~= prev);
        assert(next.last() == c);
        assert(digits_value(next) == digits_value(prev) * 10 + (c - 48) as nat);
        assert(all_digits(next)) by {
            assert forall|j: int| 0 <= j < next.len() implies is_digit(#[trigger] next[j]) by {
                if j < prev.len() {
                    assert(next[j] == prev[j]);
                }
            }
        }
        let step = match acc.checked_mul(10) {
            Some(m) => m.checked_add((c - 48u8) as usize),
            None => None,
        };
        match step {
            Some(v) => {
                acc = v;
            },
            None => {
                assert(digits_value(next) > usize::MAX);
                proof {
                    if all_digits(d) {
                        lemma_digits_value_prefix(d, i + 1 - start);
                        assert(d.subrange(0, i + 1 - start) =~= next);
                    }
                }
                return None;
            },
        }
        i = i + 1;
    }
    assert(s@.subrange(start as int, i as int) =~= d);
    Some(acc)
}

/// Appends the decimal spelling of `n` to `out`.
pub fn push_decimal(n: usize, out: &mut Vec<u8>)
    ensures
        final(out)@ == old(out)@ + decimal(n as nat),
    decreases n,
{
    if n >= 10 {
        push_decimal(n / 10, out);
    }
    out.push((n % 10) as u8 + 48u8);
    assert(final(out)@ =~= old(out)@ + decimal(n as nat));
}


// ---------------------------------------------------------------------------
// Header lines
// ---------------------------------------------------------------------------

/// `std::str::from_utf8`, which succeeds exactly on valid UTF-8. A header line
/// that is not valid UTF-8 cannot be read as text, so the frame is refused.
#[verifier::external_body]
fn is_utf8(bytes: &[u8]) -> (r: bool)
    ensures
        r == valid_utf8(bytes@),
{
    std::str::from_utf8(bytes).is_ok()
}

/// The bytes of `Content-Length: ` (ASCII codes).
pub open spec fn content_length_prefix() -> Seq<u8> {
    seq![67u8, 111, 110, 116, 101, 110, 116, 45, 76, 101, 110, 103, 116, 104, 58, 32]
}

/// The line without all of its trailing `'\r'` and `'\n'` bytes.
pub open spec fn trim_line_end(l: Seq<u8>) -> Seq<u8>
    decreases l.len(),
{
    if l.len() > 0 && (l.last() == 13u8 || l.last() == 10u8) {
        trim_line_end(l.drop_last())
    } else {
        l
    }
}

/// What a header line says, or why the frame is refused at that line.
pub open spec fn classify_line_spec(line: Seq<u8>) -> Result<HeaderLine, FrameError> {
    if !valid_utf8(line) {
        Err(FrameError::InvalidHeaderEncoding)
    } else {
        let t = trim_line_end(line);
        let p = content_length_prefix();
        if t.len() == 0 {
            Ok(HeaderLine::End)
        } else if p.len() <= t.len() && t.subrange(0, p.len() as int) == p {
            match parse_usize_spec(t.subrange(p.len() as int, t.len() as int)) {
                Some(v) => Ok(HeaderLine::ContentLength(v)),
                None => Err(FrameError::InvalidContentLength),
            }
        } else {
            Ok(HeaderLine::Other)
        }
    }
}

/// Length of `line` once its trailing `'\r'` and `'\n'` bytes are removed.
fn trimmed_len(line: &[u8]) -> (n: usize)
    ensures
        n <= line@.len(),
        line@.subrange(0, n as int) == trim_line_end(line@),
{
    let mut n = line.len();
    assert(line@.subrange(0, n as int) =~= line@);
    while n > 0 && (line[n - 1] == 13u8 || line[n - 1] == 10u8)
        invariant
            n <= line@.len(),
            trim_line_end(line@.subrange(0, n as int)) == trim_line_end(line@),
        decreases n,
    {
        assert(line@.subrange(0, n as int).drop_last() =~= line@.subrange(0, n - 1));
        n = n - 1;
    }
    n
}

/// Classifies one header line: the blank line, a `Content-Length` header, or
/// any other header.
pub fn classify_header_line(line: &[u8]) -> (r: Result<HeaderLine, FrameError>)
    ensures
        r == classify_line_spec(line@),
{
    if !is_utf8(line) {
        return Err(FrameError::InvalidHeaderEncoding);
    }
    let n = trimmed_len(line);
    let ghost t = trim_line_end(line@);
    if n == 0 {
        return Ok(HeaderLine::End);
    }
    let prefix: [u8; 16] = [67u8, 111, 110, 116, 101, 110, 116, 45, 76, 101, 110, 103, 116, 104, 58, 32];
    assert(prefix@ =~= content_length_prefix());
    if n < 16 {
        return Ok(HeaderLine::Other);
    }
    let mut k: usize = 0;
    while k < 16
        invariant
            16 <= n <= line@.len(),
            valid_utf8(line@),
            t == trim_line_end(line@),
            t == line@.subrange(0, n as int),
            prefix@ == content_length_prefix(),
            k <= 16,
            forall|j: int| 0 <= j < k ==> line@[j] == prefix@[j],
        decreases 16 - k,
    {
        if line[k] != prefix[k] {
            assert(t[k as int] == line@[k as int]);
            assert(t.subrange(0, 16)[k as int] != content_length_prefix()[k as int]);
            return Ok(HeaderLine::Other);
        }
        k = k + 1;
    }
    assert(t.subrange(0, 16) =~= content_length_prefix());
    let value = slice_subrange(line, 16, n);
    assert(value@ =~= t.subrange(16, t.len() as int));
    match parse_usize(value) {
        Some(v) => Ok(HeaderLine::ContentLength(v)),
        None => Err(FrameError::InvalidContentLength),
    }
}

// ---------------------------------------------------------------------------
// Reading a frame
// ---------------------------------------------------------------------------

/// Index just past the line that starts at `pos`: past its `'\n'`, or the end
/// of `buf` when no `'\n'` follows.
pub open spec fn line_end(buf: Seq<u8>, pos: int) -> int
    decreases buf.len() - pos,
{
    if pos >= buf.len() {
        buf.len() as int
    } else if buf[pos] == 10u8 {
        pos + 1
    } else {
        line_end(buf, pos + 1)
    }
}

pub proof fn lemma_line_end_bounds(buf: Seq<u8>, pos: int)
    requires
        0 <= pos < buf.len(),
    ensures
        pos < line_end(buf, pos) <= buf.len(),
    decreases buf.len() - pos,
{
    if buf[pos] != 10u8 {
        if pos + 1 < buf.len() {
            lemma_line_end_bounds(buf, pos + 1);
        } else {
            assert(line_end(buf, pos + 1) == buf.len());
        }
    }
}

/// Reads header lines from `pos` on with `cl` the last `Content-Length` seen.
/// On success: where the body starts, and its announced length.
pub open spec fn scan_headers(buf: Seq<u8>, pos: int, cl: Option<usize>) -> Result<(int, usize), FrameError>
    decreases buf.len() - pos,
{
    if pos < 0 || pos >= buf.len() {
        Err(FrameError::UnexpectedEof)
    } else {
        let end = line_end(buf, pos);
        if end <= pos || end > buf.len() {
            Err(FrameError::UnexpectedEof)
        } else {
            match classify_line_spec(buf.subrange(pos, end)) {
                Err(e) => Err(e),
                Ok(HeaderLine::End) => match cl {
                    Some(n) => Ok((end, n)),
                    None => Err(FrameError::MissingContentLength),
                },
                Ok(HeaderLine::ContentLength(v)) => scan_headers(buf, end, Some(v)),
                Ok(HeaderLine::Other) => scan_headers(buf, end, cl),
            }
        }
    }
}

/// The first frame of a byte stream: `Ok(None)` for an empty stream, else the
/// body and the number of bytes the frame takes, or why it cannot be read.
pub open spec fn decode_frame_spec(buf: Seq<u8>) -> Result<Option<(Seq<u8>, int)>, FrameError> {
    if buf.len() == 0 {
        Ok(None)
    } else {
        match scan_headers(buf, 0, None) {
            Err(e) => Err(e),
            Ok((start, n)) => if start + n <= buf.len() {
                Ok(Some((buf.subrange(start, start + n), start + n)))
            } else {
                Err(FrameError::TruncatedBody)
            },
        }
    }
}

/// What the reader wants next.
#[derive(Debug, Clone, Copy, PartialEq, Eq, Structural)]
pub enum HeaderProgress {
    /// Another header line.
    NeedLine,
    /// The headers are complete: read exactly this many body bytes.
    ReadBody(usize),
    /// The frame is refused.
    Failed(FrameError),
}

/// Reads the header block of one frame, a line at a time.
#[derive(Debug, Clone, Copy, PartialEq, Eq, Structural)]
pub struct HeaderReader {
    /// The value of the last `Content-Length` header read so far.
    pub content_length: Option<usize>,
    /// Whether any line has been read.
    pub started: bool,
}

impl HeaderReader {
    pub fn new() -> (r: HeaderReader)
        ensures
            r.content_length == None::<usize>,
            !r.started,
    {
        HeaderReader { content_length: None, started: false }
    }

    /// Takes one header line: the bytes up to and including a `'\n'`, or the
    /// last bytes of the stream when no `'\n'` ends them.
    pub fn on_line(&mut self, line: &[u8]) -> (r: HeaderProgress)
        ensures
            final(self).started,
            match classify_line_spec(line@) {
                Err(e) => r == HeaderProgress::Failed(e)
                    && final(self).content_length == old(self).content_length,
                Ok(HeaderLine::End) => final(self).content_length == old(self).content_length
                    && r == match old(self).content_length {
                        Some(n) => HeaderProgress::ReadBody(n),
                        None => HeaderProgress::Failed(FrameError::MissingContentLength),
                    },
                Ok(HeaderLine::ContentLength(v)) => r == HeaderProgress::NeedLine
                    && final(self).content_length == Some(v),
                Ok(HeaderLine::Other) => r == HeaderProgress::NeedLine
                    && final(self).content_length == old(self).content_length,
            },
    {
        self.started = true;
        match classify_header_line(line) {
            Err(e) => HeaderProgress::Failed(e),
            Ok(HeaderLine::End) => match self.content_length {
                Some(n) => HeaderProgress::ReadBody(n),
                None => HeaderProgress::Failed(FrameError::MissingContentLength),
            },
            Ok(HeaderLine::ContentLength(v)) => {
                self.content_length = Some(v);
                HeaderProgress::NeedLine
            },
            Ok(HeaderLine::Other) => HeaderProgress::NeedLine,
        }
    }

    /// The stream ended before the next header line: a clean end when no line
    /// of this frame was read, else a truncated header.
    pub fn at_end_of_stream(&self) -> (r: Result<(), FrameError>)
        ensures
            r == (if self.started { Err(FrameError::UnexpectedEof) } else { Ok(()) }),
    {
        if self.started {
            Err(FrameError::UnexpectedEof)
        } else {
            Ok(())
        }
    }
}

/// Index just past the line starting at `pos`.
fn find_line_end(buf: &[u8], pos: usize) -> (end: usize)
    requires
        pos < buf@.len(),
    ensures
        end as int == line_end(buf@, pos as int),
{
    let mut i = pos;
    while i < buf.len()
        invariant
            pos <= i <= buf@.len(),
            line_end(buf@, pos as int) == line_end(buf@, i as int),
        decreases buf@.len() - i,
    {
        if buf[i] == 10u8 {
            return i + 1;
        }
        i = i + 1;
    }
    i
}

/// The frame result as plain sequences.
pub open spec fn decoded_view(r: Result<Option<(Vec<u8>, usize)>, FrameError>) -> Result<Option<(Seq<u8>, int)>, FrameError> {
    match r {
        Ok(Some((b, n))) => Ok(Some((b@, n as int))),
        Ok(None) => Ok(None),
        Err(e) => Err(e),
    }
}

/// Reads the first frame of `buf`: `Ok(None)` on an empty stream, otherwise
/// its body and the number of bytes the whole frame occupies.
pub fn decode_frame(buf: &[u8]) -> (r: Result<Option<(Vec<u8>, usize)>, FrameError>)
    ensures
        decoded_view(r) == decode_frame_spec(buf@),
{
    if buf.len() == 0 {
        return Ok(None);
    }
    let mut reader = HeaderReader::new();
    let mut pos: usize = 0;
    loop
        invariant
            buf@.len() > 0,
            pos <= buf@.len(),
            pos > 0 ==> reader.started,
            scan_headers(buf@, pos as int, reader.content_length) == scan_headers(buf@, 0, None),
        decreases buf@.len() - pos,
    {
        if pos == buf.len() {
            return match reader.at_end_of_stream() {
                Ok(()) => Ok(None),
                Err(e) => Err(e),
            };
        }
        let end = find_line_end(buf, pos);
        proof {
            lemma_line_end_bounds(buf@, pos as int);
        }
        let line = slice_subrange(buf, pos, end);
        match reader.on_line(line) {
            HeaderProgress::NeedLine => {
                pos = end;
            },
            HeaderProgress::ReadBody(n) => {
                if n <= buf.len() - end {
                    let body = slice_to_vec(slice_subrange(buf, end, end + n));
                    return Ok(Some((body, end + n)));
                } else {
                    return Err(FrameError::TruncatedBody);
                }
            },
            HeaderProgress::Failed(e) => {
                return Err(e);
            },
        }
    }
}

// ---------------------------------------------------------------------------
// Writing a frame
// ---------------------------------------------------------------------------

/// `Content-Length: N\r\n\r\n` followed by the body, `N` its length.
pub open spec fn encode_frame_spec(body: Seq<u8>) -> Seq<u8> {
    content_length_prefix() + decimal(body.len()) + seq![13u8, 10u8, 13u8, 10u8] + body
}

/// Wraps `body` in the LSP envelope.
pub fn encode_frame(body: &[u8]) -> (r: Vec<u8>)
    ensures
        r@ == encode_frame_spec(body@),
{
    let mut out: Vec<u8> = vec![67u8, 111, 110, 116, 101, 110, 116, 45, 76, 101, 110, 103, 116, 104, 58, 32];
    assert(out@ =~= content_length_prefix());
    push_decimal(body.len(), &mut out);
    out.push(13u8);
    out.push(10u8);
    out.push(13u8);
    out.push(10u8);
    let mut rest = slice_to_vec(body);
    out.append(&mut rest);
    assert(out@ =~= encode_frame_spec(body@));
    out
}


// ---------------------------------------------------------------------------
// Laws
// ---------------------------------------------------------------------------

proof fn lemma_ascii_valid_utf8(s: Seq<u8>)
    requires
        forall|i: int| 0 <= i < s.len() ==> #[trigger] s[i] < 128,
    ensures
        valid_utf8(s),
{
    assert(s.subrange(0, 0) =~= Seq::<u8>::empty());
    assert forall|i: int| 0 <= 0 <= i < s.len() <= s.len() implies #[trigger] is_leading_byte_width_1(s[i]) by {
        assert(s[i] < 128);
    }
    partial_valid_utf8_extend_ascii_block(s, 0, s.len() as int);
    assert(s.subrange(0, s.len() as int) =~= s);
}

proof fn lemma_line_end_at(buf: Seq<u8>, pos: int, j: int)
    requires
        0 <= pos <= j < buf.len(),
        buf[j] == 10u8,
        forall|k: int| pos <= k < j ==> buf[k] != 10u8,
    ensures
        line_end(buf, pos) == j + 1,
    decreases j - pos,
{
    if pos < j {
        lemma_line_end_at(buf, pos + 1, j);
    }
}

proof fn lemma_trim_crlf(x: Seq<u8>)
    requires
        x.len() > 0,
        x.last() != 13u8,
        x.last() != 10u8,
    ensures
        trim_line_end(x + seq![13u8, 10u8]) == x,
{
    let y = x + seq![13u8, 10u8];
    assert(y.drop_last() =~= x.push(13u8));
    assert(x.push(13u8).drop_last() =~= x);
    assert(trim_line_end(x) == x);
    assert(trim_line_end(x.push(13u8)) == trim_line_end(x));
}

/// Reading back what was written gives the body again, and reports exactly
/// the bytes of the written frame as consumed, whatever follows it in the
/// stream.
pub proof fn lemma_frame_round_trip(body: Seq<u8>, rest: Seq<u8>)
    requires
        body.len() <= usize::MAX,
    ensures
        decode_frame_spec(encode_frame_spec(body) + rest) == Ok::<Option<(Seq<u8>, int)>, FrameError>(
            Some((body, encode_frame_spec(body).len() as int)),
        ),
{
    let p = content_length_prefix();
    let n = body.len() as usize;
    let d = decimal(body.len());
    lemma_decimal(body.len());
    lemma_parse_decimal(n);
    let crlf = seq![13u8, 10u8];
    let x = p + d;
    let h = x + crlf;
    let buf = encode_frame_spec(body) + rest;
    assert(buf =~= h + crlf + body + rest);
    let l1 = h.len() as int;
    assert(l1 == 16 + d.len() + 2);

    // The first line is the Content-Length header.
    assert forall|k: int| 0 <= k < l1 - 1 implies buf[k] != 10u8 by {
        if k < 16 {
            assert(buf[k] == p[k]);
        } else if k < 16 + d.len() {
            assert(buf[k] == d[k - 16]);
            assert(is_digit(d[k - 16]));
        } else {
            assert(buf[k] == 13u8);
        }
    }
    assert(buf[l1 - 1] == 10u8);
    lemma_line_end_at(buf, 0, l1 - 1);
    assert(buf.subrange(0, l1) =~= h);
    assert forall|i: int| 0 <= i < h.len() implies #[trigger] h[i] < 128 by {
        if i < 16 {
            assert(h[i] == p[i]);
        } else if i < 16 + d.len() {
            assert(h[i] == d[i - 16]);
            assert(is_digit(d[i - 16]));
        }
    }
    lemma_ascii_valid_utf8(h);
    assert(x.last() == d.last());
    assert(is_digit(d[d.len() - 1]));
    lemma_trim_crlf(x);
    assert(x.subrange(0, 16) =~= p);
    assert(x.subrange(16, x.len() as int) =~= d);
    assert(classify_line_spec(h) == Ok::<HeaderLine, FrameError>(HeaderLine::ContentLength(n)));

    // The second line is blank.
    assert(buf[l1] == 13u8);
    assert(buf[l1 + 1] == 10u8);
    lemma_line_end_at(buf, l1, l1 + 1);
    assert(buf.subrange(l1, l1 + 2) =~= crlf);
    assert(crlf[0] < 128 && crlf[1] < 128);
    lemma_ascii_valid_utf8(crlf);
    assert(crlf.drop_last().drop_last() =~= Seq::<u8>::empty());
    assert(trim_line_end(crlf.drop_last()) == trim_line_end(crlf.drop_last().drop_last()));
    assert(trim_line_end(crlf).len() == 0);
    assert(classify_line_spec(crlf) == Ok::<HeaderLine, FrameError>(HeaderLine::End));
    assert(scan_headers(buf, l1, Some(n)) == Ok::<(int, usize), FrameError>((l1 + 2, n)));
    assert(scan_headers(buf, 0, None) == scan_headers(buf, l1, Some(n)));
    assert(buf.subrange(l1 + 2, l1 + 2 + n) =~= body);
}

/// A header line that is not blank and does not begin with
/// `Content-Length: ` is another header, and is ignored: whatever it says,
/// it neither refuses the frame nor sets the length.
pub proof fn lemma_other_header_line(h: Seq<u8>)
    requires
        valid_utf8(h + seq![13u8, 10u8]),
        h.len() > 0,
        h.last() != 13u8,
        h.last() != 10u8,
        !(16 <= h.len() && h.subrange(0, 16) == seq![67u8, 111, 110, 116, 101, 110, 116, 45, 76, 101, 110, 103, 116, 104, 58, 32]),
    ensures
        classify_line_spec(h + seq![13u8, 10u8]) == Ok::<HeaderLine, FrameError>(HeaderLine::Other),
{
    lemma_trim_crlf(h);
    assert(content_length_prefix() =~= seq![67u8, 111, 110, 116, 101, 110, 116, 45, 76, 101, 110, 103, 116, 104, 58, 32]);
}

/// Another header after `Content-Length` (such as `Content-Type`) changes
/// nothing of what is read: the body comes back, and the frame with that
/// header is what is consumed.
pub proof fn lemma_other_header_is_skipped(body: Seq<u8>, h: Seq<u8>, rest: Seq<u8>)
    requires
        body.len() <= usize::MAX,
        valid_utf8(h + seq![13u8, 10u8]),
        h.len() > 0,
        h.last() != 13u8,
        forall|k: int| 0 <= k < h.len() ==> #[trigger] h[k] != 10u8,
        !(16 <= h.len() && h.subrange(0, 16) == seq![67u8, 111, 110, 116, 101, 110, 116, 45, 76, 101, 110, 103, 116, 104, 58, 32]),
    ensures
        ({
            let frame = content_length_prefix() + decimal(body.len()) + seq![13u8, 10u8] + h + seq![13u8, 10u8, 13u8, 10u8] + body;
            decode_frame_spec(frame + rest) == Ok::<Option<(Seq<u8>, int)>, FrameError>(Some((body, frame.len() as int)))
        }),
{
    let p = content_length_prefix();
    let n = body.len() as usize;
    let d = decimal(body.len());
    lemma_decimal(body.len());
    lemma_parse_decimal(n);
    let crlf = seq![13u8, 10u8];
    let x = p + d;
    let l = x + crlf;
    let m = h + crlf;
    let frame = p + d + crlf + h + seq![13u8, 10u8, 13u8, 10u8] + body;
    let buf = frame + rest;
    assert(buf =~= l + m + crlf + body + rest);
    let l1 = l.len() as int;
    let l2 = l1 + m.len();
    assert(l1 == 16 + d.len() + 2);

    // The first line is the Content-Length header.
    assert forall|k: int| 0 <= k < l1 - 1 implies buf[k] != 10u8 by {
        if k < 16 {
            assert(buf[k] == p[k]);
        } else if k < 16 + d.len() {
            assert(buf[k] == d[k - 16]);
            assert(is_digit(d[k - 16]));
        } else {
            assert(buf[k] == 13u8);
        }
    }
    assert(buf[l1 - 1] == 10u8);
    lemma_line_end_at(buf, 0, l1 - 1);
    assert(buf.subrange(0, l1) =~= l);
    assert forall|i: int| 0 <= i < l.len() implies #[trigger] l[i] < 128 by {
        if i < 16 {
            assert(l[i] == p[i]);
        } else if i < 16 + d.len() {
            assert(l[i] == d[i - 16]);
            assert(is_digit(d[i - 16]));
        }
    }
    lemma_ascii_valid_utf8(l);
    assert(x.last() == d.last());
    assert(is_digit(d[d.len() - 1]));
    lemma_trim_crlf(x);
    assert(x.subrange(0, 16) =~= p);
    assert(x.subrange(16, x.len() as int) =~= d);
    assert(classify_line_spec(l) == Ok::<HeaderLine, FrameError>(HeaderLine::ContentLength(n)));

    // The second line is the other header.
    assert forall|k: int| l1 <= k < l2 - 1 implies buf[k] != 10u8 by {
        if k < l1 + h.len() {
            assert(buf[k] == h[k - l1]);
        } else {
            assert(buf[k] == 13u8);
        }
    }
    assert(buf[l2 - 1] == 10u8);
    lemma_line_end_at(buf, l1, l2 - 1);
    assert(buf.subrange(l1, l2) =~= m);
    lemma_other_header_line(h);

    // The third line is blank.
    assert(buf[l2] == 13u8);
    assert(buf[l2 + 1] == 10u8);
    lemma_line_end_at(buf, l2, l2 + 1);
    assert(buf.subrange(l2, l2 + 2) =~= crlf);
    assert(crlf[0] < 128 && crlf[1] < 128);
    lemma_ascii_valid_utf8(crlf);
    assert(crlf.drop_last().drop_last() =~= Seq::<u8>::empty());
    assert(trim_line_end(crlf.drop_last()) == trim_line_end(crlf.drop_last().drop_last()));
    assert(trim_line_end(crlf).len() == 0);
    assert(classify_line_spec(crlf) == Ok::<HeaderLine, FrameError>(HeaderLine::End));
    assert(scan_headers(buf, l2, Some(n)) == Ok::<(int, usize), FrameError>((l2 + 2, n)));
    assert(scan_headers(buf, l1, Some(n)) == scan_headers(buf, l2, Some(n)));
    assert(scan_headers(buf, 0, None) == scan_headers(buf, l1, Some(n)));
    assert(frame.len() == l2 + 2 + n);
    assert(buf.subrange(l2 + 2, l2 + 2 + n) =~= body);
}

/// An empty stream holds no frame, and that is not an error.
pub proof fn lemma_empty_stream_has_no_frame()
    ensures
        decode_frame_spec(Seq::<u8>::empty()) == Ok::<Option<(Seq<u8>, int)>, FrameError>(None),
{
}

} // verus!
