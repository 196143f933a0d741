//! Decoding of requests.
//!
//! A request is a head of lines, each ended by a line feed, followed by an
//! empty line and then by a body whose length a `Content-Length` header
//! declares. The first line of the head is the request line, the others are
//! headers. `decode` says what a byte stream holds; `parse_request` computes
//! it.

use vstd::prelude::*;
use vstd::string::*;
use crate::headers::{
    has_name, insert, lemma_insert_distinct, lemma_insert_is_map_insert, lookup, names_distinct,
    HeaderPair, Headers,
};
use crate::message::{content_length_name, name_separator, HttpRequest, RequestView};
use crate::text::{
    copy_range, find, find_from, lemma_find, lemma_find_unique, parse_bounded, parse_number,
    same_bytes, COLON, CR, LF, SP,
};

verus! {

/// Why a byte stream does not hold a request.
#[derive(Debug, Clone, Copy, PartialEq, Eq, Structural)]
pub enum DecodeError {
    /// The request line is missing or is not made of exactly three tokens.
    MalformedRequestLine,
    /// A `Content-Length` header does not spell a length.
    MalformedHeader,
    /// The stream ends before the empty line that closes the head.
    IncompleteHead,
    /// The stream ends before the declared number of body bytes.
    IncompleteBody,
}

/// Whether three bytes are the UTF-8 form of one of the whitespace
/// characters from U+1680 on: the Ogham space mark, the spaces U+2000 to
/// U+200A, the line and paragraph separators, the narrow no-break space,
/// the medium mathematical space and the ideographic space.
pub open spec fn is_wide_whitespace(a: u8, b: u8, c: u8) -> bool {
    ||| a == 0xE1 && b == 0x9A && c == 0x80
    ||| a == 0xE2 && b == 0x80 && (0x80 <= c <= 0x8A || c == 0xA8 || c == 0xA9 || c == 0xAF)
    ||| a == 0xE2 && b == 0x81 && c == 0x9F
    ||| a == 0xE3 && b == 0x80 && c == 0x80
}

/// The number of bytes that the whitespace character at the start of `s`
/// takes up, and zero where `s` does not start with one. Whitespace is what
/// Unicode calls so, in UTF-8: the ASCII controls from tab to carriage
/// return, the space, U+0085, U+00A0, and the wider ones.
pub open spec fn whitespace_width(s: Seq<u8>) -> nat {
    if s.len() >= 1 && (s[0] == SP || 9 <= s[0] <= 13) {
        1
    } else if s.len() >= 2 && s[0] == 0xC2 && (s[1] == 0x85 || s[1] == 0xA0) {
        2
    } else if s.len() >= 3 && is_wide_whitespace(s[0], s[1], s[2]) {
        3
    } else {
        0
    }
}

/// Whether a line, taken without its line feed, is the empty line that
/// closes the head: nothing at all, or a lone carriage return.
pub open spec fn is_blank_line(raw: Seq<u8>) -> bool {
    raw.len() == 0 || raw == seq![CR]
}

/// A line without the carriage returns and line feeds at its end.
pub open spec fn trim_line_end(raw: Seq<u8>) -> Seq<u8>
    decreases raw.len(),
{
    if raw.len() > 0 && (raw.last() == CR || raw.last() == LF) {
        trim_line_end(raw.drop_last())
    } else {
        raw
    }
}

/// What the start of a stream holds as a head.
pub struct HeadScan {
    /// The lines before the empty line, or before the end of the stream
    /// where no empty line came, each without its line end.
    pub lines: Seq<Seq<u8>>,
    /// Whether the empty line was found.
    pub terminated: bool,
    /// The number of bytes that the lines and the empty line take up.
    pub length: int,
}

/// Reads lines up to the first empty line. Bytes after the last line feed
/// are not a line yet.
pub open spec fn scan_head(s: Seq<u8>) -> HeadScan
    decreases s.len(),
{
    let n = find(s, seq![LF]) as int;
    if n >= s.len() {
        HeadScan { lines: Seq::empty(), terminated: false, length: 0 }
    } else if is_blank_line(s.take(n)) {
        HeadScan { lines: Seq::empty(), terminated: true, length: n + 1 }
    } else {
        let rest = scan_head(s.skip(n + 1));
        HeadScan {
            lines: seq![trim_line_end(s.take(n))] + rest.lines,
            terminated: rest.terminated,
            length: n + 1 + rest.length,
        }
    }
}

/// The length of the run of bytes at the start of `s` up to the next
/// whitespace character.
pub open spec fn token_length(s: Seq<u8>) -> nat
    decreases s.len(),
{
    if s.len() == 0 || whitespace_width(s) > 0 {
        0
    } else {
        1 + token_length(s.drop_first())
    }
}

/// A token is no longer than the text it starts.
pub proof fn lemma_token_length_bound(s: Seq<u8>)
    ensures
        token_length(s) <= s.len(),
    decreases s.len(),
{
    if !(s.len() == 0 || whitespace_width(s) > 0) {
        lemma_token_length_bound(s.drop_first());
    }
}

/// The maximal runs of bytes between whitespace characters, in order.
pub open spec fn tokens(s: Seq<u8>) -> Seq<Seq<u8>>
    decreases s.len(),
{
    if s.len() == 0 {
        Seq::empty()
    } else if whitespace_width(s) > 0 {
        tokens(s.skip(whitespace_width(s) as int))
    } else {
        proof {
            lemma_token_length_bound(s);
        }
        let n = token_length(s) as int;
        seq![s.take(n)] + tokens(s.skip(n))
    }
}

/// A header line split at its first `": "`; a line without one is no header.
pub open spec fn split_header(line: Seq<u8>) -> Option<HeaderPair> {
    let at = find(line, name_separator()) as int;
    if at + 2 <= line.len() {
        Some((line.take(at), line.skip(at + 2)))
    } else {
        None
    }
}

/// The mapping that a run of header lines builds: lines that are no header
/// are dropped, and a later header replaces an earlier one of the same name.
pub open spec fn headers_of(lines: Seq<Seq<u8>>) -> Seq<HeaderPair>
    decreases lines.len(),
{
    if lines.len() == 0 {
        Seq::empty()
    } else {
        let before = headers_of(lines.drop_last());
        match split_header(lines.last()) {
            Some(h) => insert(before, h.0, h.1),
            None => before,
        }
    }
}

/// Whether a header line declares the length of the body.
pub open spec fn is_length_line(line: Seq<u8>) -> bool {
    match split_header(line) {
        Some(h) => h.0 == content_length_name(),
        None => false,
    }
}

/// The length that a `Content-Length` line declares: a decimal number that a
/// `usize` can hold.
pub open spec fn declared_length(line: Seq<u8>) -> Option<nat> {
    match split_header(line) {
        Some(h) => parse_bounded(h.1, usize::MAX as nat),
        None => None,
    }
}

/// Whether some `Content-Length` line among `lines` does not spell a length.
pub open spec fn has_bad_length(lines: Seq<Seq<u8>>) -> bool {
    exists|i: int|
        0 <= i < lines.len() && is_length_line(#[trigger] lines[i]) && declared_length(
            lines[i],
        ) is None
}

/// The body length that a run of header lines declares: that of the last
/// `Content-Length` line, and zero where there is none.
pub open spec fn body_length(lines: Seq<Seq<u8>>) -> nat
    decreases lines.len(),
{
    if lines.len() == 0 {
        0
    } else if is_length_line(lines.last()) {
        match declared_length(lines.last()) {
            Some(n) => n,
            None => 0,
        }
    } else {
        body_length(lines.drop_last())
    }
}

/// The lines of a head after the request line.
pub open spec fn header_lines(lines: Seq<Seq<u8>>) -> Seq<Seq<u8>> {
    if lines.len() == 0 {
        lines
    } else {
        lines.drop_first()
    }
}

/// What a byte stream holds: the request at its start, or the reason why
/// there is none. Bytes after the body are not looked at.
pub open spec fn decode(s: Seq<u8>) -> Result<RequestView, DecodeError> {
    let head = scan_head(s);
    let fields = header_lines(head.lines);
    if has_bad_length(fields) {
        Err(DecodeError::MalformedHeader)
    } else if !head.terminated {
        Err(DecodeError::IncompleteHead)
    } else if head.lines.len() == 0 || tokens(head.lines[0]).len() != 3 {
        Err(DecodeError::MalformedRequestLine)
    } else if s.len() - head.length < body_length(fields) {
        Err(DecodeError::IncompleteBody)
    } else {
        Ok(
            RequestView {
                method: tokens(head.lines[0])[0],
                path: tokens(head.lines[0])[1],
                headers: headers_of(fields),
                body: s.subrange(head.length, head.length + body_length(fields)),
            },
        )
    }
}

/// The models of a list of byte strings.
pub open spec fn views(v: Seq<Vec<u8>>) -> Seq<Seq<u8>> {
    v.map_values(|x: Vec<u8>| x@)
}

/// The lines of a head as read from a stream.
#[derive(Debug)]
pub struct Head {
    pub lines: Vec<Vec<u8>>,
    pub terminated: bool,
    pub length: usize,
}

impl View for Head {
    type V = HeadScan;

    open spec fn view(&self) -> HeadScan {
        HeadScan {
            lines: views(self.lines@),
            terminated: self.terminated,
            length: self.length as int,
        }
    }
}

/// Copies `raw[from..to]` without the carriage returns and line feeds at its
/// end.
pub fn trimmed_line(raw: &[u8], from: usize, to: usize) -> (out: Vec<u8>)
    requires
        from <= to <= raw.len(),
    ensures
        out@ == trim_line_end(raw@.subrange(from as int, to as int)),
{
    let mut end: usize = to;
    while end > from && (raw[end - 1] == CR || raw[end - 1] == LF)
        invariant
            from <= end <= to <= raw.len(),
            trim_line_end(raw@.subrange(from as int, to as int)) == trim_line_end(
                raw@.subrange(from as int, end as int),
            ),
        decreases end - from,
    {
        assert(raw@.subrange(from as int, end as int).drop_last() =~= raw@.subrange(
            from as int,
            end - 1,
        ));
        end = end - 1;
    }
    copy_range(raw, from, end)
}

/// Reads the head at the start of `input`.
pub fn read_head(input: &[u8]) -> (head: Head)
    ensures
        head@ == scan_head(input@),
        0 <= head.length <= input.len(),
{
    let lf: [u8; 1] = [LF];
    let mut lines: Vec<Vec<u8>> = Vec::new();
    let mut pos: usize = 0;
    let mut terminated = false;
    let mut done = false;
    assert(input@.skip(0) =~= input@);
    while !done
        invariant
            0 <= pos <= input.len(),
            lf@ == seq![LF],
            !done ==> !terminated,
            !done ==> scan_head(input@) == (HeadScan {
                lines: views(lines@) + scan_head(input@.skip(pos as int)).lines,
                terminated: scan_head(input@.skip(pos as int)).terminated,
                length: pos + scan_head(input@.skip(pos as int)).length,
            }),
            done ==> scan_head(input@) == (HeadScan {
                lines: views(lines@),
                terminated,
                length: pos as int,
            }),
        decreases input.len() - pos + (if done { 0int } else { 1int }),
    {
        let ghost rest = input@.skip(pos as int);
        let end = find_from(input, pos, lf.as_slice());
        proof {
            lemma_find(rest, seq![LF]);
        }
        if end >= input.len() {
            assert(views(lines@) + Seq::<Seq<u8>>::empty() =~= views(lines@));
            done = true;
        } else {
            let ghost n = end - pos;
            assert(rest.take(n) =~= input@.subrange(pos as int, end as int));
            assert(rest.skip(n + 1) =~= input@.skip(end + 1));
            let blank = end == pos || (end == pos + 1 && input[pos] == CR);
            assert(blank == is_blank_line(rest.take(n))) by {
                if end == pos + 1 {
                    assert(rest.take(n)[0] == input@[pos as int]);
                    if input@[pos as int] == CR {
                        assert(rest.take(n) =~= seq![CR]);
                    }
                }
            }
            if blank {
                assert(views(lines@) + Seq::<Seq<u8>>::empty() =~= views(lines@));
                terminated = true;
                done = true;
                pos = end + 1;
            } else {
                let line = trimmed_line(input, pos, end);
                let ghost before = views(lines@);
                lines.push(line);
                proof {
                    let tail = scan_head(input@.skip(end + 1));
                    assert(views(lines@) =~= before.push(line@));
                    assert(before + (seq![line@] + tail.lines) =~= views(lines@) + tail.lines);
                }
                pos = end + 1;
            }
        }
    }
    Head { lines, terminated, length: pos }
}

/// A run of bytes in which no whitespace character starts, and that ends
/// at one or at the end of the text, is the token that the text starts
/// with.
pub proof fn lemma_token_length(s: Seq<u8>, n: int)
    requires
        0 <= n <= s.len(),
        forall|k: int| 0 <= k < n ==> #[trigger] whitespace_width(s.skip(k)) == 0,
        n == s.len() || whitespace_width(s.skip(n)) > 0,
    ensures
        token_length(s) == n,
    decreases n,
{
    assert(s.skip(0) =~= s);
    if n > 0 {
        let t = s.drop_first();
        assert forall|k: int| 0 <= k < n - 1 implies #[trigger] whitespace_width(t.skip(k))
            == 0 by {
            assert(t.skip(k) =~= s.skip(k + 1));
        }
        assert(t.skip(n - 1) =~= s.skip(n));
        lemma_token_length(t, n - 1);
    }
}

/// The width of the whitespace character that starts at `at`, or zero.
pub fn whitespace_at(line: &[u8], at: usize) -> (width: usize)
    requires
        at <= line.len(),
    ensures
        width == whitespace_width(line@.skip(at as int)),
        at + width <= line.len(),
{
    let left = line.len() - at;
    if left >= 1 && (line[at] == SP || (9 <= line[at] && line[at] <= 13)) {
        return 1;
    }
    if left >= 2 && line[at] == 0xC2 && (line[at + 1] == 0x85 || line[at + 1] == 0xA0) {
        return 2;
    }
    if left >= 3 {
        let a = line[at];
        let b = line[at + 1];
        let c = line[at + 2];
        if (a == 0xE1 && b == 0x9A && c == 0x80) || (a == 0xE2 && b == 0x80 && ((0x80 <= c && c
            <= 0x8A) || c == 0xA8 || c == 0xA9 || c == 0xAF)) || (a == 0xE2 && b == 0x81 && c
            == 0x9F) || (a == 0xE3 && b == 0x80 && c == 0x80) {
            return 3;
        }
    }
    0
}

/// Splits a line into the runs of bytes between whitespace.
pub fn split_tokens(line: &[u8]) -> (out: Vec<Vec<u8>>)
    ensures
        views(out@) == tokens(line@),
{
    let mut out: Vec<Vec<u8>> = Vec::new();
    let mut i: usize = 0;
    assert(line@.skip(0) =~= line@);
    while i < line.len()
        invariant
            0 <= i <= line.len(),
            tokens(line@) == views(out@) + tokens(line@.skip(i as int)),
        decreases line.len() - i,
    {
        let ghost rest = line@.skip(i as int);
        let width = whitespace_at(line, i);
        if width > 0 {
            assert(rest.skip(width as int) =~= line@.skip(i + width));
            i = i + width;
        } else {
            let mut j: usize = i + 1;
            while j < line.len() && whitespace_at(line, j) == 0
                invariant
                    i < j <= line.len(),
                    forall|k: int| i <= k < j ==> #[trigger] whitespace_width(line@.skip(k)) == 0,
                decreases line.len() - j,
            {
                j = j + 1;
            }
            proof {
                assert forall|k: int| 0 <= k < j - i implies #[trigger] whitespace_width(
                    rest.skip(k),
                ) == 0 by {
                    assert(rest.skip(k) =~= line@.skip(i + k));
                }
                assert(rest.skip(j - i) =~= line@.skip(j as int));
                if j == line.len() {
                    assert(rest.len() == j - i);
                }
                lemma_token_length(rest, j - i);
                assert(rest.take(j - i) =~= line@.subrange(i as int, j as int));
            }
            let token = copy_range(line, i, j);
            let ghost before = views(out@);
            out.push(token);
            proof {
                let tail = tokens(line@.skip(j as int));
                assert(views(out@) =~= before.push(token@));
                assert(before + (seq![token@] + tail) =~= views(out@) + tail);
            }
            i = j;
        }
    }
    assert(views(out@) + Seq::<Seq<u8>>::empty() =~= views(out@));
    out
}

/// Splits a header line at its first `": "`.
pub fn split_header_line(line: &[u8]) -> (r: Option<(Vec<u8>, Vec<u8>)>)
    ensures
        match r {
            Some(h) => split_header(line@) == Some((h.0@, h.1@)),
            None => split_header(line@) is None,
        },
{
    let separator: [u8; 2] = [COLON, SP];
    assert(separator@ =~= name_separator());
    assert(line@.skip(0) =~= line@);
    let at = find_from(line, 0, separator.as_slice());
    if line.len() - at >= 2 {
        let name = copy_range(line, 0, at);
        let value = copy_range(line, at + 2, line.len());
        assert(line@.take(at as int) =~= name@);
        assert(line@.skip(at + 2) =~= value@);
        Some((name, value))
    } else {
        None
    }
}

/// Reads the header lines of a head, which are all its lines but the first:
/// the mapping they build and the body length they declare.
pub fn read_fields(lines: &Vec<Vec<u8>>) -> (r: Result<(Headers, usize), DecodeError>)
    ensures
        match r {
            Ok(f) => {
                &&& !has_bad_length(header_lines(views(lines@)))
                &&& f.0@ == headers_of(header_lines(views(lines@)))
                &&& f.1 == body_length(header_lines(views(lines@)))
            },
            Err(e) => e == DecodeError::MalformedHeader && has_bad_length(
                header_lines(views(lines@)),
            ),
        },
{
    let ghost fields = header_lines(views(lines@));
    let mut headers = Headers::new();
    let mut length: usize = 0;
    if lines.len() == 0 {
        return Ok((headers, length));
    }
    let mut i: usize = 1;
    assert(fields.take(0) =~= Seq::<Seq<u8>>::empty());
    while i < lines.len()
        invariant
            1 <= i <= lines.len(),
            fields == header_lines(views(lines@)),
            fields.len() == lines.len() - 1,
            headers@ == headers_of(fields.take(i - 1)),
            length == body_length(fields.take(i - 1)),
            forall|k: int|
                0 <= k < i - 1 ==> !(is_length_line(#[trigger] fields[k]) && declared_length(
                    fields[k],
                ) is None),
        decreases lines.len() - i,
    {
        let line = &lines[i];
        proof {
            assert(fields[i - 1] == line@);
            assert(fields.take(i as int).drop_last() =~= fields.take(i - 1));
            assert(fields.take(i as int).last() == line@);
        }
        match split_header_line(line.as_slice()) {
            Some((name, value)) => {
                if same_bytes(name.as_slice(), "Content-Length".as_bytes()) {
                    match parse_number(value.as_slice(), usize::MAX as u64) {
                        Some(n) => {
                            length = n as usize;
                        },
                        None => {
                            assert(is_length_line(fields[i - 1]) && declared_length(
                                fields[i - 1],
                            ) is None);
                            return Err(DecodeError::MalformedHeader);
                        },
                    }
                }
                headers.insert(name, value);
            },
            None => {},
        }
        i = i + 1;
    }
    assert(fields.take(i - 1) =~= fields);
    Ok((headers, length))
}

/// Decodes the request at the start of `input`.
///
/// The body is the declared number of bytes after the head; what follows it
/// is ignored. A stream that stops short gives `IncompleteHead` or
/// `IncompleteBody`, and decoding it again once more bytes have arrived may
/// succeed.
pub fn parse_request(input: &[u8]) -> (r: Result<HttpRequest, DecodeError>)
    ensures
        match r {
            Ok(request) => decode(input@) == Ok::<RequestView, DecodeError>(request@),
            Err(e) => decode(input@) == Err::<RequestView, DecodeError>(e),
        },
{
    let head = read_head(input);
    let (headers, length) = match read_fields(&head.lines) {
        Ok(f) => f,
        Err(e) => {
            return Err(e);
        },
    };
    if !head.terminated {
        return Err(DecodeError::IncompleteHead);
    }
    if head.lines.len() == 0 {
        return Err(DecodeError::MalformedRequestLine);
    }
    let mut parts = split_tokens(head.lines[0].as_slice());
    if parts.len() != 3 {
        return Err(DecodeError::MalformedRequestLine);
    }
    if input.len() - head.length < length {
        return Err(DecodeError::IncompleteBody);
    }
    let body = copy_range(input, head.length, head.length + length);
    let ghost all = views(parts@);
    parts.pop();
    let path = parts.pop().unwrap();
    let method = parts.pop().unwrap();
    assert(path@ == all[1] && method@ == all[0]);
    let request = HttpRequest { method, path, headers, body };
    assert(decode(input@) == Ok::<RequestView, DecodeError>(request@));
    Ok(request)
}

/// A head is no longer than the stream it was read from.
pub proof fn lemma_head_length(s: Seq<u8>)
    ensures
        0 <= scan_head(s).length <= s.len(),
    decreases s.len(),
{
    lemma_find(s, seq![LF]);
    let n = find(s, seq![LF]) as int;
    if n < s.len() && !is_blank_line(s.take(n)) {
        lemma_head_length(s.skip(n + 1));
    }
}

/// The mapping that header lines build holds no name twice, and what it
/// holds under `Content-Length` spells the body length that the lines
/// declare.
pub proof fn lemma_declared_length(lines: Seq<Seq<u8>>)
    requires
        !has_bad_length(lines),
    ensures
        names_distinct(headers_of(lines)),
        match lookup(headers_of(lines), content_length_name()) {
            Some(value) => parse_bounded(value, usize::MAX as nat) == Some(body_length(lines)),
            None => body_length(lines) == 0,
        },
    decreases lines.len(),
{
    if lines.len() > 0 {
        let front = lines.drop_last();
        let last = lines.last();
        assert(!has_bad_length(front)) by {
            if has_bad_length(front) {
                let i = choose|i: int|
                    0 <= i < front.len() && is_length_line(#[trigger] front[i])
                        && declared_length(front[i]) is None;
                assert(lines[i] == front[i]);
            }
        }
        assert(!(is_length_line(lines[lines.len() - 1]) && declared_length(
            lines[lines.len() - 1],
        ) is None));
        lemma_declared_length(front);
        match split_header(last) {
            Some(h) => {
                lemma_insert_is_map_insert(headers_of(front), h.0, h.1);
                lemma_insert_distinct(headers_of(front), h.0, h.1);
            },
            None => {},
        }
    } else {
        assert(!has_name(headers_of(lines), content_length_name()));
    }
}

/// Framing: the body of a decoded request is exactly as long as its
/// `Content-Length` header says, and empty where it has none.
pub proof fn lemma_decoded_body_length(s: Seq<u8>)
    requires
        decode(s) is Ok,
    ensures
        names_distinct(decode(s)->Ok_0.headers),
        match lookup(decode(s)->Ok_0.headers, content_length_name()) {
            Some(value) => parse_bounded(value, usize::MAX as nat) == Some(
                decode(s)->Ok_0.body.len(),
            ),
            None => decode(s)->Ok_0.body.len() == 0,
        },
{
    lemma_head_length(s);
    lemma_declared_length(header_lines(scan_head(s).lines));
}

/// The first line feed of a stream stays the first when bytes are added.
proof fn lemma_line_end_stable(s: Seq<u8>, more: Seq<u8>)
    requires
        find(s, seq![LF]) < s.len(),
    ensures
        find(s + more, seq![LF]) == find(s, seq![LF]),
{
    let pat = seq![LF];
    let n = find(s, pat) as int;
    let t = s + more;
    lemma_find(s, pat);
    assert forall|j: int| 0 <= j < n implies !pat.is_prefix_of(#[trigger] t.skip(j)) by {
        if pat.is_prefix_of(t.skip(j)) {
            assert(t.skip(j).subrange(0, 1)[0] == pat[0]);
            assert(s.skip(j)[0] == t.skip(j)[0]);
            assert(pat =~= s.skip(j).subrange(0, 1));
        }
    }
    assert(s.skip(n).subrange(0, 1)[0] == pat[0]);
    assert(pat =~= t.skip(n).subrange(0, 1));
    lemma_find_unique(t, pat, n);
}

/// The lines that a stream holds stay as they are when bytes are added: a
/// head that is closed is read as before, and one that is open keeps its
/// lines and may gain more.
proof fn lemma_scan_stable(s: Seq<u8>, more: Seq<u8>)
    ensures
        scan_head(s).terminated ==> scan_head(s + more) == scan_head(s),
        scan_head(s).lines.len() <= scan_head(s + more).lines.len(),
        forall|i: int|
            0 <= i < scan_head(s).lines.len() ==> #[trigger] scan_head(s + more).lines[i]
                == scan_head(s).lines[i],
    decreases s.len(),
{
    let n = find(s, seq![LF]) as int;
    let t = s + more;
    if n < s.len() {
        lemma_line_end_stable(s, more);
        assert(t.take(n) =~= s.take(n));
        if !is_blank_line(s.take(n)) {
            assert(t.skip(n + 1) =~= s.skip(n + 1) + more);
            lemma_scan_stable(s.skip(n + 1), more);
            let rest = scan_head(s.skip(n + 1));
            let grown = scan_head(s.skip(n + 1) + more);
            assert forall|i: int| 0 <= i < scan_head(s).lines.len() implies #[trigger] scan_head(
                t,
            ).lines[i] == scan_head(s).lines[i] by {
                if i > 0 {
                    assert(scan_head(t).lines[i] == grown.lines[i - 1]);
                    assert(scan_head(s).lines[i] == rest.lines[i - 1]);
                }
            }
            if rest.terminated {
                assert(scan_head(t).lines =~= scan_head(s).lines);
            }
        }
    }
}

/// Framing does not depend on how much of the stream has arrived: once a
/// stream holds a request, or is found malformed, more bytes change
/// nothing. Only a stream that stopped short may turn into something else.
pub proof fn lemma_decode_stable(s: Seq<u8>, more: Seq<u8>)
    requires
        decode(s) != Err::<RequestView, DecodeError>(DecodeError::IncompleteHead),
        decode(s) != Err::<RequestView, DecodeError>(DecodeError::IncompleteBody),
    ensures
        decode(s + more) == decode(s),
{
    let t = s + more;
    lemma_scan_stable(s, more);
    lemma_head_length(s);
    let fields = header_lines(scan_head(s).lines);
    if has_bad_length(fields) {
        let i = choose|i: int|
            0 <= i < fields.len() && is_length_line(#[trigger] fields[i]) && declared_length(
                fields[i],
            ) is None;
        let grown = header_lines(scan_head(t).lines);
        assert(fields[i] == scan_head(s).lines[i + 1]);
        assert(grown[i] == scan_head(t).lines[i + 1]);
        assert(has_bad_length(grown));
    } else {
        let head = scan_head(s);
        if decode(s) is Ok {
            assert(t.subrange(head.length, head.length + body_length(fields)) =~= s.subrange(
                head.length,
                head.length + body_length(fields),
            ));
        }
    }
}

} // verus!
