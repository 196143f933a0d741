//! Reading a response back from its wire form.
//!
//! `parse_response` is a reader of responses that is written without
//! reference to the encoder: it finds the head by its empty line, takes the
//! status code from the first line and the headers from the others, and
//! takes all that follows as the body. The theorem at the end says that it
//! recovers every response from the bytes that the encoder makes of it.

use vstd::prelude::*;
use vstd::string::*;
use crate::codec::{
    header_lines, headers_of, is_blank_line, scan_head, split_header, trim_line_end, HeadScan,
};
use crate::headers::{has_name, insert, names_distinct, HeaderPair};
use crate::message::{
    crlf, header_block, header_line, name_separator, reason_phrase, status_line, wire_format,
    ResponseView,
};
use crate::text::{
    decimal, find, is_digit, lemma_decimal_digits, lemma_find_unique,
    lemma_parse_decimal_roundtrip, parse_bounded, COLON, CR, LF, SP,
};

verus! {

/// The status code on a status line: the decimal number between the first
/// space and the next.
pub open spec fn status_of(line: Seq<u8>) -> Option<u16> {
    let version_end = find(line, seq![SP]) as int;
    if version_end >= line.len() {
        None
    } else {
        let rest = line.skip(version_end + 1);
        match parse_bounded(rest.take(find(rest, seq![SP]) as int), u16::MAX as nat) {
            Some(code) => Some(code as u16),
            None => None,
        }
    }
}

/// The response that a byte stream holds, where it holds one: a head that
/// an empty line closes and whose first line gives a status code, and the
/// rest of the stream as the body.
pub open spec fn parse_response(s: Seq<u8>) -> Option<ResponseView> {
    let head = scan_head(s);
    if !head.terminated || head.lines.len() == 0 {
        None
    } else {
        match status_of(head.lines[0]) {
            Some(status_code) => Some(
                ResponseView {
                    status_code,
                    headers: headers_of(header_lines(head.lines)),
                    body: s.skip(head.length),
                },
            ),
            None => None,
        }
    }
}

/// Whether the byte `b` does not occur in `s`.
pub open spec fn free_of(s: Seq<u8>, b: u8) -> bool {
    forall|i: int| 0 <= i < s.len() ==> #[trigger] s[i] != b
}

/// Whether a header can be told apart again once it is written as a line:
/// neither part holds a line feed, the name holds no `": "`, and the value
/// does not end in a carriage return.
pub open spec fn is_readable(h: HeaderPair) -> bool {
    &&& free_of(h.0, LF)
    &&& free_of(h.1, LF)
    &&& forall|i: int| 0 <= i < h.0.len() - 1 ==> !(#[trigger] h.0[i] == COLON && h.0[i + 1] == SP)
    &&& h.1.len() > 0 ==> h.1.last() != CR
}

/// Whether every header of a mapping is readable and no name occurs twice.
pub open spec fn all_readable(headers: Seq<HeaderPair>) -> bool {
    &&& names_distinct(headers)
    &&& forall|i: int| 0 <= i < headers.len() ==> is_readable(#[trigger] headers[i])
}

/// A line of text as the head of a response holds it: not empty, without a
/// line feed, not ending in a carriage return.
pub open spec fn is_text_line(line: Seq<u8>) -> bool {
    &&& line.len() > 0
    &&& free_of(line, LF)
    &&& line.last() != CR
}

/// A header without its line end.
pub open spec fn header_text(h: HeaderPair) -> Seq<u8> {
    h.0 + name_separator() + h.1
}

/// The first occurrence of a byte comes after any text that is free of it.
proof fn lemma_find_byte(before: Seq<u8>, b: u8, after: Seq<u8>)
    requires
        free_of(before, b),
    ensures
        find(before + seq![b] + after, seq![b]) == before.len(),
{
    let s = before + seq![b] + after;
    let pat = seq![b];
    let n = before.len() as int;
    assert forall|j: int| 0 <= j < n implies !pat.is_prefix_of(#[trigger] s.skip(j)) by {
        if pat.is_prefix_of(s.skip(j)) {
            assert(s.skip(j).subrange(0, 1)[0] == pat[0]);
            assert(s.skip(j)[0] == before[j]);
        }
    }
    assert(pat =~= s.skip(n).subrange(0, 1));
    lemma_find_unique(s, pat, n);
}

/// A text line that is followed by its line end is read back as it was.
proof fn lemma_trim_text_line(line: Seq<u8>)
    requires
        is_text_line(line),
    ensures
        trim_line_end(line.push(CR)) == line,
        !is_blank_line(line.push(CR)),
{
    let raw = line.push(CR);
    assert(raw.drop_last() =~= line);
    assert(line[line.len() - 1] != LF);
    assert(trim_line_end(line) == line);
    assert(raw.len() >= 2);
}

/// The lines of a head, each with its line end, one after the other.
pub open spec fn joined(lines: Seq<Seq<u8>>) -> Seq<u8>
    decreases lines.len(),
{
    if lines.len() == 0 {
        Seq::<u8>::empty()
    } else {
        lines[0] + crlf() + joined(lines.drop_first())
    }
}

/// A head made of text lines is read back line by line, up to the empty
/// line that closes it.
proof fn lemma_scan_joined(lines: Seq<Seq<u8>>, rest: Seq<u8>)
    requires
        forall|i: int| 0 <= i < lines.len() ==> is_text_line(#[trigger] lines[i]),
    ensures
        scan_head(joined(lines) + crlf() + rest) == (HeadScan {
            lines,
            terminated: true,
            length: joined(lines).len() as int + 2,
        }),
    decreases lines.len(),
{
    let s = joined(lines) + crlf() + rest;
    if lines.len() == 0 {
        let before = seq![CR];
        assert(free_of(before, LF));
        assert(s =~= before + seq![LF] + rest);
        lemma_find_byte(before, LF, rest);
        assert(s.take(1) =~= seq![CR]);
        assert(scan_head(s).lines =~= lines);
    } else {
        let first = lines[0];
        let others = lines.drop_first();
        let tail = joined(others) + crlf() + rest;
        let before = first.push(CR);
        assert(free_of(before, LF));
        assert(s =~= before + seq![LF] + tail);
        lemma_find_byte(before, LF, tail);
        assert(s.take(before.len() as int) =~= before);
        assert(s.skip(before.len() as int + 1) =~= tail);
        lemma_trim_text_line(first);
        assert forall|i: int| 0 <= i < others.len() implies is_text_line(#[trigger] others[i]) by {
            assert(others[i] == lines[i + 1]);
        }
        lemma_scan_joined(others, rest);
        assert(seq![first] + others =~= lines);
        assert(joined(lines).len() == first.len() + 2 + joined(others).len());
    }
}

/// The header lines of a block, read from the front.
proof fn lemma_header_block_joined(headers: Seq<HeaderPair>)
    ensures
        header_block(headers) == joined(headers.map_values(|h: HeaderPair| header_text(h))),
    decreases headers.len(),
{
    let texts = headers.map_values(|h: HeaderPair| header_text(h));
    if headers.len() == 0 {
    } else if headers.len() == 1 {
        assert(headers.drop_last() =~= Seq::<HeaderPair>::empty());
        assert(header_block(headers.drop_last()) =~= Seq::<u8>::empty());
        assert(texts.drop_first() =~= Seq::<Seq<u8>>::empty());
        assert(joined(texts.drop_first()) =~= Seq::<u8>::empty());
        assert(header_line(headers.last()) =~= header_text(headers[0]) + crlf());
        assert(header_block(headers) =~= joined(texts));
    } else {
        let front = headers.drop_last();
        let front_texts = front.map_values(|h: HeaderPair| header_text(h));
        lemma_header_block_joined(front);
        lemma_header_block_joined(front.drop_first());
        lemma_header_block_joined(headers.drop_first());
        assert(front_texts.drop_first() =~= front.drop_first().map_values(
            |h: HeaderPair| header_text(h),
        ));
        assert(texts.drop_first() =~= headers.drop_first().map_values(
            |h: HeaderPair| header_text(h),
        ));
        assert(headers.drop_first().drop_last() =~= front.drop_first());
        assert(headers.drop_first().last() == headers.last());
        assert(front[0] == headers[0]);
        // header_block(headers) = header_block(front) + line(last)
        //   = text(first) + crlf + joined(front.rest) + line(last)
        //   = text(first) + crlf + header_block(headers.rest)
        assert(header_block(headers) =~= header_text(headers[0]) + crlf() + header_block(
            headers.drop_first(),
        ));
    }
}

/// A readable header's line splits where it was put together.
proof fn lemma_split_header_text(h: HeaderPair)
    requires
        is_readable(h),
    ensures
        split_header(header_text(h)) == Some(h),
        is_text_line(header_text(h)),
{
    let line = header_text(h);
    let pat = name_separator();
    let n = h.0.len() as int;
    assert forall|j: int| 0 <= j < n implies !pat.is_prefix_of(#[trigger] line.skip(j)) by {
        if pat.is_prefix_of(line.skip(j)) {
            let window = line.skip(j).subrange(0, 2);
            assert(window[0] == pat[0] && window[1] == pat[1]);
            assert(line.skip(j)[0] == h.0[j]);
            if j + 1 < n {
                assert(line.skip(j)[1] == h.0[j + 1]);
            } else {
                assert(line.skip(j)[1] == COLON);
            }
        }
    }
    assert(pat =~= line.skip(n).subrange(0, 2));
    lemma_find_unique(line, pat, n);
    assert(line.take(n) =~= h.0);
    assert(line.skip(n + 2) =~= h.1);
    assert forall|i: int| 0 <= i < line.len() implies #[trigger] line[i] != LF by {
        if i < n {
            assert(line[i] == h.0[i]);
        } else if i >= n + 2 {
            assert(line[i] == h.1[i - n - 2]);
        }
    }
    if h.1.len() > 0 {
        assert(line.last() == h.1.last());
    } else {
        assert(line.last() == SP);
    }
}

/// The lines of a readable mapping build the mapping again.
proof fn lemma_headers_of_texts(headers: Seq<HeaderPair>)
    requires
        all_readable(headers),
    ensures
        headers_of(headers.map_values(|h: HeaderPair| header_text(h))) == headers,
    decreases headers.len(),
{
    let texts = headers.map_values(|h: HeaderPair| header_text(h));
    if headers.len() == 0 {
        assert(headers_of(texts) =~= headers);
    } else {
        let front = headers.drop_last();
        let last = headers.last();
        assert(all_readable(front)) by {
            assert forall|i: int| 0 <= i < front.len() implies is_readable(#[trigger] front[i]) by {
                assert(front[i] == headers[i]);
            }
            assert forall|i: int, j: int| 0 <= i < j < front.len() implies (#[trigger] front[i]).0
                != (#[trigger] front[j]).0 by {
                assert(front[i] == headers[i] && front[j] == headers[j]);
            }
        }
        lemma_headers_of_texts(front);
        assert(texts.drop_last() =~= front.map_values(|h: HeaderPair| header_text(h)));
        assert(texts.last() == header_text(last));
        lemma_split_header_text(last);
        assert(!has_name(front, last.0)) by {
            if has_name(front, last.0) {
                let i = choose|i: int| 0 <= i < front.len() && (#[trigger] front[i]).0 == last.0;
                assert(front[i] == headers[i]);
                assert(headers[i].0 != headers[headers.len() - 1].0);
            }
        }
        assert(insert(front, last.0, last.1) =~= headers);
    }
}

/// The status line, without its line end, is a text line that gives its
/// status code back.
proof fn lemma_status_line(status_code: u16)
    ensures
        status_line(status_code) == status_line(status_code).take(
            status_line(status_code).len() - 2,
        ) + crlf(),
        is_text_line(status_line(status_code).take(status_line(status_code).len() - 2)),
        status_of(status_line(status_code).take(status_line(status_code).len() - 2)) == Some(
            status_code,
        ),
{
    reveal_strlit("HTTP/1.1 ");
    reveal_strlit("OK");
    reveal_strlit("Bad Request");
    reveal_strlit("Not Found");
    reveal_strlit("Internal Server Error");
    reveal_strlit("Unknown");
    is_ascii_spec_bytes("HTTP/1.1 ");
    is_ascii_spec_bytes("OK");
    is_ascii_spec_bytes("Bad Request");
    is_ascii_spec_bytes("Not Found");
    is_ascii_spec_bytes("Internal Server Error");
    is_ascii_spec_bytes("Unknown");
    let version = "HTTP/1.1 ".spec_bytes();
    let digits = decimal(status_code as nat);
    let phrase = reason_phrase(status_code);
    let full = status_line(status_code);
    let line = full.take(full.len() - 2);
    lemma_decimal_digits(status_code as nat);
    lemma_parse_decimal_roundtrip(status_code as nat);
    assert(version.len() == 9);
    assert(phrase.len() > 0 && free_of(phrase, LF) && phrase.last() != CR);
    assert(line =~= version + digits + seq![SP] + phrase);
    assert(full =~= line + crlf());
    assert forall|i: int| 0 <= i < line.len() implies #[trigger] line[i] != LF by {
        if i < 9 {
            assert(line[i] == version[i]);
        } else if i < 9 + digits.len() {
            assert(line[i] == digits[i - 9]);
            assert(is_digit(digits[i - 9]));
        } else if i > 9 + digits.len() {
            assert(line[i] == phrase[i - 10 - digits.len()]);
        }
    }
    assert(line.last() == phrase.last());
    // The protocol version ends at the first space.
    let name = version.take(8);
    assert(free_of(name, SP));
    let after_version = digits + seq![SP] + phrase;
    assert(line =~= name + seq![SP] + after_version);
    lemma_find_byte(name, SP, after_version);
    assert(line.skip(9) =~= after_version);
    // The status code ends at the next one.
    assert(free_of(digits, SP)) by {
        assert forall|i: int| 0 <= i < digits.len() implies #[trigger] digits[i] != SP by {
            assert(is_digit(digits[i]));
        }
    }
    lemma_find_byte(digits, SP, phrase);
    assert(after_version.take(digits.len() as int) =~= digits);
}

/// Round trip: the bytes that the encoder makes of a response with
/// readable headers hold that response again, with the same status, the
/// same headers and the same body.
pub proof fn lemma_response_roundtrip(r: ResponseView)
    requires
        all_readable(r.headers),
    ensures
        parse_response(wire_format(r)) == Some(r),
{
    let full = status_line(r.status_code);
    let first = full.take(full.len() - 2);
    let texts = r.headers.map_values(|h: HeaderPair| header_text(h));
    let lines = seq![first] + texts;
    lemma_status_line(r.status_code);
    lemma_header_block_joined(r.headers);
    lemma_headers_of_texts(r.headers);
    assert forall|i: int| 0 <= i < lines.len() implies is_text_line(#[trigger] lines[i]) by {
        if i > 0 {
            assert(lines[i] == header_text(r.headers[i - 1]));
            lemma_split_header_text(r.headers[i - 1]);
        }
    }
    assert(lines.drop_first() =~= texts);
    assert(joined(lines) =~= full + header_block(r.headers));
    assert(wire_format(r) =~= joined(lines) + crlf() + r.body);
    lemma_scan_joined(lines, r.body);
    assert(header_lines(lines) =~= texts);
    assert(wire_format(r).skip(joined(lines).len() as int + 2) =~= r.body);
}

} // verus!
