//! What framing promises: a message that was written is read back, whatever
//! follows it, it does not matter in which pieces the bytes arrive, and a stream
//! ends cleanly only between messages.

use crate::text::{
    decimal, digits_value, is_digit, lower, lowered, numeral_digits, numeral_value, starts_with,
    strip_line_end, trim_end, trim_start, trimmed,
};
use crate::transport::{
    frame, frame_body, frame_header, framed, header_of, lemma_line_end, line_end, read_body,
    read_headers, FrameReadView, HeaderLine,
};
use vstd::prelude::*;
use vstd::utf8::{
    decode_utf8, encode_utf8, encode_utf8_decode_utf8, encode_utf8_valid_utf8, is_ascii_chars,
    is_ascii_chars_encode_utf8, valid_utf8,
};

verus! {

/// The decimal form of a number is a run of digits that stands for it.
pub proof fn law_decimal_reads_back(n: nat)
    ensures
        decimal(n).len() > 0,
        forall|i: int| 0 <= i < decimal(n).len() ==> is_digit(#[trigger] decimal(n)[i]),
        digits_value(decimal(n)) == n,
        n <= usize::MAX ==> numeral_value(decimal(n)) == Some(n as usize),
    decreases n,
{
    let s = decimal(n);
    if n < 10 {
        assert(s.drop_last() =~= Seq::<char>::empty());
        assert(digits_value(s.drop_last()) == 0);
    } else {
        law_decimal_reads_back(n / 10);
        assert(s.drop_last() =~= decimal(n / 10));
        assert forall|i: int| 0 <= i < s.len() implies is_digit(#[trigger] s[i]) by {
            if i < s.len() - 1 {
                assert(s[i] == decimal(n / 10)[i]);
            }
        }
    }
    assert(is_digit(s[0]));
    assert(numeral_digits(s) == s);
}

proof fn lemma_line_end_at(bytes: Seq<u8>, at: int, k: int)
    requires
        0 <= at <= k < bytes.len(),
        bytes[k] == 0x0a,
        forall|i: int| at <= i < k ==> bytes[i] != 0x0a,
    ensures
        line_end(bytes, at) == Some(k + 1),
    decreases k - at,
{
    if at < k {
        lemma_line_end_at(bytes, at + 1, k);
    }
}

/// The first line of a frame names the length of the body.
proof fn lemma_length_line(n: nat)
    requires
        n <= usize::MAX,
    ensures
        header_of("Content-Length: "@ + decimal(n) + "\r\n"@) == HeaderLine::Length(
            Some(n as usize),
        ),
{
    let name = "Content-Length: "@;
    let digits = decimal(n);
    let line = name + digits + "\r\n"@;
    law_decimal_reads_back(n);
    reveal_strlit("Content-Length: ");
    reveal_strlit("content-length:");
    reveal_strlit("\r\n");

    let text = name + digits;
    assert(is_digit(digits.last()));
    assert(line.drop_last().drop_last() =~= text);
    assert(text.last() == digits.last());
    assert(line.drop_last().last() == '\r');
    assert(strip_line_end(text) == text);
    assert(strip_line_end(line.drop_last()) == text);
    assert(strip_line_end(line) == text);

    let low = lowered(text);
    assert(low.take(15) =~= "content-length:"@);
    assert(starts_with(low, "content-length:"@));
    let rest = low.skip(15);
    assert forall|i: int| 0 <= i < digits.len() implies lower(#[trigger] digits[i]) == digits[i] by {
        assert(is_digit(digits[i]));
    }
    assert(rest =~= seq![' '] + digits);
    assert(rest.drop_first() =~= digits);
    assert(is_digit(digits[0]));
    assert(trim_start(digits) == digits);
    assert(trim_start(rest) == digits);
    assert(trim_end(digits) == digits);
    assert(trimmed(rest) == digits);
}

proof fn lemma_blank_line()
    ensures
        header_of("\r\n"@) == HeaderLine::Blank,
{
    reveal_strlit("\r\n");
    let line = "\r\n"@;
    assert(line.drop_last().drop_last() =~= Seq::<char>::empty());
    assert(strip_line_end(line.drop_last().drop_last()) =~= Seq::<char>::empty());
    assert(strip_line_end(line.drop_last()) =~= Seq::<char>::empty());
    assert(strip_line_end(line) =~= Seq::<char>::empty());
}

/// A line of ASCII characters is read as itself.
proof fn lemma_ascii_line(bytes: Seq<u8>, line: Seq<char>)
    requires
        is_ascii_chars(line),
        bytes.len() == line.len(),
        forall|i: int| 0 <= i < line.len() ==> bytes[i] == line[i] as u8,
    ensures
        valid_utf8(bytes),
        decode_utf8(bytes) == line,
{
    is_ascii_chars_encode_utf8(line);
    assert(bytes =~= encode_utf8(line));
    encode_utf8_valid_utf8(line);
    encode_utf8_decode_utf8(line);
}

/// The line that announces a body of this length.
spec fn length_line(n: nat) -> Seq<char> {
    "Content-Length: "@ + decimal(n) + "\r\n"@
}

/// A header is that line and an empty one, in ASCII.
proof fn lemma_header_bytes(n: nat)
    ensures
        ({
            let line = length_line(n);
            let header = frame_header(n);
            &&& is_ascii_chars(line)
            &&& line.len() > 2
            &&& line[0] == 'C'
            &&& line.last() == '\n'
            &&& forall|i: int| 0 <= i < line.len() - 1 ==> #[trigger] line[i] != '\n'
            &&& header == line + "\r\n"@
            &&& encode_utf8(header).len() == header.len()
            &&& forall|i: int|
                0 <= i < header.len() ==> #[trigger] encode_utf8(header)[i] == header[i] as u8
        }),
{
    let line = length_line(n);
    let header = frame_header(n);
    law_decimal_reads_back(n);
    reveal_strlit("Content-Length: ");
    reveal_strlit("\r\n");
    reveal_strlit("\r\n\r\n");
    assert(header =~= line + "\r\n"@);
    assert forall|i: int| 0 <= i < header.len() implies (#[trigger] header[i] as u32) < 128 by {
        if 16 <= i < 16 + decimal(n).len() {
            assert(is_digit(decimal(n)[i - 16]));
        }
    }
    assert forall|i: int| 0 <= i < line.len() implies (#[trigger] line[i] as u32) < 128 by {
        assert(header[i] == line[i]);
    }
    assert forall|i: int| 0 <= i < line.len() - 1 implies #[trigger] line[i] != '\n' by {
        if 16 <= i < 16 + decimal(n).len() {
            assert(is_digit(decimal(n)[i - 16]));
        }
    }
    assert(is_ascii_chars(header));
    is_ascii_chars_encode_utf8(header);
}

/// Behind the first line of a frame the length of its body is known.
proof fn lemma_first_line(n: nat, bytes: Seq<u8>, ended: bool)
    requires
        n <= usize::MAX,
        length_line(n).len() <= bytes.len(),
        forall|i: int| 0 <= i < length_line(n).len() ==> #[trigger] bytes[i] == length_line(n)[i] as u8,
    ensures
        framed(bytes, ended) == read_headers(
            bytes,
            length_line(n).len() as int,
            Some(n as usize),
            ended,
        ),
{
    let line = length_line(n);
    let k = line.len() as int;
    lemma_header_bytes(n);
    assert forall|i: int| 0 <= i < k - 1 implies bytes[i] != 0x0a by {
        assert(line[i] != '\n');
    }
    lemma_line_end_at(bytes, 0, k - 1);
    lemma_ascii_line(bytes.subrange(0, k), line);
    lemma_length_line(n);
}

/// A framed body is found at the start of the bytes, whatever follows it, and the
/// whole of the frame is used up.
pub proof fn law_frame_reads_back(body: Seq<u8>, tail: Seq<u8>, ended: bool)
    requires
        body.len() <= usize::MAX,
    ensures
        framed(frame(body) + tail, ended) == (FrameReadView::Frame {
            start: frame(body).len() - body.len(),
            end: frame(body).len() as int,
        }),
        frame_body(frame(body) + tail, framed(frame(body) + tail, ended)) == body,
{
    let n = body.len();
    let header = frame_header(n);
    let bytes = frame(body) + tail;
    let k = length_line(n).len() as int;
    lemma_header_bytes(n);
    reveal_strlit("\r\n");
    assert forall|i: int| 0 <= i < header.len() implies #[trigger] bytes[i] == header[i] as u8 by {
        assert(bytes[i] == encode_utf8(header)[i]);
    }
    assert forall|i: int| 0 <= i < k implies #[trigger] bytes[i] == length_line(n)[i] as u8 by {
        assert(header[i] == length_line(n)[i]);
    }
    lemma_first_line(n, bytes, ended);
    assert(header[k] == '\r' && header[k + 1] == '\n');
    assert(bytes[k] == 0x0d && bytes[k + 1] == 0x0a);
    lemma_line_end_at(bytes, k, k + 1);
    lemma_ascii_line(bytes.subrange(k, k + 2), "\r\n"@);
    lemma_blank_line();
    assert(framed(bytes, ended) == read_body(bytes, k + 2, Some(n as usize), ended));
    assert(frame_body(bytes, framed(bytes, ended)) =~= body);
}

/// A text that starts with no line end is more than a line end.
proof fn lemma_not_blank(s: Seq<char>)
    requires
        s.len() > 0,
        s[0] != '\r',
        s[0] != '\n',
    ensures
        strip_line_end(s).len() > 0,
    decreases s.len(),
{
    if s.len() > 1 {
        lemma_not_blank(s.drop_last());
    }
}

proof fn lemma_no_line_end(bytes: Seq<u8>, at: int)
    requires
        0 <= at,
        forall|i: int| at <= i < bytes.len() ==> bytes[i] != 0x0a,
    ensures
        line_end(bytes, at) is None,
    decreases bytes.len() - at,
{
    if at < bytes.len() {
        lemma_no_line_end(bytes, at + 1);
    }
}

/// A stream that ends within a message failed, wherever in it that is.
pub proof fn law_a_cut_message_fails(body: Seq<u8>, cut: int)
    requires
        0 < body.len() <= usize::MAX,
        0 < cut < frame(body).len(),
    ensures
        framed(frame(body).take(cut), true) is Failed,
{
    let n = body.len();
    let header = frame_header(n);
    let line = length_line(n);
    let k = line.len() as int;
    let bytes = frame(body).take(cut);
    lemma_header_bytes(n);
    reveal_strlit("\r\n");
    assert forall|i: int| 0 <= i < header.len() && i < cut implies #[trigger] bytes[i]
        == header[i] as u8 by {
        assert(bytes[i] == encode_utf8(header)[i]);
    }
    assert forall|i: int| 0 <= i < k && i < cut implies #[trigger] bytes[i] == line[i] as u8 by {
        assert(header[i] == line[i]);
    }
    if cut <= k {
        // The first line is all there is, or part of it.
        let part = line.take(cut);
        assert forall|i: int| 0 <= i < cut implies (#[trigger] part[i] as u32) < 128 by {
            assert(part[i] == line[i]);
        }
        assert forall|i: int| 0 <= i < k - 1 && i < cut implies bytes[i] != 0x0a by {
            assert(line[i] != '\n');
        }
        if cut == k {
            lemma_line_end_at(bytes, 0, k - 1);
        } else {
            lemma_no_line_end(bytes, 0);
        }
        assert(bytes.subrange(0, cut) =~= bytes);
        lemma_ascii_line(bytes, part);
        lemma_not_blank(part);
        assert(read_headers(bytes, cut, None, true) is Failed);
        if let HeaderLine::Length(Some(named)) = header_of(part) {
            assert(read_headers(bytes, cut, Some(named), true) is Failed);
        }
    } else {
        lemma_first_line(n, bytes, true);
        assert(header[k] == '\r' && header[k + 1] == '\n');
        assert(bytes[k] == 0x0d);
        if cut == k + 1 {
            // Of the second line only its first character.
            lemma_no_line_end(bytes, k);
            lemma_ascii_line(bytes.subrange(k, k + 1), seq!['\r']);
            assert(seq!['\r'].drop_last() =~= Seq::<char>::empty());
            assert(strip_line_end(seq!['\r'].drop_last()) =~= Seq::<char>::empty());
            assert(framed(bytes, true) == read_body(bytes, k + 1, Some(n as usize), true));
        } else {
            assert(bytes[k + 1] == 0x0a);
            lemma_line_end_at(bytes, k, k + 1);
            lemma_ascii_line(bytes.subrange(k, k + 2), "\r\n"@);
            lemma_blank_line();
            assert(framed(bytes, true) == read_body(bytes, k + 2, Some(n as usize), true));
        }
    }
}

proof fn lemma_ended_headers(bytes: Seq<u8>, at: int, length: Option<usize>)
    requires
        0 < at,
    ensures
        !(read_headers(bytes, at, length, true) is Ended),
        !(read_headers(bytes, at, length, true) is Incomplete),
    decreases bytes.len() - at,
{
    lemma_line_end(bytes, at);
    if at < bytes.len() {
        let end = match line_end(bytes, at) {
            Some(end) => end,
            None => bytes.len() as int,
        };
        if let HeaderLine::Length(Some(named)) = header_of(decode_utf8(bytes.subrange(at, end))) {
            lemma_ended_headers(bytes, end, Some(named));
        }
        lemma_ended_headers(bytes, end, length);
    }
}

/// A stream ends cleanly exactly when it ends before any byte of a message. Once it
/// has ended nothing is left to wait for.
pub proof fn law_only_between_messages_is_a_clean_end(bytes: Seq<u8>)
    ensures
        framed(bytes, true) is Ended <==> bytes.len() == 0,
        !(framed(bytes, true) is Incomplete),
{
    lemma_line_end(bytes, 0);
    if bytes.len() > 0 {
        let end = match line_end(bytes, 0) {
            Some(end) => end,
            None => bytes.len() as int,
        };
        if let HeaderLine::Length(Some(named)) = header_of(decode_utf8(bytes.subrange(0, end))) {
            lemma_ended_headers(bytes, end, Some(named));
        }
        lemma_ended_headers(bytes, end, None);
    }
}

proof fn lemma_line_end_grows(bytes: Seq<u8>, more: Seq<u8>, at: int)
    requires
        line_end(bytes, at) is Some,
    ensures
        line_end(bytes + more, at) == line_end(bytes, at),
    decreases bytes.len() - at,
{
    if bytes[at] != 0x0a {
        lemma_line_end_grows(bytes, more, at + 1);
    }
}

proof fn lemma_headers_grow(
    bytes: Seq<u8>,
    more: Seq<u8>,
    at: int,
    length: Option<usize>,
    ended: bool,
)
    requires
        !(read_headers(bytes, at, length, false) is Incomplete),
    ensures
        read_headers(bytes + more, at, length, ended) == read_headers(bytes, at, length, false),
    decreases bytes.len() - at,
{
    lemma_line_end(bytes, at);
    lemma_line_end_grows(bytes, more, at);
    let end = line_end(bytes, at)->0;
    let line = bytes.subrange(at, end);
    assert((bytes + more).subrange(at, end) =~= line);
    if valid_utf8(line) {
        match header_of(decode_utf8(line)) {
            HeaderLine::Length(Some(named)) => {
                lemma_headers_grow(bytes, more, end, Some(named), ended);
            },
            HeaderLine::Other => {
                lemma_headers_grow(bytes, more, end, length, ended);
            },
            _ => {},
        }
    }
}

/// Once the bytes received so far hold a message or an error, no further bytes and
/// no end of the stream change that. So it does not matter in which pieces the
/// bytes arrive.
pub proof fn law_later_bytes_do_not_matter(bytes: Seq<u8>, more: Seq<u8>, ended: bool)
    requires
        !(framed(bytes, false) is Incomplete),
    ensures
        framed(bytes + more, ended) == framed(bytes, false),
{
    lemma_headers_grow(bytes, more, 0, None, ended);
}

/// While the stream can go on, it is never taken to have ended.
pub proof fn law_an_open_stream_has_not_ended(bytes: Seq<u8>)
    ensures
        !(framed(bytes, false) is Ended),
{
    lemma_open_headers(bytes, 0, None);
}

proof fn lemma_open_headers(bytes: Seq<u8>, at: int, length: Option<usize>)
    ensures
        !(read_headers(bytes, at, length, false) is Ended),
    decreases bytes.len() - at,
{
    lemma_line_end(bytes, at);
    if at >= 0 && line_end(bytes, at) is Some {
        let end = line_end(bytes, at)->0;
        let line = bytes.subrange(at, end);
        if let HeaderLine::Length(Some(named)) = header_of(decode_utf8(line)) {
            lemma_open_headers(bytes, end, Some(named));
        }
        lemma_open_headers(bytes, end, length);
    }
}

} // verus!
