//! What reading a stream promises line by line: which header lines matter, what a
//! length line may look like, and where the body stands.

use crate::framing_laws::law_decimal_reads_back;
use crate::json::json_decoding;
use crate::text::{
    decimal, is_digit, is_whitespace, lowered, numeral_value, starts_with, strip_line_end, trimmed,
    utf8_complaint,
};
use crate::text_laws::{
    is_gap, is_word, law_a_line_end_is_taken_off, law_trimming_takes_off_the_space,
};
use crate::transport::{
    framed, header_of, lemma_line_end, line_end, message_read, read_headers, FrameReadView,
    HeaderLine, ReadErrorView, ReadStepView,
};
use vstd::prelude::*;
use vstd::utf8::{decode_utf8, valid_utf8};

verus! {

proof fn lemma_lowered_line_end(s: Seq<char>)
    ensures
        strip_line_end(lowered(s)) == lowered(strip_line_end(s)),
    decreases s.len(),
{
    if s.len() > 0 {
        assert(lowered(s).drop_last() =~= lowered(s.drop_last()));
        lemma_lowered_line_end(s.drop_last());
    }
}

/// Header names are told apart without regard to the case of their letters.
pub proof fn law_case_does_not_matter(line: Seq<char>)
    ensures
        header_of(lowered(line)) == header_of(line),
{
    lemma_lowered_line_end(line);
    let text = strip_line_end(line);
    assert(lowered(lowered(text)) =~= lowered(text));
}

/// A line ends the headers exactly when it is nothing but a line end.
pub proof fn law_only_an_empty_line_ends_the_headers(line: Seq<char>)
    ensures
        header_of(line) is Blank <==> forall|i: int|
            0 <= i < line.len() ==> (#[trigger] line[i] == '\r' || line[i] == '\n'),
{
    let b = law_a_line_end_is_taken_off(line);
    if b > 0 {
        assert(line[b - 1] != '\r' && line[b - 1] != '\n');
    }
}

/// A line that does not start with the name of the length header, in any case, and is
/// not empty says nothing.
pub proof fn law_only_the_length_header_is_read(line: Seq<char>)
    requires
        !(header_of(line) is Blank),
    ensures
        header_of(line) is Length <==> "content-length:"@.len() <= strip_line_end(line).len()
            && lowered(strip_line_end(line)).take("content-length:"@.len() as int)
            == "content-length:"@,
        header_of(line) is Length || header_of(line) is Other,
{
}

/// What a length line names is the numeral behind its name, apart from the space
/// around it. Anything else in its place is no length.
pub proof fn law_a_length_line_names_its_numeral(rest: Seq<char>)
    requires
        rest.len() > 0 ==> rest.last() != '\r' && rest.last() != '\n',
    ensures
        header_of("content-length:"@ + rest + "\r\n"@) == HeaderLine::Length(
            numeral_value(trimmed(lowered(rest))),
        ),
{
    let name = "content-length:"@;
    let text = name + rest;
    let line = text + "\r\n"@;
    reveal_strlit("content-length:");
    reveal_strlit("\r\n");
    assert(line.drop_last() =~= text.push('\r'));
    assert(line.drop_last().drop_last() =~= text);
    if rest.len() > 0 {
        assert(text.last() == rest.last());
    } else {
        assert(text.last() == ':');
    }
    assert(strip_line_end(text) == text);
    assert(strip_line_end(line.drop_last()) == text);
    assert(strip_line_end(line) == text);
    assert(lowered(text).take(name.len() as int) =~= name);
    assert(lowered(text).skip(name.len() as int) =~= lowered(rest));
    assert(starts_with(lowered(text), name));
}

proof fn lemma_trimmed_is(before: Seq<char>, word: Seq<char>, behind: Seq<char>)
    requires
        is_gap(before),
        is_word(word),
        is_gap(behind),
    ensures
        trimmed(before + word + behind) == word,
{
    let s = before + word + behind;
    let (a, b) = law_trimming_takes_off_the_space(s);
    let g = before.len() as int;
    let e = g + word.len();
    assert(s[g] == word[0]);
    assert(s[e - 1] == word[word.len() - 1]);
    if a > g {
        assert(is_whitespace(s[g]));
    }
    if b < e {
        assert(is_whitespace(s[e - 1]));
    }
    if a < g {
        assert(s[a] == before[a]);
    }
    if b > e {
        assert(s[b - 1] == behind[b - 1 - e]);
    }
    assert(s.subrange(g, e) =~= word);
}

/// A written length is read back, with any space around it.
pub proof fn law_space_around_a_length_does_not_matter(
    before: Seq<char>,
    n: nat,
    behind: Seq<char>,
)
    requires
        is_gap(before),
        is_gap(behind),
        behind.len() > 0 ==> behind.last() != '\r' && behind.last() != '\n',
        n <= usize::MAX,
    ensures
        header_of("content-length:"@ + (before + decimal(n) + behind) + "\r\n"@)
            == HeaderLine::Length(Some(n as usize)),
{
    let digits = decimal(n);
    let rest = before + digits + behind;
    law_decimal_reads_back(n);
    assert forall|i: int| 0 <= i < digits.len() implies !is_whitespace(#[trigger] digits[i]) by {
        assert(is_digit(digits[i]));
    }
    assert(is_digit(digits.last()));
    if behind.len() > 0 {
        assert(rest.last() == behind.last());
    } else {
        assert(rest.last() == digits.last());
    }
    law_a_length_line_names_its_numeral(rest);
    assert(lowered(rest) =~= rest) by {
        assert forall|i: int| 0 <= i < rest.len() implies lowered(rest)[i] == rest[i] by {
            if i < before.len() {
                assert(is_whitespace(before[i]));
            } else if i < before.len() + digits.len() {
                assert(is_digit(digits[i - before.len()]));
            } else {
                assert(is_whitespace(behind[i - before.len() - digits.len()]));
            }
        }
    }
    lemma_trimmed_is(before, digits, behind);
}

/// Whether the bytes are one line of text with its line feed.
pub open spec fn is_line(line: Seq<u8>) -> bool {
    &&& line.len() > 0
    &&& line.last() == 0x0a
    &&& forall|i: int| 0 <= i < line.len() - 1 ==> #[trigger] line[i] != 0x0a
    &&& valid_utf8(line)
}

/// What a line of bytes says.
pub open spec fn says(line: Seq<u8>) -> HeaderLine {
    header_of(decode_utf8(line))
}

proof fn lemma_line_found(bytes: Seq<u8>, at: int, k: int)
    requires
        0 <= at <= k < bytes.len(),
        bytes[k] == 0x0a,
        forall|i: int| at <= i < k ==> bytes[i] != 0x0a,
    ensures
        line_end(bytes, at) == Some(k + 1),
    decreases k - at,
{
    if at < k {
        lemma_line_found(bytes, at + 1, k);
    }
}

proof fn lemma_line_end_shifts(line: Seq<u8>, rest: Seq<u8>, at: int)
    requires
        0 <= at,
    ensures
        line_end(line + rest, at + line.len()) == match line_end(rest, at) {
            Some(end) => Some(end + line.len()),
            None => None,
        },
    decreases rest.len() - at,
{
    if at < rest.len() {
        assert((line + rest)[at + line.len()] == rest[at]);
        if rest[at] != 0x0a {
            lemma_line_end_shifts(line, rest, at + 1);
        }
    }
}

/// What was read, moved behind a line.
pub open spec fn moved_by(n: int, read: FrameReadView) -> FrameReadView {
    match read {
        FrameReadView::Frame { start, end } => FrameReadView::Frame { start: start + n, end: end
            + n },
        FrameReadView::Ended => FrameReadView::Failed { error: ReadErrorView::EarlyEnd },
        _ => read,
    }
}

proof fn lemma_headers_shift(
    line: Seq<u8>,
    rest: Seq<u8>,
    at: int,
    length: Option<usize>,
    ended: bool,
)
    requires
        0 <= at,
        line.len() > 0,
    ensures
        read_headers(line + rest, at + line.len(), length, ended) == moved_by(
            line.len() as int,
            read_headers(rest, at, length, ended),
        ),
    decreases rest.len() - at,
{
    let n = line.len() as int;
    let bytes = line + rest;
    lemma_line_end_shifts(line, rest, at);
    lemma_line_end(rest, at);
    if at < rest.len() && (line_end(rest, at) is Some || ended) {
        let end = match line_end(rest, at) {
            Some(end) => end,
            None => rest.len() as int,
        };
        assert(bytes.subrange(at + n, end + n) =~= rest.subrange(at, end));
        let text = rest.subrange(at, end);
        if valid_utf8(text) {
            match header_of(decode_utf8(text)) {
                HeaderLine::Length(Some(named)) => {
                    lemma_headers_shift(line, rest, end, Some(named), ended);
                },
                HeaderLine::Other => {
                    lemma_headers_shift(line, rest, end, length, ended);
                },
                _ => {},
            }
        }
    }
}

proof fn lemma_first(line: Seq<u8>, rest: Seq<u8>)
    requires
        line.len() > 0,
        line.last() == 0x0a,
        forall|i: int| 0 <= i < line.len() - 1 ==> #[trigger] line[i] != 0x0a,
    ensures
        line_end(line + rest, 0) == Some(line.len() as int),
        (line + rest).subrange(0, line.len() as int) == line,
{
    let bytes = line + rest;
    assert(bytes[line.len() - 1] == line.last());
    assert forall|i: int| 0 <= i < line.len() - 1 implies bytes[i] != 0x0a by {
        assert(line[i] != 0x0a);
    }
    lemma_line_found(bytes, 0, line.len() - 1);
    assert(bytes.subrange(0, line.len() as int) =~= line);
}

/// A header line that does not matter makes no difference: what follows is read as if
/// it stood alone, but that an end of the stream is then within a message.
pub proof fn law_other_headers_do_not_matter(line: Seq<u8>, rest: Seq<u8>, ended: bool)
    requires
        is_line(line),
        says(line) is Other,
    ensures
        framed(line + rest, ended) == moved_by(line.len() as int, framed(rest, ended)),
{
    lemma_first(line, rest);
    lemma_headers_shift(line, rest, 0, None, ended);
}

proof fn lemma_own_length(bytes: Seq<u8>, at: int, length: Option<usize>, ended: bool)
    requires
        read_headers(bytes, at, None, ended) is Frame,
    ensures
        read_headers(bytes, at, length, ended) == read_headers(bytes, at, None, ended),
    decreases bytes.len() - at,
{
    lemma_line_end(bytes, at);
    let end = match line_end(bytes, at) {
        Some(end) => end,
        None => bytes.len() as int,
    };
    if header_of(decode_utf8(bytes.subrange(at, end))) is Other {
        lemma_own_length(bytes, end, length, ended);
    }
}

/// Of two lengths the later one counts: a message that names its own is read the same
/// behind a line that names another.
pub proof fn law_the_later_length_counts(line: Seq<u8>, rest: Seq<u8>, ended: bool)
    requires
        is_line(line),
        says(line) matches HeaderLine::Length(named) && named is Some,
        framed(rest, ended) is Frame,
    ensures
        framed(line + rest, ended) == moved_by(line.len() as int, framed(rest, ended)),
{
    lemma_first(line, rest);
    let named = says(line)->Length_0;
    lemma_headers_shift(line, rest, 0, named, ended);
    lemma_own_length(rest, 0, named, ended);
}

/// A line that cannot be read, or names no length where it should, ends the reading at
/// once, whatever follows. So do headers that end without a length.
pub proof fn law_a_bad_line_ends_the_reading(line: Seq<u8>, rest: Seq<u8>, ended: bool)
    requires
        line.len() > 0,
        line.last() == 0x0a,
        forall|i: int| 0 <= i < line.len() - 1 ==> #[trigger] line[i] != 0x0a,
    ensures
        !valid_utf8(line) ==> framed(line + rest, ended) == (FrameReadView::Failed {
            error: ReadErrorView::NotText { complaint: utf8_complaint(line) },
        }),
        valid_utf8(line) && says(line) == HeaderLine::Length(None) ==> framed(line + rest, ended)
            == (FrameReadView::Failed { error: ReadErrorView::InvalidLength }),
        valid_utf8(line) && says(line) is Blank ==> framed(line + rest, ended)
            == (FrameReadView::Failed { error: ReadErrorView::MissingLength }),
{
    lemma_first(line, rest);
}

/// Behind a line that names a length and an empty one stand that many bytes of body.
/// With fewer the message is incomplete, or cut short when the stream has ended.
pub proof fn law_the_body_is_as_long_as_named(
    line: Seq<u8>,
    blank: Seq<u8>,
    rest: Seq<u8>,
    n: usize,
    ended: bool,
)
    requires
        is_line(line),
        is_line(blank),
        says(line) == HeaderLine::Length(Some(n)),
        says(blank) is Blank,
    ensures
        ({
            let from = line.len() + blank.len();
            framed(line + (blank + rest), ended) == if rest.len() >= n {
                FrameReadView::Frame { start: from as int, end: from + n }
            } else if ended {
                FrameReadView::Failed { error: ReadErrorView::EarlyEnd }
            } else {
                FrameReadView::Incomplete
            }
        }),
{
    lemma_first(line, blank + rest);
    lemma_first(blank, rest);
    lemma_headers_shift(line, blank + rest, 0, Some(n), ended);
}

/// A frame is a message exactly when its body is JSON, with what that holds, and uses
/// up all of the frame. Else it is an error with the complaint about the body.
pub proof fn law_a_frame_holds_its_body(bytes: Seq<u8>, ended: bool, start: int, end: int)
    requires
        framed(bytes, ended) == (FrameReadView::Frame { start, end }),
    ensures
        message_read(bytes, ended) == match json_decoding(bytes.subrange(start, end)) {
            Ok(contents) => ReadStepView::Message { contents, used: end },
            Err(complaint) => ReadStepView::Failed { error: ReadErrorView::BadJson { complaint } },
        },
{
}

/// Where there is no frame there is no message, and the reason is the same.
pub proof fn law_without_a_frame_there_is_no_message(bytes: Seq<u8>, ended: bool)
    requires
        !(framed(bytes, ended) is Frame),
    ensures
        match framed(bytes, ended) {
            FrameReadView::Incomplete => message_read(bytes, ended) is Incomplete,
            FrameReadView::Ended => message_read(bytes, ended) is Ended,
            FrameReadView::Failed { error } => message_read(bytes, ended)
                == (ReadStepView::Failed { error }),
            FrameReadView::Frame { start, end } => false,
        },
{
}

} // verus!
