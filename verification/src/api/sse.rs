//! Server-sent events: cutting a byte stream into frames, and reading the JSON
//! value that a frame holds.
use crate::api::common::{ApiError, ErrorView};
use crate::json::{add_value, json_views, parsed, Json, JsonView};
use crate::text::{
    characters, concat2, concat4, first_at, has_prefix, join, joined, starts_with, text_of,
    trimmed_start, views,
};
use vstd::prelude::*;
use vstd::utf8::{decode_utf8, valid_utf8};

verus! {

/// `std::str::from_utf8`, copied: the text that the bytes encode, where they
/// are UTF-8.
#[verifier::external_body]
pub(crate) fn utf8_text(bytes: &[u8]) -> (text: Option<String>)
    ensures
        match text {
            Some(text) => valid_utf8(bytes@) && text@ == decode_utf8(bytes@),
            None => !valid_utf8(bytes@),
        },
{
    std::str::from_utf8(bytes).ok().map(String::from)
}

/// Whether two line endings with carriage returns stand at `i`.
pub open spec fn crlf_at(bytes: Seq<u8>, i: int) -> bool {
    &&& 0 <= i
    &&& i + 4 <= bytes.len()
    &&& bytes[i] == 13
    &&& bytes[i + 1] == 10
    &&& bytes[i + 2] == 13
    &&& bytes[i + 3] == 10
}

/// Whether two line feeds stand at `i`.
pub open spec fn lf_at(bytes: Seq<u8>, i: int) -> bool {
    0 <= i && i + 2 <= bytes.len() && bytes[i] == 10 && bytes[i + 1] == 10
}

/// Whether two line endings stand at `i`, with carriage returns or without.
pub open spec fn ends_at(bytes: Seq<u8>, i: int, crlf: bool) -> bool {
    if crlf {
        crlf_at(bytes, i)
    } else {
        lf_at(bytes, i)
    }
}

/// The first place from `from` on where two line endings stand, with carriage
/// returns or without.
pub open spec fn scan(bytes: Seq<u8>, from: int, crlf: bool) -> Option<int>
    decreases bytes.len() - from,
{
    if from >= bytes.len() {
        None
    } else if ends_at(bytes, from, crlf) {
        Some(from)
    } else {
        scan(bytes, from + 1, crlf)
    }
}

/// Where the first frame ends: before the first pair of line endings with
/// carriage returns, or else before the first pair without.
pub open spec fn end_of_frame(bytes: Seq<u8>) -> Option<int> {
    match scan(bytes, 0, true) {
        Some(end) => Some(end),
        None => scan(bytes, 0, false),
    }
}

/// The length of the pair of line endings at `end`.
pub open spec fn delimiter(bytes: Seq<u8>, end: int) -> int {
    if crlf_at(bytes, end) {
        4
    } else {
        2
    }
}

proof fn lemma_scan(bytes: Seq<u8>, from: int, crlf: bool)
    requires
        0 <= from,
    ensures
        match scan(bytes, from, crlf) {
            Some(end) => from <= end && ends_at(bytes, end, crlf) && forall|i: int|
                from <= i < end ==> !(#[trigger] ends_at(bytes, i, crlf)),
            None => forall|i: int| from <= i ==> !(#[trigger] ends_at(bytes, i, crlf)),
        },
    decreases bytes.len() - from,
{
    if from < bytes.len() && !ends_at(bytes, from, crlf) {
        lemma_scan(bytes, from + 1, crlf);
    }
}

proof fn lemma_end(bytes: Seq<u8>)
    ensures
        end_of_frame(bytes) matches Some(end) ==> 0 <= end && end + delimiter(bytes, end)
            <= bytes.len(),
{
    lemma_scan(bytes, 0, true);
    lemma_scan(bytes, 0, false);
}

/// The frames that are complete.
pub open spec fn frames(bytes: Seq<u8>) -> Seq<Seq<u8>>
    decreases bytes.len(),
    via frames_decreases
{
    match end_of_frame(bytes) {
        Some(end) => seq![bytes.take(end)] + frames(bytes.skip(end + delimiter(bytes, end))),
        None => Seq::empty(),
    }
}

#[via_fn]
proof fn frames_decreases(bytes: Seq<u8>) {
    lemma_end(bytes);
}

/// What follows the complete frames.
pub open spec fn remainder(bytes: Seq<u8>) -> Seq<u8>
    decreases bytes.len(),
    via remainder_decreases
{
    match end_of_frame(bytes) {
        Some(end) => remainder(bytes.skip(end + delimiter(bytes, end))),
        None => bytes,
    }
}

#[via_fn]
proof fn remainder_decreases(bytes: Seq<u8>) {
    lemma_end(bytes);
}

/// The lines of a text. A line ends with a line feed, with or without a carriage
/// return before it; the last line need not end.
pub open spec fn lines(text: Seq<char>) -> Seq<Seq<char>>
    decreases text.len(),
    via lines_decreases
{
    if text.len() == 0 {
        Seq::empty()
    } else {
        let at = first_at(text, '\n');
        if at >= text.len() {
            seq![text]
        } else {
            let line = text.take(at);
            seq![
                if line.len() > 0 && line.last() == '\r' {
                    line.drop_last()
                } else {
                    line
                },
            ] + lines(text.skip(at + 1))
        }
    }
}

#[via_fn]
proof fn lines_decreases(text: Seq<char>) {
    lemma_first_at(text, '\n');
}

proof fn lemma_first_at(text: Seq<char>, separator: char)
    ensures
        0 <= first_at(text, separator) <= text.len(),
        first_at(text, separator) < text.len() ==> text[first_at(text, separator)] == separator,
        forall|i: int| 0 <= i < first_at(text, separator) ==> text[i] != separator,
    decreases text.len(),
{
    if text.len() > 0 && text[0] != separator {
        let rest = text.skip(1);
        lemma_first_at(rest, separator);
        assert forall|i: int| 0 <= i < first_at(text, separator) implies text[i] != separator by {
            if i > 0 {
                assert(rest[i - 1] == text[i]);
            }
        }
    }
}

/// The data in the first `count` lines of a frame.
pub open spec fn data_lines(all: Seq<Seq<char>>, count: nat) -> Seq<Seq<char>>
    decreases count,
{
    if count == 0 {
        Seq::empty()
    } else {
        let before = data_lines(all, (count - 1) as nat);
        let line = all[count - 1];
        if has_prefix(line, "data:"@) {
            before.push(trimmed_start(line.skip("data:"@.len() as int)))
        } else {
            before
        }
    }
}

/// The data of a frame.
pub open spec fn frame_data(text: Seq<char>) -> Seq<char> {
    joined(data_lines(lines(text), lines(text).len()), "\n"@)
}

/// The value of the data of a frame, where `value` is what the data holds as
/// JSON: none where there is no data or only the mark of the end.
pub open spec fn data_value(data: Seq<char>, value: Option<JsonView>, label: Seq<char>) -> Result<
    Option<JsonView>,
    ErrorView,
> {
    if data.len() == 0 || data == "[DONE]"@ {
        Ok(None)
    } else {
        match value {
            Some(value) => Ok(Some(value)),
            None => Err(ErrorView::Invalid("invalid "@ + label + " SSE event: "@ + data)),
        }
    }
}

/// The value that a frame holds.
pub open spec fn frame_value(frame: Seq<u8>, label: Seq<char>) -> Result<
    Option<JsonView>,
    ErrorView,
> {
    if !valid_utf8(frame) {
        Err(ErrorView::Invalid(label + " stream was not UTF-8"@))
    } else {
        let data = frame_data(decode_utf8(frame));
        data_value(data, parsed(data), label)
    }
}

/// The values of the first `count` frames, up to the first error.
pub open spec fn frame_values(all: Seq<Seq<u8>>, label: Seq<char>, count: nat) -> (
    Seq<JsonView>,
    Option<ErrorView>,
)
    decreases count,
{
    if count == 0 {
        (Seq::empty(), None)
    } else {
        let (values, error) = frame_values(all, label, (count - 1) as nat);
        if error is Some {
            (values, error)
        } else {
            match frame_value(all[count - 1], label) {
                Ok(Some(value)) => (values.push(value), None),
                Ok(None) => (values, None),
                Err(error) => (values, Some(error)),
            }
        }
    }
}

/// Whether a byte is ASCII white space.
pub open spec fn is_ascii_space(byte: u8) -> bool {
    byte == 9 || byte == 10 || byte == 12 || byte == 13 || byte == 32
}

/// Whether every byte is ASCII white space.
pub open spec fn blank_bytes(bytes: Seq<u8>) -> bool {
    forall|i: int| 0 <= i < bytes.len() ==> is_ascii_space(#[trigger] bytes[i])
}

/// What was read: values, and the error that ended the reading.
#[derive(Debug, PartialEq)]
pub struct Decoded {
    pub values: Vec<Json>,
    pub error: Option<ApiError>,
}

impl View for Decoded {
    type V = (Seq<JsonView>, Option<ErrorView>);

    open spec fn view(&self) -> (Seq<JsonView>, Option<ErrorView>) {
        (
            json_views(self.values@),
            match self.error {
                Some(error) => Some(error@),
                None => None,
            },
        )
    }
}

fn scan_from(buffer: &Vec<u8>, crlf: bool) -> (end: Option<usize>)
    ensures
        match end {
            Some(end) => scan(buffer@, 0, crlf) == Some(end as int),
            None => scan(buffer@, 0, crlf) is None,
        },
{
    let mut i: usize = 0;
    while i < buffer.len()
        invariant
            i <= buffer.len(),
            scan(buffer@, 0, crlf) == scan(buffer@, i as int, crlf),
        decreases buffer.len() - i,
    {
        let left: usize = buffer.len() - i;
        if crlf {
            if left >= 4 && buffer[i] == 13 && buffer[i + 1] == 10 && buffer[i + 2] == 13
                && buffer[i + 3] == 10 {
                return Some(i);
            }
        } else {
            if left >= 2 && buffer[i] == 10 && buffer[i + 1] == 10 {
                return Some(i);
            }
        }
        i += 1;
    }
    None
}

/// Where the first frame in `buffer` ends.
pub fn frame_end(buffer: &Vec<u8>) -> (end: Option<usize>)
    ensures
        match end {
            Some(end) => end_of_frame(buffer@) == Some(end as int),
            None => end_of_frame(buffer@) is None,
        },
{
    match scan_from(buffer, true) {
        Some(end) => Some(end),
        None => scan_from(buffer, false),
    }
}

fn copy_bytes(bytes: &Vec<u8>, from: usize, to: usize) -> (copy: Vec<u8>)
    requires
        from <= to <= bytes.len(),
    ensures
        copy@ == bytes@.subrange(from as int, to as int),
{
    let mut copy: Vec<u8> = Vec::new();
    let mut i: usize = from;
    while i < to
        invariant
            from <= i <= to <= bytes.len(),
            copy@ == bytes@.subrange(from as int, i as int),
        decreases to - i,
    {
        copy.push(bytes[i]);
        i += 1;
        assert(bytes@.subrange(from as int, i as int) =~= bytes@.subrange(
            from as int,
            i - 1,
        ).push(bytes[i - 1]));
    }
    copy
}

fn next_line(list: &Vec<char>, from: usize) -> (at: usize)
    requires
        from <= list.len(),
    ensures
        at == from + first_at(list@.skip(from as int), '\n'),
        from <= at <= list.len(),
        at < list.len() ==> list[at as int] == '\n',
{
    let mut at: usize = from;
    let ghost rest = list@.skip(from as int);
    proof {
        lemma_first_at(rest, '\n');
    }
    while at < list.len() && list[at] != '\n'
        invariant
            from <= at <= list.len(),
            rest == list@.skip(from as int),
            forall|i: int| from <= i < at ==> list[i] != '\n',
        decreases list.len() - at,
    {
        at += 1;
    }
    proof {
        let found = first_at(rest, '\n');
        if found < rest.len() {
            assert(rest[found] == list[from + found]);
        }
        if at < list.len() {
            assert(rest[at - from] == list[at as int]);
        }
    }
    at
}

fn split_lines(text: &str) -> (result: Vec<String>)
    ensures
        views(result@) == lines(text@),
{
    let list = characters(text);
    let mut result: Vec<String> = Vec::new();
    let mut from: usize = 0;
    assert(text@.skip(0) =~= text@);
    assert(views(result@) + lines(text@) =~= lines(text@));
    while from < list.len()
        invariant
            from <= list.len(),
            list@ == text@,
            views(result@) + lines(text@.skip(from as int)) == lines(text@),
        decreases list.len() - from,
    {
        let at = next_line(&list, from);
        let ghost rest = text@.skip(from as int);
        let ghost before = views(result@);
        if at >= list.len() {
            let line = text_of(&list, from, list.len());
            assert(line@ =~= rest);
            result.push(line);
            assert(views(result@) =~= before.push(rest));
            assert(before.push(rest) =~= before + seq![rest]);
            return result;
        }
        let to: usize = if at > from && list[at - 1] == '\r' {
            at - 1
        } else {
            at
        };
        let line = text_of(&list, from, to);
        proof {
            let whole = rest.take(at - from);
            if at > from {
                assert(whole.last() == list[at - 1]);
            }
            assert(line@ =~= (if whole.len() > 0 && whole.last() == '\r' {
                whole.drop_last()
            } else {
                whole
            }));
            assert(rest.skip(at - from + 1) =~= text@.skip(at + 1));
        }
        result.push(line);
        assert(views(result@) =~= before.push(line@));
        assert(views(result@) + lines(text@.skip(at + 1)) =~= before + (seq![line@] + lines(
            text@.skip(at + 1),
        )));
        from = at + 1;
    }
    assert(text@.skip(from as int).len() == 0);
    assert(views(result@) + lines(text@.skip(from as int)) =~= views(result@));
    result
}

fn trim_start_from(text: &str, skipped: usize) -> (result: String)
    requires
        skipped <= text@.len(),
    ensures
        result@ == trimmed_start(text@.skip(skipped as int)),
{
    let list = characters(text);
    let mut from: usize = skipped;
    while from < list.len() && list[from].is_whitespace()
        invariant
            skipped <= from <= list.len(),
            list@ == text@,
            trimmed_start(text@.skip(skipped as int)) == trimmed_start(text@.skip(from as int)),
        decreases list.len() - from,
    {
        assert(text@.skip(from as int).skip(1) =~= text@.skip(from + 1));
        from += 1;
    }
    let result = text_of(&list, from, list.len());
    assert(result@ =~= text@.skip(from as int));
    result
}

fn data_of(text: &str) -> (data: String)
    ensures
        data@ == frame_data(text@),
{
    let all = split_lines(text);
    let mut parts: Vec<String> = Vec::new();
    let mut i: usize = 0;
    assert(views(parts@) =~= Seq::empty());
    while i < all.len()
        invariant
            i <= all.len(),
            views(all@) == lines(text@),
            views(parts@) == data_lines(lines(text@), i as nat),
        decreases all.len() - i,
    {
        assert(lines(text@)[i as int] == all[i as int]@);
        if starts_with(all[i].as_str(), "data:") {
            proof {
                reveal_strlit("data:");
            }
            let part = trim_start_from(all[i].as_str(), 5);
            let ghost before = views(parts@);
            parts.push(part);
            assert(views(parts@) =~= before.push(part@));
        }
        i += 1;
    }
    join(&parts, "\n")
}

/// What an optional value or an error stands for.
pub open spec fn value_outcome(result: Result<Option<Json>, ApiError>) -> Result<
    Option<JsonView>,
    ErrorView,
> {
    match result {
        Ok(Some(value)) => Ok(Some(value@)),
        Ok(None) => Ok(None),
        Err(error) => Err(error@),
    }
}

/// Reads the value that a frame holds.
pub fn decode_sse_frame(frame: &Vec<u8>, label: &str) -> (result: Result<Option<Json>, ApiError>)
    ensures
        value_outcome(result) == frame_value(frame@, label@),
{
    let text = match utf8_text(frame.as_slice()) {
        Some(text) => text,
        None => {
            return Err(ApiError::Invalid(concat2(label, " stream was not UTF-8")));
        },
    };
    let data = data_of(text.as_str());
    decode_data(data, label)
}

fn decode_data(data: String, label: &str) -> (result: Result<Option<Json>, ApiError>)
    ensures
        value_outcome(result) == data_value(data@, parsed(data@), label@),
{
    if data.as_str().is_empty() || crate::text::same_text(data.as_str(), "[DONE]") {
        return Ok(None);
    }
    match Json::parse(data.as_str()) {
        Some(value) => Ok(Some(value)),
        None => Err(
            ApiError::Invalid(concat4("invalid ", label, " SSE event: ", data.as_str())),
        ),
    }
}

/// Reads a stream of server-sent events chunk by chunk.
#[derive(Debug, PartialEq)]
pub struct SseDecoder {
    buffer: Vec<u8>,
}

impl View for SseDecoder {
    type V = Seq<u8>;

    closed spec fn view(&self) -> Seq<u8> {
        self.buffer@
    }
}

impl SseDecoder {
    /// A decoder that has read nothing.
    pub fn new() -> (decoder: Self)
        ensures
            decoder@ == Seq::<u8>::empty(),
    {
        SseDecoder { buffer: Vec::new() }
    }

    /// Takes a chunk, and gives the values of the frames that it completes, up
    /// to the first error. What follows them is kept for the next chunk.
    pub fn accept(&mut self, chunk: &Vec<u8>, label: &str) -> (decoded: Decoded)
        ensures
            decoded@ == frame_values(
                frames(old(self)@ + chunk@),
                label@,
                frames(old(self)@ + chunk@).len(),
            ),
            final(self)@ == remainder(old(self)@ + chunk@),
    {
        let mut i: usize = 0;
        let ghost start = self.buffer@;
        while i < chunk.len()
            invariant
                i <= chunk.len(),
                self.buffer@ == start + chunk@.take(i as int),
            decreases chunk.len() - i,
        {
            self.buffer.push(chunk[i]);
            i += 1;
            assert(self.buffer@ =~= start + chunk@.take(i as int));
        }
        let ghost all = start + chunk@;
        assert(self.buffer@ =~= all);
        let mut values: Vec<Json> = Vec::new();
        let mut error: Option<ApiError> = None;
        let ghost mut count: nat = 0;
        assert(json_views(values@) =~= Seq::empty());
        assert(frames(all).skip(0) =~= frames(all));
        loop
            invariant
                count <= frames(all).len(),
                frames(self.buffer@) == frames(all).skip(count as int),
                remainder(self.buffer@) == remainder(all),
                (
                    json_views(values@),
                    match error {
                        Some(error) => Some(error@),
                        None => None,
                    },
                ) == frame_values(frames(all), label@, count),
            ensures
                count == frames(all).len(),
                self.buffer@ == remainder(all),
            decreases self.buffer.len(),
        {
            proof {
                lemma_end(self.buffer@);
            }
            let end = match frame_end(&self.buffer) {
                Some(end) => end,
                None => {
                    break ;
                },
            };
            let ghost buffer = self.buffer@;
            let frame = copy_bytes(&self.buffer, 0, end);
            let long = self.buffer.len() - end >= 4 && self.buffer[end] == 13 && self.buffer[end
                + 1] == 10 && self.buffer[end + 2] == 13 && self.buffer[end + 3] == 10;
            let skip: usize = if long {
                4
            } else {
                2
            };
            self.buffer = copy_bytes(&self.buffer, end + skip, self.buffer.len());
            proof {
                assert(frame@ =~= buffer.take(end as int));
                assert(self.buffer@ =~= buffer.skip(end + delimiter(buffer, end as int)));
                let shown = frames(all).skip(count as int);
                assert(shown == seq![frame@] + frames(self.buffer@));
                assert(shown.len() == 1 + frames(self.buffer@).len());
                assert(shown[0] == frame@);
                assert(shown.len() == frames(all).len() - count);
                assert(shown[0] == frames(all)[0 + count as int]);
                assert(frames(all)[count as int] == frame@);
                assert(frames(self.buffer@) =~= shown.skip(1));
                assert(shown.skip(1) =~= frames(all).skip((count + 1) as int));
            }
            if error.is_none() {
                match decode_sse_frame(&frame, label) {
                    Ok(Some(value)) => {
                        add_value(&mut values, value);
                    },
                    Ok(None) => {},
                    Err(problem) => {
                        error = Some(problem);
                    },
                }
            }
            proof {
                count = count + 1;
            }
        }
        Decoded { values, error }
    }

    /// What the end of the stream leaves: the value of a last frame without a
    /// blank line after it.
    pub fn finish(&self, label: &str) -> (result: Result<Option<Json>, ApiError>)
        ensures
            value_outcome(result) == (if blank_bytes(self@) {
                Ok(None)
            } else {
                frame_value(self@, label@)
            }),
    {
        let mut i: usize = 0;
        while i < self.buffer.len()
            invariant
                i <= self.buffer.len(),
                forall|j: int| 0 <= j < i ==> is_ascii_space(#[trigger] self.buffer@[j]),
            decreases self.buffer.len() - i,
        {
            let byte = self.buffer[i];
            if !(byte == 9 || byte == 10 || byte == 12 || byte == 13 || byte == 32) {
                assert(!is_ascii_space(self.buffer@[i as int]));
                return decode_sse_frame(&self.buffer, label);
            }
            i += 1;
        }
        Ok(None)
    }
}

/// Whether a stream ends its frames in one way only.
pub open spec fn uniform(bytes: Seq<u8>) -> bool {
    (forall|i: int| !crlf_at(bytes, i)) || (forall|i: int| !lf_at(bytes, i))
}

proof fn lemma_scan_more(bytes: Seq<u8>, more: Seq<u8>, crlf: bool)
    ensures
        scan(bytes, 0, crlf) matches Some(end) ==> scan(bytes + more, 0, crlf) == Some(end),
{
    lemma_scan(bytes, 0, crlf);
    lemma_scan(bytes + more, 0, crlf);
    if let Some(end) = scan(bytes, 0, crlf) {
        let all = bytes + more;
        assert(ends_at(all, end, crlf));
        match scan(all, 0, crlf) {
            Some(other) => {
                assert(other <= end);
                if other < end {
                    assert(ends_at(all, other, crlf));
                    assert(ends_at(bytes, other, crlf));
                }
            },
            None => {},
        }
    }
}

proof fn lemma_uniform_end(bytes: Seq<u8>, more: Seq<u8>)
    requires
        uniform(bytes + more),
        end_of_frame(bytes) is Some,
    ensures
        end_of_frame(bytes + more) == end_of_frame(bytes),
        delimiter(bytes + more, end_of_frame(bytes)->0) == delimiter(
            bytes,
            end_of_frame(bytes)->0,
        ),
{
    let all = bytes + more;
    lemma_scan(bytes, 0, true);
    lemma_scan(bytes, 0, false);
    lemma_scan(all, 0, true);
    lemma_scan(all, 0, false);
    lemma_scan_more(bytes, more, true);
    lemma_scan_more(bytes, more, false);
    let end = end_of_frame(bytes)->0;
    assert forall|i: int| crlf_at(all, i) implies ends_at(all, i, true) by {}
    if let Some(other) = scan(all, 0, true) {
        assert(ends_at(all, other, true));
    }
    if crlf_at(bytes, end) {
        assert(crlf_at(all, end));
    } else {
        assert(lf_at(bytes, end));
        assert(lf_at(all, end));
        assert(!crlf_at(all, end));
    }
}

/// Where a stream ends its frames in one way only, its frames do not depend on
/// where the stream is cut into chunks: reading a chunk and then the next gives
/// the frames of both together, and leaves the same bytes.
pub proof fn law_frames_do_not_depend_on_chunks(bytes: Seq<u8>, more: Seq<u8>)
    requires
        uniform(bytes + more),
    ensures
        frames(bytes + more) == frames(bytes) + frames(remainder(bytes) + more),
        remainder(bytes + more) == remainder(remainder(bytes) + more),
    decreases bytes.len(),
{
    let all = bytes + more;
    match end_of_frame(bytes) {
        Some(end) => {
            lemma_end(bytes);
            lemma_uniform_end(bytes, more);
            let skip = end + delimiter(bytes, end);
            let rest = bytes.skip(skip);
            assert(all.skip(skip) =~= rest + more);
            assert(uniform(rest + more)) by {
                let tail = rest + more;
                assert forall|i: int| crlf_at(tail, i) implies crlf_at(all, i + skip) by {}
                assert forall|i: int| lf_at(tail, i) implies lf_at(all, i + skip) by {}
                if forall|i: int| !crlf_at(all, i) {
                    assert forall|i: int| !crlf_at(tail, i) by {
                        assert(!crlf_at(all, i + skip));
                    }
                } else {
                    assert forall|i: int| !lf_at(tail, i) by {
                        assert(!lf_at(all, i + skip));
                    }
                }
            }
            law_frames_do_not_depend_on_chunks(rest, more);
            assert(all.take(end) =~= bytes.take(end));
            assert(frames(all) =~= frames(bytes) + frames(remainder(bytes) + more));
        },
        None => {
            assert(frames(all) =~= frames(bytes) + frames(remainder(bytes) + more));
        },
    }
}

/// A frame ends at the first blank line: at the first that ends as on Windows, where
/// there is one, else at the first that ends as on Unix; what comes after it begins
/// the next frame. A frame that has no blank line after it has not ended.
pub proof fn law_frame_ends_at_a_blank_line(bytes: Seq<u8>)
    ensures
        end_of_frame(bytes) matches Some(end) ==> {
            ||| crlf_at(bytes, end) && forall|i: int|
                0 <= i < end ==> !(#[trigger] crlf_at(bytes, i))
            ||| lf_at(bytes, end) && (forall|i: int| !(#[trigger] crlf_at(bytes, i))) && forall|
                i: int,
            |
                0 <= i < end ==> !(#[trigger] lf_at(bytes, i))
        },
        end_of_frame(bytes) is None ==> (forall|i: int| !(#[trigger] crlf_at(bytes, i))) && (forall|
            i: int,
        |
            !(#[trigger] lf_at(bytes, i))),
        end_of_frame(bytes) matches Some(end) ==> frames(bytes).len() > 0 && frames(bytes)[0]
            == bytes.take(end) && (delimiter(bytes, end) == 4 <==> crlf_at(bytes, end)),
{
    lemma_scan(bytes, 0, true);
    lemma_scan(bytes, 0, false);
    assert forall|i: int| scan(bytes, 0, true) is None implies !(#[trigger] crlf_at(bytes, i)) by {
        if i >= 0 {
            assert(!ends_at(bytes, i, true));
        }
    }
    assert forall|i: int| scan(bytes, 0, false) is None implies !(#[trigger] lf_at(bytes, i)) by {
        if i >= 0 {
            assert(!ends_at(bytes, i, false));
        }
    }
    if let Some(end) = scan(bytes, 0, true) {
        assert forall|i: int| 0 <= i < end implies !(#[trigger] crlf_at(bytes, i)) by {
            assert(!ends_at(bytes, i, true));
        }
    }
    if let Some(end) = scan(bytes, 0, false) {
        assert forall|i: int| 0 <= i < end implies !(#[trigger] lf_at(bytes, i)) by {
            assert(!ends_at(bytes, i, false));
        }
    }
}

/// What a frame of one line says after `data:` is its data; a line with another name
/// says nothing.
pub proof fn law_data_is_what_follows_its_name(data: Seq<char>)
    requires
        data.len() > 0,
        !data.contains('\n'),
        !crate::text::is_space(data[0]),
    ensures
        frame_data("data: "@ + data) == data,
        frame_data("data:"@ + data) == data,
        frame_data("event: "@ + data).len() == 0,
{
    reveal_strlit("data:");
    reveal_strlit("data: ");
    reveal_strlit("event: ");
    let spaced = "data: "@ + data;
    let close = "data:"@ + data;
    let other = "event: "@ + data;
    assert(spaced.skip(spaced.len() - data.len()) =~= data);
    assert(close.skip(close.len() - data.len()) =~= data);
    assert(other.skip(other.len() - data.len()) =~= data);
    assert(spaced.take(6) =~= "data: "@);
    assert(close.take(5) =~= "data:"@);
    assert(other.take(7) =~= "event: "@);
    lemma_one_line(spaced, data);
    lemma_one_line(close, data);
    lemma_one_line(other, data);
    assert(has_prefix(spaced, "data:"@)) by {
        assert(spaced.take(5) =~= "data:"@);
    }
    assert(has_prefix(close, "data:"@)) by {
        assert(close.take(5) =~= "data:"@);
    }
    assert(!has_prefix(other, "data:"@)) by {
        assert(other.take(5)[0] == 'e');
        assert("data:"@[0] == 'd');
    }
    assert(close.skip(5) =~= data);
    assert(spaced.skip(5).skip(1) =~= data);
    assert(spaced.skip(5)[0] == ' ');
    assert(crate::text::is_space(' '));
    reveal_with_fuel(crate::text::trimmed_start, 3);
    assert(trimmed_start(data) == data);
    assert(trimmed_start(spaced.skip(5)) == data);
    reveal_with_fuel(data_lines, 2);
    assert(data_lines(seq![spaced], 1) =~= seq![data]);
    assert(data_lines(seq![close], 1) =~= seq![data]);
    assert(data_lines(seq![other], 1) =~= Seq::empty());
}

proof fn lemma_one_line(text: Seq<char>, ending: Seq<char>)
    requires
        text.len() > ending.len(),
        text.skip(text.len() - ending.len()) == ending,
        !ending.contains('\n'),
        !text.take(text.len() - ending.len()).contains('\n'),
    ensures
        lines(text) == seq![text],
{
    crate::text::lemma_split_first(text, '\n');
    assert(!text.contains('\n')) by {
        if text.contains('\n') {
            let k = choose|k: int| 0 <= k < text.len() && text[k] == '\n';
            let start = text.len() - ending.len();
            if k < start {
                assert(text.take(start)[k] == '\n');
            } else {
                assert(text.skip(start)[k - start] == '\n');
                assert(ending.contains('\n'));
            }
        }
    }
    assert(crate::text::first_at(text, '\n') >= text.len());
}

/// A frame without data, and the mark of the end, bring nothing; any other data must
/// be JSON and bring what it holds.
pub proof fn law_data_brings_what_it_holds(
    data: Seq<char>,
    value: Option<JsonView>,
    label: Seq<char>,
)
    ensures
        data_value(data, value, label) == Ok::<Option<JsonView>, ErrorView>(None) <==> data.len()
            == 0 || data == "[DONE]"@,
        data_value(data, value, label) is Err <==> data.len() > 0 && data != "[DONE]"@ && value
            is None,
        data_value(data, value, label) matches Ok(Some(found)) ==> value == Some(found),
{
    reveal_strlit("[DONE]");
}

/// The values of frames come in the order of the frames, up to the first that cannot
/// be read.
pub proof fn law_values_come_in_order(all: Seq<Seq<u8>>, label: Seq<char>, count: nat)
    requires
        0 < count <= all.len(),
    ensures
        ({
            let (before, fault) = frame_values(all, label, (count - 1) as nat);
            let (after, error) = frame_values(all, label, count);
            let value = frame_value(all[count - 1], label);
            &&& fault is Some ==> after == before && error == fault
            &&& fault is None ==> match value {
                Ok(Some(value)) => after == before.push(value) && error is None,
                Ok(None) => after == before && error is None,
                Err(problem) => after == before && error == Some(problem),
            }
        }),
        frame_values(all, label, 0).0.len() == 0,
{
}

} // verus!
