//! Framing: a frame goes over the wire as the length of its JSON text, four bytes with
//! the most significant first, and then the text.

use vstd::prelude::*;

verus! {

/// Declares `std::io::Error`.
#[verifier::external_type_specification]
#[verifier::external_body]
pub struct ExIoError(std::io::Error);

/// Declares `serde_json::Error`.
#[verifier::external_type_specification]
#[verifier::external_body]
pub struct ExJsonError(serde_json::Error);

/// The longest JSON text that a frame may have: 16 MB.
pub const MAX_FRAME_SIZE: u32 = 16 * 1024 * 1024;

/// Why a frame could not be read or written.
#[derive(Debug)]
pub enum WireError {
    Io(std::io::Error),
    Json(serde_json::Error),
    FrameTooLarge(u32),
    ConnectionClosed,
}

impl From<std::io::Error> for WireError {
    fn from(error: std::io::Error) -> (wrapped: WireError)
        ensures
            wrapped == WireError::Io(error),
    {
        WireError::Io(error)
    }
}

impl vstd::std_specs::convert::FromSpecImpl<std::io::Error> for WireError {
    open spec fn obeys_from_spec() -> bool {
        true
    }

    open spec fn from_spec(error: std::io::Error) -> WireError {
        WireError::Io(error)
    }
}

impl From<serde_json::Error> for WireError {
    fn from(error: serde_json::Error) -> (wrapped: WireError)
        ensures
            wrapped == WireError::Json(error),
    {
        WireError::Json(error)
    }
}

impl vstd::std_specs::convert::FromSpecImpl<serde_json::Error> for WireError {
    open spec fn obeys_from_spec() -> bool {
        true
    }

    open spec fn from_spec(error: serde_json::Error) -> WireError {
        WireError::Json(error)
    }
}

/// Whether `error` is of the kind `UnexpectedEof`: the input ended too early.
pub uninterp spec fn is_unexpected_eof(error: std::io::Error) -> bool;

/// Calls `std::io::Error::kind` and tells `UnexpectedEof` from the other kinds.
#[verifier::external_body]
fn ended_early(error: &std::io::Error) -> (eof: bool)
    ensures
        eof == is_unexpected_eof(*error),
{
    error.kind() == std::io::ErrorKind::UnexpectedEof
}

/// The number that four bytes stand for, most significant first.
pub open spec fn be_value(bytes: Seq<u8>) -> int {
    bytes[0] * 0x100_0000 + bytes[1] * 0x1_0000 + bytes[2] * 0x100 + bytes[3]
}

/// The four bytes that stand for a number below `2^32`, most significant first.
pub open spec fn be_bytes(number: int) -> Seq<u8> {
    seq![
        (number / 0x100_0000) as u8,
        (number / 0x1_0000 % 0x100) as u8,
        (number / 0x100 % 0x100) as u8,
        (number % 0x100) as u8,
    ]
}

/// What a text is on the wire.
pub open spec fn framed(text: Seq<u8>) -> Seq<u8> {
    be_bytes(text.len() as int) + text
}

/// The length that a text is reported with when it is over the limit.
pub open spec fn reported(text: Seq<u8>) -> int {
    if text.len() > u32::MAX {
        u32::MAX as int
    } else {
        text.len() as int
    }
}

/// What an input that starts at the beginning of a frame gives.
pub enum Reading {
    /// A whole frame with this text.
    Text(Seq<u8>),
    /// A length over the limit.
    TooLarge(int),
    /// The input ends within the frame.
    Cut,
}

/// Reads the first frame of `input`.
pub open spec fn reading(input: Seq<u8>) -> Reading {
    if input.len() < 4 {
        Reading::Cut
    } else {
        let length = be_value(input);
        if length > MAX_FRAME_SIZE {
            Reading::TooLarge(length)
        } else if input.len() < 4 + length {
            Reading::Cut
        } else {
            Reading::Text(input.subrange(4, 4 + length))
        }
    }
}

/// What a failed read means: an input that ended is a closed connection.
pub open spec fn read_failure(error: std::io::Error) -> WireError {
    if is_unexpected_eof(error) {
        WireError::ConnectionClosed
    } else {
        WireError::Io(error)
    }
}

fn read_failed(error: std::io::Error) -> (failure: WireError)
    ensures
        failure == read_failure(error),
{
    if ended_early(&error) {
        WireError::ConnectionClosed
    } else {
        WireError::Io(error)
    }
}

fn decode_length(header: [u8; 4]) -> (length: u32)
    ensures
        length == be_value(header@),
{
    header[0] as u32 * 0x100_0000 + header[1] as u32 * 0x1_0000 + header[2] as u32 * 0x100
        + header[3] as u32
}

fn encode_length(length: u32) -> (header: [u8; 4])
    ensures
        header@ == be_bytes(length as int),
{
    [
        (length / 0x100_0000) as u8,
        (length / 0x1_0000 % 0x100) as u8,
        (length / 0x100 % 0x100) as u8,
        (length % 0x100) as u8,
    ]
}

/// The length of the text that follows, from what reading the four bytes before it
/// gave.
pub fn read_length(header: Result<[u8; 4], std::io::Error>) -> (length: Result<u32, WireError>)
    ensures
        match header {
            Ok(header) => if be_value(header@) > MAX_FRAME_SIZE {
                length matches Err(WireError::FrameTooLarge(claimed)) && claimed == be_value(
                    header@,
                )
            } else {
                length matches Ok(length) && length == be_value(header@)
            },
            Err(error) => length == Err::<u32, WireError>(read_failure(error)),
        },
{
    match header {
        Ok(header) => {
            let length = decode_length(header);
            if length > MAX_FRAME_SIZE {
                return Err(WireError::FrameTooLarge(length));
            }
            Ok(length)
        },
        Err(error) => Err(read_failed(error)),
    }
}

/// The text of a frame, from what reading it gave.
pub fn read_payload(text: Result<Vec<u8>, std::io::Error>) -> (payload: Result<Vec<u8>, WireError>)
    ensures
        match text {
            Ok(text) => payload == Ok::<Vec<u8>, WireError>(text),
            Err(error) => payload == Err::<Vec<u8>, WireError>(read_failure(error)),
        },
{
    match text {
        Ok(text) => Ok(text),
        Err(error) => Err(read_failed(error)),
    }
}

/// Reads one frame from the beginning of a finished input: its text, and how many
/// bytes it took.
pub fn read_frame(input: &[u8]) -> (frame: Result<(Vec<u8>, usize), WireError>)
    ensures
        match reading(input@) {
            Reading::Text(text) => frame matches Ok((payload, taken)) && payload@ == text && taken
                == 4 + text.len() && payload@ == input@.subrange(4, taken as int),
            Reading::TooLarge(length) => frame matches Err(WireError::FrameTooLarge(claimed))
                && claimed == length,
            Reading::Cut => frame matches Err(WireError::ConnectionClosed),
        },
{
    if input.len() < 4 {
        return Err(WireError::ConnectionClosed);
    }
    let header: [u8; 4] = [input[0], input[1], input[2], input[3]];
    let length = read_length(Ok(header))?;
    let rest = input.len() - 4;
    if rest < length as usize {
        return Err(WireError::ConnectionClosed);
    }
    let end: usize = 4 + length as usize;
    let mut text: Vec<u8> = Vec::new();
    text.extend_from_slice(vstd::slice::slice_subrange(input, 4, end));
    assert(text@ =~= input@.subrange(4, end as int));
    Ok((text, end))
}

/// What is to be sent for a frame, from what serialising it gave. A text over the
/// limit is refused, with its length, or `u32::MAX` where that does not fit.
pub fn write_frame(text: Result<Vec<u8>, serde_json::Error>) -> (bytes: Result<Vec<u8>, WireError>)
    ensures
        match text {
            Ok(text) => if text@.len() > MAX_FRAME_SIZE {
                bytes matches Err(WireError::FrameTooLarge(length)) && length == reported(text@)
            } else {
                bytes matches Ok(bytes) && bytes@ == framed(text@) && bytes@.skip(4) == text@
            },
            Err(error) => bytes == Err::<Vec<u8>, WireError>(WireError::Json(error)),
        },
{
    match text {
        Ok(text) => {
            if text.len() > MAX_FRAME_SIZE as usize {
                let length: u32 = if text.len() > u32::MAX as usize {
                    u32::MAX
                } else {
                    text.len() as u32
                };
                return Err(WireError::FrameTooLarge(length));
            }
            let header = encode_length(text.len() as u32);
            let mut bytes: Vec<u8> = Vec::new();
            bytes.extend_from_slice(&header);
            bytes.extend_from_slice(text.as_slice());
            assert(bytes@ =~= framed(text@));
            assert(bytes@.skip(4) =~= text@);
            Ok(bytes)
        },
        Err(error) => Err(WireError::from(error)),
    }
}

proof fn lemma_length_round_trip(length: int)
    requires
        0 <= length < 0x1_0000_0000,
    ensures
        be_value(be_bytes(length)) == length,
{
    let bytes = be_bytes(length);
    assert(bytes[0] == length / 0x100_0000);
    assert(bytes[1] == length / 0x1_0000 % 0x100);
    assert(bytes[2] == length / 0x100 % 0x100);
    assert(bytes[3] == length % 0x100);
}

/// A text within the limit is read back as it was written, whatever follows it.
pub proof fn law_round_trip(text: Seq<u8>, rest: Seq<u8>)
    requires
        text.len() <= MAX_FRAME_SIZE,
    ensures
        reading(framed(text) + rest) == Reading::Text(text),
        (framed(text) + rest).skip(4 + text.len() as int) == rest,
{
    let input = framed(text) + rest;
    lemma_length_round_trip(text.len() as int);
    assert(input.take(4) =~= be_bytes(text.len() as int));
    assert(be_value(input) == be_value(input.take(4)));
    assert(input.subrange(4, 4 + text.len() as int) =~= text);
    assert(input.skip(4 + text.len() as int) =~= rest);
}

/// A frame that is read has a text within the limit, and its bytes are the ones that
/// text is written as.
pub proof fn law_reading_is_exact(input: Seq<u8>)
    ensures
        reading(input) matches Reading::Text(text) ==> {
            &&& text.len() <= MAX_FRAME_SIZE
            &&& 4 + text.len() <= input.len()
            &&& input.take(4 + text.len() as int) == framed(text)
        },
{
    if let Reading::Text(text) = reading(input) {
        let length = text.len() as int;
        assert(length == be_value(input));
        assert(length / 0x100_0000 == input[0]);
        assert(length / 0x1_0000 % 0x100 == input[1]);
        assert(length / 0x100 % 0x100 == input[2]);
        assert(length % 0x100 == input[3]);
        assert(input.take(4 + length) =~= framed(text));
    }
}

/// What several texts are on the wire, one after the other.
pub open spec fn stream(texts: Seq<Seq<u8>>) -> Seq<u8>
    decreases texts.len(),
{
    if texts.len() == 0 {
        Seq::empty()
    } else {
        framed(texts[0]) + stream(texts.drop_first())
    }
}

/// The texts of the frames that `input` starts with, at most `count` of them, up to one
/// that cannot be read.
pub open spec fn readings(input: Seq<u8>, count: nat) -> Seq<Seq<u8>>
    decreases count,
{
    if count == 0 {
        Seq::empty()
    } else {
        match reading(input) {
            Reading::Text(text) => seq![text] + readings(
                input.skip(4 + text.len() as int),
                (count - 1) as nat,
            ),
            _ => Seq::empty(),
        }
    }
}

/// Texts within the limit that are written one after the other are read back as they
/// were, in that order.
pub proof fn law_stream_round_trip(texts: Seq<Seq<u8>>, rest: Seq<u8>)
    requires
        forall|i: int| 0 <= i < texts.len() ==> (#[trigger] texts[i]).len() <= MAX_FRAME_SIZE,
    ensures
        readings(stream(texts) + rest, texts.len()) == texts,
    decreases texts.len(),
{
    if texts.len() > 0 {
        let tail = texts.drop_first();
        assert forall|i: int| 0 <= i < tail.len() implies (#[trigger] tail[i]).len()
            <= MAX_FRAME_SIZE by {
            assert(tail[i] == texts[i + 1]);
        }
        law_stream_round_trip(tail, rest);
        law_round_trip(texts[0], stream(tail) + rest);
        assert(stream(texts) + rest =~= framed(texts[0]) + (stream(tail) + rest));
        assert(seq![texts[0]] + tail =~= texts);
    } else {
        assert(readings(stream(texts) + rest, 0) =~= texts);
    }
}

/// What a text is on the wire: four bytes that give its length, most significant first, and
/// from the fifth on the text itself.
pub proof fn law_what_is_written(text: Seq<u8>)
    requires
        text.len() <= 16777216,
    ensures
        framed(text).len() == 4 + text.len(),
        framed(text).skip(4) == text,
        framed(text)[0] * 16777216 + framed(text)[1] * 65536 + framed(text)[2] * 256
            + framed(text)[3] == text.len(),
{
    lemma_length_round_trip(text.len() as int);
    let bytes = framed(text);
    let header = be_bytes(text.len() as int);
    assert(bytes.take(4) =~= header);
    assert(bytes[0] == header[0] && bytes[1] == header[1] && bytes[2] == header[2] && bytes[3]
        == header[3]);
    assert(bytes.skip(4) =~= text);
}

/// The length in a header is its four bytes, most significant first.
pub proof fn law_what_a_header_says(header: Seq<u8>)
    requires
        header.len() == 4,
    ensures
        be_value(header) == header[0] * 16777216 + header[1] * 65536 + header[2] * 256 + header[3],
{
}

/// What is written is read back in its parts: the first four bytes give the length of the
/// text, within the limit, and the bytes after them are the text.
pub proof fn law_parts_round_trip(text: Seq<u8>, rest: Seq<u8>)
    requires
        text.len() <= 16777216,
    ensures
        be_value((framed(text) + rest).take(4)) == text.len(),
        be_value((framed(text) + rest).take(4)) <= MAX_FRAME_SIZE,
        (framed(text) + rest).subrange(4, 4 + text.len() as int) == text,
        (framed(text) + rest).skip(4 + text.len() as int) == rest,
{
    law_round_trip(text, rest);
    lemma_length_round_trip(text.len() as int);
    let input = framed(text) + rest;
    assert(input.take(4) =~= be_bytes(text.len() as int));
    assert(input.subrange(4, 4 + text.len() as int) =~= text);
}

/// What an input gives: cut if it ends within the header or within the text that the header
/// announces, too large if the header announces more than 16 MB, and otherwise the bytes
/// after the header, as many as it announces and as they are.
pub proof fn law_what_is_read(input: Seq<u8>)
    ensures
        input.len() < 4 ==> reading(input) is Cut,
        input.len() >= 4 ==> ({
            let length = input[0] * 16777216 + input[1] * 65536 + input[2] * 256 + input[3];
            &&& length > 16777216 ==> reading(input) == Reading::TooLarge(length)
            &&& length <= 16777216 && input.len() < 4 + length ==> reading(input) is Cut
            &&& length <= 16777216 && input.len() >= 4 + length ==> {
                &&& reading(input) matches Reading::Text(text)
                &&& text.len() == length
                &&& forall|i: int| 0 <= i < length ==> #[trigger] text[i] == input[4 + i]
            }
        }),
{
}

/// The limit is 16 MB. A text over it is reported with its length, or with the largest
/// number that fits.
pub proof fn law_the_limit(text: Seq<u8>)
    ensures
        MAX_FRAME_SIZE == 16777216,
        text.len() <= 0xffff_ffff ==> reported(text) == text.len(),
        text.len() > 0xffff_ffff ==> reported(text) == 0xffff_ffff,
{
}

/// A failed read is a closed connection if and only if the input ended too early; any other
/// failure is reported as it is.
pub proof fn law_what_a_failed_read_means(error: std::io::Error)
    ensures
        read_failure(error) is ConnectionClosed <==> is_unexpected_eof(error),
        !is_unexpected_eof(error) ==> read_failure(error) == WireError::Io(error),
{
}

} // verus!
