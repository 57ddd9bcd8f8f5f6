//! Text files and their encoding: the byte-order mark at the head of a text,
//! and the rules by which a text is taken for UTF-8 or converted to it.

use crate::text::{push_bytes, utf8_text};
use vstd::prelude::*;
use vstd::slice::slice_subrange;
use vstd::utf8::{encode_utf8, encode_utf8_valid_utf8, valid_utf8, valid_utf8_concat};

verus! {

/// The UTF-8 byte-order mark.
pub const UTF8_BOM: [u8; 3] = [0xEF, 0xBB, 0xBF];

/// The bytes of the UTF-8 byte-order mark.
pub open spec fn utf8_bom() -> Seq<u8> {
    seq![0xEFu8, 0xBBu8, 0xBFu8]
}

/// Whether `data`, the head of a text, starts with the UTF-8 byte-order mark.
/// A head of fewer than three bytes is too short to tell.
pub fn has_utf8_bom(data: &[u8]) -> (r: Result<bool, TextError>)
    ensures
        data@.len() < 3 ==> r == Err::<bool, TextError>(TextError::NotEnoughData),
        data@.len() >= 3 ==> r == Ok::<bool, TextError>(data@.subrange(0, 3) == utf8_bom()),
{
    if data.len() < 3 {
        return Err(TextError::NotEnoughData);
    }
    let found = data[0] == 0xEF && data[1] == 0xBB && data[2] == 0xBF;
    proof {
        let head = data@.subrange(0, 3);
        assert(head[0] == data@[0] && head[1] == data@[1] && head[2] == data@[2]);
        if found {
            assert(head =~= utf8_bom());
        }
    }
    Ok(found)
}

/// Appends the UTF-8 byte-order mark to `out`.
pub fn push_utf8_bom(out: &mut Vec<u8>)
    ensures
        final(out)@ == old(out)@ + utf8_bom(),
{
    out.push(UTF8_BOM[0]);
    out.push(UTF8_BOM[1]);
    out.push(UTF8_BOM[2]);
    assert(out@ =~= old(out)@ + utf8_bom());
}

/// A byte-order mark, by the encoding that it announces.
#[derive(Clone, Copy, Debug, PartialEq, Eq, Structural)]
pub enum Bom {
    /// `EF BB BF`
    Utf8,
    /// `FF FE`
    Utf16Le,
    /// `FE FF`
    Utf16Be,
}

/// The byte-order mark that `head` starts with, if it starts with one.
pub open spec fn bom_of(head: Seq<u8>) -> Option<Bom> {
    if head.len() >= 3 && head[0] == 0xEF && head[1] == 0xBB && head[2] == 0xBF {
        Some(Bom::Utf8)
    } else if head.len() >= 2 && head[0] == 0xFF && head[1] == 0xFE {
        Some(Bom::Utf16Le)
    } else if head.len() >= 2 && head[0] == 0xFE && head[1] == 0xFF {
        Some(Bom::Utf16Be)
    } else {
        None
    }
}

/// The byte-order mark that `head`, the head of a text, starts with.
pub fn sniff_bom(head: &[u8]) -> (found: Option<Bom>)
    ensures
        found == bom_of(head@),
{
    if head.len() >= 3 && head[0] == 0xEF && head[1] == 0xBB && head[2] == 0xBF {
        Some(Bom::Utf8)
    } else if head.len() >= 2 && head[0] == 0xFF && head[1] == 0xFE {
        Some(Bom::Utf16Le)
    } else if head.len() >= 2 && head[0] == 0xFE && head[1] == 0xFF {
        Some(Bom::Utf16Be)
    } else {
        None
    }
}

/// What the head of a text says of its encoding.
#[derive(Clone, Copy, Debug, PartialEq, Eq, Structural)]
pub enum TextHead {
    /// The text starts with the UTF-8 byte-order mark: it is UTF-8 already,
    /// if the rest is valid.
    MarkedUtf8,
    /// The text starts with no byte-order mark: its encoding has to be
    /// guessed, and the text converted.
    Unmarked,
}

/// Why a text is neither taken for UTF-8 nor converted.
#[derive(Clone, Copy, Debug, PartialEq, Eq, Structural)]
pub enum TextError {
    /// The text starts with the byte-order mark of an encoding that is not
    /// converted.
    UnsupportedBom(Bom),
    /// The text is shorter than a byte-order mark.
    NotEnoughData,
    /// The text is marked as UTF-8 and is not valid UTF-8.
    InvalidUtf8,
    /// The head of the text is plain ASCII, from which no encoding can be
    /// guessed.
    OnlyAscii,
    /// The decoder stopped before the end of a line, for want of room.
    OutputFull,
    /// The decoder left bytes of a line unread.
    Unread,
    /// The line holds bytes that are malformed in the guessed encoding.
    Malformed,
}

/// What the head of a text says of its encoding, as mathematics sees it.
pub open spec fn head_class(head: Seq<u8>) -> Result<TextHead, TextError> {
    match bom_of(head) {
        Some(Bom::Utf16Le) => Err(TextError::UnsupportedBom(Bom::Utf16Le)),
        Some(Bom::Utf16Be) => Err(TextError::UnsupportedBom(Bom::Utf16Be)),
        Some(Bom::Utf8) => Ok(TextHead::MarkedUtf8),
        None => if head.len() < 3 {
            Err(TextError::NotEnoughData)
        } else {
            Ok(TextHead::Unmarked)
        },
    }
}

/// Reads the head of a text: a text marked as UTF-16 is refused, a text too
/// short to carry a mark as well, and any other is marked as UTF-8 or not
/// marked at all.
pub fn classify_head(head: &[u8]) -> (class: Result<TextHead, TextError>)
    ensures
        class == head_class(head@),
{
    match sniff_bom(head) {
        Some(Bom::Utf16Le) => Err(TextError::UnsupportedBom(Bom::Utf16Le)),
        Some(Bom::Utf16Be) => Err(TextError::UnsupportedBom(Bom::Utf16Be)),
        Some(Bom::Utf8) => Ok(TextHead::MarkedUtf8),
        None => if head.len() < 3 {
            Err(TextError::NotEnoughData)
        } else {
            Ok(TextHead::Unmarked)
        },
    }
}

/// Whether `bytes` hold a byte that is not ASCII.
pub open spec fn has_non_ascii(bytes: Seq<u8>) -> bool {
    exists|i: int| 0 <= i < bytes.len() && #[trigger] bytes[i] >= 0x80
}

/// What a decoder reported of one line.
#[derive(Debug)]
pub struct DecodedLine {
    /// The text that the decoder wrote.
    pub text: String,
    /// Whether the decoder came to the end of its input.
    pub input_empty: bool,
    /// How many bytes of the line the decoder read.
    pub bytes_read: usize,
    /// Whether the decoder replaced malformed bytes.
    pub had_replacements: bool,
}

/// The verdict on what a decoder reports of one line of `line_len` bytes:
/// the line is converted only if the decoder came to the end of its input,
/// read every byte, and replaced nothing.
pub open spec fn line_verdict(
    input_empty: bool,
    bytes_read: int,
    line_len: int,
    had_replacements: bool,
) -> Result<(), TextError> {
    if !input_empty {
        Err(TextError::OutputFull)
    } else if bytes_read != line_len {
        Err(TextError::Unread)
    } else if had_replacements {
        Err(TextError::Malformed)
    } else {
        Ok(())
    }
}

/// The verdict on the report of one line.
pub open spec fn report_verdict(report: DecodedLine, line_len: int) -> Result<(), TextError> {
    line_verdict(report.input_empty, report.bytes_read as int, line_len, report.had_replacements)
}

/// Judges what a decoder reports of one line of `line_len` bytes.
pub fn check_decoded_line(
    input_empty: bool,
    bytes_read: usize,
    line_len: usize,
    had_replacements: bool,
) -> (verdict: Result<(), TextError>)
    ensures
        verdict == line_verdict(input_empty, bytes_read as int, line_len as int, had_replacements),
{
    if !input_empty {
        Err(TextError::OutputFull)
    } else if bytes_read != line_len {
        Err(TextError::Unread)
    } else if had_replacements {
        Err(TextError::Malformed)
    } else {
        Ok(())
    }
}

/// Takes in what a decoder reported of the next line of a text, which has
/// `line_len` bytes: a line that was decoded cleanly joins `text` with the
/// bytes of its decoded text, and any other is refused with its verdict and
/// leaves `text` as it was.
pub fn push_decoded_line(text: &mut Vec<u8>, line_len: usize, decoded: &DecodedLine) -> (pushed:
    Result<(), TextError>)
    ensures
        pushed == report_verdict(*decoded, line_len as int),
        final(text)@ == if pushed is Ok {
            old(text)@ + encode_utf8(decoded.text@)
        } else {
            old(text)@
        },
{
    match check_decoded_line(
        decoded.input_empty,
        decoded.bytes_read,
        line_len,
        decoded.had_replacements,
    ) {
        Ok(()) => {
            push_bytes(text, decoded.text.as_str().as_bytes());
            Ok(())
        },
        Err(e) => Err(e),
    }
}

/// The two ways of looking for the UTF-8 byte-order mark agree: on a head of
/// three bytes or more, the mark is sniffed exactly when the head starts with
/// it.
pub proof fn lemma_sniffing_agrees_with_bom_check(head: Seq<u8>)
    requires
        head.len() >= 3,
    ensures
        bom_of(head) == Some(Bom::Utf8) <==> head.subrange(0, 3) == utf8_bom(),
{
    let first = head.subrange(0, 3);
    assert(first[0] == head[0] && first[1] == head[1] && first[2] == head[2]);
    if bom_of(head) == Some(Bom::Utf8) {
        assert(first =~= utf8_bom());
    }
}

/// The encoding of a text, as `encoding_rs` knows it.
#[verifier::external_type_specification]
#[verifier::external_body]
pub struct ExEncoding(encoding_rs::Encoding);

/// A decoder of `encoding_rs`: it turns the bytes of a text into UTF-8, and
/// keeps between two calls what it has seen of a character that is not
/// complete yet.
#[verifier::external_type_specification]
#[verifier::external_body]
pub struct ExDecoder(encoding_rs::Decoder);

/// Guesses the encoding of a text from its head with a fresh
/// `chardetng::EncodingDetector`: the head is fed to it as the whole input
/// (`feed` with `last` set), then `guess` is asked, with no domain name and
/// with UTF-8 and ISO-2022-JP allowed. `feed` returns whether the input held
/// a byte that is not ASCII, and that is the first part of the result;
/// nothing is claimed of the encoding.
#[verifier::external_body]
fn guess_encoding(head: &[u8]) -> (guess: (bool, &'static encoding_rs::Encoding))
    ensures
        guess.0 == has_non_ascii(head@),
{
    let mut detector = chardetng::EncodingDetector::new(chardetng::Iso2022JpDetection::Allow);
    let non_ascii_seen = detector.feed(head, true);
    (non_ascii_seen, detector.guess(None, chardetng::Utf8Detection::Allow))
}

/// Makes a decoder with `encoding_rs::Encoding::new_decoder`. Nothing is
/// claimed of it.
#[verifier::external_body]
fn new_decoder(encoding: &'static encoding_rs::Encoding) -> (decoder: encoding_rs::Decoder) {
    encoding.new_decoder()
}

/// Decodes one line with `encoding_rs::Decoder::decode_to_string`, into a
/// fresh string with room for `capacity` bytes, and not as the last input.
/// The call reports whether it came to the end of the input or ran out of
/// room, how many bytes it read, and whether it replaced malformed bytes.
/// Nothing is claimed of what it reports. The decoder may hold back up to
/// two bytes of an earlier call while it looks for a byte-order mark, and
/// panics if the output has no room for what they decode to and for one more
/// character: the room asked for covers that.
#[verifier::external_body]
fn decode_line(decoder: &mut encoding_rs::Decoder, line: &[u8], capacity: usize) -> (decoded:
    DecodedLine)
    requires
        capacity >= 8,
{
    let mut text = String::with_capacity(capacity);
    let (result, bytes_read, had_replacements) = decoder.decode_to_string(line, &mut text, false);
    let input_empty = match result {
        encoding_rs::CoderResult::InputEmpty => true,
        encoding_rs::CoderResult::OutputFull => false,
    };
    DecodedLine { text, input_empty, bytes_read, had_replacements }
}

/// How many bytes at the head of a text its encoding is guessed from.
pub const DETECTION_WINDOW: usize = 8192;

/// How many bytes of UTF-8 one line may take.
pub const LINE_CAPACITY: usize = 256;

/// The head of a text, from which its encoding is guessed.
pub open spec fn head_of(content: Seq<u8>) -> Seq<u8> {
    if content.len() <= DETECTION_WINDOW {
        content
    } else {
        content.subrange(0, DETECTION_WINDOW as int)
    }
}

/// Whether `text` is the UTF-8 byte-order mark followed by valid UTF-8.
pub open spec fn is_marked_utf8(text: Seq<u8>) -> bool {
    &&& text.len() >= 3
    &&& text.subrange(0, 3) == utf8_bom()
    &&& valid_utf8(text.skip(3))
}

/// What became of a text.
#[derive(Debug, PartialEq, Eq)]
pub enum Conversion {
    /// The text is marked as UTF-8 and is valid: nothing is to be written.
    AlreadyUtf8,
    /// The text was converted; the variant carries what is to be written in
    /// its place.
    Converted(Vec<u8>),
}

/// The length of the first line of a text, with its line feed if it has
/// one; zero for an empty text.
pub open spec fn line_len(text: Seq<u8>) -> nat
    decreases text.len(),
{
    if text.len() == 0 {
        0
    } else if text[0] == 0x0A {
        1
    } else {
        1 + line_len(text.drop_first())
    }
}

/// The lines of a text, in order: each ends behind its line feed, the last
/// one at the end of the text. Put together they are the text.
pub open spec fn lines_of(text: Seq<u8>) -> Seq<Seq<u8>>
    decreases text.len(),
    via lines_of_decreases
{
    if text.len() == 0 {
        Seq::<Seq<u8>>::empty()
    } else {
        seq![text.take(line_len(text) as int)] + lines_of(text.skip(line_len(text) as int))
    }
}

#[via_fn]
proof fn lines_of_decreases(text: Seq<u8>) {
    lemma_line_len_bounds(text);
}

/// The first line of a text is within the text, and is not empty unless the
/// text is.
pub proof fn lemma_line_len_bounds(text: Seq<u8>)
    ensures
        line_len(text) <= text.len(),
        text.len() > 0 ==> line_len(text) >= 1,
    decreases text.len(),
{
    if text.len() > 0 && text[0] != 0x0A {
        lemma_line_len_bounds(text.drop_first());
    }
}

/// A text that starts with `k` bytes other than a line feed has a first
/// line of `k` bytes and the first line of what follows them.
proof fn lemma_line_len_scan(text: Seq<u8>, k: int)
    requires
        0 <= k <= text.len(),
        forall|i: int| 0 <= i < k ==> text[i] != 0x0A,
    ensures
        line_len(text) == k + line_len(text.skip(k)),
    decreases k,
{
    if k == 0 {
        assert(text.skip(0) =~= text);
    } else {
        let rest = text.drop_first();
        assert forall|i: int| 0 <= i < k - 1 implies rest[i] != 0x0A by {
            assert(rest[i] == text[i + 1]);
        }
        lemma_line_len_scan(rest, k - 1);
        assert(rest.skip(k - 1) =~= text.skip(k));
    }
}

/// Where the line ends that starts at `at`: behind its line feed, or at the
/// end of the text.
fn line_end(content: &[u8], at: usize) -> (end: usize)
    requires
        at < content@.len(),
    ensures
        at < end <= content@.len(),
        end - at == line_len(content@.skip(at as int)),
{
    let ghost rest = content@.skip(at as int);
    let mut end = at;
    while end < content.len() && content[end] != 0x0A
        invariant
            at <= end <= content@.len(),
            rest == content@.skip(at as int),
            forall|i: int| 0 <= i < end - at ==> rest[i] != 0x0A,
        decreases content@.len() - end,
    {
        end += 1;
    }
    proof {
        lemma_line_len_scan(rest, end - at);
        let behind = rest.skip(end - at);
        if end < content.len() {
            assert(behind[0] == content@[end as int]);
        } else {
            assert(behind.len() == 0);
        }
    }
    if end < content.len() {
        end + 1
    } else {
        end
    }
}

/// The bytes of the texts that a decoder reported, one after the other.
pub open spec fn decoded_text(reports: Seq<DecodedLine>) -> Seq<u8>
    decreases reports.len(),
{
    if reports.len() == 0 {
        Seq::<u8>::empty()
    } else {
        decoded_text(reports.drop_last()) + encode_utf8(reports.last().text@)
    }
}

/// Whether `done` is what follows for a text of these `lines` from what the
/// decoder reported of them, `reports`, line by line and in order.
///
/// The decoder is asked for one line after the other, up to the first line
/// that it does not decode cleanly. If there is such a line, the text is
/// refused with the verdict on that line. If there is none, the text is
/// converted, and the conversion is the byte-order mark followed by the
/// decoded text of every line, once and in order.
pub open spec fn converts(
    lines: Seq<Seq<u8>>,
    reports: Seq<DecodedLine>,
    done: Result<Conversion, TextError>,
) -> bool {
    &&& reports.len() <= lines.len()
    &&& forall|i: int|
        0 <= i < reports.len() - 1 ==> report_verdict(#[trigger] reports[i], lines[i].len() as int)
            is Ok
    &&& match done {
        Ok(Conversion::Converted(text)) => {
            &&& reports.len() == lines.len()
            &&& reports.len() > 0 ==> report_verdict(
                reports.last(),
                lines.last().len() as int,
            ) is Ok
            &&& text@ == utf8_bom() + decoded_text(reports)
        },
        Ok(Conversion::AlreadyUtf8) => false,
        Err(e) => {
            &&& reports.len() > 0
            &&& report_verdict(reports.last(), lines[reports.len() - 1].len() as int) == Err::<
                (),
                TextError,
            >(e)
        },
    }
}

/// What a decoder writes is text, so the decoded text of any reports is
/// valid UTF-8.
pub proof fn lemma_decoded_text_is_utf8(reports: Seq<DecodedLine>)
    ensures
        valid_utf8(decoded_text(reports)),
    decreases reports.len(),
{
    if reports.len() > 0 {
        lemma_decoded_text_is_utf8(reports.drop_last());
        encode_utf8_valid_utf8(reports.last().text@);
        valid_utf8_concat(decoded_text(reports.drop_last()), encode_utf8(reports.last().text@));
    }
}

/// Converts a text to UTF-8 with a byte-order mark.
///
/// A text that starts with the UTF-8 byte-order mark is only checked: it is
/// UTF-8 already if the rest is valid. A text marked as UTF-16, or too short
/// to carry a mark, is refused. For any other text the encoding is guessed
/// from the head, which must hold a byte that is not ASCII, and the text is
/// decoded line by line: the result is what follows from what the decoder
/// reports of the lines. What a conversion gives is always the byte-order
/// mark followed by valid UTF-8.
pub fn convert_to_utf8(content: &[u8]) -> (done: Result<Conversion, TextError>)
    ensures
        match head_class(content@) {
            Err(e) => done == Err::<Conversion, TextError>(e),
            Ok(TextHead::MarkedUtf8) => done == if valid_utf8(content@.skip(3)) {
                Ok::<Conversion, TextError>(Conversion::AlreadyUtf8)
            } else {
                Err::<Conversion, TextError>(TextError::InvalidUtf8)
            },
            Ok(TextHead::Unmarked) => if !has_non_ascii(head_of(content@)) {
                done == Err::<Conversion, TextError>(TextError::OnlyAscii)
            } else {
                &&& exists|reports: Seq<DecodedLine>|
                    converts(lines_of(content@), reports, done)
                &&& done matches Ok(Conversion::Converted(text)) ==> is_marked_utf8(text@)
            },
        },
{
    let class = classify_head(content);
    match class {
        Err(e) => Err(e),
        Ok(TextHead::MarkedUtf8) => {
            let rest = slice_subrange(content, 3, content.len());
            if utf8_text(rest).is_some() {
                Ok(Conversion::AlreadyUtf8)
            } else {
                Err(TextError::InvalidUtf8)
            }
        },
        Ok(TextHead::Unmarked) => {
            let window = if content.len() <= DETECTION_WINDOW {
                content.len()
            } else {
                DETECTION_WINDOW
            };
            let head = slice_subrange(content, 0, window);
            assert(head@ =~= head_of(content@));
            let (non_ascii_seen, encoding) = guess_encoding(head);
            if !non_ascii_seen {
                return Err(TextError::OnlyAscii);
            }
            let mut decoder = new_decoder(encoding);
            let mut text: Vec<u8> = Vec::new();
            push_utf8_bom(&mut text);
            let ghost mut read = Seq::<Seq<u8>>::empty();
            let ghost mut reports = Seq::<DecodedLine>::empty();
            proof {
                assert(text@ =~= utf8_bom() + decoded_text(reports));
                assert(content@.skip(0) =~= content@);
                assert(read + lines_of(content@) =~= lines_of(content@));
            }
            let mut at: usize = 0;
            while at < content.len()
                invariant
                    at <= content@.len(),
                    head_class(content@) == Ok::<TextHead, TextError>(TextHead::Unmarked),
                    has_non_ascii(head_of(content@)),
                    lines_of(content@) == read + lines_of(content@.skip(at as int)),
                    reports.len() == read.len(),
                    forall|i: int|
                        0 <= i < reports.len() ==> report_verdict(
                            #[trigger] reports[i],
                            read[i].len() as int,
                        ) is Ok,
                    text@ == utf8_bom() + decoded_text(reports),
                decreases content@.len() - at,
            {
                let end = line_end(content, at);
                let line = slice_subrange(content, at, end);
                let ghost rest = content@.skip(at as int);
                let ghost lines = lines_of(content@);
                proof {
                    assert(line@ =~= rest.take(line_len(rest) as int));
                    assert(rest.skip(line_len(rest) as int) =~= content@.skip(end as int));
                    assert(lines =~= read.push(line@) + lines_of(content@.skip(end as int)));
                    assert(lines[read.len() as int] == line@);
                    assert forall|i: int| 0 <= i < read.len() implies lines[i] == read[i] by {}
                }
                let decoded = decode_line(&mut decoder, line, LINE_CAPACITY);
                let ghost before = reports;
                proof {
                    reports = reports.push(decoded);
                    assert(reports.drop_last() =~= before);
                    assert forall|i: int| 0 <= i < reports.len() - 1 implies report_verdict(
                        #[trigger] reports[i],
                        lines[i].len() as int,
                    ) is Ok by {
                        assert(reports[i] == before[i]);
                    }
                }
                match push_decoded_line(&mut text, line.len(), &decoded) {
                    Ok(()) => {},
                    Err(e) => {
                        proof {
                            assert(converts(lines, reports, Err::<Conversion, TextError>(e)));
                        }
                        return Err(e);
                    },
                }
                proof {
                    read = read.push(line@);
                    assert(text@ =~= utf8_bom() + decoded_text(reports));
                    assert forall|i: int| 0 <= i < reports.len() implies report_verdict(
                        #[trigger] reports[i],
                        read[i].len() as int,
                    ) is Ok by {
                        if i < before.len() {
                            assert(reports[i] == before[i]);
                        }
                    }
                }
                at = end;
            }
            proof {
                let lines = lines_of(content@);
                assert(content@.skip(at as int).len() == 0);
                assert(lines =~= read);
                lemma_decoded_text_is_utf8(reports);
                assert(text@.subrange(0, 3) =~= utf8_bom());
                assert(text@.skip(3) =~= decoded_text(reports));
            }
            let done = Ok(Conversion::Converted(text));
            proof {
                assert(converts(lines_of(content@), reports, done));
            }
            done
        },
    }
}

/// A text is converted exactly when the decoder decodes every line cleanly,
/// and the conversion then holds the decoded lines once and in order: as
/// many as the text has lines, behind the byte-order mark, and valid UTF-8
/// as a whole.
pub proof fn lemma_conversion_holds_every_line(
    lines: Seq<Seq<u8>>,
    reports: Seq<DecodedLine>,
    done: Result<Conversion, TextError>,
)
    requires
        converts(lines, reports, done),
    ensures
        done is Ok <==> reports.len() == lines.len() && forall|i: int|
            0 <= i < lines.len() ==> report_verdict(#[trigger] reports[i], lines[i].len() as int)
                is Ok,
        done matches Ok(Conversion::Converted(text)) ==> text@ == utf8_bom() + decoded_text(reports)
            && is_marked_utf8(text@),
{
    if let Ok(Conversion::Converted(text)) = done {
        lemma_decoded_text_is_utf8(reports);
        assert(text@.subrange(0, 3) =~= utf8_bom());
        assert(text@.skip(3) =~= decoded_text(reports));
        assert forall|i: int| 0 <= i < lines.len() implies report_verdict(
            #[trigger] reports[i],
            lines[i].len() as int,
        ) is Ok by {
            if i == reports.len() - 1 {
                assert(reports[i] == reports.last());
                assert(lines[i] == lines.last());
            }
        }
    } else {
        let last = reports.len() - 1;
        assert(report_verdict(reports[last], lines[last].len() as int) is Err);
    }
}

} // verus!
