//! The SubRip decoder: every line of a track becomes one numbered block of a
//! SubRip document.

use super::{DecoderError, SubtitleLineDecoder};
use crate::file_encoding::{push_utf8_bom, utf8_bom};
use crate::text::{decimal, push_bytes, utf8_text};
use crate::time::{arrow, clock, Interval, TimeSpan};
use vstd::prelude::*;
use vstd::utf8::{encode_utf8, valid_utf8};

verus! {

/// One block of a SubRip document: the line's number, its display interval,
/// its text and an empty line.
pub open spec fn srt_block(index: nat, time: Interval, text: Seq<u8>) -> Seq<u8> {
    decimal(index) + seq!['\n' as u8] + clock(time.start, ',' as u8) + arrow() + clock(time.end, ',' as u8)
        + seq!['\n' as u8] + text + seq!['\n' as u8, '\n' as u8]
}

/// Renders one block of a SubRip document with `subtile::srt::write_line`,
/// which formats `"{line_idx}\n{start} --> {end}\n{text}\n"` and a line end
/// into a writer. `subtile` prints an instant that is not negative as
/// `{:02}:{:02}:{:02},{:03}`: hours, minutes of the hour, seconds of the
/// minute, milliseconds of the second. The writer here is a fresh byte
/// vector, which takes every write by appending it, so that it holds exactly
/// that block when the call returns.
#[verifier::external_body]
fn render_srt_line(line_idx: usize, start: i64, end: i64, text: &str) -> (block: Vec<u8>)
    requires
        0 <= start <= end,
    ensures
        block@ == srt_block(
            line_idx as nat,
            Interval { start: start as int, end: end as int },
            encode_utf8(text@),
        ),
{
    let start = subtile::time::TimePoint::from_msecs(start);
    let end = subtile::time::TimePoint::from_msecs(end);
    let span = subtile::time::TimeSpan::new(start, end);
    let mut block = Vec::new();
    subtile::srt::write_line(&mut block, line_idx, &span, text)
        .expect("a byte vector takes every write");
    block
}

/// A SubRip document as mathematics sees it.
pub struct SrtDocument {
    /// The bytes written so far.
    pub output: Seq<u8>,
    /// The number of the last line written; zero before the first.
    pub last_line_index: nat,
}

/// The document after one more line.
pub open spec fn srt_with_line(document: SrtDocument, time: Interval, text: Seq<u8>) -> SrtDocument {
    SrtDocument {
        output: document.output + srt_block(document.last_line_index + 1, time, text),
        last_line_index: document.last_line_index + 1,
    }
}

/// Writes the lines of one track as a SubRip document, into memory.
#[derive(Debug)]
pub struct SrtWriter {
    writer: Vec<u8>,
    last_line_index: u32,
}

impl View for SrtWriter {
    type V = SrtDocument;

    closed spec fn view(&self) -> SrtDocument {
        SrtDocument { output: self.writer@, last_line_index: self.last_line_index as nat }
    }
}

impl SrtWriter {
    /// Create a `SrtWriter`, to write extracted subtitle from mkv file. The
    /// document goes behind what `writer` already holds, and starts with the
    /// UTF-8 byte-order mark.
    #[must_use]
    pub fn new(writer: Vec<u8>) -> (w: Self)
        ensures
            w@ == (SrtDocument { output: writer@ + utf8_bom(), last_line_index: 0 }),
    {
        let mut writer = writer;
        push_utf8_bom(&mut writer);
        Self { writer, last_line_index: 0 }
    }

    /// The bytes written so far.
    pub fn as_bytes(&self) -> (bytes: &[u8])
        ensures
            bytes@ == self@.output,
    {
        self.writer.as_slice()
    }

    /// Gives the document back.
    pub fn into_inner(self) -> (bytes: Vec<u8>)
        ensures
            bytes@ == self@.output,
    {
        self.writer
    }

    /// The number of the last line written; zero before the first.
    pub fn last_line_index(&self) -> (index: u32)
        ensures
            index == self@.last_line_index,
    {
        self.last_line_index
    }

}

impl SubtitleLineDecoder for SrtWriter {
    /// A line whose content is not valid UTF-8 is refused, and so is a line
    /// beyond the counter's range; both leave the document as it was. Any
    /// other line is taken in: the document then holds one more block, under
    /// the next number.
    open spec fn pushed(
        &self,
        after: &Self,
        time: Interval,
        content: Seq<u8>,
        result: Result<(), DecoderError>,
    ) -> bool {
        if !valid_utf8(content) {
            result == Err::<(), DecoderError>(DecoderError::InvalidUtf8) && after@ == self@
        } else if self@.last_line_index >= u32::MAX {
            result == Err::<(), DecoderError>(DecoderError::TooManyLines) && after@ == self@
        } else {
            result is Ok && after@ == srt_with_line(self@, time, content)
        }
    }

    fn push_sub_line(&mut self, time: TimeSpan, content: &[u8]) -> (result: Result<
        (),
        DecoderError,
    >) {
        let line_text = match utf8_text(content) {
            Some(text) => text,
            None => {
                return Err(DecoderError::InvalidUtf8);
            },
        };
        if self.last_line_index == u32::MAX {
            return Err(DecoderError::TooManyLines);
        }
        let line_index = self.last_line_index + 1;
        let block = render_srt_line(line_index as usize, time.start(), time.end(), line_text);
        push_bytes(&mut self.writer, block.as_slice());
        self.last_line_index = line_index;
        Ok(())
    }
}

/// One subtitle line: its display interval and its text.
pub struct Line {
    /// The display interval of the line.
    pub time: Interval,
    /// The text of the line, in UTF-8.
    pub text: Seq<u8>,
}

/// The document after `lines` more lines, taken in order.
pub open spec fn srt_with_lines(document: SrtDocument, lines: Seq<Line>) -> SrtDocument
    decreases lines.len(),
{
    if lines.len() == 0 {
        document
    } else {
        srt_with_line(
            srt_with_lines(document, lines.drop_last()),
            lines.last().time,
            lines.last().text,
        )
    }
}

/// The blocks of `lines`, numbered from `first` on, one after the other.
pub open spec fn srt_blocks(first: nat, lines: Seq<Line>) -> Seq<u8>
    decreases lines.len(),
{
    if lines.len() == 0 {
        Seq::<u8>::empty()
    } else {
        srt_blocks(first, lines.drop_last()) + srt_block(
            (first + lines.len() - 1) as nat,
            lines.last().time,
            lines.last().text,
        )
    }
}

/// The line counter goes up by exactly one with every line taken in: after
/// `lines` more lines it has grown by their number, and the document has
/// grown by their blocks, numbered without a gap from the counter's next
/// value on. A fresh document counts from zero, so its first block has the
/// number one.
pub proof fn lemma_lines_are_numbered(document: SrtDocument, lines: Seq<Line>)
    ensures
        srt_with_lines(document, lines).last_line_index == document.last_line_index + lines.len(),
        srt_with_lines(document, lines).output == document.output + srt_blocks(
            document.last_line_index + 1,
            lines,
        ),
    decreases lines.len(),
{
    if lines.len() == 0 {
        assert(document.output + Seq::<u8>::empty() =~= document.output);
    } else {
        let rest = lines.drop_last();
        lemma_lines_are_numbered(document, rest);
        let block = srt_block(
            (document.last_line_index + lines.len()) as nat,
            lines.last().time,
            lines.last().text,
        );
        assert(srt_with_lines(document, lines).output =~= document.output + (srt_blocks(
            document.last_line_index + 1,
            rest,
        ) + block));
    }
}

} // verus!
