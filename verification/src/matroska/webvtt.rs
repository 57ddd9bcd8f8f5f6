//! The WebVTT decoder: a header, then every line of a track as one cue.

use super::{DecoderError, SubtitleLineDecoder};
use crate::text::{push_bytes, utf8_text};
use crate::time::{arrow, clock, Interval, TimeSpan};
use vstd::prelude::*;
use vstd::utf8::{encode_utf8, valid_utf8};

verus! {

/// The head of every WebVTT document: the line `WEBVTT` and an empty line.
pub open spec fn vtt_signature() -> Seq<u8> {
    encode_utf8("WEBVTT\n\n"@)
}

/// What stands before the first cue: the signature, then the header block of
/// the track, where it has one, byte for byte as the track carries it.
pub open spec fn vtt_head(track_codec_private: Option<Seq<u8>>) -> Seq<u8> {
    match track_codec_private {
        Some(header) => vtt_signature() + header,
        None => vtt_signature(),
    }
}

/// One cue of a WebVTT document: the display interval, the text and an empty
/// line.
pub open spec fn vtt_cue(time: Interval, text: Seq<u8>) -> Seq<u8> {
    clock(time.start, '.' as u8) + arrow() + clock(time.end, '.' as u8) + seq!['\n' as u8] + text
        + seq!['\n' as u8, '\n' as u8]
}

/// Renders one cue of a WebVTT document with `subtile::webvtt::write_line`,
/// which formats `"{start} --> {end}\n{text}\n"` and a line end into a
/// writer. `subtile` prints an instant that is not negative as
/// `{:02}:{:02}:{:02}.{:03}`: hours, minutes of the hour, seconds of the
/// minute, milliseconds of the second. The writer here is a fresh byte
/// vector, which takes every write by appending it, so that it holds exactly
/// that cue when the call returns.
#[verifier::external_body]
fn render_vtt_line(start: i64, end: i64, text: &str) -> (cue: Vec<u8>)
    requires
        0 <= start <= end,
    ensures
        cue@ == vtt_cue(Interval { start: start as int, end: end as int }, encode_utf8(text@)),
{
    let start = subtile::time::TimePoint::from_msecs(start);
    let end = subtile::time::TimePoint::from_msecs(end);
    let span = subtile::time::TimeSpan::new(start, end);
    let mut cue = Vec::new();
    subtile::webvtt::write_line(&mut cue, &span, text).expect("a byte vector takes every write");
    cue
}

/// Writes the lines of one track as a WebVTT document, into memory.
#[derive(Debug)]
pub struct WebvttWriter {
    writer: Vec<u8>,
}

impl View for WebvttWriter {
    type V = Seq<u8>;

    /// The bytes written so far.
    closed spec fn view(&self) -> Seq<u8> {
        self.writer@
    }
}

impl WebvttWriter {
    /// Create a `WebvttWriter` with header content from track `codec_private`.
    /// The document goes behind what `writer` already holds: the signature,
    /// then the header as it is, with no byte added. A header that is not
    /// valid UTF-8 is refused.
    pub fn new(writer: Vec<u8>, track_codec_private: Option<&[u8]>) -> (made: Result<
        Self,
        DecoderError,
    >)
        ensures
            match track_codec_private {
                Some(header) if !valid_utf8(header@) => made is Err && made->Err_0
                    == DecoderError::InvalidUtf8,
                Some(header) => made is Ok && made->Ok_0@ == writer@ + vtt_head(Some(header@)),
                None => made is Ok && made->Ok_0@ == writer@ + vtt_head(None),
            },
    {
        let mut document = writer;
        push_bytes(&mut document, "WEBVTT\n\n".as_bytes());
        if let Some(track_data) = track_codec_private {
            if utf8_text(track_data).is_none() {
                return Err(DecoderError::InvalidUtf8);
            }
            push_bytes(&mut document, track_data);
            assert(document@ =~= writer@ + vtt_head(Some(track_data@)));
        }
        Ok(Self { writer: document })
    }

    /// The bytes written so far.
    pub fn as_bytes(&self) -> (bytes: &[u8])
        ensures
            bytes@ == self@,
    {
        self.writer.as_slice()
    }

    /// Gives the document back.
    pub fn into_inner(self) -> (bytes: Vec<u8>)
        ensures
            bytes@ == self@,
    {
        self.writer
    }
}

impl SubtitleLineDecoder for WebvttWriter {
    /// A line whose content is not valid UTF-8 is refused and leaves the
    /// document as it was. Any other line is taken in: the document then
    /// holds one more cue.
    open spec fn pushed(
        &self,
        after: &Self,
        time: Interval,
        content: Seq<u8>,
        result: Result<(), DecoderError>,
    ) -> bool {
        if !valid_utf8(content) {
            result == Err::<(), DecoderError>(DecoderError::InvalidUtf8) && after@ == self@
        } else {
            result is Ok && after@ == self@ + vtt_cue(time, content)
        }
    }

    fn push_sub_line(&mut self, time: TimeSpan, content: &[u8]) -> (result: Result<
        (),
        DecoderError,
    >) {
        let text = match utf8_text(content) {
            Some(text) => text,
            None => {
                return Err(DecoderError::InvalidUtf8);
            },
        };
        let cue = render_vtt_line(time.start(), time.end(), text);
        push_bytes(&mut self.writer, cue.as_slice());
        Ok(())
    }
}

} // verus!
