//! Subtitle tracks as a Matroska container carries them: the codec of a
//! track, and the decoders that turn its frames into a subtitle document.

pub mod codec_id;
pub mod subrip;
pub mod vobsub;
pub mod webvtt;

pub use codec_id::{CodecId, CodecIdFromError};
pub use subrip::SrtWriter;
pub use vobsub::VobSubDecoder;
pub use webvtt::WebvttWriter;

use crate::time::{Interval, TimeSpan};
use vstd::prelude::*;

verus! {

/// Why a decoder refused a subtitle line, or could not be made.
#[derive(Clone, Copy, Debug, PartialEq, Eq, Structural)]
pub enum DecoderError {
    /// Bytes that must be text are not valid UTF-8.
    InvalidUtf8,
    /// The document already holds as many lines as its counter can count.
    TooManyLines,
    /// The track has no index, which its decoder cannot do without.
    MissingIndex,
}

/// Define the interface for manage (decode) a subtitle line from source (like matroska)
pub trait SubtitleLineDecoder {
    /// What one call of `push_sub_line` does: `self` is the decoder before the
    /// call, `after` the decoder after it and `result` what the call returned.
    spec fn pushed(
        &self,
        after: &Self,
        time: Interval,
        content: Seq<u8>,
        result: Result<(), DecoderError>,
    ) -> bool;

    /// Call with information/data on a subtitle line.
    fn push_sub_line(&mut self, time: TimeSpan, content: &[u8]) -> (result: Result<
        (),
        DecoderError,
    >)
        ensures
            old(self).pushed(final(self), time@, content@, result),
    ;
}

} // verus!
