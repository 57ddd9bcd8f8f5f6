//! The VobSub decoder: it keeps the index of a track and the subpictures of
//! its frames for the one who decodes images.

use super::{DecoderError, SubtitleLineDecoder};
use crate::text::utf8_text;
use crate::time::{Interval, TimeSpan};
use vstd::prelude::*;
use vstd::slice::slice_to_vec;
use vstd::utf8::{decode_utf8, encode_utf8_decode_utf8, valid_utf8};

verus! {

/// One subpicture of a track: when it is shown, and its run-length encoded
/// image as the container carried it.
#[derive(Debug)]
pub struct SubPicture {
    /// The display interval of the image.
    pub time: TimeSpan,
    /// The encoded image.
    pub data: Vec<u8>,
}

/// A subpicture as mathematics sees it.
pub struct Picture {
    /// The display interval of the image.
    pub time: Interval,
    /// The encoded image.
    pub data: Seq<u8>,
}

impl View for SubPicture {
    type V = Picture;

    open spec fn view(&self) -> Picture {
        Picture { time: self.time@, data: self.data@ }
    }
}

/// What a VobSub decoder holds, as mathematics sees it.
pub struct VobSubTrack {
    /// The text of the index, which describes palette and resolution.
    pub index: Seq<char>,
    /// The subpictures taken in, oldest first.
    pub pictures: Seq<Picture>,
}

/// Collects the subpictures of one VobSub track.
#[derive(Debug)]
pub struct VobSubDecoder {
    index: String,
    pictures: Vec<SubPicture>,
}

impl View for VobSubDecoder {
    type V = VobSubTrack;

    closed spec fn view(&self) -> VobSubTrack {
        VobSubTrack { index: self.index@, pictures: self.pictures@.map_values(|p: SubPicture| p@) }
    }
}

impl VobSubDecoder {
    /// Create a `VobSub` subtitle line Decoder from the index of the track,
    /// which must be valid UTF-8.
    pub fn new(index_header: &[u8]) -> (made: Result<Self, DecoderError>)
        ensures
            !valid_utf8(index_header@) ==> made is Err && made->Err_0 == DecoderError::InvalidUtf8,
            valid_utf8(index_header@) ==> made is Ok && made->Ok_0@ == (VobSubTrack {
                index: decode_utf8(index_header@),
                pictures: Seq::<Picture>::empty(),
            }),
    {
        match utf8_text(index_header) {
            Some(index) => {
                let made = Self { index: index.to_owned(), pictures: Vec::new() };
                proof {
                    encode_utf8_decode_utf8(index@);
                }
                assert(made@.pictures =~= Seq::<Picture>::empty());
                Ok(made)
            },
            None => Err(DecoderError::InvalidUtf8),
        }
    }

    /// The text of the index.
    pub fn index(&self) -> (index: &str)
        ensures
            index@ == self@.index,
    {
        self.index.as_str()
    }

    /// The subpictures taken in, oldest first.
    pub fn pictures(&self) -> (pictures: &Vec<SubPicture>)
        ensures
            pictures@.map_values(|p: SubPicture| p@) == self@.pictures,
    {
        &self.pictures
    }
}

impl SubtitleLineDecoder for VobSubDecoder {
    /// Every line is taken in: it joins the subpictures as the newest, with
    /// its display interval and its content as it came.
    open spec fn pushed(
        &self,
        after: &Self,
        time: Interval,
        content: Seq<u8>,
        result: Result<(), DecoderError>,
    ) -> bool {
        result is Ok && after@ == (VobSubTrack {
            index: self@.index,
            pictures: self@.pictures.push(Picture { time, data: content }),
        })
    }

    fn push_sub_line(&mut self, time: TimeSpan, content: &[u8]) -> (result: Result<
        (),
        DecoderError,
    >) {
        let picture = SubPicture { time, data: slice_to_vec(content) };
        self.pictures.push(picture);
        assert(self@.pictures =~= old(self)@.pictures.push(Picture { time: time@, data: content@ }));
        Ok(())
    }
}

} // verus!
