//! Track selection: which tracks of a container are extracted, and with which
//! decoder and output file each of them starts.

use crate::file_encoding::utf8_bom;
use crate::matroska::codec_id::resolve;
use crate::matroska::subrip::SrtDocument;
use crate::matroska::vobsub::{Picture, VobSubTrack};
use crate::matroska::webvtt::vtt_head;
use crate::matroska::{
    CodecId, DecoderError, SrtWriter, SubtitleLineDecoder, VobSubDecoder, WebvttWriter,
};
use crate::text::{decimal_chars, push_decimal};
use crate::time::{Interval, TimeSpan};
use vstd::prelude::*;
use vstd::string::StringExecFns;
use vstd::utf8::{decode_utf8, valid_utf8};

verus! {

/// What a track carries.
#[derive(Clone, Copy, Debug, PartialEq, Eq, Structural)]
pub enum TrackType {
    /// Moving pictures.
    Video,
    /// Sound.
    Audio,
    /// Subtitles.
    Subtitle,
    /// Anything else: logos, buttons, controls, metadata.
    Other,
}

/// What a container says of one of its tracks.
#[derive(Debug)]
pub struct TrackDescriptor {
    /// The number by which frames name their track.
    pub track_number: u64,
    /// What the track carries.
    pub track_type: TrackType,
    /// The identifier of the track's codec.
    pub codec_id: String,
    /// The language of the track, as a short tag.
    pub language: Option<String>,
    /// How long a frame lasts that has no duration of its own.
    pub default_duration: Option<u64>,
    /// Data that the codec needs before the first frame.
    pub codec_private: Option<Vec<u8>>,
}

/// The decoder of a selected track: one variant for each form of document.
#[derive(Debug)]
pub enum TrackDecoder {
    /// Lines become the blocks of a SubRip document.
    SubRip(SrtWriter),
    /// Lines become the cues of a WebVTT document.
    WebVtt(WebvttWriter),
    /// Lines are the subpictures of a VobSub track.
    VobSub(VobSubDecoder),
}

impl SubtitleLineDecoder for TrackDecoder {
    /// The decoder keeps its variant, and does what a decoder of that variant
    /// does.
    open spec fn pushed(
        &self,
        after: &Self,
        time: Interval,
        content: Seq<u8>,
        result: Result<(), DecoderError>,
    ) -> bool {
        match (*self, *after) {
            (TrackDecoder::SubRip(before), TrackDecoder::SubRip(then)) => before.pushed(
                &then,
                time,
                content,
                result,
            ),
            (TrackDecoder::WebVtt(before), TrackDecoder::WebVtt(then)) => before.pushed(
                &then,
                time,
                content,
                result,
            ),
            (TrackDecoder::VobSub(before), TrackDecoder::VobSub(then)) => before.pushed(
                &then,
                time,
                content,
                result,
            ),
            _ => false,
        }
    }

    fn push_sub_line(&mut self, time: TimeSpan, content: &[u8]) -> (result: Result<
        (),
        DecoderError,
    >) {
        match self {
            TrackDecoder::SubRip(writer) => writer.push_sub_line(time, content),
            TrackDecoder::WebVtt(writer) => writer.push_sub_line(time, content),
            TrackDecoder::VobSub(decoder) => decoder.push_sub_line(time, content),
        }
    }
}

impl TrackDecoder {
    /// The bytes of the document written so far; an image decoder writes
    /// none.
    pub open spec fn document_bytes(self) -> Option<Seq<u8>> {
        match self {
            TrackDecoder::SubRip(writer) => Some(writer@.output),
            TrackDecoder::WebVtt(writer) => Some(writer@),
            TrackDecoder::VobSub(_) => None,
        }
    }

    /// The bytes of the document written so far; an image decoder writes
    /// none.
    pub fn document(&self) -> (bytes: Option<&[u8]>)
        ensures
            match bytes {
                Some(written) => self.document_bytes() == Some(written@),
                None => self.document_bytes() is None,
            },
    {
        match self {
            TrackDecoder::SubRip(writer) => Some(writer.as_bytes()),
            TrackDecoder::WebVtt(writer) => Some(writer.as_bytes()),
            TrackDecoder::VobSub(_) => None,
        }
    }
}

/// A selected track while its container is read.
#[derive(Debug)]
pub struct ActiveTrack {
    /// The number by which frames name the track.
    pub track_number: u64,
    /// The decoder that takes the track's frames.
    pub decoder: TrackDecoder,
    /// How long a frame lasts that has no duration of its own.
    pub default_duration: Option<u64>,
    /// The name of the file for the track's document; an image track has none.
    pub file_name: Option<String>,
}

/// What selection made of one track.
#[derive(Clone, Copy, Debug, PartialEq, Eq, Structural)]
pub enum TrackOutcome {
    /// The track is extracted.
    Selected,
    /// The track carries no subtitles.
    NotSubtitle,
    /// The codec identifier of the track is not in the table.
    UnknownCodec,
    /// The codec is known, and there is no decoder for it.
    UnsupportedCodec(CodecId),
    /// The decoder of the track could not be made.
    DecoderFailed(DecoderError),
}

/// What selection makes of a track.
pub open spec fn outcome_of(track: TrackDescriptor) -> TrackOutcome {
    if track.track_type != TrackType::Subtitle {
        TrackOutcome::NotSubtitle
    } else {
        match resolve(track.codec_id@) {
            None => TrackOutcome::UnknownCodec,
            Some(CodecId::SubRip) => TrackOutcome::Selected,
            Some(CodecId::WebVTT) => match track.codec_private {
                Some(header) if !valid_utf8(header@) => TrackOutcome::DecoderFailed(
                    DecoderError::InvalidUtf8,
                ),
                _ => TrackOutcome::Selected,
            },
            Some(CodecId::VobSub) => match track.codec_private {
                None => TrackOutcome::DecoderFailed(DecoderError::MissingIndex),
                Some(index) if !valid_utf8(index@) => TrackOutcome::DecoderFailed(
                    DecoderError::InvalidUtf8,
                ),
                _ => TrackOutcome::Selected,
            },
            Some(codec) => TrackOutcome::UnsupportedCodec(codec),
        }
    }
}

/// The name of a track's output file: the base name of the source, the track
/// number, the language where the track has one, and the extension, with a
/// dot between each two.
pub open spec fn file_name(
    basename: Seq<char>,
    track_number: u64,
    language: Option<Seq<char>>,
    extension: Seq<char>,
) -> Seq<char> {
    let head = basename + seq!['.'] + decimal_chars(track_number as nat);
    let tagged = match language {
        Some(tag) => head + seq!['.'] + tag,
        None => head,
    };
    tagged + seq!['.'] + extension
}

/// The language of a track as characters.
pub open spec fn language_of(track: TrackDescriptor) -> Option<Seq<char>> {
    match track.language {
        Some(tag) => Some(tag@),
        None => None,
    }
}

/// The codec-private data of a track as bytes.
pub open spec fn codec_private_of(track: TrackDescriptor) -> Option<Seq<u8>> {
    match track.codec_private {
        Some(data) => Some(data@),
        None => None,
    }
}

/// Whether `active` is what a selected `track` starts with: its number and
/// default duration, a decoder of its codec that has taken no line yet, and
/// the name of its file.
pub open spec fn starts_as(track: TrackDescriptor, basename: Seq<char>, active: ActiveTrack) -> bool {
    &&& active.track_number == track.track_number
    &&& active.default_duration == track.default_duration
    &&& match resolve(track.codec_id@) {
        Some(CodecId::SubRip) => {
            &&& active.decoder matches TrackDecoder::SubRip(writer)
            &&& writer@ == (SrtDocument { output: utf8_bom(), last_line_index: 0 })
            &&& active.file_name matches Some(name)
            &&& name@ == file_name(basename, track.track_number, language_of(track), "srt"@)
        },
        Some(CodecId::WebVTT) => {
            &&& active.decoder matches TrackDecoder::WebVtt(writer)
            &&& writer@ == vtt_head(codec_private_of(track))
            &&& active.file_name matches Some(name)
            &&& name@ == file_name(basename, track.track_number, language_of(track), "vtt"@)
        },
        Some(CodecId::VobSub) => {
            &&& active.decoder matches TrackDecoder::VobSub(decoder)
            &&& track.codec_private matches Some(index)
            &&& decoder@ == (VobSubTrack {
                index: decode_utf8(index@),
                pictures: Seq::<Picture>::empty(),
            })
            &&& active.file_name is None
        },
        _ => false,
    }
}

/// Names the output file of a track.
pub fn output_file_name(
    basename: &str,
    track_number: u64,
    language: Option<&str>,
    extension: &str,
) -> (name: String)
    ensures
        name@ == file_name(
            basename@,
            track_number,
            match language {
                Some(tag) => Some(tag@),
                None => None,
            },
            extension@,
        ),
{
    proof {
        reveal_strlit(".");
    }
    let mut name = String::from_str(basename);
    name.append(".");
    push_decimal(&mut name, track_number);
    if let Some(tag) = language {
        name.append(".");
        name.append(tag);
    }
    name.append(".");
    name.append(extension);
    proof {
        let head = basename@ + seq!['.'] + decimal_chars(track_number as nat);
        assert("."@ =~= seq!['.']);
        match language {
            Some(tag) => {
                assert(name@ =~= head + seq!['.'] + tag@ + seq!['.'] + extension@);
            },
            None => {
                assert(name@ =~= head + seq!['.'] + extension@);
            },
        }
    }
    name
}

/// Makes the active track of a descriptor, or says why the track is left out.
pub fn activate(track: &TrackDescriptor, basename: &str) -> (made: Result<ActiveTrack, TrackOutcome>)
    ensures
        match made {
            Ok(active) => outcome_of(*track) == TrackOutcome::Selected && starts_as(
                *track,
                basename@,
                active,
            ),
            Err(outcome) => outcome != TrackOutcome::Selected && outcome_of(*track) == outcome,
        },
{
    match track.track_type {
        TrackType::Subtitle => {},
        _ => {
            return Err(TrackOutcome::NotSubtitle);
        },
    }
    let codec = match CodecId::try_from(track.codec_id.as_str()) {
        Ok(codec) => codec,
        Err(_) => {
            return Err(TrackOutcome::UnknownCodec);
        },
    };
    let language = match &track.language {
        Some(tag) => Some(tag.as_str()),
        None => None,
    };
    let codec_private = match &track.codec_private {
        Some(data) => Some(data.as_slice()),
        None => None,
    };
    match codec {
        CodecId::SubRip => {
            let writer = SrtWriter::new(Vec::new());
            assert(writer@.output =~= utf8_bom());
            let name = output_file_name(basename, track.track_number, language, "srt");
            Ok(
                ActiveTrack {
                    track_number: track.track_number,
                    decoder: TrackDecoder::SubRip(writer),
                    default_duration: track.default_duration,
                    file_name: Some(name),
                },
            )
        },
        CodecId::WebVTT => match WebvttWriter::new(Vec::new(), codec_private) {
            Ok(writer) => {
                assert(writer@ =~= vtt_head(codec_private_of(*track)));
                let name = output_file_name(basename, track.track_number, language, "vtt");
                Ok(
                    ActiveTrack {
                        track_number: track.track_number,
                        decoder: TrackDecoder::WebVtt(writer),
                        default_duration: track.default_duration,
                        file_name: Some(name),
                    },
                )
            },
            Err(e) => Err(TrackOutcome::DecoderFailed(e)),
        },
        CodecId::VobSub => match codec_private {
            None => Err(TrackOutcome::DecoderFailed(DecoderError::MissingIndex)),
            Some(index) => match VobSubDecoder::new(index) {
                Ok(decoder) => Ok(
                    ActiveTrack {
                        track_number: track.track_number,
                        decoder: TrackDecoder::VobSub(decoder),
                        default_duration: track.default_duration,
                        file_name: None,
                    },
                ),
                Err(e) => Err(TrackOutcome::DecoderFailed(e)),
            },
        },
        CodecId::Pgs => Err(TrackOutcome::UnsupportedCodec(CodecId::Pgs)),
        CodecId::Ass => Err(TrackOutcome::UnsupportedCodec(CodecId::Ass)),
    }
}

/// The places of the selected tracks in a track list, in rising order.
pub open spec fn selected(tracks: Seq<TrackDescriptor>) -> Seq<int>
    decreases tracks.len(),
{
    if tracks.len() == 0 {
        Seq::<int>::empty()
    } else if outcome_of(tracks.last()) == TrackOutcome::Selected {
        selected(tracks.drop_last()).push(tracks.len() - 1)
    } else {
        selected(tracks.drop_last())
    }
}

/// What selection gives for a track list.
#[derive(Debug)]
pub struct Selection {
    /// The selected tracks, in the order of the track list.
    pub active: Vec<ActiveTrack>,
    /// What became of each track of the list, place by place.
    pub outcomes: Vec<TrackOutcome>,
}

/// Whether `active` and `outcomes` are what selection gives for `tracks`:
/// one outcome for each track, and one active track for each selected track,
/// in the same order, each as it starts.
pub open spec fn selects(
    tracks: Seq<TrackDescriptor>,
    basename: Seq<char>,
    active: Seq<ActiveTrack>,
    outcomes: Seq<TrackOutcome>,
) -> bool {
    &&& outcomes.len() == tracks.len()
    &&& forall|i: int| 0 <= i < tracks.len() ==> outcomes[i] == outcome_of(#[trigger] tracks[i])
    &&& active.len() == selected(tracks).len()
    &&& forall|k: int|
        0 <= k < active.len() ==> starts_as(
            tracks[selected(tracks)[k]],
            basename,
            #[trigger] active[k],
        )
}

/// Selects the tracks to extract: every subtitle track whose codec has a
/// decoder that could be made. A track that is left out takes no other track
/// with it.
pub fn select_tracks(tracks: &[TrackDescriptor], basename: &str) -> (selection: Selection)
    ensures
        selects(tracks@, basename@, selection.active@, selection.outcomes@),
{
    let mut active: Vec<ActiveTrack> = Vec::new();
    let mut outcomes: Vec<TrackOutcome> = Vec::new();
    let mut i: usize = 0;
    while i < tracks.len()
        invariant
            i <= tracks@.len(),
            selects(tracks@.subrange(0, i as int), basename@, active@, outcomes@),
        decreases tracks@.len() - i,
    {
        let ghost before = tracks@.subrange(0, i as int);
        let ghost now = tracks@.subrange(0, i + 1);
        let ghost active_before = active@;
        proof {
            assert(now.drop_last() =~= before);
            assert(now.last() == tracks@[i as int]);
            lemma_selected_exact(before);
        }
        match activate(&tracks[i], basename) {
            Ok(track) => {
                active.push(track);
                outcomes.push(TrackOutcome::Selected);
                proof {
                    assert(selected(now) == selected(before).push(i as int));
                    assert forall|k: int| 0 <= k < active@.len() implies starts_as(
                        now[selected(now)[k]],
                        basename@,
                        #[trigger] active@[k],
                    ) by {
                        if k < active_before.len() {
                            assert(active@[k] == active_before[k]);
                            assert(selected(now)[k] == selected(before)[k]);
                            assert(now[selected(before)[k]] == before[selected(before)[k]]);
                        }
                    }
                }
            },
            Err(outcome) => {
                outcomes.push(outcome);
                proof {
                    assert(selected(now) == selected(before));
                    assert forall|k: int| 0 <= k < active@.len() implies starts_as(
                        now[selected(now)[k]],
                        basename@,
                        #[trigger] active@[k],
                    ) by {
                        assert(active@[k] == active_before[k]);
                        assert(now[selected(before)[k]] == before[selected(before)[k]]);
                    }
                }
            },
        }
        proof {
            assert forall|j: int| 0 <= j < now.len() implies outcomes@[j] == outcome_of(
                #[trigger] now[j],
            ) by {
                if j < i {
                    assert(now[j] == before[j]);
                }
            }
        }
        i += 1;
    }
    proof {
        assert(tracks@.subrange(0, i as int) =~= tracks@);
    }
    Selection { active, outcomes }
}

/// Selection keeps exactly the tracks whose outcome is `Selected`, each once
/// and in the order of the list.
pub proof fn lemma_selected_exact(tracks: Seq<TrackDescriptor>)
    ensures
        forall|k: int|
            0 <= k < selected(tracks).len() ==> 0 <= #[trigger] selected(tracks)[k] < tracks.len()
                && outcome_of(tracks[selected(tracks)[k]]) == TrackOutcome::Selected,
        forall|k: int, l: int|
            0 <= k < l < selected(tracks).len() ==> selected(tracks)[k] < selected(tracks)[l],
        forall|i: int|
            0 <= i < tracks.len() && outcome_of(#[trigger] tracks[i]) == TrackOutcome::Selected
                ==> selected(tracks).contains(i),
    decreases tracks.len(),
{
    if tracks.len() > 0 {
        let rest = tracks.drop_last();
        lemma_selected_exact(rest);
        let last = tracks.len() - 1;
        assert forall|i: int|
            0 <= i < tracks.len() && outcome_of(#[trigger] tracks[i])
                == TrackOutcome::Selected implies selected(tracks).contains(i) by {
            if i < last {
                assert(rest[i] == tracks[i]);
                let k = choose|k: int| 0 <= k < selected(rest).len() && selected(rest)[k] == i;
                assert(selected(tracks)[k] == i);
            } else {
                assert(selected(tracks)[selected(tracks).len() - 1] == i);
            }
        }
        assert forall|k: int| 0 <= k < selected(tracks).len() implies 0 <= #[trigger] selected(
            tracks,
        )[k] < tracks.len() && outcome_of(tracks[selected(tracks)[k]])
            == TrackOutcome::Selected by {
            if k < selected(rest).len() {
                assert(selected(tracks)[k] == selected(rest)[k]);
                assert(rest[selected(rest)[k]] == tracks[selected(rest)[k]]);
            }
        }
    }
}

/// Where no two tracks of a container carry the same number, no two active
/// tracks do: every track number is the key of at most one active track.
pub proof fn lemma_active_numbers_are_unique(
    tracks: Seq<TrackDescriptor>,
    basename: Seq<char>,
    active: Seq<ActiveTrack>,
    outcomes: Seq<TrackOutcome>,
)
    requires
        selects(tracks, basename, active, outcomes),
        forall|i: int, j: int|
            0 <= i < j < tracks.len() ==> tracks[i].track_number != tracks[j].track_number,
    ensures
        forall|k: int, l: int|
            0 <= k < l < active.len() ==> active[k].track_number != active[l].track_number,
{
    lemma_selected_exact(tracks);
    assert forall|k: int, l: int| 0 <= k < l < active.len() implies active[k].track_number
        != active[l].track_number by {
        let i = selected(tracks)[k];
        let j = selected(tracks)[l];
        assert(starts_as(tracks[i], basename, active[k]));
        assert(starts_as(tracks[j], basename, active[l]));
        assert(i < j);
    }
}

} // verus!
