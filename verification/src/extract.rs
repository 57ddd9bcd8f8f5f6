//! The extraction driver: it opens a container's tracks, routes every frame
//! to the decoder of its track, and stops at the end of the stream or at the
//! first failure.

use crate::file_encoding::utf8_bom;
use crate::matroska::codec_id::resolve;
use crate::matroska::subrip::{
    lemma_lines_are_numbered, srt_blocks, srt_with_line, srt_with_lines, Line, SrtDocument,
};
use crate::matroska::{CodecId, DecoderError, SrtWriter, SubtitleLineDecoder};
use crate::text::str_eq;
use crate::time::{resolved, Interval, TimeError, TimeSpan};
use crate::track::{
    outcome_of, select_tracks, selected, selects, starts_as, ActiveTrack, TrackDecoder,
    TrackDescriptor, TrackOutcome, TrackType,
};
use vstd::prelude::*;
use vstd::utf8::valid_utf8;

verus! {

/// The timestamp scale of a container whose timestamps count milliseconds:
/// the nanoseconds in one tick.
pub const TIMESTAMP_SCALE: u64 = 1_000_000;

/// One frame of a container.
#[derive(Debug)]
pub struct Frame {
    /// The number of the track that the frame belongs to.
    pub track: u64,
    /// When the frame is shown, in milliseconds.
    pub timestamp: u64,
    /// How long the frame is shown, where the container says so.
    pub duration: Option<u64>,
    /// The payload of the frame.
    pub data: Vec<u8>,
}

/// What reading a container's frame stream gives, one call at a time.
#[derive(Debug)]
pub enum FrameEvent {
    /// The next frame.
    Frame(Frame),
    /// The stream has no more frames.
    EndOfStream,
    /// The stream could not be read.
    ReadError,
}

/// Where an extraction stands.
#[derive(Clone, Copy, Debug, PartialEq, Eq, Structural)]
pub enum DriverState {
    /// Nothing is opened yet.
    Idle,
    /// The tracks are selected, and no frame was asked for yet.
    Opened,
    /// Frames are being routed.
    Streaming,
    /// The stream ended, or there was nothing to extract.
    Done,
    /// The extraction failed; what the decoders took in before stays.
    Aborted,
}

/// Why an extraction stopped, or refused a call.
#[derive(Clone, Copy, Debug, PartialEq, Eq, Structural)]
pub enum ExtractError {
    /// The container's timestamps do not count milliseconds.
    TimestampScale,
    /// A frame of a selected track has no display interval.
    Time(TimeError),
    /// The decoder of a track refused a frame.
    Decoder(DecoderError),
    /// The frame stream could not be read.
    Read,
    /// The call does not fit the state of the extraction.
    WrongState,
}

/// What one step of a running extraction did.
#[derive(Clone, Copy, Debug, PartialEq, Eq, Structural)]
pub enum Step {
    /// The frame went to the decoder of the active track at this place.
    Delivered(usize),
    /// The frame belongs to no active track and was dropped.
    Dropped,
    /// The stream ended.
    Finished,
}

/// The extension, without the dot, of a file that may hold a Matroska
/// container.
pub open spec fn names_container(ext: Seq<char>) -> bool {
    ext == "mkv"@ || ext == "webm"@
}

/// Whether a file with the extension `ext`, given without the dot, is taken
/// for a Matroska container.
pub fn is_container_extension(ext: &str) -> (container: bool)
    ensures
        container == names_container(ext@),
{
    str_eq(ext, "mkv") || str_eq(ext, "webm")
}

/// The place of the active track that takes the frames of track `number`:
/// the first one with that number.
pub open spec fn is_receiver(tracks: Seq<ActiveTrack>, number: u64, place: int) -> bool {
    &&& 0 <= place < tracks.len()
    &&& tracks[place].track_number == number
    &&& forall|j: int| 0 <= j < place ==> (#[trigger] tracks[j]).track_number != number
}

/// The place of the active track that takes the frames of track `number`, if
/// there is one.
pub open spec fn receiver(tracks: Seq<ActiveTrack>, number: u64) -> Option<int> {
    if exists|place: int| is_receiver(tracks, number, place) {
        Some(choose|place: int| is_receiver(tracks, number, place))
    } else {
        None
    }
}

/// Whether an extraction in this state takes frames.
pub open spec fn is_running(state: DriverState) -> bool {
    state == DriverState::Opened || state == DriverState::Streaming
}

/// Whether `after` holds the tracks of `before` with the same numbers,
/// default durations and file names, and with no change at all but to the
/// decoder at `place`.
pub open spec fn changed_only_at(before: Seq<ActiveTrack>, after: Seq<ActiveTrack>, place: int) -> bool {
    &&& after.len() == before.len()
    &&& forall|j: int| 0 <= j < before.len() && j != place ==> #[trigger] after[j] == before[j]
    &&& 0 <= place < before.len() ==> {
        &&& after[place].track_number == before[place].track_number
        &&& after[place].default_duration == before[place].default_duration
        &&& after[place].file_name == before[place].file_name
    }
}

/// What the decoder returned, as the result of a delivering step tells it.
pub open spec fn decoder_result(result: Result<Step, ExtractError>) -> Result<(), DecoderError> {
    match result {
        Err(ExtractError::Decoder(e)) => Err(e),
        _ => Ok(()),
    }
}

/// An extraction as mathematics sees it.
pub struct Extraction {
    /// Where the extraction stands.
    pub state: DriverState,
    /// The active tracks, in the order of the container's track list.
    pub tracks: Seq<ActiveTrack>,
    /// What became of each track of the container.
    pub outcomes: Seq<TrackOutcome>,
}

/// Whether one step on `event` leads from `before` to `after` with `result`.
///
/// An extraction that is not running refuses the step and stays as it is.
/// A running one ends at the end of the stream, and aborts where the stream
/// cannot be read. A frame of a track that is not active is dropped. A frame
/// of an active track goes to the first active track with its number: where
/// it has no display interval the extraction aborts, else the decoder of
/// that track takes the frame, and the extraction aborts if the decoder
/// refuses it. No step adds, removes or renumbers a track, and only a
/// delivered frame changes a decoder, that of its own track.
pub open spec fn steps(
    before: Extraction,
    after: Extraction,
    event: FrameEvent,
    result: Result<Step, ExtractError>,
) -> bool {
    if !is_running(before.state) {
        after == before && result == Err::<Step, ExtractError>(ExtractError::WrongState)
    } else {
        &&& after.outcomes == before.outcomes
        &&& match event {
            FrameEvent::EndOfStream => {
                &&& after.tracks == before.tracks
                &&& after.state == DriverState::Done
                &&& result == Ok::<Step, ExtractError>(Step::Finished)
            },
            FrameEvent::ReadError => {
                &&& after.tracks == before.tracks
                &&& after.state == DriverState::Aborted
                &&& result == Err::<Step, ExtractError>(ExtractError::Read)
            },
            FrameEvent::Frame(frame) => match receiver(before.tracks, frame.track) {
                None => {
                    &&& after.tracks == before.tracks
                    &&& after.state == DriverState::Streaming
                    &&& result == Ok::<Step, ExtractError>(Step::Dropped)
                },
                Some(place) => match resolved(
                    frame.timestamp,
                    frame.duration,
                    before.tracks[place].default_duration,
                ) {
                    Err(e) => {
                        &&& after.tracks == before.tracks
                        &&& after.state == DriverState::Aborted
                        &&& result == Err::<Step, ExtractError>(ExtractError::Time(e))
                    },
                    Ok(time) => {
                        &&& changed_only_at(before.tracks, after.tracks, place)
                        &&& before.tracks[place].decoder.pushed(
                            &after.tracks[place].decoder,
                            time,
                            frame.data@,
                            decoder_result(result),
                        )
                        &&& match result {
                            Ok(step) => step == Step::Delivered(place as usize) && after.state
                                == DriverState::Streaming,
                            Err(e) => e is Decoder && after.state == DriverState::Aborted,
                        }
                    },
                },
            },
        }
    }
}

/// Whether opening leads from `before` to `after` with `result`.
///
/// Only an idle extraction opens; any other refuses the call and stays as it
/// is. A container whose timestamps do not count milliseconds aborts the
/// extraction before any track is selected. Else the tracks are selected, and
/// the extraction is done at once where none is, and opened where some are.
pub open spec fn opens(
    before: Extraction,
    after: Extraction,
    basename: Seq<char>,
    timestamp_scale: u64,
    tracks: Seq<TrackDescriptor>,
    result: Result<(), ExtractError>,
) -> bool {
    if before.state != DriverState::Idle {
        after == before && result == Err::<(), ExtractError>(ExtractError::WrongState)
    } else if timestamp_scale != TIMESTAMP_SCALE {
        &&& after.state == DriverState::Aborted
        &&& after.tracks == Seq::<ActiveTrack>::empty()
        &&& after.outcomes == Seq::<TrackOutcome>::empty()
        &&& result == Err::<(), ExtractError>(ExtractError::TimestampScale)
    } else {
        &&& result is Ok
        &&& selects(tracks, basename, after.tracks, after.outcomes)
        &&& after.state == if after.tracks.len() == 0 {
            DriverState::Done
        } else {
            DriverState::Opened
        }
    }
}

/// The extraction of the subtitle tracks of one container.
#[derive(Debug)]
pub struct Extractor {
    state: DriverState,
    tracks: Vec<ActiveTrack>,
    outcomes: Vec<TrackOutcome>,
}

impl View for Extractor {
    type V = Extraction;

    closed spec fn view(&self) -> Extraction {
        Extraction { state: self.state, tracks: self.tracks@, outcomes: self.outcomes@ }
    }
}

impl Extractor {
    /// An idle extraction, with no track.
    pub fn new() -> (extractor: Self)
        ensures
            extractor@ == (Extraction {
                state: DriverState::Idle,
                tracks: Seq::<ActiveTrack>::empty(),
                outcomes: Seq::<TrackOutcome>::empty(),
            }),
    {
        Self { state: DriverState::Idle, tracks: Vec::new(), outcomes: Vec::new() }
    }

    /// Where the extraction stands.
    pub fn state(&self) -> (state: DriverState)
        ensures
            state == self@.state,
    {
        self.state
    }

    /// The active tracks, in the order of the container's track list.
    pub fn tracks(&self) -> (tracks: &Vec<ActiveTrack>)
        ensures
            tracks@ == self@.tracks,
    {
        &self.tracks
    }

    /// What became of each track of the container.
    pub fn outcomes(&self) -> (outcomes: &Vec<TrackOutcome>)
        ensures
            outcomes@ == self@.outcomes,
    {
        &self.outcomes
    }

    /// Gives the active tracks back, with all that their decoders took in.
    pub fn into_tracks(self) -> (tracks: Vec<ActiveTrack>)
        ensures
            tracks@ == self@.tracks,
    {
        self.tracks
    }

    /// The place of the active track that takes the frames of track `number`.
    fn find_receiver(&self, number: u64) -> (found: Option<usize>)
        ensures
            match found {
                Some(place) => receiver(self@.tracks, number) == Some(place as int),
                None => receiver(self@.tracks, number) is None,
            },
    {
        let mut i: usize = 0;
        while i < self.tracks.len()
            invariant
                i <= self.tracks@.len(),
                forall|j: int| 0 <= j < i ==> (#[trigger] self.tracks@[j]).track_number != number,
            decreases self.tracks@.len() - i,
        {
            if self.tracks[i].track_number == number {
                proof {
                    lemma_receiver_is_unique(self@.tracks, number, i as int);
                }
                return Some(i);
            }
            i += 1;
        }
        proof {
            assert forall|place: int| !is_receiver(self@.tracks, number, place) by {
                if 0 <= place < self.tracks@.len() {
                    assert(self.tracks@[place].track_number != number);
                }
            }
        }
        None
    }

    /// Opens a container: checks its timestamp scale and selects its tracks.
    pub fn open(&mut self, basename: &str, timestamp_scale: u64, tracks: &[TrackDescriptor]) -> (result:
        Result<(), ExtractError>)
        ensures
            opens(old(self)@, final(self)@, basename@, timestamp_scale, tracks@, result),
    {
        match self.state {
            DriverState::Idle => {},
            _ => {
                return Err(ExtractError::WrongState);
            },
        }
        if timestamp_scale != TIMESTAMP_SCALE {
            self.state = DriverState::Aborted;
            self.tracks = Vec::new();
            self.outcomes = Vec::new();
            return Err(ExtractError::TimestampScale);
        }
        let selection = select_tracks(tracks, basename);
        self.tracks = selection.active;
        self.outcomes = selection.outcomes;
        if self.tracks.len() == 0 {
            self.state = DriverState::Done;
        } else {
            self.state = DriverState::Opened;
        }
        Ok(())
    }

    /// Aborts a running extraction whose output could not be written. What
    /// the decoders took in stays; an extraction that is not running stays as
    /// it is.
    pub fn abort(&mut self)
        ensures
            final(self)@ == (Extraction {
                state: if is_running(old(self)@.state) {
                    DriverState::Aborted
                } else {
                    old(self)@.state
                },
                tracks: old(self)@.tracks,
                outcomes: old(self)@.outcomes,
            }),
    {
        match self.state {
            DriverState::Opened | DriverState::Streaming => {
                self.state = DriverState::Aborted;
            },
            _ => {},
        }
    }

    /// Takes what the frame stream gave and does the next step.
    pub fn step(&mut self, event: &FrameEvent) -> (result: Result<Step, ExtractError>)
        ensures
            steps(old(self)@, final(self)@, *event, result),
    {
        match self.state {
            DriverState::Opened | DriverState::Streaming => {},
            _ => {
                return Err(ExtractError::WrongState);
            },
        }
        let frame = match event {
            FrameEvent::EndOfStream => {
                self.state = DriverState::Done;
                return Ok(Step::Finished);
            },
            FrameEvent::ReadError => {
                self.state = DriverState::Aborted;
                return Err(ExtractError::Read);
            },
            FrameEvent::Frame(frame) => frame,
        };
        let place = match self.find_receiver(frame.track) {
            Some(place) => place,
            None => {
                self.state = DriverState::Streaming;
                return Ok(Step::Dropped);
            },
        };
        let time = match TimeSpan::resolve(
            frame.timestamp,
            frame.duration,
            self.tracks[place].default_duration,
        ) {
            Ok(time) => time,
            Err(e) => {
                self.state = DriverState::Aborted;
                return Err(ExtractError::Time(e));
            },
        };
        match self.tracks[place].decoder.push_sub_line(time, frame.data.as_slice()) {
            Ok(()) => {
                self.state = DriverState::Streaming;
                Ok(Step::Delivered(place))
            },
            Err(e) => {
                self.state = DriverState::Aborted;
                Err(ExtractError::Decoder(e))
            },
        }
    }
}

/// At most one active track takes the frames of a track number: the first
/// one that carries it.
pub proof fn lemma_receiver_is_unique(tracks: Seq<ActiveTrack>, number: u64, place: int)
    requires
        is_receiver(tracks, number, place),
    ensures
        receiver(tracks, number) == Some(place),
{
    let chosen = choose|p: int| is_receiver(tracks, number, p);
    if chosen < place {
        assert(tracks[chosen].track_number != number);
    }
    if place < chosen {
        assert(tracks[place].track_number != number);
    }
}

/// A frame of an active SubRip track, with text as payload and a display
/// interval, becomes the next block of that track's document: the step
/// delivers it, the extraction goes on streaming, and the document holds one
/// more block, with the next number, the frame's interval and its text.
pub proof fn lemma_delivered_line_is_rendered(
    before: Extraction,
    after: Extraction,
    frame: Frame,
    result: Result<Step, ExtractError>,
    place: int,
    writer: SrtWriter,
    time: Interval,
)
    requires
        is_running(before.state),
        steps(before, after, FrameEvent::Frame(frame), result),
        is_receiver(before.tracks, frame.track, place),
        before.tracks[place].decoder == TrackDecoder::SubRip(writer),
        resolved(frame.timestamp, frame.duration, before.tracks[place].default_duration) == Ok::<
            Interval,
            TimeError,
        >(time),
        valid_utf8(frame.data@),
        writer@.last_line_index < u32::MAX,
    ensures
        result == Ok::<Step, ExtractError>(Step::Delivered(place as usize)),
        after.state == DriverState::Streaming,
        after.tracks[place].decoder matches TrackDecoder::SubRip(then) && then@ == srt_with_line(
            writer@,
            time,
            frame.data@,
        ),
{
    lemma_receiver_is_unique(before.tracks, frame.track, place);
}

/// A frame whose track number no active track carries reaches no decoder:
/// the step drops it, and every track is after the step what it was before.
pub proof fn lemma_unselected_frame_is_dropped(
    before: Extraction,
    after: Extraction,
    frame: Frame,
    result: Result<Step, ExtractError>,
)
    requires
        is_running(before.state),
        forall|j: int| 0 <= j < before.tracks.len() ==> before.tracks[j].track_number != frame.track,
        steps(before, after, FrameEvent::Frame(frame), result),
    ensures
        after.tracks == before.tracks,
        after.state == DriverState::Streaming,
        result == Ok::<Step, ExtractError>(Step::Dropped),
{
    assert forall|place: int| !is_receiver(before.tracks, frame.track, place) by {
        if 0 <= place < before.tracks.len() {
            assert(before.tracks[place].track_number != frame.track);
        }
    }
}

/// No step adds, removes, reorders or renumbers an active track, whatever
/// the event and whatever the state: the tracks are fixed once the container
/// is opened.
pub proof fn lemma_step_keeps_track_numbers(
    before: Extraction,
    after: Extraction,
    event: FrameEvent,
    result: Result<Step, ExtractError>,
)
    requires
        steps(before, after, event, result),
    ensures
        after.tracks.len() == before.tracks.len(),
        forall|j: int|
            0 <= j < before.tracks.len() ==> (#[trigger] after.tracks[j]).track_number
                == before.tracks[j].track_number,
        after.outcomes == before.outcomes,
{
    if is_running(before.state) {
        if let FrameEvent::Frame(frame) = event {
            if let Some(place) = receiver(before.tracks, frame.track) {
                assert(is_receiver(before.tracks, frame.track, place));
            }
        }
    }
}

/// A step changes at most one active track: the one that its result names.
pub proof fn lemma_step_changes_one_track(
    before: Extraction,
    after: Extraction,
    event: FrameEvent,
    result: Result<Step, ExtractError>,
    j: int,
)
    requires
        steps(before, after, event, result),
        0 <= j < before.tracks.len(),
        after.tracks[j] != before.tracks[j],
    ensures
        event matches FrameEvent::Frame(frame) && receiver(before.tracks, frame.track) == Some(j),
{
    if is_running(before.state) {
        if let FrameEvent::Frame(frame) = event {
            if let Some(place) = receiver(before.tracks, frame.track) {
                assert(is_receiver(before.tracks, frame.track, place));
            }
        }
    }
}

/// The states `Done` and `Aborted` are final, and so is every state that is
/// not running: a step there changes nothing and is refused.
pub proof fn lemma_terminal_states_are_final(
    before: Extraction,
    after: Extraction,
    event: FrameEvent,
    result: Result<Step, ExtractError>,
)
    requires
        before.state == DriverState::Done || before.state == DriverState::Aborted,
        steps(before, after, event, result),
    ensures
        after == before,
        result == Err::<Step, ExtractError>(ExtractError::WrongState),
{
}

/// A running extraction leaves the running states only for `Done`, at the
/// end of the stream, or for `Aborted`, with an error.
pub proof fn lemma_step_follows_state_machine(
    before: Extraction,
    after: Extraction,
    event: FrameEvent,
    result: Result<Step, ExtractError>,
)
    requires
        is_running(before.state),
        steps(before, after, event, result),
    ensures
        after.state == DriverState::Streaming || after.state == DriverState::Done || after.state
            == DriverState::Aborted,
        after.state == DriverState::Done <==> event is EndOfStream,
        after.state == DriverState::Aborted <==> result is Err,
{
}

/// A container whose timestamp scale is not that of milliseconds aborts the
/// extraction at opening: no track is selected, so no output file is named.
pub proof fn lemma_wrong_scale_selects_nothing(
    before: Extraction,
    after: Extraction,
    basename: Seq<char>,
    timestamp_scale: u64,
    tracks: Seq<TrackDescriptor>,
    result: Result<(), ExtractError>,
)
    requires
        before.state == DriverState::Idle,
        timestamp_scale != TIMESTAMP_SCALE,
        opens(before, after, basename, timestamp_scale, tracks, result),
    ensures
        after.state == DriverState::Aborted,
        after.tracks.len() == 0,
        result == Err::<(), ExtractError>(ExtractError::TimestampScale),
{
}

/// Whether `trace` is a run over `frames`: it starts with the extraction
/// before the first frame, and every frame leads by one step, with its
/// result, from one extraction of the trace to the next.
pub open spec fn runs(
    trace: Seq<Extraction>,
    frames: Seq<Frame>,
    results: Seq<Result<Step, ExtractError>>,
) -> bool {
    &&& trace.len() == frames.len() + 1
    &&& results.len() == frames.len()
    &&& forall|i: int|
        0 <= i < frames.len() ==> steps(
            #[trigger] trace[i],
            trace[i + 1],
            FrameEvent::Frame(frames[i]),
            results[i],
        )
}

/// The lines that frames make on a track with this default duration: each
/// with its display interval and its payload as text.
pub open spec fn frame_lines(frames: Seq<Frame>, default_duration: Option<u64>) -> Seq<Line> {
    Seq::new(
        frames.len(),
        |i: int|
            Line {
                time: resolved(frames[i].timestamp, frames[i].duration, default_duration)->Ok_0,
                text: frames[i].data@,
            },
    )
}

/// A run of frames that all belong to one active SubRip track, each with a
/// display interval and with text as payload: every frame is delivered, the
/// document of the track grows by the lines of the frames, in their order
/// and numbered on from where the counter stood, and no other track changes.
pub proof fn lemma_run_renders_every_frame(
    trace: Seq<Extraction>,
    frames: Seq<Frame>,
    results: Seq<Result<Step, ExtractError>>,
    place: int,
    writer: SrtWriter,
)
    requires
        runs(trace, frames, results),
        is_running(trace[0].state),
        0 <= place < trace[0].tracks.len(),
        trace[0].tracks[place].decoder == TrackDecoder::SubRip(writer),
        writer@.last_line_index + frames.len() <= u32::MAX,
        forall|i: int|
            0 <= i < frames.len() ==> {
                &&& is_receiver(trace[0].tracks, (#[trigger] frames[i]).track, place)
                &&& resolved(
                    frames[i].timestamp,
                    frames[i].duration,
                    trace[0].tracks[place].default_duration,
                ) is Ok
                &&& valid_utf8(frames[i].data@)
            },
    ensures
        forall|i: int|
            0 <= i < frames.len() ==> #[trigger] results[i] == Ok::<Step, ExtractError>(
                Step::Delivered(place as usize),
            ),
        is_running(trace.last().state),
        trace.last().tracks.len() == trace[0].tracks.len(),
        forall|j: int|
            0 <= j < trace[0].tracks.len() ==> {
                &&& (#[trigger] trace.last().tracks[j]).track_number
                    == trace[0].tracks[j].track_number
                &&& trace.last().tracks[j].default_duration == trace[0].tracks[j].default_duration
                &&& j != place ==> trace.last().tracks[j] == trace[0].tracks[j]
            },
        trace.last().tracks[place].decoder matches TrackDecoder::SubRip(then) && then@
            == srt_with_lines(
            writer@,
            frame_lines(frames, trace[0].tracks[place].default_duration),
        ),
    decreases frames.len(),
{
    let default_duration = trace[0].tracks[place].default_duration;
    if frames.len() > 0 {
        let n = frames.len() - 1;
        let earlier = frames.drop_last();
        let trace_before = trace.drop_last();
        assert(runs(trace_before, earlier, results.drop_last())) by {
            assert forall|i: int| 0 <= i < earlier.len() implies steps(
                #[trigger] trace_before[i],
                trace_before[i + 1],
                FrameEvent::Frame(earlier[i]),
                results.drop_last()[i],
            ) by {
                assert(steps(trace[i], trace[i + 1], FrameEvent::Frame(frames[i]), results[i]));
            }
        }
        assert forall|i: int| 0 <= i < earlier.len() implies {
            &&& is_receiver(trace_before[0].tracks, (#[trigger] earlier[i]).track, place)
            &&& resolved(earlier[i].timestamp, earlier[i].duration, default_duration) is Ok
            &&& valid_utf8(earlier[i].data@)
        } by {
            assert(earlier[i] == frames[i]);
        }
        lemma_run_renders_every_frame(trace_before, earlier, results.drop_last(), place, writer);
        let before = trace[n];
        let after = trace[n + 1];
        assert(before == trace_before.last());
        assert(after == trace.last());
        let frame = frames[n];
        assert(steps(before, after, FrameEvent::Frame(frame), results[n]));
        let lines_before = frame_lines(earlier, default_duration);
        let lines = frame_lines(frames, default_duration);
        assert(lines.drop_last() =~= lines_before);
        let then = before.tracks[place].decoder->SubRip_0;
        lemma_lines_are_numbered(writer@, lines_before);
        assert(is_receiver(before.tracks, frame.track, place)) by {
            assert(is_receiver(trace[0].tracks, frame.track, place));
            assert forall|j: int| 0 <= j < place implies (#[trigger] before.tracks[j]).track_number
                != frame.track by {
                assert(trace[0].tracks[j].track_number != frame.track);
            }
        }
        let time = resolved(frame.timestamp, frame.duration, default_duration)->Ok_0;
        lemma_delivered_line_is_rendered(before, after, frame, results[n], place, then, time);
        lemma_step_keeps_track_numbers(before, after, FrameEvent::Frame(frame), results[n]);
        lemma_receiver_is_unique(before.tracks, frame.track, place);
        assert(lines.last() == Line { time, text: frame.data@ });
        assert forall|i: int| 0 <= i < frames.len() implies #[trigger] results[i] == Ok::<
            Step,
            ExtractError,
        >(Step::Delivered(place as usize)) by {
            if i < n {
                assert(results.drop_last()[i] == results[i]);
            }
        }
        assert forall|j: int| 0 <= j < trace[0].tracks.len() implies {
            &&& (#[trigger] after.tracks[j]).track_number == trace[0].tracks[j].track_number
            &&& after.tracks[j].default_duration == trace[0].tracks[j].default_duration
            &&& j != place ==> after.tracks[j] == trace[0].tracks[j]
        } by {
            assert(before.tracks[j].track_number == trace[0].tracks[j].track_number);
        }
    } else {
        assert(trace.last() == trace[0]);
        assert(frame_lines(frames, default_duration) =~= Seq::<Line>::empty());
    }
}

/// A track that is not selected changes nothing for the track beside it.
/// Where a container has two tracks, the first not selected and the second a
/// SubRip track, and every frame of a run belongs to the second, has a
/// duration of its own and text as payload, the document of the SubRip track
/// is the byte-order mark followed by one block for each frame, numbered
/// from one on and in the order of the frames, with each frame's interval
/// and text.
pub proof fn lemma_subrip_track_beside_unselected_track(
    idle: Extraction,
    basename: Seq<char>,
    tracks: Seq<TrackDescriptor>,
    opened: Result<(), ExtractError>,
    trace: Seq<Extraction>,
    frames: Seq<Frame>,
    results: Seq<Result<Step, ExtractError>>,
)
    requires
        idle.state == DriverState::Idle,
        tracks.len() == 2,
        outcome_of(tracks[0]) != TrackOutcome::Selected,
        tracks[1].track_type == TrackType::Subtitle,
        resolve(tracks[1].codec_id@) == Some(CodecId::SubRip),
        runs(trace, frames, results),
        opens(idle, trace[0], basename, TIMESTAMP_SCALE, tracks, opened),
        frames.len() <= u32::MAX,
        forall|i: int|
            0 <= i < frames.len() ==> {
                &&& (#[trigger] frames[i]).track == tracks[1].track_number
                &&& frames[i].duration matches Some(duration) && frames[i].timestamp + duration
                    <= i64::MAX
                &&& valid_utf8(frames[i].data@)
            },
    ensures
        opened is Ok,
        trace.last().tracks.len() == 1,
        trace.last().tracks[0].decoder matches TrackDecoder::SubRip(writer) && writer@ == (
        SrtDocument {
            output: utf8_bom() + srt_blocks(1, frame_lines(frames, tracks[1].default_duration)),
            last_line_index: frames.len(),
        }),
{
    assert(selected(tracks) =~= seq![1int]) by {
        reveal_with_fuel(selected, 3);
        assert(tracks.drop_last().last() == tracks[0]);
        assert(tracks.last() == tracks[1]);
    }
    let active = trace[0].tracks;
    assert(starts_as(tracks[1], basename, active[0]));
    let writer = active[0].decoder->SubRip_0;
    assert forall|i: int| 0 <= i < frames.len() implies {
        &&& is_receiver(active, (#[trigger] frames[i]).track, 0)
        &&& resolved(frames[i].timestamp, frames[i].duration, active[0].default_duration) is Ok
        &&& valid_utf8(frames[i].data@)
    } by {}
    lemma_run_renders_every_frame(trace, frames, results, 0, writer);
    lemma_lines_are_numbered(writer@, frame_lines(frames, tracks[1].default_duration));
}

} // verus!
