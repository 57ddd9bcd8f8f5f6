//! Display times: the interval during which a subtitle line is shown, and how
//! it follows from a frame's timestamp and duration.

use crate::text::zero_padded;
use vstd::prelude::*;

verus! {

/// A display interval as mathematics sees it: two instants in milliseconds.
pub struct Interval {
    /// The instant at which the line appears.
    pub start: int,
    /// The instant at which the line disappears.
    pub end: int,
}

/// A display interval in milliseconds. Every value starts at or after zero and
/// does not end before it starts.
#[derive(Clone, Copy, Debug)]
pub struct TimeSpan {
    start: i64,
    end: i64,
}

impl View for TimeSpan {
    type V = Interval;

    closed spec fn view(&self) -> Interval {
        Interval { start: self.start as int, end: self.end as int }
    }
}

/// An instant as a subtitle document writes it: hours, minutes, seconds and
/// milliseconds, with `separator` before the milliseconds. The hours take two
/// digits or more, the minutes and seconds two, the milliseconds three.
pub open spec fn clock(ms: int, separator: u8) -> Seq<u8> {
    zero_padded((ms / 3_600_000) as nat, 2) + seq![':' as u8] + zero_padded(
        ((ms / 60_000) % 60) as nat,
        2,
    ) + seq![':' as u8] + zero_padded(((ms / 1000) % 60) as nat, 2) + seq![separator] + zero_padded(
        (ms % 1000) as nat,
        3,
    )
}

/// The arrow between the two instants of a display interval.
pub open spec fn arrow() -> Seq<u8> {
    seq![' ' as u8, '-' as u8, '-' as u8, '>' as u8, ' ' as u8]
}

/// Why a frame has no display interval.
#[derive(Clone, Copy, Debug, PartialEq, Eq, Structural)]
pub enum TimeError {
    /// Neither the frame nor its track gives a duration.
    MissingDuration,
    /// The end of the interval is beyond the largest signed 64-bit number.
    Overflow,
}

/// The duration that counts for a frame: its own, or else its track's default.
pub open spec fn effective_duration(duration: Option<u64>, default_duration: Option<u64>) -> Option<
    u64,
> {
    match duration {
        Some(d) => Some(d),
        None => default_duration,
    }
}

/// The display interval of a frame: it starts at the timestamp and lasts for
/// the effective duration.
pub open spec fn resolved(
    timestamp: u64,
    duration: Option<u64>,
    default_duration: Option<u64>,
) -> Result<Interval, TimeError> {
    match effective_duration(duration, default_duration) {
        None => Err(TimeError::MissingDuration),
        Some(d) => if timestamp + d <= i64::MAX {
            Ok(Interval { start: timestamp as int, end: timestamp + d })
        } else {
            Err(TimeError::Overflow)
        },
    }
}

impl TimeSpan {
    #[verifier::type_invariant]
    spec fn ordered(self) -> bool {
        0 <= self.start <= self.end
    }

    /// What holds of the view of every `TimeSpan` that a program can hold.
    pub open spec fn valid(interval: Interval) -> bool {
        0 <= interval.start <= interval.end <= i64::MAX
    }

    /// The interval from `start` to `end`, where that is one: where
    /// `0 <= start <= end`.
    pub fn new(start: i64, end: i64) -> (r: Option<TimeSpan>)
        ensures
            r is Some <==> 0 <= start <= end,
            r matches Some(span) ==> span@ == (Interval { start: start as int, end: end as int }),
    {
        if 0 <= start && start <= end {
            Some(TimeSpan { start, end })
        } else {
            None
        }
    }

    /// The instant at which the line appears, in milliseconds.
    pub fn start(&self) -> (ms: i64)
        ensures
            ms == self@.start,
            Self::valid(self@),
    {
        proof {
            use_type_invariant(self);
        }
        self.start
    }

    /// The instant at which the line disappears, in milliseconds.
    pub fn end(&self) -> (ms: i64)
        ensures
            ms == self@.end,
            Self::valid(self@),
    {
        proof {
            use_type_invariant(self);
        }
        self.end
    }

    /// Resolves the display interval of a frame from its timestamp, its own
    /// duration and the default duration of its track.
    pub fn resolve(timestamp: u64, duration: Option<u64>, default_duration: Option<u64>) -> (r:
        Result<TimeSpan, TimeError>)
        ensures
            match r {
                Ok(span) => resolved(timestamp, duration, default_duration) == Ok::<_, TimeError>(
                    span@,
                ),
                Err(e) => resolved(timestamp, duration, default_duration) == Err::<Interval, _>(e),
            },
    {
        let effective = match duration {
            Some(d) => Some(d),
            None => default_duration,
        };
        match effective {
            None => Err(TimeError::MissingDuration),
            Some(d) => {
                let limit: u64 = 0x7fff_ffff_ffff_ffff;
                if timestamp <= limit && d <= limit - timestamp {
                    let end: u64 = timestamp + d;
                    Ok(TimeSpan { start: timestamp as i64, end: end as i64 })
                } else {
                    Err(TimeError::Overflow)
                }
            },
        }
    }
}

/// A duration of the frame's own decides the interval, whatever the track's
/// default is: the interval starts at the timestamp and ends that duration
/// later, as long as the end is a signed 64-bit number.
pub proof fn lemma_own_duration_decides(timestamp: u64, duration: u64, default_duration: Option<u64>)
    requires
        timestamp + duration <= i64::MAX,
    ensures
        resolved(timestamp, Some(duration), default_duration) == Ok::<Interval, TimeError>(
            Interval { start: timestamp as int, end: timestamp + duration },
        ),
{
}

/// A frame without a duration of its own lasts for the default duration of
/// its track, as long as the end is a signed 64-bit number.
pub proof fn lemma_default_duration_applies(timestamp: u64, default_duration: u64)
    requires
        timestamp + default_duration <= i64::MAX,
    ensures
        resolved(timestamp, None, Some(default_duration)) == Ok::<Interval, TimeError>(
            Interval { start: timestamp as int, end: timestamp + default_duration },
        ),
{
}

/// Without any duration there is no interval, whatever the timestamp.
pub proof fn lemma_no_duration_fails(timestamp: u64)
    ensures
        resolved(timestamp, None, None) == Err::<Interval, TimeError>(TimeError::MissingDuration),
{
}

/// Every interval that resolution gives starts at or after zero and does not
/// end before it starts.
pub proof fn lemma_resolved_is_valid(
    timestamp: u64,
    duration: Option<u64>,
    default_duration: Option<u64>,
)
    ensures
        resolved(timestamp, duration, default_duration) matches Ok(interval) ==> TimeSpan::valid(
            interval,
        ),
{
}

} // verus!
