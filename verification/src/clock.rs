//! Instants and the time between them.

use vstd::prelude::*;

verus! {

/// The first second of the year -262143, counted from 1970-01-01T00:00:00Z.
pub const MIN_SECS: i64 = -8_334_601_228_800;

/// The last second of the year 262142, counted from 1970-01-01T00:00:00Z.
pub const MAX_SECS: i64 = 8_210_266_876_799;

/// An instant by its parts: seconds since 1970-01-01T00:00:00Z, leap seconds
/// not counted, and nanoseconds within that second. In a leap second the
/// nanoseconds run on past a full second.
#[verifier::ext_equal]
pub struct Instant {
    pub secs: int,
    pub nanos: int,
}

impl Instant {
    /// Whether the calendar has this instant. A leap second follows only the
    /// last second of a minute.
    pub open spec fn exists_in_calendar(self) -> bool {
        &&& MIN_SECS <= self.secs <= MAX_SECS
        &&& 0 <= self.nanos < 2_000_000_000
        &&& self.nanos >= 1_000_000_000 ==> self.secs % 60 == 59
    }

    /// Whether this is an instant within a leap second.
    pub open spec fn in_leap_second(self) -> bool {
        self.nanos >= 1_000_000_000
    }

    /// The nanoseconds from `earlier` to this instant; negative where `earlier`
    /// is the later one. A leap second that one of the two lies in is counted
    /// where the time of day of the other one shows that it has passed.
    pub open spec fn nanos_since(self, earlier: Instant) -> int {
        let leap: int = if self.secs % 86_400 > earlier.secs % 86_400 && earlier.in_leap_second() {
            1
        } else if self.secs % 86_400 < earlier.secs % 86_400 && self.in_leap_second() {
            -1
        } else {
            0
        };
        (self.secs - earlier.secs + leap) * 1_000_000_000 + (self.nanos - earlier.nanos)
    }

    /// The whole seconds from `earlier` to this instant, rounded toward zero.
    pub open spec fn seconds_since(self, earlier: Instant) -> int {
        let nanos = self.nanos_since(earlier);
        if nanos >= 0 {
            nanos / 1_000_000_000
        } else {
            -((-nanos) / 1_000_000_000)
        }
    }
}

/// An instant that the calendar has.
#[derive(Debug, Clone, Copy, PartialEq, Eq)]
pub struct Timestamp {
    secs: i64,
    nanos: u32,
}

impl View for Timestamp {
    type V = Instant;

    closed spec fn view(&self) -> Instant {
        Instant { secs: self.secs as int, nanos: self.nanos as int }
    }
}

impl DeepView for Timestamp {
    type V = Instant;

    open spec fn deep_view(&self) -> Instant {
        self@
    }
}

/// Calls `chrono::Utc::now`, and takes the value apart with
/// `chrono::DateTime::timestamp` and `chrono::DateTime::timestamp_subsec_nanos`.
/// Claimed is that the parts are those of an instant of the calendar, and that
/// it is not before 1970. Which one it is depends on the system clock. The call
/// panics where the system clock stands before 1970.
#[verifier::external_body]
fn chrono_now() -> (r: (i64, u32))
    ensures
        (Instant { secs: r.0 as int, nanos: r.1 as int }).exists_in_calendar(),
        r.0 >= 0,
{
    let now = chrono::Utc::now();
    (now.timestamp(), now.timestamp_subsec_nanos())
}

/// Calls `chrono::DateTime::signed_duration_since` on two instants that
/// `chrono::DateTime::from_timestamp` makes from their parts, and takes the whole
/// seconds of the result with `chrono::TimeDelta::num_seconds`. Claimed is that
/// every instant of the calendar can be made, and that the seconds are those of
/// the time between the two, rounded toward zero.
#[verifier::external_body]
fn chrono_seconds_since(secs: i64, nanos: u32, earlier_secs: i64, earlier_nanos: u32) -> (r: i64)
    requires
        (Instant { secs: secs as int, nanos: nanos as int }).exists_in_calendar(),
        (Instant { secs: earlier_secs as int, nanos: earlier_nanos as int }).exists_in_calendar(),
    ensures
        r == (Instant { secs: secs as int, nanos: nanos as int }).seconds_since(
            Instant { secs: earlier_secs as int, nanos: earlier_nanos as int },
        ),
{
    let later = chrono::DateTime::from_timestamp(secs, nanos).unwrap();
    let earlier = chrono::DateTime::from_timestamp(earlier_secs, earlier_nanos).unwrap();
    later.signed_duration_since(earlier).num_seconds()
}

impl Timestamp {
    #[verifier::type_invariant]
    spec fn in_calendar(self) -> bool {
        self@.exists_in_calendar()
    }

    /// The instant with the given parts, if the calendar has it.
    pub fn new(secs: i64, nanos: u32) -> (r: Option<Timestamp>)
        ensures
            ({
                let instant = Instant { secs: secs as int, nanos: nanos as int };
                match r {
                    Some(timestamp) => instant.exists_in_calendar() && timestamp@ == instant,
                    None => !instant.exists_in_calendar(),
                }
            }),
    {
        if secs < MIN_SECS || secs > MAX_SECS || nanos >= 2_000_000_000 {
            return None;
        }
        let offset: u64 = (secs - MIN_SECS) as u64;
        if nanos >= 1_000_000_000 && offset % 60 != 59 {
            return None;
        }
        Some(Timestamp { secs, nanos })
    }

    /// The time of the system clock.
    pub fn now() -> (r: Timestamp)
        ensures
            r@.exists_in_calendar(),
            r@.secs >= 0,
    {
        let (secs, nanos) = chrono_now();
        Timestamp { secs, nanos }
    }

    /// The seconds since 1970-01-01T00:00:00Z.
    pub fn secs(&self) -> (r: i64)
        ensures
            r == self@.secs,
    {
        self.secs
    }

    /// The nanoseconds within the second.
    pub fn nanos(&self) -> (r: u32)
        ensures
            r == self@.nanos,
    {
        self.nanos
    }

    /// The whole seconds from `earlier` to this instant, rounded toward zero.
    pub fn seconds_since(&self, earlier: &Timestamp) -> (r: i64)
        ensures
            r == self@.seconds_since(earlier@),
    {
        proof {
            use_type_invariant(self);
            use_type_invariant(earlier);
        }
        chrono_seconds_since(self.secs, self.nanos, earlier.secs, earlier.nanos)
    }
}

/// A clock that is read when its time is first needed, and stands from then on.
pub(crate) struct Clock {
    pub(crate) reading: Option<Timestamp>,
}

impl Clock {
    /// Whether `now` is the time that was read; any time is, as long as none was.
    pub(crate) open spec fn shows(self, now: Instant) -> bool {
        self.reading matches Some(reading) ==> reading@ == now
    }

    /// Whether the reading can be one of the system clock.
    pub(crate) open spec fn is_system(self) -> bool {
        self.reading matches Some(reading) ==> reading@.exists_in_calendar() && reading@.secs >= 0
    }

    /// Whether this is the clock `earlier` later on: a reading stays, and a new one
    /// comes from the system clock.
    pub(crate) open spec fn follows(self, earlier: Clock) -> bool {
        &&& earlier.reading is Some ==> self.reading == earlier.reading
        &&& earlier.is_system() ==> self.is_system()
    }

    /// A clock that stands at the given time.
    pub(crate) fn at(now: Timestamp) -> (r: Clock)
        ensures
            r.reading == Some(now),
    {
        Clock { reading: Some(now) }
    }

    /// The system clock, not yet read.
    pub(crate) fn system() -> (r: Clock)
        ensures
            r.reading is None,
    {
        Clock { reading: None }
    }

    /// The time, from the system clock where none was read before.
    pub(crate) fn read(&mut self) -> (r: Timestamp)
        ensures
            final(self).reading == Some(r),
            final(self).follows(*old(self)),
    {
        match self.reading {
            Some(reading) => reading,
            None => {
                let reading = Timestamp::now();
                self.reading = Some(reading);
                reading
            },
        }
    }
}

/// Of the system clock, whatever was read of it, there is a time that it shows.
pub(crate) proof fn lemma_system_shows(clock: Clock) -> (now: Instant)
    requires
        clock.is_system(),
    ensures
        clock.shows(now),
        now.exists_in_calendar(),
        now.secs >= 0,
{
    match clock.reading {
        Some(reading) => reading@,
        None => Instant { secs: 0, nanos: 0 },
    }
}

/// A time shorter than a number of whole seconds has fewer whole seconds, and
/// the other way round.
pub proof fn law_shorter_than(later: Instant, earlier: Instant, seconds: nat)
    requires
        seconds > 0,
    ensures
        later.nanos_since(earlier) < seconds * 1_000_000_000 <==> later.seconds_since(earlier)
            < seconds,
{
}

/// Between two instants outside leap seconds lies the plain difference of their
/// seconds and nanoseconds; turned round, it changes its sign.
pub proof fn law_plain_difference(later: Instant, earlier: Instant)
    requires
        0 <= later.nanos < 1_000_000_000,
        0 <= earlier.nanos < 1_000_000_000,
    ensures
        later.nanos_since(earlier) == (later.secs * 1_000_000_000 + later.nanos) - (earlier.secs
            * 1_000_000_000 + earlier.nanos),
        later.nanos_since(earlier) == -earlier.nanos_since(later),
        later.secs >= earlier.secs && later.nanos >= earlier.nanos ==> later.seconds_since(earlier)
            == later.secs - earlier.secs,
        earlier.seconds_since(later) == -later.seconds_since(earlier),
{
    if later.secs >= earlier.secs && later.nanos >= earlier.nanos {
        let secs = later.secs - earlier.secs;
        let nanos = later.nanos - earlier.nanos;
        assert((secs * 1_000_000_000 + nanos) / 1_000_000_000 == secs);
    }
}

} // verus!
