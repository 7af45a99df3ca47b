//! The time-window resolver: turns user-supplied day or hour boundary
//! strings, plus the current time, into a concrete half-open UTC interval.
//!
//! Two mutually exclusive styles are accepted: a day-to-day range in strict
//! `YYYY-MM-DD` form, or an hour-to-hour range on the current UTC day in
//! strict `HH:MM:SS` form. Calendar parsing itself is delegated to the
//! `chrono` crate behind trusted wrappers; everything around it is verified.

use vstd::prelude::*;

use crate::differ::TimeWindow;

verus! {

/// Seconds in an hour: the default width of an hour-style window.
pub const SECONDS_PER_HOUR: i64 = 3600;

/// Seconds in a day: the default width of a day-style window.
pub const SECONDS_PER_DAY: i64 = 86400;

/// Bound on every epoch-second value `chrono` can produce: its calendar
/// types span about 262,000 years around the common era, under 9e12 seconds.
pub const MAX_ABS_EPOCH_SECONDS: i64 = 9000000000000;

/// Why a time-window specification was rejected.
#[derive(PartialEq, Eq, Structural, Clone, Copy, Debug)]
pub enum TimeSpecError {
    /// Both the day style and the hour style were given at once.
    ConflictingTimeSpec,
    /// A day string was not strict `YYYY-MM-DD`, or an hour string was not
    /// strict `HH:MM:SS`.
    InvalidTimeFormat,
    /// Both explicit bounds were given and the end lies before the start.
    InvalidRange,
}

/// The raw time-window specification: at most one of the two styles.
pub struct TimeArgs {
    pub from_day: Option<String>,
    pub to_day: Option<String>,
    pub from_hour: Option<String>,
    pub to_hour: Option<String>,
}

/// The mathematical model of a raw time-window specification.
#[verifier::ext_equal]
pub ghost struct TimeArgsModel {
    pub from_day: Option<Seq<char>>,
    pub to_day: Option<Seq<char>>,
    pub from_hour: Option<Seq<char>>,
    pub to_hour: Option<Seq<char>>,
}

impl View for TimeArgs {
    type V = TimeArgsModel;

    open spec fn view(&self) -> TimeArgsModel {
        TimeArgsModel {
            from_day: match self.from_day {
                Some(ref s) => Some(s@),
                None => None,
            },
            to_day: match self.to_day {
                Some(ref s) => Some(s@),
                None => None,
            },
            from_hour: match self.from_hour {
                Some(ref s) => Some(s@),
                None => None,
            },
            to_hour: match self.to_hour {
                Some(ref s) => Some(s@),
                None => None,
            },
        }
    }
}

/// What a strict `YYYY-MM-DD` day string denotes: the epoch seconds of its
/// midnight, or nothing when the string does not parse.
pub uninterp spec fn day_epoch_of(s: Seq<char>) -> Option<i64>;

/// What a strict `HH:MM:SS` hour string denotes: its seconds from midnight,
/// or nothing when the string does not parse.
pub uninterp spec fn hour_seconds_of(s: Seq<char>) -> Option<u32>;

/// Relies on chrono's `NaiveDate::parse_from_str` with the strict
/// `"%Y-%m-%d"` format, `NaiveDate::and_hms_opt(0, 0, 0)` and
/// `NaiveDateTime::timestamp`: the result is a function of the string
/// alone, and a parsed day's midnight stays within `NaiveDate`'s
/// 262,000-year range.
#[verifier::external_body]
fn parse_day_epoch(s: &str) -> (r: Option<i64>)
    ensures
        r == day_epoch_of(s@),
        r matches Some(v) ==> -MAX_ABS_EPOCH_SECONDS <= v <= MAX_ABS_EPOCH_SECONDS,
{
    match chrono::NaiveDate::parse_from_str(s, "%Y-%m-%d") {
        Ok(d) => match d.and_hms_opt(0, 0, 0) {
            Some(dt) => Some(dt.and_utc().timestamp()),
            None => None,
        },
        Err(_) => None,
    }
}

/// Relies on chrono's `NaiveTime::parse_from_str` with the strict
/// `"%H:%M:%S"` format and `Timelike::num_seconds_from_midnight`, which is
/// `hour * 3600 + minute * 60 + second` and so always below 86400.
#[verifier::external_body]
fn parse_hour_seconds(s: &str) -> (r: Option<u32>)
    ensures
        r == hour_seconds_of(s@),
        r matches Some(v) ==> v < 86400,
{
    match chrono::NaiveTime::parse_from_str(s, "%H:%M:%S") {
        Ok(t) => Some(chrono::Timelike::num_seconds_from_midnight(&t)),
        Err(_) => None,
    }
}

/// Relies on chrono's `Utc::now`: the clock's answer is no function of any
/// argument, so nothing is assumed of it beyond `DateTime`'s
/// 262,000-year range.
#[verifier::external_body]
fn now_epoch_seconds() -> (r: i64)
    ensures
        -MAX_ABS_EPOCH_SECONDS <= r <= MAX_ABS_EPOCH_SECONDS,
{
    chrono::Utc::now().timestamp()
}

/// Midnight of the UTC day that the instant `now` falls in.
pub open spec fn spec_today_start(now: int) -> int {
    now - now % (SECONDS_PER_DAY as int)
}

/// Whether a specification names both styles at once.
pub open spec fn spec_conflicting(a: TimeArgsModel) -> bool {
    (a.from_hour is Some || a.to_hour is Some) && (a.from_day is Some || a.to_day is Some)
}

/// The window the day style denotes, given the already-resolved end
/// instant: an explicit start day's midnight, else one day before the end.
pub open spec fn spec_resolve_day_start(a: TimeArgsModel, end: int) -> Result<
    (int, int),
    TimeSpecError,
> {
    match a.from_day {
        Some(s) => match day_epoch_of(s) {
            None => Err(TimeSpecError::InvalidTimeFormat),
            Some(start) => if end < start {
                Err(TimeSpecError::InvalidRange)
            } else {
                Ok((start as int, end))
            },
        },
        None => Ok((end - SECONDS_PER_DAY, end)),
    }
}

/// What a specification resolves to at the instant `now`: the half-open
/// window `[start, end)` in epoch seconds, or the exact error.
///
/// Hour style (engaged by a start hour): `start` is today at the given
/// start time; `end` is today at the given end time, else one hour after
/// the start. Day style: `end` is the given end day's midnight, else `now`;
/// `start` is the given start day's midnight, else one day before the end.
/// Giving both styles at once is a conflict; a malformed string is a format
/// error (end bound first); an end before a start is a range error.
pub open spec fn spec_resolve(a: TimeArgsModel, now: int) -> Result<(int, int), TimeSpecError> {
    if spec_conflicting(a) {
        Err(TimeSpecError::ConflictingTimeSpec)
    } else if a.from_hour is Some {
        match hour_seconds_of(a.from_hour->0) {
            None => Err(TimeSpecError::InvalidTimeFormat),
            Some(sh) => {
                let start = spec_today_start(now) + sh;
                match a.to_hour {
                    Some(es) => match hour_seconds_of(es) {
                        None => Err(TimeSpecError::InvalidTimeFormat),
                        Some(eh) => {
                            let end = spec_today_start(now) + eh;
                            if end < start {
                                Err(TimeSpecError::InvalidRange)
                            } else {
                                Ok((start, end))
                            }
                        },
                    },
                    None => Ok((start, start + SECONDS_PER_HOUR)),
                }
            },
        }
    } else {
        match a.to_day {
            Some(s) => match day_epoch_of(s) {
                None => Err(TimeSpecError::InvalidTimeFormat),
                Some(end) => spec_resolve_day_start(a, end as int),
            },
            None => spec_resolve_day_start(a, now),
        }
    }
}

/// Whether the outcome `r` is what the specification `a` resolves to at the
/// instant `now`, with a well-formed window on success.
pub open spec fn resolves_at(
    r: Result<TimeWindow, TimeSpecError>,
    a: TimeArgsModel,
    now: int,
) -> bool {
    match r {
        Ok(w) => spec_resolve(a, now) == Ok::<(int, int), TimeSpecError>(
            (w.start as int, w.end as int),
        ) && w.wf(),
        Err(e) => spec_resolve(a, now) == Err::<(int, int), TimeSpecError>(e),
    }
}

/// Midnight of the UTC day that `now` falls in.
fn today_start(now: i64) -> (r: i64)
    requires
        -MAX_ABS_EPOCH_SECONDS <= now <= MAX_ABS_EPOCH_SECONDS,
    ensures
        r == spec_today_start(now as int),
        r <= now,
        now - r < SECONDS_PER_DAY,
{
    if now >= 0 {
        let nu = now as u64;
        let rem = nu % (SECONDS_PER_DAY as u64);
        (nu - rem) as i64
    } else {
        let pu = (-now) as u64;
        let rem = pu % (SECONDS_PER_DAY as u64);
        if rem == 0 {
            proof {
                let d = SECONDS_PER_DAY as int;
                let q = (-now as int) / d;
                vstd::arithmetic::div_mod::lemma_fundamental_div_mod(-now as int, d);
                vstd::arithmetic::div_mod::lemma_fundamental_div_mod_converse(
                    now as int,
                    d,
                    -q,
                    0,
                );
            }
            now
        } else {
            proof {
                let d = SECONDS_PER_DAY as int;
                let q = (-now as int) / d;
                vstd::arithmetic::div_mod::lemma_fundamental_div_mod(-now as int, d);
                vstd::arithmetic::div_mod::lemma_fundamental_div_mod_converse(
                    now as int,
                    d,
                    -q - 1,
                    d - rem,
                );
            }
            now - (SECONDS_PER_DAY - rem as i64)
        }
    }
}

/// Resolves a time-window specification at the instant `now` (epoch
/// seconds). Deterministic: the outcome is exactly `spec_resolve` of the
/// specification and `now`, and a returned window is always well formed.
pub fn resolve_window(args: &TimeArgs, now: i64) -> (r: Result<TimeWindow, TimeSpecError>)
    requires
        -MAX_ABS_EPOCH_SECONDS <= now <= MAX_ABS_EPOCH_SECONDS,
    ensures
        resolves_at(r, args@, now as int),
{
    let hour_given = args.from_hour.is_some() || args.to_hour.is_some();
    let day_given = args.from_day.is_some() || args.to_day.is_some();
    if hour_given && day_given {
        return Err(TimeSpecError::ConflictingTimeSpec);
    }
    if let Some(fh) = &args.from_hour {
        let sh = match parse_hour_seconds(fh.as_str()) {
            Some(v) => v,
            None => {
                return Err(TimeSpecError::InvalidTimeFormat);
            },
        };
        let day0 = today_start(now);
        let start = day0 + sh as i64;
        match &args.to_hour {
            Some(eh_str) => {
                let eh = match parse_hour_seconds(eh_str.as_str()) {
                    Some(v) => v,
                    None => {
                        return Err(TimeSpecError::InvalidTimeFormat);
                    },
                };
                let end = day0 + eh as i64;
                if end < start {
                    Err(TimeSpecError::InvalidRange)
                } else {
                    Ok(TimeWindow { start, end })
                }
            },
            None => Ok(TimeWindow { start, end: start + SECONDS_PER_HOUR }),
        }
    } else {
        let end = match &args.to_day {
            Some(td) => match parse_day_epoch(td.as_str()) {
                Some(v) => v,
                None => {
                    return Err(TimeSpecError::InvalidTimeFormat);
                },
            },
            None => now,
        };
        match &args.from_day {
            Some(fd) => {
                let start = match parse_day_epoch(fd.as_str()) {
                    Some(v) => v,
                    None => {
                        return Err(TimeSpecError::InvalidTimeFormat);
                    },
                };
                if end < start {
                    Err(TimeSpecError::InvalidRange)
                } else {
                    Ok(TimeWindow { start, end })
                }
            },
            None => Ok(TimeWindow { start: end - SECONDS_PER_DAY, end }),
        }
    }
}

impl TimeArgs {
    /// Resolves this specification against the current clock: there is some
    /// instant within chrono's range at which the outcome is exactly what
    /// the specification resolves to.
    pub fn parse_start_and_end_time(&self) -> (r: Result<TimeWindow, TimeSpecError>)
        ensures
            exists|now: int|
                -MAX_ABS_EPOCH_SECONDS <= now <= MAX_ABS_EPOCH_SECONDS && #[trigger] resolves_at(
                    r,
                    self@,
                    now,
                ),
    {
        let now = now_epoch_seconds();
        let r = resolve_window(self, now);
        proof {
            assert(resolves_at(r, self@, now as int));
        }
        r
    }
}

} // verus!
