//! Playback timeline.
//!
//! The timeline holds a play/pause/stop state and a sample counter over a
//! track of known length. A driver thread advances it one sample per
//! wake-up and feeds it control requests; everything the driver decides —
//! state transitions, periodic reports, the drift-corrected wait before
//! the next wake-up — is computed here. The waiting itself, the wall
//! clock and the channels stay with the driver.

use vstd::prelude::*;

use crate::errors::ResonanceParrotError;

verus! {

/// Why a report was emitted: the periodic tick, an answer to a `Status`
/// request, or a state change the timeline made on its own behalf.
#[derive(Clone, Copy, PartialEq, Eq, Structural, Debug)]
pub enum TimelineReportType {
    Periodical,
    Response,
    ChangedBySelf,
}

/// The playback state.
#[derive(Clone, Copy, PartialEq, Eq, Structural, Debug)]
pub enum PlayStatus {
    Play,
    Pause,
    Stop,
}

/// The fixed parameters of a track: its length in samples, its sampling
/// frequency, and how many samples lie between periodic reports.
#[derive(Clone, Copy, PartialEq, Eq, Structural, Debug)]
pub struct TimelineBase {
    pub len: usize,
    pub frequency: usize,
    pub event_divisor: usize,
}

/// The full state of the timeline: playback state, current sample
/// counter, track parameters.
#[derive(Clone, Copy, PartialEq, Eq, Structural, Debug)]
pub struct TimelineStatus {
    pub play_status: PlayStatus,
    pub time_counter: usize,
    pub base: TimelineBase,
}

/// A report sent to consumers: why it was emitted and the state at that
/// moment.
#[derive(Clone, Copy, PartialEq, Eq, Structural, Debug)]
pub struct TimelineReport {
    pub report_type: TimelineReportType,
    pub timeline: TimelineStatus,
}

/// The control requests the timeline accepts.
#[derive(Clone, Copy, PartialEq, Eq, Structural, Debug)]
pub enum TimelineRequestType {
    Open,
    Close,
    Status,
    PlayOrPause,
    Stop,
    Next,
    Prev,
    Point,
}

/// A control request: its type and the payload some types carry.
#[derive(Clone, Copy)]
pub struct TimelineRequest {
    pub request_type: TimelineRequestType,
    pub op_time_counter: Option<usize>,
    pub op_base: Option<TimelineBase>,
}

impl TimelineRequest {
    pub fn open(len: usize, frequency: usize, event_divisor: usize) -> (r: TimelineRequest)
        ensures
            r.request_type == TimelineRequestType::Open,
            r.op_time_counter is None,
            r.op_base == Some(TimelineBase { len, frequency, event_divisor }),
    {
        TimelineRequest {
            request_type: TimelineRequestType::Open,
            op_time_counter: None,
            op_base: Some(TimelineBase { len, frequency, event_divisor }),
        }
    }

    pub fn close() -> (r: TimelineRequest)
        ensures
            r.request_type == TimelineRequestType::Close,
            r.op_time_counter is None,
            r.op_base is None,
    {
        TimelineRequest {
            request_type: TimelineRequestType::Close,
            op_time_counter: None,
            op_base: None,
        }
    }

    pub fn play_or_pause() -> (r: TimelineRequest)
        ensures
            r.request_type == TimelineRequestType::PlayOrPause,
            r.op_time_counter is None,
            r.op_base is None,
    {
        TimelineRequest {
            request_type: TimelineRequestType::PlayOrPause,
            op_time_counter: None,
            op_base: None,
        }
    }

    pub fn stop() -> (r: TimelineRequest)
        ensures
            r.request_type == TimelineRequestType::Stop,
            r.op_time_counter is None,
            r.op_base is None,
    {
        TimelineRequest {
            request_type: TimelineRequestType::Stop,
            op_time_counter: None,
            op_base: None,
        }
    }

    pub fn point(counter: usize) -> (r: TimelineRequest)
        ensures
            r.request_type == TimelineRequestType::Point,
            r.op_time_counter == Some(counter),
            r.op_base is None,
    {
        TimelineRequest {
            request_type: TimelineRequestType::Point,
            op_time_counter: Some(counter),
            op_base: None,
        }
    }

    pub fn status() -> (r: TimelineRequest)
        ensures
            r.request_type == TimelineRequestType::Status,
            r.op_time_counter is None,
            r.op_base is None,
    {
        TimelineRequest {
            request_type: TimelineRequestType::Status,
            op_time_counter: None,
            op_base: None,
        }
    }
}

/// What `PlayOrPause` turns each state into: `Play` pauses, anything
/// else plays.
pub open spec fn spec_toggle(p: PlayStatus) -> PlayStatus {
    match p {
        PlayStatus::Play => PlayStatus::Pause,
        PlayStatus::Pause => PlayStatus::Play,
        PlayStatus::Stop => PlayStatus::Play,
    }
}

impl TimelineStatus {
    /// Builds the initial state from an `Open` request: stopped, counter
    /// zero, the request's base. Any request without a base is refused.
    pub fn new(request: TimelineRequest) -> (r: Result<TimelineStatus, ResonanceParrotError>)
        ensures
            r is Ok <==> request.op_base is Some,
            r is Ok ==> r->Ok_0 == (TimelineStatus {
                play_status: PlayStatus::Stop,
                time_counter: 0,
                base: request.op_base->0,
            }),
    {
        match request.op_base {
            None => Err(
                ResonanceParrotError::new("All TimeLine Valueables needs to be set the first time!"),
            ),
            Some(base) => Ok(
                TimelineStatus { play_status: PlayStatus::Stop, time_counter: 0, base },
            ),
        }
    }

    /// Stops playback and rewinds the counter to zero.
    pub fn stop(&mut self)
        ensures
            *final(self) == (TimelineStatus {
                play_status: PlayStatus::Stop,
                time_counter: 0,
                base: old(self).base,
            }),
    {
        self.play_status = PlayStatus::Stop;
        self.time_counter = 0;
    }

    /// Applies a state-changing request: `PlayOrPause` toggles,
    /// `Stop`/`Next`/`Prev` stop and rewind, `Point` moves the counter.
    /// `Open`, `Close` and `Status` do not belong here and are refused
    /// with the state unchanged.
    pub fn update(&mut self, request: TimelineRequest) -> (r: Result<(), ResonanceParrotError>)
        ensures
            r is Ok <==> !(request.request_type == TimelineRequestType::Open
                || request.request_type == TimelineRequestType::Close
                || request.request_type == TimelineRequestType::Status),
            r is Err ==> *final(self) == *old(self),
            request.request_type == TimelineRequestType::PlayOrPause ==> *final(self)
                == (TimelineStatus {
                play_status: spec_toggle(old(self).play_status),
                ..*old(self)
            }),
            (request.request_type == TimelineRequestType::Stop || request.request_type
                == TimelineRequestType::Next || request.request_type
                == TimelineRequestType::Prev) ==> *final(self) == (TimelineStatus {
                play_status: PlayStatus::Stop,
                time_counter: 0,
                base: old(self).base,
            }),
            request.request_type == TimelineRequestType::Point ==> *final(self)
                == (TimelineStatus {
                time_counter: match request.op_time_counter {
                    Some(n) => n,
                    None => old(self).time_counter,
                },
                ..*old(self)
            }),
    {
        match request.request_type {
            TimelineRequestType::PlayOrPause => {
                match self.play_status {
                    PlayStatus::Play => {
                        self.play_status = PlayStatus::Pause;
                    },
                    PlayStatus::Pause => {
                        self.play_status = PlayStatus::Play;
                    },
                    PlayStatus::Stop => {
                        self.play_status = PlayStatus::Play;
                    },
                }
                Ok(())
            },
            TimelineRequestType::Stop => {
                self.play_status = PlayStatus::Stop;
                self.time_counter = 0;
                Ok(())
            },
            TimelineRequestType::Next => {
                self.play_status = PlayStatus::Stop;
                self.time_counter = 0;
                Ok(())
            },
            TimelineRequestType::Prev => {
                self.play_status = PlayStatus::Stop;
                self.time_counter = 0;
                Ok(())
            },
            TimelineRequestType::Point => {
                match request.op_time_counter {
                    Some(time_counter) => {
                        self.time_counter = time_counter;
                    },
                    None => {},
                }
                Ok(())
            },
            _ => Err(ResonanceParrotError::new("TimelineRequestType is Wrong!")),
        }
    }
}

/// One autonomous wake-up of a playing timeline: the counter advances by
/// one; every `event_divisor`-th value emits a periodic report; a counter
/// past `len - 1` stops and rewinds the timeline and reports the change.
/// Paused and stopped timelines do nothing.
pub open spec fn spec_tick(s: TimelineStatus) -> (TimelineStatus, Seq<TimelineReport>) {
    if s.play_status != PlayStatus::Play {
        (s, Seq::empty())
    } else {
        let c = s.time_counter + 1;
        let mid = TimelineStatus { play_status: PlayStatus::Play, time_counter: c as usize, ..s };
        let periodic: Seq<TimelineReport> = if c % (s.base.event_divisor as int) == 0 {
            seq![TimelineReport { report_type: TimelineReportType::Periodical, timeline: mid }]
        } else {
            Seq::empty()
        };
        if c > s.base.len - 1 {
            let stopped = TimelineStatus { play_status: PlayStatus::Stop, time_counter: 0, ..s };
            (
                stopped,
                periodic + seq![
                    TimelineReport {
                        report_type: TimelineReportType::ChangedBySelf,
                        timeline: stopped,
                    },
                ],
            )
        } else {
            (mid, periodic)
        }
    }
}

/// Advances the timeline by one wake-up and returns the reports to emit,
/// in order.
pub fn tick(status: &mut TimelineStatus) -> (reports: Vec<TimelineReport>)
    requires
        old(status).play_status is Play ==> {
            &&& old(status).time_counter < usize::MAX
            &&& old(status).base.event_divisor >= 1
            &&& old(status).base.len >= 1
        },
    ensures
        *final(status) == spec_tick(*old(status)).0,
        reports@ == spec_tick(*old(status)).1,
{
    let mut reports: Vec<TimelineReport> = Vec::new();
    if matches!(status.play_status, PlayStatus::Play) {
        status.time_counter = status.time_counter + 1;
        if status.time_counter % status.base.event_divisor == 0 {
            reports.push(
                TimelineReport {
                    report_type: TimelineReportType::Periodical,
                    timeline: *status,
                },
            );
        }
        if status.time_counter > status.base.len - 1 {
            status.stop();
            reports.push(
                TimelineReport {
                    report_type: TimelineReportType::ChangedBySelf,
                    timeline: *status,
                },
            );
        }
        proof {
            assert(reports@ =~= spec_tick(*old(status)).1);
        }
    } else {
        proof {
            assert(reports@ =~= spec_tick(*old(status)).1);
        }
    }
    reports
}

/// What a control request does to the timeline: the state after it,
/// whether the timeline is to shut down, and the reports to emit.
/// `Open` without a base is the one refused request.
pub open spec fn spec_handle(s: TimelineStatus, req: TimelineRequest) -> Option<
    (TimelineStatus, bool, Seq<TimelineReport>),
> {
    match req.request_type {
        TimelineRequestType::Close => Some((s, true, Seq::empty())),
        TimelineRequestType::Open => match req.op_base {
            Some(base) => {
                let ns = TimelineStatus {
                    play_status: PlayStatus::Stop,
                    time_counter: 0,
                    base,
                };
                Some(
                    (
                        ns,
                        false,
                        seq![
                            TimelineReport {
                                report_type: TimelineReportType::ChangedBySelf,
                                timeline: ns,
                            },
                        ],
                    ),
                )
            },
            None => None,
        },
        TimelineRequestType::Status => Some(
            (
                s,
                false,
                seq![
                    TimelineReport { report_type: TimelineReportType::Response, timeline: s },
                    TimelineReport { report_type: TimelineReportType::ChangedBySelf, timeline: s },
                ],
            ),
        ),
        TimelineRequestType::PlayOrPause => {
            let ns = TimelineStatus { play_status: spec_toggle(s.play_status), ..s };
            Some(
                (
                    ns,
                    false,
                    seq![
                        TimelineReport {
                            report_type: TimelineReportType::ChangedBySelf,
                            timeline: ns,
                        },
                    ],
                ),
            )
        },
        TimelineRequestType::Point => {
            let ns = TimelineStatus {
                time_counter: match req.op_time_counter {
                    Some(n) => n,
                    None => s.time_counter,
                },
                ..s
            };
            Some(
                (
                    ns,
                    false,
                    seq![
                        TimelineReport {
                            report_type: TimelineReportType::ChangedBySelf,
                            timeline: ns,
                        },
                    ],
                ),
            )
        },
        TimelineRequestType::Stop | TimelineRequestType::Next | TimelineRequestType::Prev => {
            let ns = TimelineStatus { play_status: PlayStatus::Stop, time_counter: 0, ..s };
            Some(
                (
                    ns,
                    false,
                    seq![
                        TimelineReport {
                            report_type: TimelineReportType::ChangedBySelf,
                            timeline: ns,
                        },
                    ],
                ),
            )
        },
    }
}

/// Applies one control request. Returns whether the timeline is to shut
/// down and the reports to emit, in order; a refused request leaves the
/// state unchanged.
pub fn handle_request(status: &mut TimelineStatus, request: TimelineRequest) -> (r: Result<
    (bool, Vec<TimelineReport>),
    ResonanceParrotError,
>)
    ensures
        r is Ok <==> spec_handle(*old(status), request) is Some,
        r is Ok ==> ({
            let (ns, closed, reps) = spec_handle(*old(status), request)->0;
            let (r_closed, r_reports) = r->Ok_0;
            &&& *final(status) == ns
            &&& r_closed == closed
            &&& r_reports@ == reps
        }),
        r is Err ==> *final(status) == *old(status),
{
    let mut reports: Vec<TimelineReport> = Vec::new();
    match request.request_type {
        TimelineRequestType::Close => Ok((true, reports)),
        TimelineRequestType::Open => {
            match TimelineStatus::new(request) {
                Ok(ns) => {
                    *status = ns;
                    reports.push(
                        TimelineReport {
                            report_type: TimelineReportType::ChangedBySelf,
                            timeline: *status,
                        },
                    );
                    Ok((false, reports))
                },
                Err(e) => Err(e),
            }
        },
        TimelineRequestType::Status => {
            reports.push(
                TimelineReport { report_type: TimelineReportType::Response, timeline: *status },
            );
            reports.push(
                TimelineReport {
                    report_type: TimelineReportType::ChangedBySelf,
                    timeline: *status,
                },
            );
            Ok((false, reports))
        },
        _ => {
            match status.update(request) {
                Ok(_) => {
                    reports.push(
                        TimelineReport {
                            report_type: TimelineReportType::ChangedBySelf,
                            timeline: *status,
                        },
                    );
                    Ok((false, reports))
                },
                Err(e) => Err(e),
            }
        },
    }
}

/// The state after `n` autonomous wake-ups.
pub open spec fn spec_run_status(s: TimelineStatus, n: nat) -> TimelineStatus
    decreases n,
{
    if n == 0 {
        s
    } else {
        spec_tick(spec_run_status(s, (n - 1) as nat)).0
    }
}

/// Every report emitted over `n` autonomous wake-ups, in order.
pub open spec fn spec_run_reports(s: TimelineStatus, n: nat) -> Seq<TimelineReport>
    decreases n,
{
    if n == 0 {
        Seq::empty()
    } else {
        spec_run_reports(s, (n - 1) as nat) + spec_tick(spec_run_status(s, (n - 1) as nat)).1
    }
}

/// The counters carried by the periodic reports of a report stream, in
/// order.
pub open spec fn periodic_counters(reps: Seq<TimelineReport>) -> Seq<int>
    decreases reps.len(),
{
    if reps.len() == 0 {
        Seq::empty()
    } else {
        (if reps[0].report_type == TimelineReportType::Periodical {
            seq![reps[0].timeline.time_counter as int]
        } else {
            Seq::empty()
        }) + periodic_counters(reps.drop_first())
    }
}

proof fn lemma_periodic_counters_concat(a: Seq<TimelineReport>, b: Seq<TimelineReport>)
    ensures
        periodic_counters(a + b) == periodic_counters(a) + periodic_counters(b),
    decreases a.len(),
{
    if a.len() == 0 {
        assert(a + b =~= b);
        assert(periodic_counters(a) + periodic_counters(b) =~= periodic_counters(b));
    } else {
        lemma_periodic_counters_concat(a.drop_first(), b);
        assert((a + b).drop_first() =~= a.drop_first() + b);
        assert((a + b)[0] == a[0]);
        assert(periodic_counters(a + b) =~= periodic_counters(a) + periodic_counters(b));
    }
}

/// How the quotient changes when stepping from `n - 1` to `n`.
proof fn lemma_div_step(n: int, d: int)
    requires
        1 <= d,
        1 <= n,
    ensures
        n % d == 0 ==> n / d == (n - 1) / d + 1 && n == (n / d) * d,
        n % d != 0 ==> n / d == (n - 1) / d,
{
    vstd::arithmetic::div_mod::lemma_fundamental_div_mod(n, d);
    let q = n / d;
    let r = n % d;
    if r == 0 {
        assert((q - 1) * d + (d - 1) == n - 1) by (nonlinear_arith)
            requires
                n == d * q + r,
                r == 0,
        ;
        vstd::arithmetic::div_mod::lemma_fundamental_div_mod_converse(n - 1, d, q - 1, d - 1);
        assert(n == q * d) by (nonlinear_arith)
            requires
                n == d * q,
        ;
    } else {
        assert(q * d + (r - 1) == n - 1) by (nonlinear_arith)
            requires
                n == d * q + r,
        ;
        vstd::arithmetic::div_mod::lemma_fundamental_div_mod_converse(n - 1, d, q, r - 1);
    }
}

/// Timeline monotonicity: a track of length `len` started playing at
/// counter zero emits, over its first `n` wake-ups, exactly the periodic
/// counters `D, 2·D, 3·D, …` — one for each multiple of the divisor `D`
/// reached — while the counter itself advances one per wake-up; the
/// `len`-th wake-up stops the timeline, rewinds the counter to zero and
/// reports that change last.
pub proof fn lemma_timeline_monotonicity(base: TimelineBase, n: nat)
    requires
        base.len >= 1,
        base.event_divisor >= 1,
        base.len < usize::MAX,
        n <= base.len,
    ensures
        ({
            let s0 = TimelineStatus {
                play_status: PlayStatus::Play,
                time_counter: 0,
                base,
            };
            &&& n < base.len ==> spec_run_status(s0, n) == (TimelineStatus {
                play_status: PlayStatus::Play,
                time_counter: n as usize,
                base,
            })
            &&& n == base.len ==> spec_run_status(s0, n) == (TimelineStatus {
                play_status: PlayStatus::Stop,
                time_counter: 0,
                base,
            })
            &&& periodic_counters(spec_run_reports(s0, n)) == Seq::new(
                (n as int / base.event_divisor as int) as nat,
                |k: int| (k + 1) * base.event_divisor,
            )
            &&& n == base.len ==> spec_run_reports(s0, n).len() >= 1 && spec_run_reports(s0, n).last()
                == (TimelineReport {
                report_type: TimelineReportType::ChangedBySelf,
                timeline: TimelineStatus {
                    play_status: PlayStatus::Stop,
                    time_counter: 0,
                    base,
                },
            })
        }),
    decreases n,
{
    let s0 = TimelineStatus { play_status: PlayStatus::Play, time_counter: 0, base };
    let d = base.event_divisor as int;
    if n == 0 {
        assert(periodic_counters(spec_run_reports(s0, n)) =~= Seq::new(0, |k: int| (k + 1) * d));
    } else {
        lemma_timeline_monotonicity(base, (n - 1) as nat);
        let prev = spec_run_status(s0, (n - 1) as nat);
        assert(prev == TimelineStatus {
            play_status: PlayStatus::Play,
            time_counter: (n - 1) as usize,
            base,
        });
        let (next, ticked) = spec_tick(prev);
        lemma_periodic_counters_concat(spec_run_reports(s0, (n - 1) as nat), ticked);
        lemma_div_step(n as int, d);
        let mid = TimelineStatus {
            play_status: PlayStatus::Play,
            time_counter: n as usize,
            base,
        };
        let p_rep = TimelineReport { report_type: TimelineReportType::Periodical, timeline: mid };
        let cbs = TimelineReport {
            report_type: TimelineReportType::ChangedBySelf,
            timeline: TimelineStatus { play_status: PlayStatus::Stop, time_counter: 0, base },
        };
        assert(periodic_counters(Seq::<TimelineReport>::empty()) == Seq::<int>::empty());
        if n as int % d == 0 {
            if n == base.len {
                assert(ticked == seq![p_rep, cbs]) by {
                    assert(ticked =~= seq![p_rep, cbs]);
                }
                assert(seq![cbs].drop_first() =~= Seq::<TimelineReport>::empty());
                assert(periodic_counters(seq![cbs]) =~= Seq::<int>::empty());
                assert(seq![p_rep, cbs].drop_first() =~= seq![cbs]);
                assert(periodic_counters(ticked) =~= seq![n as int]);
            } else {
                assert(ticked == seq![p_rep]) by {
                    assert(ticked =~= seq![p_rep]);
                }
                assert(seq![p_rep].drop_first() =~= Seq::<TimelineReport>::empty());
                assert(periodic_counters(ticked) =~= seq![n as int]);
            }
            assert(n as int == (n as int / d) * d);
            assert(periodic_counters(spec_run_reports(s0, n)) =~= Seq::new(
                (n as int / d) as nat,
                |k: int| (k + 1) * d,
            ));
        } else {
            if n == base.len {
                assert(ticked == seq![cbs]) by {
                    assert(ticked =~= seq![cbs]);
                }
                assert(seq![cbs].drop_first() =~= Seq::<TimelineReport>::empty());
                assert(periodic_counters(ticked) =~= Seq::<int>::empty());
            } else {
                assert(ticked == Seq::<TimelineReport>::empty()) by {
                    assert(ticked =~= Seq::<TimelineReport>::empty());
                }
                assert(periodic_counters(ticked) =~= Seq::<int>::empty());
            }
            assert(periodic_counters(spec_run_reports(s0, n)) =~= Seq::new(
                (n as int / d) as nat,
                |k: int| (k + 1) * d,
            ));
        }
    }
}

/// The wall-clock nanoseconds that separate a counter `diff` samples
/// past the anchor from the anchor itself, at the given frequency:
/// whole seconds first, then the fractional remainder.
pub open spec fn spec_target_nanos(diff: int, freq: int) -> int {
    (diff / freq) * 1_000_000_000 + 1_000_000_000 * (diff % freq) / freq
}

/// The anchor of the drift-corrected scheduler: the sample counter at
/// the moment the wall clock was last read.
pub struct FrequencySlice {
    pub base_count: usize,
}

impl FrequencySlice {
    pub fn new(time_counter: usize) -> (s: FrequencySlice)
        ensures
            s.base_count == time_counter,
    {
        FrequencySlice { base_count: time_counter }
    }

    /// How long the driver should sleep before the next wake-up, in
    /// nanoseconds, given how many nanoseconds have already passed since
    /// the anchor. While playing, the target is the wall-clock distance
    /// of the current counter from the anchor, less the time already
    /// spent; `None` means the wake-up is overdue. Paused or stopped,
    /// the wait is one sample period, an idle poll. A counter behind the
    /// anchor is an error.
    pub fn next_dur(&self, timeline: &TimelineStatus, elapsed_nanos: u128) -> (r: Result<
        Option<u128>,
        ResonanceParrotError,
    >)
        requires
            timeline.base.frequency >= 1,
        ensures
            ({
                let diff = timeline.time_counter - self.base_count;
                let target = spec_target_nanos(diff, timeline.base.frequency as int);
                &&& (timeline.play_status is Play && timeline.time_counter < self.base_count)
                    <==> r is Err
                &&& timeline.play_status is Play && timeline.time_counter >= self.base_count
                    ==> r == Ok::<Option<u128>, ResonanceParrotError>(
                    if elapsed_nanos <= target {
                        Some((target - elapsed_nanos) as u128)
                    } else {
                        None
                    },
                )
                &&& !(timeline.play_status is Play) ==> r == Ok::<
                    Option<u128>,
                    ResonanceParrotError,
                >(Some((1_000_000_000int / timeline.base.frequency as int) as u128))
            }),
    {
        let freq = timeline.base.frequency;
        if matches!(timeline.play_status, PlayStatus::Play) {
            if timeline.time_counter < self.base_count {
                return Err(ResonanceParrotError::new("TimeCounter Error!"));
            }
            let counter_diff = timeline.time_counter - self.base_count;
            let seconds = counter_diff / freq;
            let frac = counter_diff % freq;
            proof {
                assert(seconds as u128 * 1_000_000_000 <= 0xffff_ffff_ffff_ffff_u128
                    * 1_000_000_000) by (nonlinear_arith)
                    requires
                        0 <= seconds <= 0xffff_ffff_ffff_ffff_u128,
                ;
                assert(frac as u128 * 1_000_000_000 <= 0xffff_ffff_ffff_ffff_u128 * 1_000_000_000)
                    by (nonlinear_arith)
                    requires
                        0 <= frac <= 0xffff_ffff_ffff_ffff_u128,
                ;
            }
            let nanos = 1_000_000_000u128 * (frac as u128) / (freq as u128);
            let target = (seconds as u128) * 1_000_000_000 + nanos;
            proof {
                assert(target == spec_target_nanos(
                    counter_diff as int,
                    timeline.base.frequency as int,
                ));
            }
            if elapsed_nanos <= target {
                Ok(Some(target - elapsed_nanos))
            } else {
                Ok(None)
            }
        } else {
            Ok(Some(1_000_000_000u128 / (freq as u128)))
        }
    }
}

} // verus!
