//! Measuring frames during a scripted scroll, and capturing the window.

use vstd::prelude::*;
use vstd::string::*;

use crate::text;

verus! {

/// Frames that the scroll benchmark discards before it starts recording. Setting up the window
/// lands in the first frames and is no cost of scrolling.
pub const WARMUP_FRAMES: u32 = 60;

/// A time in milliseconds, by the bits of its IEEE 754 single.
#[derive(Debug, Clone, Copy, PartialEq, Eq, Structural)]
pub struct Millis {
    pub bits: u32,
}

/// The bits of infinity: what lies beyond them, the sign aside, is no number.
pub const INFINITY: u32 = 0x7F80_0000;

/// The lowest bits of a negative number.
pub const NEGATIVE: u32 = 0x8000_0000;

impl Millis {
    /// No time at all.
    pub fn zero() -> (zero: Millis)
        ensures
            zero.bits == 0,
    {
        Millis { bits: 0 }
    }

    /// Where this stands in the order of all times, from the most negative up. What is no
    /// number stands beyond what is, on the side of its sign.
    pub open spec fn spec_rank(self) -> u32 {
        if self.bits < NEGATIVE {
            (self.bits + NEGATIVE) as u32
        } else {
            (u32::MAX - self.bits) as u32
        }
    }

    /// Where this stands in the order of all times.
    pub fn rank(self) -> (rank: u32)
        ensures
            rank == self.spec_rank(),
    {
        if self.bits < NEGATIVE {
            self.bits + NEGATIVE
        } else {
            u32::MAX - self.bits
        }
    }

    /// Whether this is no number.
    pub open spec fn spec_is_nan(self) -> bool {
        INFINITY < self.bits < NEGATIVE || self.bits > NEGATIVE + INFINITY
    }

    /// Whether this is no number.
    pub fn is_nan(self) -> (nan: bool)
        ensures
            nan == self.spec_is_nan(),
    {
        (self.bits > INFINITY && self.bits < NEGATIVE) || self.bits > NEGATIVE + INFINITY
    }
}

/// What one frame cost.
#[derive(Debug, Clone, Copy, PartialEq, Eq, Structural)]
pub struct FrameTiming {
    /// Time spent drawing.
    pub ui_ms: Millis,
    /// Time spent before drawing, which is where finished pages are taken in.
    pub logic_ms: Millis,
    /// Time since the previous frame, which is what a person sees.
    pub frame_ms: Millis,
}

/// A scripted scroll used to measure frame times.
#[derive(Debug)]
pub struct ScrollBenchmark {
    frames_left: u32,
    warmup_left: u32,
    measured: Vec<FrameTiming>,
    warmup_worst: Millis,
}

/// What a scripted scroll has left to do, and what it has measured.
#[verifier::ext_equal]
pub struct BenchmarkView {
    pub frames_left: nat,
    pub warmup_left: nat,
    pub measured: Seq<FrameTiming>,
    pub warmup_worst: Millis,
}

impl View for ScrollBenchmark {
    type V = BenchmarkView;

    closed spec fn view(&self) -> BenchmarkView {
        BenchmarkView {
            frames_left: self.frames_left as nat,
            warmup_left: self.warmup_left as nat,
            measured: self.measured@,
            warmup_worst: self.warmup_worst,
        }
    }
}

/// The larger of two times; one that is no number does not count.
pub open spec fn worse(worst: Millis, time: Millis) -> Millis {
    if time.spec_is_nan() || time.spec_rank() <= worst.spec_rank() {
        worst
    } else {
        time
    }
}

impl BenchmarkView {
    /// The benchmark after one more frame.
    pub open spec fn recorded(self, timing: FrameTiming) -> BenchmarkView {
        if self.warmup_left > 0 {
            BenchmarkView {
                warmup_left: (self.warmup_left - 1) as nat,
                warmup_worst: worse(self.warmup_worst, timing.frame_ms),
                ..self
            }
        } else {
            BenchmarkView {
                measured: self.measured.push(timing),
                frames_left: if self.frames_left > 0 {
                    (self.frames_left - 1) as nat
                } else {
                    0
                },
                ..self
            }
        }
    }

    /// The benchmark after more frames.
    pub open spec fn recorded_all(self, timings: Seq<FrameTiming>) -> BenchmarkView
        decreases timings.len(),
    {
        if timings.len() == 0 {
            self
        } else {
            self.recorded_all(timings.drop_last()).recorded(timings.last())
        }
    }
}

/// A benchmark that has not started.
pub open spec fn fresh(frames: u32) -> BenchmarkView {
    BenchmarkView {
        frames_left: if frames == 0 {
            1
        } else {
            frames as nat
        },
        warmup_left: WARMUP_FRAMES as nat,
        measured: Seq::empty(),
        warmup_worst: Millis { bits: 0 },
    }
}

impl ScrollBenchmark {
    /// A scroll over `frames` frames, and at least one.
    pub fn new(frames: u32) -> (benchmark: ScrollBenchmark)
        ensures
            benchmark@ == fresh(frames),
    {
        ScrollBenchmark {
            frames_left: if frames == 0 {
                1
            } else {
                frames
            },
            warmup_left: WARMUP_FRAMES,
            measured: Vec::new(),
            warmup_worst: Millis::zero(),
        }
    }

    /// Records one frame, or discards it if still warming up.
    pub fn record(&mut self, timing: FrameTiming)
        ensures
            final(self)@ == old(self)@.recorded(timing),
    {
        if self.warmup_left > 0 {
            self.warmup_left -= 1;
            if !timing.frame_ms.is_nan() && timing.frame_ms.rank() > self.warmup_worst.rank() {
                self.warmup_worst = timing.frame_ms;
            }
            return;
        }
        self.measured.push(timing);
        if self.frames_left > 0 {
            self.frames_left -= 1;
        }
    }

    /// Whether the scripted scroll has run its course.
    pub fn is_finished(&self) -> (finished: bool)
        ensures
            finished == (self@.frames_left == 0),
    {
        self.frames_left == 0
    }

    /// How many frames were measured, warmup excluded.
    pub fn measured_frames(&self) -> (frames: usize)
        ensures
            frames == self@.measured.len(),
    {
        self.measured.len()
    }

    /// The frames that were measured.
    pub fn measured(&self) -> (measured: &Vec<FrameTiming>)
        ensures
            measured@ == self@.measured,
    {
        &self.measured
    }

    /// The longest frame among those discarded.
    pub fn warmup_worst(&self) -> (worst: Millis)
        ensures
            worst == self@.warmup_worst,
    {
        self.warmup_worst
    }
}

/// A benchmark measures exactly the frames after the warmup, and is over when it has measured
/// as many as it was asked for.
pub proof fn law_a_benchmark_measures_what_was_asked(frames: u32, timings: Seq<FrameTiming>)
    ensures
        ({
            let asked: nat = if frames == 0 {
                1
            } else {
                frames as nat
            };
            let after = fresh(frames).recorded_all(timings);
            &&& after.measured == (if timings.len() <= WARMUP_FRAMES {
                Seq::empty()
            } else {
                timings.skip(WARMUP_FRAMES as int)
            })
            &&& (after.frames_left == 0) == (after.measured.len() >= asked)
        }),
    decreases timings.len(),
{
    lemma_progress(frames, timings);
}

/// How far a benchmark has come after some frames.
proof fn lemma_progress(frames: u32, timings: Seq<FrameTiming>)
    ensures
        ({
            let asked: int = if frames == 0 {
                1
            } else {
                frames as int
            };
            let after = fresh(frames).recorded_all(timings);
            let past = timings.len() - WARMUP_FRAMES;
            if past <= 0 {
                &&& after.warmup_left == -past
                &&& after.measured == Seq::<FrameTiming>::empty()
                &&& after.frames_left == asked
            } else {
                &&& after.warmup_left == 0
                &&& after.measured == timings.skip(WARMUP_FRAMES as int)
                &&& after.frames_left == (if past >= asked {
                    0
                } else {
                    asked - past
                })
            }
        }),
    decreases timings.len(),
{
    if timings.len() > 0 {
        let front = timings.drop_last();
        lemma_progress(frames, front);
        if timings.len() > WARMUP_FRAMES {
            let skipped = timings.skip(WARMUP_FRAMES as int);
            if front.len() > WARMUP_FRAMES {
                assert(skipped =~= front.skip(WARMUP_FRAMES as int).push(timings.last()));
            } else {
                assert(skipped =~= Seq::empty().push(timings.last()));
            }
        }
    }
}

/// The distribution of a set of times. Percentiles rather than a mean, because a mean hides a
/// few very long frames among many short ones.
#[derive(Debug, Clone, Copy, PartialEq, Eq, Structural)]
pub struct Percentiles {
    pub p50: Millis,
    pub p95: Millis,
    pub p99: Millis,
    pub max: Millis,
}

/// The times from the smallest up.
pub open spec fn in_order(samples: Seq<Millis>) -> Seq<Millis> {
    samples.sort_by(|a: Millis, b: Millis| a.spec_rank() <= b.spec_rank())
}

/// Which of `count` times in order stands at `percent`: the nearest one, and the later of two
/// that are as near.
pub open spec fn rank_at(count: nat, percent: nat) -> nat {
    (((count - 1) * percent + 50) / 100) as nat
}

/// Which of `count` times in order stands at `percent`.
fn index_at(count: usize, percent: u8) -> (index: usize)
    requires
        count > 0,
        percent <= 100,
    ensures
        index == rank_at(count as nat, percent as nat),
        index < count,
{
    let last: u128 = (count - 1) as u128;
    proof {
        assert(last * percent <= last * 100) by (nonlinear_arith)
            requires
                percent <= 100,
        ;
    }
    let index: u128 = (last * percent as u128 + 50) / 100;
    proof {
        assert(index <= last) by (nonlinear_arith)
            requires
                index == (last * percent + 50) / 100,
                last * percent <= last * 100,
        ;
    }
    index as usize
}

/// Being no later is a total order of the times: different times have different ranks.
pub proof fn lemma_ordered()
    ensures
        vstd::relations::total_ordering(
            |a: Millis, b: Millis| a.spec_rank() <= b.spec_rank(),
        ),
{
    assert forall|a: Millis, b: Millis|
        a.spec_rank() <= b.spec_rank() && b.spec_rank() <= a.spec_rank() implies a == b by {
        assert(a.bits == b.bits);
    }
}

/// The times from the smallest up.
fn sorted(samples: &[Millis]) -> (sorted: Vec<Millis>)
    ensures
        sorted@ == in_order(samples@),
        sorted@.len() == samples@.len(),
{
    let ghost leq = |a: Millis, b: Millis| a.spec_rank() <= b.spec_rank();
    let mut sorted: Vec<Millis> = Vec::new();
    let mut i: usize = 0;
    proof {
        assert(samples@.take(0) =~= Seq::<Millis>::empty());
    }
    while i < samples.len()
        invariant
            i <= samples.len(),
            leq == |a: Millis, b: Millis| a.spec_rank() <= b.spec_rank(),
            vstd::relations::sorted_by(sorted@, leq),
            sorted@.to_multiset() == samples@.take(i as int).to_multiset(),
        decreases samples.len() - i,
    {
        let time = samples[i];
        let mut at: usize = sorted.len();
        while at > 0 && sorted[at - 1].rank() > time.rank()
            invariant
                at <= sorted.len(),
                forall|j: int| at <= j < sorted.len() ==> (#[trigger] sorted@[j]).spec_rank() > time.spec_rank(),
            decreases at,
        {
            at -= 1;
        }
        let ghost before = sorted@;
        sorted.insert(at, time);
        proof {
            broadcast use vstd::seq_lib::group_to_multiset_ensures;

            assert forall|j: int, k: int| 0 <= j < k < sorted@.len() implies #[trigger] leq(
                sorted@[j],
                sorted@[k],
            ) by {
                let from = if j < at {
                    j
                } else {
                    j - 1
                };
                let to = if k < at {
                    k
                } else {
                    k - 1
                };
                if j != at && k != at {
                    assert(leq(before[from], before[to]));
                }
                if k == at && at > 0 && j < at - 1 {
                    assert(leq(before[j], before[at - 1]));
                }
            }
            assert(sorted@.remove(at as int) =~= before);
            assert(sorted@.contains(sorted@[at as int]));
            assert(sorted@.to_multiset() =~= before.to_multiset().insert(time));
            assert(samples@.take(i + 1) =~= samples@.take(i as int).push(time));
        }
        i += 1;
    }
    proof {
        broadcast use vstd::seq_lib::group_to_multiset_ensures;

        assert(samples@.take(i as int) =~= samples@);
        lemma_ordered();
        samples@.lemma_sort_by_ensures(leq);
        vstd::seq_lib::lemma_sorted_unique(sorted@, samples@.sort_by(leq), leq);
        assert(sorted@.len() == sorted@.to_multiset().len());
    }
    sorted
}

/// Summarizes `samples`, or `None` if there are none. Nothing is interpolated, so every time
/// reported is one that was measured.
pub fn percentiles(samples: &[Millis]) -> (spread: Option<Percentiles>)
    ensures
        spread is None == (samples@.len() == 0),
        spread is Some ==> {
            let sorted = in_order(samples@);
            let count = samples@.len();
            &&& spread->0.p50 == sorted[rank_at(count, 50) as int]
            &&& spread->0.p95 == sorted[rank_at(count, 95) as int]
            &&& spread->0.p99 == sorted[rank_at(count, 99) as int]
            &&& spread->0.max == sorted[count - 1]
        },
{
    if samples.len() == 0 {
        return None;
    }
    let sorted = sorted(samples);
    let count = sorted.len();
    Some(
        Percentiles {
            p50: sorted[index_at(count, 50)],
            p95: sorted[index_at(count, 95)],
            p99: sorted[index_at(count, 99)],
            max: sorted[count - 1],
        },
    )
}

/// A request to capture the window.
#[derive(Debug)]
pub struct ScreenshotRequest {
    /// Where to write the picture.
    pub path: String,
    /// Frames to draw before asking, so that there is something on screen.
    pub warmup_frames: u32,
    /// Frames after which the capture is given up, so that it can never hang.
    pub budget_frames: u32,
    /// Whether the window closes once the capture has come to an end.
    pub exit_when_done: bool,
}

/// Whether there is something to take a picture of: every page asked for has been drawn, and at
/// least one is there. An empty window is as ready as it will ever be.
pub fn ready_to_capture(open: bool, settled: bool, any_drawn: bool) -> (ready: bool)
    ensures
        ready == (!open || (settled && any_drawn)),
{
    !open || (settled && any_drawn)
}

/// What a capture does in one frame.
#[derive(Debug, PartialEq, Eq)]
pub struct CaptureStep {
    /// Ask for the picture now.
    pub ask: bool,
    /// How it ended, if it did.
    pub end: Option<CaptureEnd>,
}

/// How a capture ends.
#[derive(Debug, PartialEq, Eq)]
pub enum CaptureEnd {
    /// The picture is here: write it.
    Write,
    /// No picture came in time, in words.
    GaveUp { message: String },
}

/// What to say when no picture came in time.
pub open spec fn too_late(budget: u32) -> Seq<char> {
    "no screenshot arrived within "@ + text::decimal_text(budget as nat) + " frames"@
}

/// A capture of the window in progress.
#[derive(Debug)]
pub struct Screenshotter {
    request: ScreenshotRequest,
    sent: bool,
}

impl Screenshotter {
    /// What was asked for.
    pub closed spec fn spec_request(&self) -> ScreenshotRequest {
        self.request
    }

    /// Whether the picture has been asked for.
    pub closed spec fn spec_sent(&self) -> bool {
        self.sent
    }

    /// A capture that has not asked yet.
    pub fn new(request: ScreenshotRequest) -> (capture: Screenshotter)
        ensures
            capture.spec_request() == request,
            !capture.spec_sent(),
    {
        Screenshotter { request, sent: false }
    }

    /// What was asked for.
    pub fn request(&self) -> (request: &ScreenshotRequest)
        ensures
            *request == self.spec_request(),
    {
        &self.request
    }

    /// Goes on by one frame.
    ///
    /// `settled` says that every requested page has arrived: a picture taken earlier shows
    /// placeholders. `arrived` says that the picture is here, which is noticed before asking
    /// again.
    pub fn drive(&mut self, frame: u32, settled: bool, arrived: bool) -> (step: CaptureStep)
        ensures
            final(self).spec_request() == old(self).spec_request(),
            ({
                let request = old(self).spec_request();
                let ask = !arrived && !old(self).spec_sent() && frame >= request.warmup_frames
                    && settled;
                &&& step.ask == ask
                &&& final(self).spec_sent() == (old(self).spec_sent() || ask)
                &&& arrived == (step.end matches Some(CaptureEnd::Write))
                &&& (!arrived && frame > request.budget_frames) == (step.end matches Some(
                    CaptureEnd::GaveUp { .. },
                ))
                &&& step.end matches Some(CaptureEnd::GaveUp { message }) ==> message@ == too_late(
                    request.budget_frames,
                )
            }),
    {
        if arrived {
            return CaptureStep { ask: false, end: Some(CaptureEnd::Write) };
        }
        let ask = !self.sent && frame >= self.request.warmup_frames && settled;
        if ask {
            self.sent = true;
        }
        if frame > self.request.budget_frames {
            let mut message = String::from_str("no screenshot arrived within ");
            message.append(text::decimal(self.request.budget_frames as usize).as_str());
            message.append(" frames");
            return CaptureStep { ask, end: Some(CaptureEnd::GaveUp { message }) };
        }
        CaptureStep { ask, end: None }
    }
}

} // verus!
