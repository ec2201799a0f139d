//! The debouncing rule as mathematics: one step of it, its effect on a whole
//! sequence of samples, and what follows for the events it gives.

use vstd::prelude::*;
use crate::button::{Event, SignalState, SWITCH_THRESHOLD};

verus! {

impl SignalState {
    /// The level that a sample stands for: an asserted pin reads as `High`.
    pub open spec fn of_level(level: bool) -> SignalState {
        if level {
            SignalState::High
        } else {
            SignalState::Low
        }
    }

    /// The other level.
    pub open spec fn flipped(self) -> SignalState {
        match self {
            SignalState::High => SignalState::Low,
            SignalState::Low => SignalState::High,
        }
    }

    /// The event that reports leaving this level.
    pub open spec fn leaving(self) -> Event {
        match self {
            SignalState::High => Event::Up,
            SignalState::Low => Event::Down,
        }
    }
}

/// The debouncer as a mathematical value: the settled level and the length of
/// the current run of samples that contradict it.
pub struct Debounce {
    pub settled: SignalState,
    pub run: nat,
}

impl Debounce {
    /// The debouncer before its first sample.
    pub open spec fn initial() -> Debounce {
        Debounce { settled: SignalState::High, run: 0 }
    }

    /// A run that has reached the threshold has already been turned into an
    /// event, so a debouncer at rest always holds a shorter one.
    pub open spec fn wf(self) -> bool {
        self.run < SWITCH_THRESHOLD
    }

    /// Whether a sample contradicts the settled level.
    pub open spec fn contradicted_by(self, level: bool) -> bool {
        SignalState::of_level(level) != self.settled
    }

    /// The debouncer after one more sample, and the event that sample causes.
    pub open spec fn step(self, level: bool) -> (Debounce, Event) {
        if !self.contradicted_by(level) {
            (Debounce { settled: self.settled, run: 0 }, Event::Idle)
        } else if self.run + 1 >= SWITCH_THRESHOLD {
            (Debounce { settled: self.settled.flipped(), run: 0 }, self.settled.leaving())
        } else {
            (Debounce { settled: self.settled, run: self.run + 1 }, Event::Idle)
        }
    }

    /// The debouncer after one reading of its input, and what the reading
    /// gives: a sample is fed to the debouncer, a failed read is handed back
    /// as it came and changes nothing.
    pub open spec fn hear<E>(self, reading: Result<bool, E>) -> (Debounce, Result<Event, E>) {
        match reading {
            Ok(level) => (self.step(level).0, Ok(self.step(level).1)),
            Err(e) => (self, Err(e)),
        }
    }

    /// The debouncer after the first `count` of `samples`.
    pub open spec fn fed(self, samples: Seq<bool>, count: int) -> Debounce
        decreases count,
    {
        if count <= 0 {
            self
        } else {
            self.fed(samples, count - 1).step(samples[count - 1]).0
        }
    }

    /// The debouncer after all of `samples`.
    pub open spec fn after(self, samples: Seq<bool>) -> Debounce {
        self.fed(samples, samples.len() as int)
    }

    /// The event that sample `index` of `samples` causes.
    pub open spec fn event(self, samples: Seq<bool>, index: int) -> Event {
        self.fed(samples, index).step(samples[index]).1
    }

    /// Where the current period of quiet begins at sample `index`: just after
    /// the last sample before `index` that caused an event, or at the first
    /// sample if none did.
    pub open spec fn quiet_since(self, samples: Seq<bool>, index: int) -> int
        decreases index,
    {
        if index <= 0 {
            0
        } else if self.event(samples, index - 1) != Event::Idle {
            index
        } else {
            self.quiet_since(samples, index - 1)
        }
    }

    /// Whether sample `index` completes a run of exactly `SWITCH_THRESHOLD`
    /// contrary samples within the current period of quiet: the last
    /// `SWITCH_THRESHOLD` samples up to `index` all lie in that period and all
    /// contradict the settled level, and the run is no longer than that.
    pub open spec fn completes_run(self, samples: Seq<bool>, index: int) -> bool {
        let first = index + 1 - SWITCH_THRESHOLD;
        let before = self.fed(samples, index);
        &&& self.quiet_since(samples, index) <= first
        &&& forall|k: int| first <= k <= index ==> before.contradicted_by(#[trigger] samples[k])
        &&& first == self.quiet_since(samples, index) || !before.contradicted_by(
            samples[first - 1],
        )
    }
}

/// Feeding depends only on the samples fed: two sequences that agree on
/// their first `count` samples leave the debouncer in the same state.
pub proof fn lemma_fed_reads_only_what_it_is_fed(
    start: Debounce,
    samples: Seq<bool>,
    others: Seq<bool>,
    count: int,
)
    requires
        count <= samples.len(),
        count <= others.len(),
        forall|k: int| 0 <= k < count ==> samples[k] == others[k],
    ensures
        start.fed(samples, count) == start.fed(others, count),
    decreases count,
{
    if count > 0 {
        lemma_fed_reads_only_what_it_is_fed(start, samples, others, count - 1);
    }
}

/// Feeding one more sample is one step: the debouncer after `samples` and
/// then `level` is the debouncer after `samples`, stepped by `level`, and the
/// event of the added sample is the event of that step.
pub proof fn lemma_fed_one_more(start: Debounce, samples: Seq<bool>, level: bool)
    ensures
        start.after(samples.push(level)) == start.after(samples).step(level).0,
        start.event(samples.push(level), samples.len() as int) == start.after(samples).step(
            level,
        ).1,
{
    lemma_fed_reads_only_what_it_is_fed(
        start,
        samples.push(level),
        samples,
        samples.len() as int,
    );
}

/// What the run counter stands for. After `index` samples fed to a debouncer
/// whose run was empty, the counter is below the threshold, the samples it
/// counts are the last ones, lie in the current period of quiet and all
/// contradict the settled level, the sample before them does not, and the
/// settled level has not changed in that period.
proof fn lemma_run_counts_contrary_samples(start: Debounce, samples: Seq<bool>, index: int)
    requires
        start.run == 0,
        0 <= index <= samples.len(),
    ensures
        ({
            let now = start.fed(samples, index);
            let quiet = start.quiet_since(samples, index);
            &&& now.wf()
            &&& 0 <= quiet <= index - now.run
            &&& forall|k: int|
                index - now.run <= k < index ==> now.contradicted_by(#[trigger] samples[k])
            &&& index - now.run > quiet ==> !now.contradicted_by(samples[index - now.run - 1])
            &&& forall|k: int|
                quiet <= k <= index ==> (#[trigger] start.fed(samples, k)).settled == now.settled
        }),
    decreases index,
{
    if index > 0 {
        lemma_run_counts_contrary_samples(start, samples, index - 1);
        let before = start.fed(samples, index - 1);
        let now = start.fed(samples, index);
        assert(now == before.step(samples[index - 1]).0);
        assert(start.event(samples, index - 1) == before.step(samples[index - 1]).1);
    }
}

/// A fresh debouncer reports an event at a sample exactly when that sample
/// completes a run of exactly `SWITCH_THRESHOLD` contrary samples since the
/// last event, or since the start if there was none. The event is the one
/// that reports leaving the level that was settled until then.
pub proof fn law_event_iff_run_completed(samples: Seq<bool>, index: int)
    requires
        0 <= index < samples.len(),
    ensures
        Debounce::initial().event(samples, index) != Event::Idle
            <==> Debounce::initial().completes_run(samples, index),
        Debounce::initial().event(samples, index) != Event::Idle
            ==> Debounce::initial().event(samples, index) == Debounce::initial().fed(
            samples,
            index,
        ).settled.leaving(),
{
    let start = Debounce::initial();
    lemma_run_counts_contrary_samples(start, samples, index);
    let now = start.fed(samples, index);
    let first = index + 1 - SWITCH_THRESHOLD;
    if start.completes_run(samples, index) {
        // The samples of the run before this one are contrary and caused no
        // event, so the counter has counted every one of them.
        assert(now.contradicted_by(samples[index]));
        lemma_contrary_tail_is_counted(start, samples, index, first);
        assert(now.run >= SWITCH_THRESHOLD - 1);
    }
    if start.event(samples, index) != Event::Idle {
        assert(now.contradicted_by(samples[index]));
        assert(now.run + 1 == SWITCH_THRESHOLD);
        assert(index - now.run == first);
        assert forall|k: int| first <= k <= index implies now.contradicted_by(
            #[trigger] samples[k],
        ) by {}
    }
}

/// Contrary samples at the end of a period of quiet are all counted: if the
/// samples from `first` up to `index` lie in the current period of quiet and
/// contradict the settled level, the counter before sample `index` is at
/// least `index - first`.
proof fn lemma_contrary_tail_is_counted(
    start: Debounce,
    samples: Seq<bool>,
    index: int,
    first: int,
)
    requires
        start.run == 0,
        0 <= index < samples.len(),
        start.quiet_since(samples, index) <= first <= index,
        forall|k: int|
            first <= k < index ==> start.fed(samples, index).contradicted_by(
                #[trigger] samples[k],
            ),
    ensures
        start.fed(samples, index).run >= index - first,
    decreases index - first,
{
    lemma_run_counts_contrary_samples(start, samples, index);
    if first < index {
        // No event at sample `index - 1`, so the period of quiet is the same
        // one sample earlier, and so is the settled level.
        assert(start.quiet_since(samples, index) <= index - 1);
        assert(start.event(samples, index - 1) == Event::Idle);
        assert(start.quiet_since(samples, index - 1) == start.quiet_since(samples, index));
        let before = start.fed(samples, index - 1);
        let now = start.fed(samples, index);
        assert(before.settled == now.settled);
        assert forall|k: int| first <= k < index - 1 implies before.contradicted_by(
            #[trigger] samples[k],
        ) by {
            assert(now.contradicted_by(samples[k]));
        }
        lemma_contrary_tail_is_counted(start, samples, index - 1, first);
        assert(now.contradicted_by(samples[index - 1]));
        assert(now == before.step(samples[index - 1]).0);
    }
}

/// A run that stops short of the threshold is forgotten. From a debouncer
/// whose counter leaves room for them, any number of contrary samples
/// followed by one agreeing sample cause no event and leave the settled level
/// as it was, with an empty run. With an empty counter that holds of up to
/// `SWITCH_THRESHOLD - 1` contrary samples.
pub proof fn law_short_run_is_forgotten(start: Debounce, samples: Seq<bool>)
    requires
        samples.len() >= 1,
        start.run + samples.len() - 1 < SWITCH_THRESHOLD,
        forall|k: int| 0 <= k < samples.len() - 1 ==> start.contradicted_by(#[trigger] samples[k]),
        !start.contradicted_by(samples.last()),
    ensures
        forall|k: int| 0 <= k < samples.len() ==> #[trigger] start.event(samples, k) == Event::Idle,
        start.fed(samples, samples.len() as int) == (Debounce { settled: start.settled, run: 0 }),
{
    let contrary = samples.len() - 1;
    lemma_contrary_samples_accumulate(start, samples, contrary);
    assert forall|k: int| 0 <= k < samples.len() implies #[trigger] start.event(samples, k)
        == Event::Idle by {
        lemma_contrary_samples_accumulate(start, samples, k);
    }
}

/// Contrary samples that do not reach the threshold only lengthen the run.
proof fn lemma_contrary_samples_accumulate(start: Debounce, samples: Seq<bool>, count: int)
    requires
        0 <= count <= samples.len(),
        start.run + count < SWITCH_THRESHOLD,
        forall|k: int| 0 <= k < count ==> start.contradicted_by(#[trigger] samples[k]),
    ensures
        start.fed(samples, count) == (Debounce {
            settled: start.settled,
            run: start.run + count as nat,
        }),
    decreases count,
{
    if count > 0 {
        lemma_contrary_samples_accumulate(start, samples, count - 1);
        assert(start.contradicted_by(samples[count - 1]));
    }
}

/// The first event of a fresh debouncer reports leaving `High`: it is `Up`,
/// never `Down`.
pub proof fn law_first_event_is_up(samples: Seq<bool>, index: int)
    requires
        0 <= index < samples.len(),
        Debounce::initial().event(samples, index) != Event::Idle,
        forall|k: int|
            0 <= k < index ==> #[trigger] Debounce::initial().event(samples, k) == Event::Idle,
    ensures
        Debounce::initial().event(samples, index) == Event::Up,
{
    lemma_settled_until_first_event(samples, index);
}

/// Until its first event a fresh debouncer stays settled `High`.
proof fn lemma_settled_until_first_event(samples: Seq<bool>, index: int)
    requires
        0 <= index <= samples.len(),
        forall|k: int|
            0 <= k < index ==> #[trigger] Debounce::initial().event(samples, k) == Event::Idle,
    ensures
        Debounce::initial().fed(samples, index).settled == SignalState::High,
    decreases index,
{
    if index > 0 {
        lemma_settled_until_first_event(samples, index - 1);
        assert(Debounce::initial().event(samples, index - 1) == Event::Idle);
    }
}

} // verus!
