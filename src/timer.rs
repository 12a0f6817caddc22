use vstd::prelude::*;

use crate::error::SetupError;

verus! {

/// A stage that has not started: a name and a duration paired by position.
pub open spec fn fresh_stage(entry: (String, u32)) -> TimerStage {
    TimerStage { name: entry.0, duration_s: entry.1, elapsed_s: 0 }
}

/// Builds the stage list, in order, with nothing elapsed.
pub fn create_timer_list(names_and_times: &[(String, u32)]) -> (r: Vec<TimerStage>)
    ensures
        r@ == names_and_times@.map_values(|e: (String, u32)| fresh_stage(e)),
{
    let mut stages: Vec<TimerStage> = Vec::new();
    let mut i: usize = 0;
    while i < names_and_times.len()
        invariant
            i <= names_and_times@.len(),
            stages@ == names_and_times@.take(i as int).map_values(|e: (String, u32)| fresh_stage(e)),
        decreases names_and_times@.len() - i,
    {
        let entry = &names_and_times[i];
        stages.push(TimerStage { name: entry.0.clone(), duration_s: entry.1, elapsed_s: 0 });
        proof {
            assert(names_and_times@.take(i + 1) =~= names_and_times@.take(i as int).push(names_and_times@[i as int]));
        }
        i = i + 1;
    }
    proof {
        assert(names_and_times@.take(i as int) =~= names_and_times@);
    }
    stages
}

/// Pairs the i-th name with the i-th duration. Fails when the counts differ.
pub fn pair_stages(names: &[String], times: &[u32]) -> (r: Result<Vec<(String, u32)>, SetupError>)
    ensures
        r is Ok <==> names@.len() == times@.len(),
        r matches Ok(v) ==> {
            &&& v@.len() == names@.len()
            &&& forall|i: int| 0 <= i < v@.len() ==> #[trigger] v@[i] == (names@[i], times@[i])
        },
        r matches Err(e) ==> e == (SetupError::CountMismatch { names: names@.len() as usize, times: times@.len() as usize }),
{
    if names.len() != times.len() {
        return Err(SetupError::CountMismatch { names: names.len(), times: times.len() });
    }
    let mut pairs: Vec<(String, u32)> = Vec::new();
    let mut i: usize = 0;
    while i < names.len()
        invariant
            names@.len() == times@.len(),
            i <= names@.len(),
            pairs@.len() == i,
            forall|j: int| 0 <= j < i ==> #[trigger] pairs@[j] == (names@[j], times@[j]),
        decreases names@.len() - i,
    {
        pairs.push((names[i].clone(), times[i]));
        i = i + 1;
    }
    Ok(pairs)
}

/// Spends one tick of `timer`; see `Timer::advance`.
pub fn update_state(timer: &mut Timer) -> (r: bool)
    requires
        old(timer).wf(),
    ensures
        final(timer).wf(),
        final(timer)@ == old(timer)@.next(),
        r == old(timer)@.next_reports(),
{
    timer.advance()
}

/// One named countdown segment.
pub struct TimerStage {
    pub name: String,
    pub duration_s: u32,
    pub elapsed_s: u32,
}

impl TimerStage {
    /// Elapsed time never passes the duration.
    pub open spec fn wf(&self) -> bool {
        self.elapsed_s <= self.duration_s
    }

    /// Seconds left in this stage.
    pub open spec fn remaining(&self) -> int {
        self.duration_s - self.elapsed_s
    }

    /// The stage after one second of progress.
    pub open spec fn ticked(&self) -> TimerStage {
        TimerStage { name: self.name, duration_s: self.duration_s, elapsed_s: (self.elapsed_s + 1) as u32 }
    }

    /// Seconds left in this stage.
    pub fn remaining_s(&self) -> (r: u32)
        requires
            self.wf(),
        ensures
            r == self.remaining(),
    {
        self.duration_s - self.elapsed_s
    }
}

/// The stage list with its cursor and pause flag.
pub struct Timer {
    pub stages: Vec<TimerStage>,
    pub current_index: usize,
    pub paused: bool,
}

/// What a timer holds, as mathematical values.
pub struct TimerView {
    pub stages: Seq<TimerStage>,
    pub current_index: nat,
    pub paused: bool,
}

impl TimerView {
    /// Every stage lasts at least a second; the stages before the cursor
    /// have run out, those after it have not started, and the active one
    /// has time left.
    pub open spec fn wf(self) -> bool {
        &&& self.current_index <= self.stages.len()
        &&& forall|i: int|
            0 <= i < self.stages.len() ==> {
                &&& 1 <= #[trigger] self.stages[i].duration_s
                &&& self.stages[i].wf()
                &&& i < self.current_index ==> self.stages[i].elapsed_s == self.stages[i].duration_s
                &&& i > self.current_index ==> self.stages[i].elapsed_s == 0
            }
        &&& self.current_index < self.stages.len() ==> self.stages[self.current_index as int].remaining() > 0
    }

    /// All stages have run out.
    pub open spec fn is_complete(self) -> bool {
        self.current_index >= self.stages.len()
    }

    /// The timer after one tick: nothing changes once complete or while
    /// paused; otherwise the active stage gains a second, and the cursor
    /// moves on when that leaves the stage no time.
    pub open spec fn next(self) -> TimerView {
        if self.is_complete() || self.paused {
            self
        } else {
            let i = self.current_index as int;
            let s = self.stages[i].ticked();
            TimerView {
                stages: self.stages.update(i, s),
                current_index: if s.remaining() == 0 { self.current_index + 1 } else { self.current_index },
                paused: self.paused,
            }
        }
    }

    /// What a tick reports: false once the timer is complete after it.
    pub open spec fn next_reports(self) -> bool {
        !self.next().is_complete()
    }

    /// The timer with its pause flag flipped.
    pub open spec fn toggled(self) -> TimerView {
        TimerView { paused: !self.paused, ..self }
    }
}

impl View for Timer {
    type V = TimerView;

    open spec fn view(&self) -> TimerView {
        TimerView { stages: self.stages@, current_index: self.current_index as nat, paused: self.paused }
    }
}

/// `index` is the position of the first entry with a zero duration.
pub open spec fn first_zero_duration(entries: Seq<(String, u32)>, index: int) -> bool {
    &&& 0 <= index < entries.len()
    &&& entries[index].1 == 0
    &&& forall|j: int| 0 <= j < index ==> #[trigger] entries[j].1 != 0
}

impl Timer {
    /// See `TimerView::wf`.
    pub open spec fn wf(&self) -> bool {
        self@.wf()
    }

    /// A timer at the start of the first stage, running. Fails with
    /// `InvalidDuration` at the first stage that would last no time.
    pub fn new(names_and_times: &[(String, u32)]) -> (r: Result<Timer, SetupError>)
        ensures
            r is Ok <==> forall|j: int| 0 <= j < names_and_times@.len() ==> #[trigger] names_and_times@[j].1 != 0,
            r matches Ok(t) ==> {
                &&& t.wf()
                &&& t@.stages == names_and_times@.map_values(|e: (String, u32)| fresh_stage(e))
                &&& t@.current_index == 0
                &&& !t@.paused
            },
            r matches Err(e) ==> (e matches SetupError::InvalidDuration { index } && first_zero_duration(names_and_times@, index as int)),
    {
        let mut i: usize = 0;
        while i < names_and_times.len()
            invariant
                i <= names_and_times@.len(),
                forall|j: int| 0 <= j < i ==> #[trigger] names_and_times@[j].1 != 0,
            decreases names_and_times@.len() - i,
        {
            if names_and_times[i].1 == 0 {
                return Err(SetupError::InvalidDuration { index: i });
            }
            i = i + 1;
        }
        let stages = create_timer_list(names_and_times);
        Ok(Timer { stages, current_index: 0, paused: false })
    }

    /// Spends one tick: see `TimerView::next`. Returns false when the timer
    /// is complete after the tick, whether it was already or this tick
    /// finished the last stage.
    pub fn advance(&mut self) -> (r: bool)
        requires
            old(self).wf(),
        ensures
            final(self).wf(),
            final(self)@ == old(self)@.next(),
            r == old(self)@.next_reports(),
    {
        if self.current_index >= self.stages.len() {
            return false;
        }
        if self.paused {
            return true;
        }
        let i = self.current_index;
        let stage = &mut self.stages[i];
        stage.elapsed_s = stage.elapsed_s + 1;
        if stage.duration_s - stage.elapsed_s == 0 {
            self.current_index = i + 1;
        }
        proof {
            assert(self.stages@ =~= old(self)@.stages.update(i as int, old(self)@.stages[i as int].ticked()));
        }
        self.current_index < self.stages.len()
    }

    /// Flips the pause flag; nothing else changes. Accepted on a complete
    /// timer too, where it has no effect on what later ticks do.
    pub fn toggle_pause(&mut self)
        requires
            old(self).wf(),
        ensures
            final(self).wf(),
            final(self)@ == old(self)@.toggled(),
    {
        self.paused = !self.paused;
    }
}

/// The timer after `n` ticks.
pub open spec fn after_ticks(t: TimerView, n: nat) -> TimerView
    decreases n,
{
    if n == 0 {
        t
    } else {
        after_ticks(t, (n - 1) as nat).next()
    }
}

/// The timer after `n` pause toggles.
pub open spec fn after_toggles(t: TimerView, n: nat) -> TimerView
    decreases n,
{
    if n == 0 {
        t
    } else {
        after_toggles(t, (n - 1) as nat).toggled()
    }
}

/// A tick keeps the timer well formed.
pub proof fn lemma_next_wf(t: TimerView)
    requires
        t.wf(),
    ensures
        t.next().wf(),
{
}

/// While a running timer has time left in its active stage, `k` ticks add
/// `k` seconds to that stage alone; the tick that uses up its last second
/// moves the cursor to the next stage.
pub proof fn lemma_ticks_within_stage(t: TimerView, k: nat)
    requires
        t.wf(),
        !t.paused,
        !t.is_complete(),
        k <= t.stages[t.current_index as int].remaining(),
    ensures
        after_ticks(t, k).wf(),
        after_ticks(t, k).paused == t.paused,
        after_ticks(t, k).stages == t.stages.update(
            t.current_index as int,
            TimerStage {
                elapsed_s: (t.stages[t.current_index as int].elapsed_s + k) as u32,
                ..t.stages[t.current_index as int]
            },
        ),
        after_ticks(t, k).current_index == if k == t.stages[t.current_index as int].remaining() {
            t.current_index + 1
        } else {
            t.current_index
        },
    decreases k,
{
    let i = t.current_index as int;
    if k == 0 {
        assert(t.stages.update(i, TimerStage { elapsed_s: t.stages[i].elapsed_s, ..t.stages[i] }) =~= t.stages);
    } else {
        lemma_ticks_within_stage(t, (k - 1) as nat);
        let prev = after_ticks(t, (k - 1) as nat);
        lemma_next_wf(prev);
        assert(prev.next().stages =~= t.stages.update(
            i,
            TimerStage { elapsed_s: (t.stages[i].elapsed_s + k) as u32, ..t.stages[i] },
        ));
    }
}

/// A stage that lasts `P` seconds, started and running, is used up by
/// exactly `P` ticks: it then shows `P` seconds elapsed and the cursor has
/// moved on by one.
pub proof fn lemma_stage_takes_its_duration(t: TimerView)
    requires
        t.wf(),
        !t.paused,
        !t.is_complete(),
        t.stages[t.current_index as int].elapsed_s == 0,
    ensures
        ({
            let i = t.current_index as int;
            let p = t.stages[i].duration_s as nat;
            &&& after_ticks(t, p).stages[i].elapsed_s == p
            &&& after_ticks(t, p).current_index == t.current_index + 1
        }),
{
    let i = t.current_index as int;
    lemma_ticks_within_stage(t, t.stages[i].duration_s as nat);
}

/// An even number of pause toggles gives back the timer it started from.
pub proof fn lemma_even_toggles_restore(t: TimerView, n: nat)
    requires
        n % 2 == 0,
    ensures
        after_toggles(t, n) == t,
    decreases n,
{
    if n > 0 {
        lemma_even_toggles_restore(t, (n - 2) as nat);
        assert(after_toggles(t, (n - 1) as nat) == after_toggles(t, (n - 2) as nat).toggled());
    }
}

/// A tick reports false exactly when the timer was already complete, except
/// for the tick that uses up the last second of the last stage, which
/// reports false too.
pub proof fn lemma_tick_reports_complete(t: TimerView)
    requires
        t.wf(),
        !(!t.paused && t.current_index == t.stages.len() - 1 && t.stages[t.current_index as int].remaining() == 1),
    ensures
        !t.next_reports() <==> t.is_complete(),
{
}

/// Once a tick has reported false, every later tick reports false and
/// changes nothing.
pub proof fn lemma_complete_is_final(t: TimerView, n: nat)
    requires
        t.wf(),
        !t.next_reports(),
    ensures
        after_ticks(t.next(), n) == t.next(),
        !after_ticks(t.next(), n).next_reports(),
    decreases n,
{
    if n > 0 {
        lemma_complete_is_final(t, (n - 1) as nat);
    }
}

/// A stage's completion, `elapsed / duration`, never goes down from one tick
/// to the next, for every stage: the duration stays and the elapsed time
/// does not shrink.
pub proof fn lemma_completion_non_decreasing(t: TimerView)
    requires
        t.wf(),
    ensures
        forall|i: int|
            0 <= i < t.stages.len() ==> {
                &&& #[trigger] t.next().stages[i].duration_s == t.stages[i].duration_s
                &&& t.next().stages[i].elapsed_s >= t.stages[i].elapsed_s
                &&& t.stages[i].elapsed_s * t.next().stages[i].duration_s <= t.next().stages[i].elapsed_s
                    * t.stages[i].duration_s
            },
{
    assert forall|i: int| 0 <= i < t.stages.len() implies {
        &&& #[trigger] t.next().stages[i].duration_s == t.stages[i].duration_s
        &&& t.next().stages[i].elapsed_s >= t.stages[i].elapsed_s
        &&& t.stages[i].elapsed_s * t.next().stages[i].duration_s <= t.next().stages[i].elapsed_s
            * t.stages[i].duration_s
    } by {
        let a = t.stages[i].elapsed_s as int;
        let b = t.next().stages[i].elapsed_s as int;
        let d = t.stages[i].duration_s as int;
        assert(a * d <= b * d) by (nonlinear_arith)
            requires
                a <= b,
                0 <= d,
        ;
    }
}

} // verus!
