//! The fitness record of a receptor: how often it was consulted, how often
//! it fired and how often its firing was right, and whether it has become a
//! memory cell.
use vstd::prelude::*;

verus! {

/// How a learning cycle moves a receptor's confidence.
#[derive(Clone, Copy, PartialEq, Eq, Structural, Debug)]
pub enum Verdict {
    /// The receptor did not fire: its confidence stays.
    Unchanged,
    /// It fired on a threat: its confidence grows.
    Reward,
    /// It fired on quiet substrate: its confidence shrinks.
    Penalty,
}

/// The verdict of a learning cycle.
pub open spec fn verdict_for(fired: bool, truth: bool) -> Verdict {
    if !fired {
        Verdict::Unchanged
    } else if truth {
        Verdict::Reward
    } else {
        Verdict::Penalty
    }
}

/// Counters of a receptor's history.
#[derive(Clone, Copy, PartialEq, Eq, Structural, Debug)]
pub struct Tally {
    /// Cycles in which the receptor fired.
    pub fires: u32,
    /// Cycles in which it fired on a threat.
    pub correct: u32,
    /// Learning cycles the receptor has gone through.
    pub age: u32,
    /// The receptor has become a memory cell, which evolution never removes.
    pub is_memory: bool,
}

impl Tally {
    /// Right firings are firings, and firings happen in learning cycles.
    pub open spec fn wf(self) -> bool {
        self.correct <= self.fires <= self.age
    }

    /// The tally after one learning cycle.
    pub open spec fn recorded(self, fired: bool, truth: bool) -> Tally {
        Tally {
            age: (self.age + 1) as u32,
            fires: if fired {
                (self.fires + 1) as u32
            } else {
                self.fires
            },
            correct: if fired && truth {
                (self.correct + 1) as u32
            } else {
                self.correct
            },
            is_memory: self.is_memory,
        }
    }

    /// The record of a fresh receptor.
    pub fn new() -> (t: Tally)
        ensures
            t.wf(),
            t.fires == 0,
            t.correct == 0,
            t.age == 0,
            !t.is_memory,
    {
        Tally { fires: 0, correct: 0, age: 0, is_memory: false }
    }

    /// One learning cycle: the receptor ages by one; if it fired, the firing
    /// is counted, and counted as right when the substrate was under threat.
    /// Returns how its confidence moves.
    pub fn learn(&mut self, fired: bool, truth: bool) -> (v: Verdict)
        requires
            old(self).wf(),
            old(self).age < u32::MAX,
        ensures
            *final(self) == old(self).recorded(fired, truth),
            final(self).wf(),
            v == verdict_for(fired, truth),
            final(self).age == old(self).age + 1,
            final(self).fires == old(self).fires + if fired {
                1int
            } else {
                0int
            },
            final(self).correct == old(self).correct + if fired && truth {
                1int
            } else {
                0int
            },
            final(self).is_memory == old(self).is_memory,
            (v == Verdict::Reward) == (fired && truth),
            (v == Verdict::Penalty) == (fired && !truth),
    {
        self.age = self.age + 1;
        if fired {
            self.fires = self.fires + 1;
            if truth {
                self.correct = self.correct + 1;
                Verdict::Reward
            } else {
                Verdict::Penalty
            }
        } else {
            Verdict::Unchanged
        }
    }

    /// Makes the receptor a memory cell.
    pub fn mark_memory(&mut self)
        ensures
            *final(self) == (Tally { is_memory: true, ..*old(self) }),
    {
        self.is_memory = true;
    }
}

/// Memory is permanent: learning never takes it away.
pub proof fn lemma_memory_is_permanent(t: Tally, fired: bool, truth: bool)
    requires
        t.is_memory,
    ensures
        t.recorded(fired, truth).is_memory,
{
}

/// Only firing changes confidence, and a firing is rewarded exactly when it
/// was counted as right.
pub proof fn lemma_reward_iff_correct(t: Tally, fired: bool, truth: bool)
    requires
        t.wf(),
        t.age < u32::MAX,
    ensures
        (verdict_for(fired, truth) == Verdict::Reward) == (t.recorded(fired, truth).correct
            == t.correct + 1),
        (verdict_for(fired, truth) == Verdict::Unchanged) == (t.recorded(fired, truth).fires
            == t.fires),
{
}

} // verus!
