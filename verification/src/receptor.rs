//! The integer part of a receptor: its genome, its cascade and its tally,
//! kept consistent with each other.
use vstd::prelude::*;
use crate::cascade::{Cascade, Reading};
use crate::genome::Genome;
use crate::tally::{verdict_for, Tally, Verdict};

verus! {

/// A receptor's genome, the cascade it drives and its fitness record.
#[derive(Clone, Copy, PartialEq, Eq, Structural, Debug)]
pub struct ReceptorCore {
    pub genome: Genome,
    pub cascade: Cascade,
    pub tally: Tally,
}

impl ReceptorCore {
    /// The parts are well formed and the cascade runs with the genome's depths.
    pub open spec fn wf(self) -> bool {
        &&& self.genome.wf()
        &&& self.cascade.wf()
        &&& self.tally.wf()
        &&& self.cascade.kpr_n == self.genome.kpr_n
        &&& self.cascade.kpr_m == self.genome.kpr_m
    }

    /// A receptor with this genome that has not yet seen a cycle.
    pub open spec fn fresh_from(genome: Genome) -> ReceptorCore {
        ReceptorCore {
            genome,
            cascade: Cascade {
                kpr_n: genome.kpr_n,
                kpr_m: genome.kpr_m,
                consecutive: 0,
                gap_count: 0,
                feedback_active: false,
            },
            tally: Tally { fires: 0, correct: 0, age: 0, is_memory: false },
        }
    }

    /// A receptor with this genome, its cascade at rest and its tally empty.
    pub fn fresh(genome: Genome) -> (r: ReceptorCore)
        requires
            genome.wf(),
        ensures
            r == ReceptorCore::fresh_from(genome),
            r.wf(),
    {
        let cascade = Cascade::new(genome.kpr_n, genome.kpr_m);
        ReceptorCore { genome, cascade, tally: Tally::new() }
    }

    /// The child of a mutation with `seed`: the mutated genome, with a cascade
    /// at rest, an empty tally and no memory.
    pub fn spawn_child(&self, seed: u64) -> (child: ReceptorCore)
        requires
            self.wf(),
            self.genome.generation < u32::MAX,
        ensures
            child == ReceptorCore::fresh_from(self.genome.mutated(seed)),
            child.wf(),
    {
        let genome = self.genome.mutate(seed);
        ReceptorCore::fresh(genome)
    }

    /// One decision cycle of the receptor's cascade on a reading.
    pub fn respond(&mut self, r: Reading) -> (fired: bool)
        requires
            old(self).wf(),
            old(self).cascade.consecutive < u32::MAX,
        ensures
            final(self).genome == old(self).genome,
            final(self).tally == old(self).tally,
            final(self).cascade == old(self).cascade.responded(r),
            final(self).wf(),
            fired == final(self).cascade.firing(),
    {
        self.cascade.respond(r)
    }

    /// One learning cycle: the receptor counts as having fired when its
    /// cascade has reached its depth, and its tally records the cycle.
    pub fn learn(&mut self, truth: bool) -> (v: Verdict)
        requires
            old(self).wf(),
            old(self).tally.age < u32::MAX,
        ensures
            final(self).genome == old(self).genome,
            final(self).cascade == old(self).cascade,
            final(self).tally == old(self).tally.recorded(old(self).cascade.firing(), truth),
            final(self).wf(),
            v == verdict_for(old(self).cascade.firing(), truth),
    {
        let fired = self.cascade.is_firing();
        self.tally.learn(fired, truth)
    }
}

/// Learning judges the receptor by the decision it just made: after a
/// decision cycle that returned `fired`, the learning cycle counts a firing
/// exactly when `fired` is set, and rewards or penalises accordingly.
pub proof fn lemma_learning_judges_the_last_decision(r: ReceptorCore, reading: Reading, truth: bool)
    requires
        r.wf(),
        r.cascade.consecutive < u32::MAX,
        r.tally.age < u32::MAX,
    ensures
        ({
            let after = ReceptorCore { cascade: r.cascade.responded(reading), ..r };
            let fired = after.cascade.firing();
            &&& after.wf()
            &&& after.tally.recorded(fired, truth).fires == r.tally.fires + if fired {
                1int
            } else {
                0int
            }
            &&& verdict_for(fired, truth) == (if !fired {
                Verdict::Unchanged
            } else if truth {
                Verdict::Reward
            } else {
                Verdict::Penalty
            })
        }),
{
    crate::cascade::lemma_step_keeps_wf(r.cascade, r.cascade.seen(reading));
}

} // verus!
