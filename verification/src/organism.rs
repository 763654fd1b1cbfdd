//! The bookkeeping of the receptor population and of the experiment:
//! calibration percentiles, thymic test windows, the rolling history,
//! the population cap and evolution's quota, and the threat schedule.
use vstd::prelude::*;
use crate::tally::Tally;

verus! {

/// Receptor candidates generated by thymic selection.
pub const THYMUS_CANDIDATES: usize = 2000;

/// Population cap.
pub const MAX_RECEPTORS: usize = 500;

/// Top performers cloned at each evolution.
pub const CLONE_BATCH: usize = 5;

/// Population under which fresh receptors are injected.
pub const MIN_RECEPTORS: usize = 125;

/// Readings the rolling history keeps.
pub const HISTORY_CAP: usize = 200;

/// Length of a thymic test window, in readings.
pub const TEST_WINDOW: usize = 15;

/// Distance between the starts of consecutive thymic test windows.
pub const TEST_STRIDE: usize = 3;

/// Cycles in one quiet or threat period.
pub const PERIOD_CYCLES: u32 = 10;

/// Evolution runs after every this many cycles.
pub const EVOLVE_EVERY: u32 = 5;

/// Number of threat periods before the threat kinds repeat.
pub const THREAT_ROTATION: u32 = 5;

/// Index of the `pct`-th percentile in a sorted sample of `n` readings.
pub fn percentile_index(n: usize, pct: usize) -> (i: usize)
    requires
        n * pct <= usize::MAX,
    ensures
        i == n * pct / 100,
        0 < n && pct < 100 ==> i < n,
{
    proof {
        if 0 < n && pct < 100 {
            assert(n * pct < n * 100) by (nonlinear_arith)
                requires
                    0 < n,
                    pct < 100,
            ;
        }
    }
    n * pct / 100
}

/// Length of the thymic test windows over a calibration history of
/// `cal_len` readings: fifteen, or the whole history if it is shorter.
pub open spec fn test_window_size(cal_len: nat) -> nat {
    if cal_len < TEST_WINDOW {
        cal_len
    } else {
        TEST_WINDOW as nat
    }
}

/// Number of thymic test windows: one every three readings, starting
/// before the history's length less one window.
pub open spec fn test_window_count(cal_len: nat) -> nat {
    let span = (cal_len - test_window_size(cal_len)) as nat;
    (span + TEST_STRIDE - 1) as nat / (TEST_STRIDE as nat)
}

/// Length of the thymic test windows over a calibration history of
/// `cal_len` readings.
pub fn test_window_len(cal_len: usize) -> (len: usize)
    ensures
        len == test_window_size(cal_len as nat),
        len <= cal_len,
{
    if cal_len < TEST_WINDOW {
        cal_len
    } else {
        TEST_WINDOW
    }
}

/// The starts of the thymic test windows: 0, 3, 6, ... below
/// `cal_len - window`. Every window lies inside the calibration history.
pub fn test_window_starts(cal_len: usize) -> (starts: Vec<usize>)
    ensures
        starts@.len() == test_window_count(cal_len as nat),
        forall|i: int|
            0 <= i < starts@.len() ==> #[trigger] starts@[i] == TEST_STRIDE * i,
        forall|i: int|
            0 <= i < starts@.len() ==> #[trigger] starts@[i] + test_window_size(cal_len as nat)
                <= cal_len,
{
    let window = test_window_len(cal_len);
    let span = cal_len - window;
    let mut starts: Vec<usize> = Vec::new();
    let mut s: usize = 0;
    while s < span
        invariant
            span == cal_len - window,
            window == test_window_size(cal_len as nat),
            s == TEST_STRIDE * starts@.len(),
            s < span + TEST_STRIDE,
            forall|i: int|
                0 <= i < starts@.len() ==> #[trigger] starts@[i] == TEST_STRIDE * i,
            starts@.len() <= test_window_count(cal_len as nat),
            s < span ==> starts@.len() < test_window_count(cal_len as nat),
            s >= span ==> starts@.len() == test_window_count(cal_len as nat),
            span + TEST_STRIDE <= usize::MAX,
        decreases span + TEST_STRIDE - s,
    {
        starts.push(s);
        s = s + TEST_STRIDE;
    }
    proof {
        assert forall|i: int| 0 <= i < starts@.len() implies #[trigger] starts@[i]
            + test_window_size(cal_len as nat) <= cal_len by {
            assert(starts@[i] == TEST_STRIDE * i);
            assert(TEST_STRIDE * i < span);
        }
    }
    starts
}

/// Keeps the `cap` most recent entries of a history, in order.
pub fn trim_history<T>(history: &mut Vec<T>, cap: usize)
    ensures
        old(history)@.len() > cap ==> final(history)@ == old(history)@.subrange(
            old(history)@.len() - cap,
            old(history)@.len() as int,
        ),
        old(history)@.len() <= cap ==> final(history)@ == old(history)@,
{
    let len = history.len();
    if len > cap {
        let recent = history.split_off(len - cap);
        *history = recent;
    }
}

/// The items whose mark is set, in order.
pub open spec fn kept<T>(items: Seq<T>, keep: Seq<bool>) -> Seq<T>
    decreases items.len(),
{
    if items.len() == 0 {
        Seq::empty()
    } else {
        let rest = kept(items.drop_last(), keep.take(items.len() - 1));
        if keep[items.len() - 1] {
            rest.push(items.last())
        } else {
            rest
        }
    }
}

/// Keeps, in order, the items whose mark is set.
pub fn keep_marked<T>(items: Vec<T>, keep: &Vec<bool>) -> (out: Vec<T>)
    requires
        keep@.len() == items@.len(),
    ensures
        out@ == kept(items@, keep@),
{
    let ghost all = items@;
    let n = keep.len();
    let mut out: Vec<T> = Vec::new();
    let mut i: usize = 0;
    for x in it: items.into_iter()
        invariant
            i == it.index(),
            i <= all.len(),
            n == keep@.len(),
            it.seq() == all,
            keep@.len() == all.len(),
            out@ == kept(all.take(i as int), keep@.take(i as int)),
    {
        assert(x == all[i as int]);
        proof {
            assert(all.take(i + 1).drop_last() =~= all.take(i as int));
            assert(keep@.take(i + 1).take(i as int) =~= keep@.take(i as int));
        }
        if keep[i] {
            out.push(x);
        }
        i = i + 1;
    }
    proof {
        assert(all.take(all.len() as int) =~= all);
        assert(keep@.take(all.len() as int) =~= keep@);
    }
    out
}

/// Every kept item is an item whose mark is set.
pub proof fn lemma_kept_items_are_marked<T>(items: Seq<T>, keep: Seq<bool>, k: int)
    requires
        keep.len() == items.len(),
        0 <= k < kept(items, keep).len(),
    ensures
        exists|i: int| 0 <= i < items.len() && keep[i] && items[i] == kept(items, keep)[k],
    decreases items.len(),
{
    let n = items.len() - 1;
    let rest = kept(items.drop_last(), keep.take(n));
    if k < rest.len() {
        lemma_kept_items_are_marked(items.drop_last(), keep.take(n), k);
        let i = choose|i: int|
            0 <= i < n && keep.take(n)[i] && items.drop_last()[i] == rest[k];
        assert(keep[i] && items[i] == kept(items, keep)[k]);
    } else {
        assert(keep[n] && items[n] == kept(items, keep)[k]);
    }
}

/// Every item whose mark is set is kept.
pub proof fn lemma_marked_items_are_kept<T>(items: Seq<T>, keep: Seq<bool>, i: int)
    requires
        keep.len() == items.len(),
        0 <= i < items.len(),
        keep[i],
    ensures
        kept(items, keep).contains(items[i]),
    decreases items.len(),
{
    let n = items.len() - 1;
    let rest = kept(items.drop_last(), keep.take(n));
    if i < n {
        lemma_marked_items_are_kept(items.drop_last(), keep.take(n), i);
        let k = choose|k: int| 0 <= k < rest.len() && rest[k] == items.drop_last()[i];
        if keep[n] {
            assert(kept(items, keep)[k] == rest[k]);
        }
    } else {
        assert(kept(items, keep)[rest.len() as int] == items[i]);
    }
}

/// A candidate tolerates self when it fired on at most a tenth of the self
/// windows.
pub open spec fn self_tolerant(fires: nat, windows: nat) -> bool {
    fires * 10 <= windows
}

/// The candidates' tolerance marks.
pub open spec fn tolerance_marks(fires: Seq<usize>, windows: nat) -> Seq<bool> {
    Seq::new(fires.len(), |i: int| self_tolerant(fires[i] as nat, windows))
}

/// The first `MAX_RECEPTORS` entries of a sequence.
pub open spec fn capped<T>(s: Seq<T>) -> Seq<T> {
    if s.len() > MAX_RECEPTORS {
        s.take(MAX_RECEPTORS as int)
    } else {
        s
    }
}

/// The repertoire that negative selection leaves: the self-tolerant
/// candidates, in order, up to the population cap.
pub open spec fn survivors<T>(candidates: Seq<T>, fires: Seq<usize>, windows: nat) -> Seq<T> {
    capped(kept(candidates, tolerance_marks(fires, windows)))
}

/// The number of self-tolerant candidates among the first `i`.
pub open spec fn tolerant_count(fires: Seq<usize>, windows: nat, i: int) -> nat
    decreases i,
{
    if i <= 0 {
        0
    } else {
        tolerant_count(fires, windows, i - 1) + if fires[i - 1] * 10 <= windows {
            1nat
        } else {
            0nat
        }
    }
}

proof fn lemma_count_set_prefix_step(keep: Seq<bool>, i: int)
    requires
        0 <= i < keep.len(),
    ensures
        count_set(keep.take(i + 1)) == count_set(keep.take(i)) + if keep[i] {
            1nat
        } else {
            0nat
        },
{
    assert(keep.take(i + 1).drop_last() =~= keep.take(i));
}

proof fn lemma_count_set_prefix_monotone(keep: Seq<bool>, i: int, j: int)
    requires
        0 <= i <= j <= keep.len(),
    ensures
        count_set(keep.take(i)) <= count_set(keep.take(j)),
    decreases j - i,
{
    if i < j {
        lemma_count_set_prefix_step(keep, j - 1);
        lemma_count_set_prefix_monotone(keep, i, j - 1);
    }
}

/// Keeping preserves order: the kept items are as many as the set marks,
/// and an item whose mark is set stands right after the kept items before it.
pub proof fn lemma_kept_positions<T>(items: Seq<T>, keep: Seq<bool>, i: int)
    requires
        keep.len() == items.len(),
        0 <= i < items.len() ==> keep[i],
    ensures
        kept(items, keep).len() == count_set(keep),
        0 <= i < items.len() ==> count_set(keep.take(i)) < kept(items, keep).len() && kept(
            items,
            keep,
        )[count_set(keep.take(i)) as int] == items[i],
    decreases items.len(),
{
    if items.len() > 0 {
        let n = items.len() - 1;
        let front = items.drop_last();
        let fk = keep.take(n);
        assert(fk =~= keep.drop_last());
        if 0 <= i < n {
            lemma_kept_positions(front, fk, i);
            assert(fk.take(i) =~= keep.take(i));
            lemma_count_set_prefix_step(keep, i);
            lemma_count_set_prefix_monotone(keep, i + 1, n);
            assert(keep.take(n) =~= fk);
        } else {
            lemma_kept_positions(front, fk, -1);
            if i == n {
                assert(keep.take(n) =~= fk);
            }
        }
    }
}

proof fn lemma_tolerant_count_is_marked_count(fires: Seq<usize>, windows: nat, i: int)
    requires
        0 <= i <= fires.len(),
    ensures
        count_set(tolerance_marks(fires, windows).take(i)) == tolerant_count(fires, windows, i),
    decreases i,
{
    if i > 0 {
        lemma_tolerant_count_is_marked_count(fires, windows, i - 1);
        lemma_count_set_prefix_step(tolerance_marks(fires, windows), i - 1);
    }
}

/// Negative selection keeps every self-tolerant candidate that fewer than
/// `MAX_RECEPTORS` tolerant candidates precede: it stands in the repertoire
/// right after them. The repertoire holds the tolerant candidates up to the
/// cap, and nothing else.
pub proof fn lemma_tolerant_candidates_survive<T>(
    candidates: Seq<T>,
    fires: Seq<usize>,
    windows: nat,
    i: int,
)
    requires
        fires.len() == candidates.len(),
        0 <= i < candidates.len(),
        fires[i] * 10 <= windows,
        tolerant_count(fires, windows, i) < MAX_RECEPTORS,
    ensures
        tolerant_count(fires, windows, i) < survivors(candidates, fires, windows).len(),
        survivors(candidates, fires, windows)[tolerant_count(fires, windows, i) as int]
            == candidates[i],
{
    let marks = tolerance_marks(fires, windows);
    lemma_kept_positions(candidates, marks, i);
    lemma_tolerant_count_is_marked_count(fires, windows, i);
}

/// The repertoire holds as many receptors as there are self-tolerant
/// candidates, up to the cap.
pub proof fn lemma_survivor_count<T>(candidates: Seq<T>, fires: Seq<usize>, windows: nat)
    requires
        fires.len() == candidates.len(),
    ensures
        survivors(candidates, fires, windows).len() == (if tolerant_count(
            fires,
            windows,
            fires.len() as int,
        ) > MAX_RECEPTORS {
            MAX_RECEPTORS as nat
        } else {
            tolerant_count(fires, windows, fires.len() as int)
        }),
{
    let marks = tolerance_marks(fires, windows);
    lemma_kept_positions(candidates, marks, -1);
    lemma_tolerant_count_is_marked_count(fires, windows, fires.len() as int);
    assert(marks.take(fires.len() as int) =~= marks);
}

/// Whether a candidate that fired `fires` times on `windows` self windows
/// tolerates self.
pub fn is_self_tolerant(fires: usize, windows: usize) -> (t: bool)
    ensures
        t == self_tolerant(fires as nat, windows as nat),
{
    proof {
        assert(fires <= windows / 10 <==> fires * 10 <= windows) by (nonlinear_arith);
    }
    fires <= windows / 10
}

/// Negative selection: keeps, in order, the candidates that fired on at most
/// a tenth of the self windows, then caps the repertoire.
pub fn select_survivors<T>(candidates: Vec<T>, fires: &Vec<usize>, windows: usize) -> (out: Vec<T>)
    requires
        fires@.len() == candidates@.len(),
    ensures
        out@ == survivors(candidates@, fires@, windows as nat),
        out@.len() == (if tolerant_count(fires@, windows as nat, fires@.len() as int)
            > MAX_RECEPTORS {
            MAX_RECEPTORS as nat
        } else {
            tolerant_count(fires@, windows as nat, fires@.len() as int)
        }),
        forall|i: int|
            0 <= i < fires@.len() && fires@[i] * 10 <= windows && tolerant_count(
                fires@,
                windows as nat,
                i,
            ) < MAX_RECEPTORS ==> out@[tolerant_count(fires@, windows as nat, i) as int]
                == #[trigger] candidates@[i],
{
    let mut marks: Vec<bool> = Vec::new();
    let mut i: usize = 0;
    while i < fires.len()
        invariant
            i <= fires@.len(),
            marks@ == tolerance_marks(fires@, windows as nat).take(i as int),
        decreases fires@.len() - i,
    {
        let t = is_self_tolerant(fires[i], windows);
        marks.push(t);
        proof {
            assert(marks@ =~= tolerance_marks(fires@, windows as nat).take(i + 1));
        }
        i = i + 1;
    }
    proof {
        assert(marks@ =~= tolerance_marks(fires@, windows as nat));
    }
    let ghost all = candidates@;
    let mut out = keep_marked(candidates, &marks);
    cap_population(&mut out);
    proof {
        lemma_survivor_count(all, fires@, windows as nat);
        assert forall|i: int|
            0 <= i < fires@.len() && fires@[i] * 10 <= windows && tolerant_count(
                fires@,
                windows as nat,
                i,
            ) < MAX_RECEPTORS implies out@[tolerant_count(fires@, windows as nat, i) as int]
            == #[trigger] all[i] by {
            lemma_tolerant_candidates_survive(all, fires@, windows as nat, i);
        }
    }
    out
}

/// Negative selection kills self-reactive receptors: a candidate that fired
/// on more than a tenth of the self windows, wherever it stands in the
/// batch, is not in the repertoire.
pub proof fn lemma_self_reactive_candidates_rejected<T>(
    candidates: Seq<T>,
    fires: Seq<usize>,
    windows: nat,
    c: T,
)
    requires
        fires.len() == candidates.len(),
        forall|i: int|
            0 <= i < candidates.len() && #[trigger] candidates[i] == c ==> !self_tolerant(
                fires[i] as nat,
                windows,
            ),
    ensures
        !survivors(candidates, fires, windows).contains(c),
{
    let marks = tolerance_marks(fires, windows);
    let k = kept(candidates, marks);
    if survivors(candidates, fires, windows).contains(c) {
        let j = choose|j: int|
            0 <= j < survivors(candidates, fires, windows).len() && survivors(
                candidates,
                fires,
                windows,
            )[j] == c;
        assert(k[j] == c);
        lemma_kept_items_are_marked(candidates, marks, j);
        let i = choose|i: int| 0 <= i < candidates.len() && marks[i] && candidates[i] == k[j];
        assert(candidates[i] == c);
    }
}

/// Whether a receptor survives the cull: its confidence is at least the
/// minimum, or it is a memory cell.
pub fn survives_cull(confident: bool, tally: &Tally) -> (keep: bool)
    ensures
        keep == (confident || tally.is_memory),
{
    confident || tally.is_memory
}

/// The cull never removes a memory cell: when every receptor's mark is its
/// cull decision, each memory cell is kept.
pub proof fn lemma_cull_keeps_memory<T>(
    population: Seq<T>,
    tallies: Seq<Tally>,
    confident: Seq<bool>,
    i: int,
)
    requires
        tallies.len() == population.len(),
        confident.len() == population.len(),
        0 <= i < population.len(),
        tallies[i].is_memory,
    ensures
        kept(
            population,
            Seq::new(population.len(), |j: int| confident[j] || tallies[j].is_memory),
        ).contains(population[i]),
{
    let marks = Seq::new(population.len(), |j: int| confident[j] || tallies[j].is_memory);
    lemma_marked_items_are_kept(population, marks, i);
}

/// The number of memory cells among a population's tallies.
pub open spec fn memory_count(tallies: Seq<Tally>) -> nat
    decreases tallies.len(),
{
    if tallies.len() == 0 {
        0
    } else {
        memory_count(tallies.drop_last()) + if tallies.last().is_memory {
            1nat
        } else {
            0nat
        }
    }
}

/// The cull decisions of a population.
pub open spec fn cull_marks(tallies: Seq<Tally>, confident: Seq<bool>) -> Seq<bool> {
    Seq::new(tallies.len(), |j: int| confident[j] || tallies[j].is_memory)
}

/// The cull never lowers the number of memory cells: the population it
/// keeps holds exactly as many memory cells as before.
pub proof fn lemma_cull_keeps_memory_count(tallies: Seq<Tally>, confident: Seq<bool>)
    requires
        confident.len() == tallies.len(),
    ensures
        memory_count(kept(tallies, cull_marks(tallies, confident))) == memory_count(tallies),
    decreases tallies.len(),
{
    if tallies.len() > 0 {
        let n = tallies.len() - 1;
        let marks = cull_marks(tallies, confident);
        let front = tallies.drop_last();
        let front_conf = confident.take(n);
        assert(marks.take(n) =~= cull_marks(front, front_conf));
        lemma_cull_keeps_memory_count(front, front_conf);
        let rest = kept(front, marks.take(n));
        if marks[n] {
            assert(rest.push(tallies.last()).drop_last() =~= rest);
        }
    }
}

/// Adding receptors never lowers the number of memory cells.
pub proof fn lemma_growth_keeps_memory_count(tallies: Seq<Tally>, added: Seq<Tally>)
    ensures
        memory_count(tallies + added) >= memory_count(tallies),
    decreases added.len(),
{
    if added.len() > 0 {
        assert((tallies + added).drop_last() =~= tallies + added.drop_last());
        lemma_growth_keeps_memory_count(tallies, added.drop_last());
    }
}

/// Learning never lowers the number of memory cells: each receptor keeps
/// its memory flag through a learning cycle.
pub proof fn lemma_learning_keeps_memory_count(
    tallies: Seq<Tally>,
    fired: Seq<bool>,
    truth: bool,
)
    requires
        fired.len() == tallies.len(),
    ensures
        memory_count(Seq::new(tallies.len(), |j: int| tallies[j].recorded(fired[j], truth)))
            == memory_count(tallies),
    decreases tallies.len(),
{
    if tallies.len() > 0 {
        let n = tallies.len() - 1;
        let after = Seq::new(tallies.len(), |j: int| tallies[j].recorded(fired[j], truth));
        let front = tallies.drop_last();
        let front_fired = fired.take(n);
        assert(after.drop_last() =~= Seq::new(
            front.len(),
            |j: int| front[j].recorded(front_fired[j], truth),
        ));
        lemma_learning_keeps_memory_count(front, front_fired, truth);
    }
}

/// The number of set flags.
pub open spec fn count_set(flags: Seq<bool>) -> nat
    decreases flags.len(),
{
    if flags.len() == 0 {
        0
    } else {
        count_set(flags.drop_last()) + if flags.last() {
            1nat
        } else {
            0nat
        }
    }
}

/// No flag set counts zero; all flags set count the length.
pub proof fn lemma_count_set_bounds(flags: Seq<bool>)
    ensures
        count_set(flags) <= flags.len(),
        (forall|i: int| 0 <= i < flags.len() ==> !(#[trigger] flags[i])) ==> count_set(flags)
            == 0,
        (forall|i: int| 0 <= i < flags.len() ==> #[trigger] flags[i]) ==> count_set(flags)
            == flags.len(),
    decreases flags.len(),
{
    if flags.len() > 0 {
        let front = flags.drop_last();
        assert(forall|i: int| 0 <= i < front.len() ==> front[i] == flags[i]);
        lemma_count_set_bounds(front);
        assert(flags.last() == flags[flags.len() - 1]);
    }
}

/// Counts the set flags: the receptors that fired, or the memory cells.
pub fn count_flags(flags: &Vec<bool>) -> (n: usize)
    ensures
        n == count_set(flags@),
{
    let mut n: usize = 0;
    let mut i: usize = 0;
    while i < flags.len()
        invariant
            i <= flags@.len(),
            n == count_set(flags@.take(i as int)),
            n <= i,
        decreases flags@.len() - i,
    {
        proof {
            assert(flags@.take(i + 1).drop_last() =~= flags@.take(i as int));
        }
        if flags[i] {
            n = n + 1;
        }
        i = i + 1;
    }
    proof {
        assert(flags@.take(flags@.len() as int) =~= flags@);
    }
    n
}

/// Keeps the first `MAX_RECEPTORS` entries of a population, in order.
pub fn cap_population<T>(population: &mut Vec<T>)
    ensures
        old(population)@.len() > MAX_RECEPTORS ==> final(population)@ == old(
            population,
        )@.subrange(0, MAX_RECEPTORS as int),
        old(population)@.len() <= MAX_RECEPTORS ==> final(population)@ == old(population)@,
{
    population.truncate(MAX_RECEPTORS);
}

/// How evolution grows a population that kept `survivors` receptors.
#[derive(Clone, Copy, PartialEq, Eq, Structural, Debug)]
pub struct EvolutionPlan {
    /// Mutated clones of the fittest survivors, fittest first.
    pub clones: usize,
    /// Fresh random receptors injected after the clones.
    pub fresh: usize,
}

pub open spec fn min(a: int, b: int) -> int {
    if a < b {
        a
    } else {
        b
    }
}

/// Clones: the batch, or fewer if there are fewer survivors or the cap is
/// reached first. Fresh receptors: as many as bring the population up to
/// the minimum.
pub open spec fn planned(survivors: nat) -> EvolutionPlan {
    let clones = if survivors >= MAX_RECEPTORS {
        0
    } else {
        min(min(CLONE_BATCH as int, survivors as int), MAX_RECEPTORS - survivors)
    };
    let fresh = if survivors + clones >= MIN_RECEPTORS {
        0
    } else {
        MIN_RECEPTORS - survivors - clones
    };
    EvolutionPlan { clones: clones as usize, fresh: fresh as usize }
}

/// The plan of an evolution step after the unfit were removed.
pub fn evolution_plan(survivors: usize) -> (plan: EvolutionPlan)
    ensures
        plan == planned(survivors as nat),
        survivors < MAX_RECEPTORS ==> plan.clones == min(
            min(CLONE_BATCH as int, survivors as int),
            MAX_RECEPTORS - survivors,
        ),
        survivors + plan.clones < MIN_RECEPTORS ==> survivors + plan.clones + plan.fresh
            == MIN_RECEPTORS,
        survivors + plan.clones >= MIN_RECEPTORS ==> plan.fresh == 0,
        plan.clones <= CLONE_BATCH,
        plan.clones <= survivors,
        survivors <= MAX_RECEPTORS ==> MIN_RECEPTORS <= survivors + plan.clones + plan.fresh
            <= MAX_RECEPTORS,
        survivors > MAX_RECEPTORS ==> plan.clones == 0 && plan.fresh == 0,
{
    let mut clones: usize = 0;
    let batch = if CLONE_BATCH < survivors {
        CLONE_BATCH
    } else {
        survivors
    };
    while clones < batch && survivors + clones < MAX_RECEPTORS
        invariant
            clones <= batch,
            batch == min(CLONE_BATCH as int, survivors as int),
            survivors < MAX_RECEPTORS ==> survivors + clones <= MAX_RECEPTORS,
            survivors >= MAX_RECEPTORS ==> clones == 0,
        decreases batch - clones,
    {
        clones = clones + 1;
    }
    let mut fresh: usize = 0;
    if survivors < MAX_RECEPTORS {
        while survivors + clones + fresh < MIN_RECEPTORS
            invariant
                survivors + clones + fresh <= MIN_RECEPTORS || fresh == 0,
                survivors + clones <= MAX_RECEPTORS,
            decreases MIN_RECEPTORS - survivors - clones - fresh,
        {
            fresh = fresh + 1;
        }
    }
    EvolutionPlan { clones, fresh }
}

/// Evolution clones the fittest five, or all survivors if fewer, as far as
/// the cap leaves room; and injects fresh receptors exactly up to the
/// minimum population.
pub proof fn lemma_evolution_clones_the_batch(survivors: nat)
    requires
        survivors < MAX_RECEPTORS,
    ensures
        planned(survivors).clones == (if survivors < CLONE_BATCH {
            survivors
        } else if MAX_RECEPTORS - survivors < CLONE_BATCH {
            (MAX_RECEPTORS - survivors) as nat
        } else {
            CLONE_BATCH as nat
        }),
        survivors >= CLONE_BATCH && survivors + CLONE_BATCH <= MAX_RECEPTORS ==> planned(
            survivors,
        ).clones == CLONE_BATCH,
        survivors + planned(survivors).clones < MIN_RECEPTORS ==> survivors + planned(
            survivors,
        ).clones + planned(survivors).fresh == MIN_RECEPTORS,
        survivors + planned(survivors).clones >= MIN_RECEPTORS ==> planned(survivors).fresh == 0,
{
}

/// The population stays within its bounds: an evolution step never takes a
/// population within the cap above the cap, and never leaves it under the
/// minimum.
pub proof fn lemma_population_bounds(survivors: nat)
    requires
        survivors <= MAX_RECEPTORS,
    ensures
        MIN_RECEPTORS <= survivors + planned(survivors).clones + planned(survivors).fresh
            <= MAX_RECEPTORS,
{
}

/// The kinds of threat the experiment applies.
#[derive(Clone, Copy, PartialEq, Eq, Structural, Debug)]
pub enum ThreatKind {
    /// Four CPU-stress workers.
    Cpu,
    /// Four cache-thrash workers.
    Cache,
    /// Two of each.
    Mixed,
}

/// The kind that a threat number names, by its remainder modulo three.
pub open spec fn kind_of(kind: u32) -> ThreatKind {
    if kind % 3 == 0 {
        ThreatKind::Cpu
    } else if kind % 3 == 1 {
        ThreatKind::Cache
    } else {
        ThreatKind::Mixed
    }
}

/// The number of CPU-stress and cache-thrash workers of a kind.
pub open spec fn workers_of(k: ThreatKind) -> (usize, usize) {
    match k {
        ThreatKind::Cpu => (4, 0),
        ThreatKind::Cache => (0, 4),
        ThreatKind::Mixed => (2, 2),
    }
}

impl ThreatKind {
    /// The kind that a threat number names.
    pub fn of(kind: u32) -> (k: ThreatKind)
        ensures
            k == kind_of(kind),
    {
        let r = kind % 3;
        if r == 0 {
            ThreatKind::Cpu
        } else if r == 1 {
            ThreatKind::Cache
        } else {
            ThreatKind::Mixed
        }
    }

    /// How many CPU-stress and cache-thrash workers the threat starts; every
    /// threat starts four.
    pub fn workers(&self) -> (w: (usize, usize))
        ensures
            w == workers_of(*self),
            w.0 + w.1 == 4,
    {
        match self {
            ThreatKind::Cpu => (4, 0),
            ThreatKind::Cache => (0, 4),
            ThreatKind::Mixed => (2, 2),
        }
    }
}

/// The threat number of the `k`-th threat period: CPU, cache, mixed,
/// cache, CPU, and again.
pub open spec fn rotation(k: int) -> u32 {
    let r = k % (THREAT_ROTATION as int);
    if r == 0 {
        0
    } else if r == 1 {
        1
    } else if r == 2 {
        2
    } else if r == 3 {
        1
    } else {
        0
    }
}

/// What the experiment does in one decision cycle.
#[derive(Clone, Copy, PartialEq, Eq, Structural, Debug)]
pub struct CyclePlan {
    /// The cycle lies in a threat period: the truth the organism is judged by.
    pub threat_period: bool,
    /// A period starts: a running threat is stopped first.
    pub phase_start: bool,
    /// The threat to start this cycle, if any.
    pub start_threat: Option<u32>,
    /// Evolution runs after this cycle's learning.
    pub evolve: bool,
}

/// Ten quiet cycles, then ten threat cycles, repeating; each threat starts
/// with its period, and the threats rotate; evolution every fifth cycle.
pub open spec fn cycle_plan(cycle: u32) -> CyclePlan {
    let period = cycle / PERIOD_CYCLES;
    let threat = period % 2 == 1;
    let start = cycle % PERIOD_CYCLES == 0;
    CyclePlan {
        threat_period: threat,
        phase_start: start,
        start_threat: if start && threat {
            Some(rotation((period / 2) as int))
        } else {
            None
        },
        evolve: cycle % EVOLVE_EVERY == EVOLVE_EVERY - 1,
    }
}

/// The plan of decision cycle `cycle`.
pub fn plan_cycle(cycle: u32) -> (plan: CyclePlan)
    ensures
        plan == cycle_plan(cycle),
{
    let period = cycle / PERIOD_CYCLES;
    let threat = period % 2 == 1;
    let start = cycle % PERIOD_CYCLES == 0;
    let start_threat = if start && threat {
        let kinds: [u32; 5] = [0u32, 1, 2, 1, 0];
        let i = ((period / 2) % THREAT_ROTATION) as usize;
        Some(kinds[i])
    } else {
        None
    };
    CyclePlan {
        threat_period: threat,
        phase_start: start,
        start_threat,
        evolve: cycle % EVOLVE_EVERY == EVOLVE_EVERY - 1,
    }
}

/// The schedule alternates ten quiet and ten threat cycles: a cycle is under
/// threat exactly when its position in its block of twenty is ten or more.
pub proof fn lemma_schedule_alternates(cycle: u32)
    ensures
        cycle_plan(cycle).threat_period == (cycle % 20 >= 10),
{
}

/// Each threat period starts its threat at its first cycle, and the threat
/// kinds follow the rotation.
pub proof fn lemma_threat_starts_with_period(k: u32)
    requires
        20 * k + 19 <= u32::MAX,
    ensures
        cycle_plan((20 * k + 10) as u32).start_threat == Some(rotation(k as int)),
        forall|j: u32|
            1 <= j < 10 ==> (#[trigger] cycle_plan((20 * k + 10 + j) as u32)).start_threat
                is None,
{
    assert(((20 * k + 10) as u32) / PERIOD_CYCLES == 2 * k + 1);
    assert forall|j: u32| 1 <= j < 10 implies (#[trigger] cycle_plan(
        (20 * k + 10 + j) as u32,
    )).start_threat is None by {
        assert(((20 * k + 10 + j) as u32) % PERIOD_CYCLES == j);
    }
}

/// How one decision compared with the truth.
#[derive(Clone, Copy, PartialEq, Eq, Structural, Debug)]
pub enum Outcome {
    /// The organism blocked under threat, or let quiet substrate be.
    Correct,
    /// It blocked quiet substrate.
    FalsePositive,
    /// It let a threat through.
    Miss,
}

impl Outcome {
    /// Judges a decision against the truth.
    pub fn judge(block: bool, truth: bool) -> (o: Outcome)
        ensures
            (o == Outcome::Correct) == (block == truth),
            (o == Outcome::FalsePositive) == (block && !truth),
            (o == Outcome::Miss) == (!block && truth),
    {
        if block == truth {
            Outcome::Correct
        } else if block && !truth {
            Outcome::FalsePositive
        } else {
            Outcome::Miss
        }
    }
}

} // verus!
