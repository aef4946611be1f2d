//! The runs of key presses that make typing easier or harder: hands taking
//! turns, fingers of one hand rolling over neighbouring keys, and one finger
//! pressing twice in a row.

use vstd::prelude::*;
use crate::optimizer::score::Stroke;

verus! {

/// The two kinds of runs that make typing easier.
#[derive(Debug, Clone, Copy, PartialEq, Eq, Structural)]
pub enum RunKind {
    /// The hands take turns.
    Alternation,
    /// The fingers of one hand press one after the other.
    Roll,
}

/// A stretch of a sequence of key presses: from `start` up to `end`, which
/// is the first key press after it.
#[derive(Debug, Clone, Copy, PartialEq, Eq, Structural)]
pub struct Run {
    pub start: usize,
    pub end: usize,
}

/// Whether key press `b` may follow key press `a` in a run of the kind.
///
/// In an alternation the hand changes. In a roll the hand stays, the finger
/// changes, and the key is in the same row or in the next one up or down.
pub open spec fn linked(kind: RunKind, a: Stroke, b: Stroke) -> bool {
    match kind {
        RunKind::Alternation => a.hand != b.hand,
        RunKind::Roll => a.hand == b.hand && a.finger != b.finger && a.row <= b.row + 1 && b.row
            <= a.row + 1,
    }
}

/// Whether two key presses are made by the same finger of the same hand.
pub open spec fn same_finger(a: Stroke, b: Stroke) -> bool {
    a.hand == b.hand && a.finger == b.finger
}

/// Whether the key presses from `start` up to `end` are a run of the kind:
/// there is at least one, and each may follow the one before it.
pub open spec fn is_run(kind: RunKind, strokes: Seq<Stroke>, start: int, end: int) -> bool {
    &&& 0 <= start < end <= strokes.len()
    &&& forall|i: int| start <= i < end - 1 ==> linked(kind, #[trigger] strokes[i], strokes[i + 1])
}

/// Whether the run from `start` up to `end` is as long as it can be: the
/// key press before it, if there is one, does not lead into it, and the key
/// press after it, if there is one, does not follow from it.
pub open spec fn is_maximal_run(kind: RunKind, strokes: Seq<Stroke>, start: int, end: int) -> bool {
    &&& is_run(kind, strokes, start, end)
    &&& start > 0 ==> !linked(kind, strokes[start - 1], strokes[start])
    &&& end < strokes.len() ==> !linked(kind, strokes[end - 1], strokes[end])
}

/// Whether the run from `start` up to `end` counts: it is as long as it can
/// be, and that is three key presses at least.
pub open spec fn counts(kind: RunKind, strokes: Seq<Stroke>, start: int, end: int) -> bool {
    is_maximal_run(kind, strokes, start, end) && end - start >= 3
}

/// Whether `runs` are the runs that count and that end at `limit` or
/// before, in the order in which they occur.
pub open spec fn lists_runs_up_to(
    kind: RunKind,
    strokes: Seq<Stroke>,
    runs: Seq<Run>,
    limit: int,
) -> bool {
    &&& forall|i: int|
        0 <= i < runs.len() ==> counts(
            kind,
            strokes,
            (#[trigger] runs[i]).start as int,
            runs[i].end as int,
        ) && runs[i].end <= limit
    &&& forall|start: int, end: int| #[trigger]
        counts(kind, strokes, start, end) && end <= limit ==> runs.contains(
            Run { start: start as usize, end: end as usize },
        )
    &&& forall|i: int, j: int|
        0 <= i < j < runs.len() ==> (#[trigger] runs[i]).end <= (#[trigger] runs[j]).start
}

/// Whether `runs` are all the runs of the kind that count, in the order in
/// which they occur.
pub open spec fn lists_runs(kind: RunKind, strokes: Seq<Stroke>, runs: Seq<Run>) -> bool {
    lists_runs_up_to(kind, strokes, runs, strokes.len() as int)
}

/// Whether all key presses from `start` up to `end` are in one row.
pub open spec fn in_one_row(strokes: Seq<Stroke>, start: int, end: int) -> bool {
    forall|i: int| start <= i < end ==> (#[trigger] strokes[i]).row == strokes[start].row
}

/// How many key presses are made by the finger that made the one before.
pub open spec fn repeats(strokes: Seq<Stroke>) -> nat
    decreases strokes.len(),
{
    if strokes.len() < 2 {
        0
    } else {
        let before = repeats(strokes.drop_last());
        if same_finger(strokes[strokes.len() - 2], strokes.last()) {
            before + 1
        } else {
            before
        }
    }
}

/// Whether key press `b` may follow key press `a` in a run of the kind.
pub fn follows(kind: RunKind, a: &Stroke, b: &Stroke) -> (yes: bool)
    ensures
        yes == linked(kind, *a, *b),
{
    match kind {
        RunKind::Alternation => a.hand != b.hand,
        RunKind::Roll => {
            let near = if a.row >= b.row {
                a.row - b.row <= 1
            } else {
                b.row - a.row <= 1
            };
            a.hand == b.hand && a.finger != b.finger && near
        },
    }
}

/// A run ends where its last link ends: a run that counts and reaches
/// beyond `start` is the stretch from `start` up to `end`, if that stretch
/// is a run that nothing leads into and nothing follows from.
proof fn lemma_run_is_the_stretch(
    kind: RunKind,
    strokes: Seq<Stroke>,
    start: int,
    end: int,
    a: int,
    b: int,
)
    requires
        is_maximal_run(kind, strokes, start, end),
        is_maximal_run(kind, strokes, a, b),
        start < b <= end,
    ensures
        a == start,
        b == end,
{
    if b < end {
        assert(linked(kind, strokes[b - 1], strokes[b]));
    }
    if a > start {
        assert(linked(kind, strokes[a - 1], strokes[a - 1 + 1]));
    }
    if a < start {
        assert(linked(kind, strokes[start - 1], strokes[start - 1 + 1]));
    }
}

/// The runs of the kind that count: the stretches of three key presses or
/// more in which each may follow the one before, and which cannot be made
/// longer at either end. They come in the order in which they occur.
pub fn runs(kind: RunKind, strokes: &Vec<Stroke>) -> (found: Vec<Run>)
    ensures
        lists_runs(kind, strokes@, found@),
{
    let n = strokes.len();
    let mut found: Vec<Run> = Vec::new();
    if n == 0 {
        return found;
    }
    let mut start: usize = 0;
    let mut i: usize = 1;
    while i < n
        invariant
            n == strokes@.len(),
            0 <= start < i <= n,
            is_run(kind, strokes@, start as int, i as int),
            start > 0 ==> !linked(kind, strokes@[start - 1], strokes@[start as int]),
            lists_runs_up_to(kind, strokes@, found@, start as int),
        decreases n - i,
    {
        if !follows(kind, &strokes[i - 1], &strokes[i]) {
            let ghost before = found@;
            assert(is_maximal_run(kind, strokes@, start as int, i as int));
            if i - start >= 3 {
                found.push(Run { start, end: i });
                assert(found@[before.len() as int] == (Run { start, end: i }));
            }
            proof {
                assert forall|a: int, b: int| #[trigger]
                    counts(kind, strokes@, a, b) && b <= i implies found@.contains(
                    Run { start: a as usize, end: b as usize },
                ) by {
                    if b <= start {
                        let r = Run { start: a as usize, end: b as usize };
                        assert(before.contains(r));
                        let k = choose|k: int| 0 <= k < before.len() && before[k] == r;
                        assert(found@[k] == r);
                    } else {
                        lemma_run_is_the_stretch(kind, strokes@, start as int, i as int, a, b);
                        assert(found@[before.len() as int] == (Run { start, end: i }));
                    }
                }
                assert forall|k: int| 0 <= k < found@.len() implies counts(
                    kind,
                    strokes@,
                    (#[trigger] found@[k]).start as int,
                    found@[k].end as int,
                ) && found@[k].end <= i by {
                    if k < before.len() {
                        assert(found@[k] == before[k]);
                    }
                }
                assert forall|k: int, j: int| 0 <= k < j < found@.len() implies (
                #[trigger] found@[k]).end <= (#[trigger] found@[j]).start by {
                    assert(found@[k] == before[k]);
                    if j < before.len() {
                        assert(found@[j] == before[j]);
                    }
                }
            }
            start = i;
        }
        i += 1;
    }
    let ghost before = found@;
    assert(is_maximal_run(kind, strokes@, start as int, n as int));
    if n - start >= 3 {
        found.push(Run { start, end: n });
        assert(found@[before.len() as int] == (Run { start, end: n }));
    }
    proof {
        assert forall|a: int, b: int| #[trigger]
            counts(kind, strokes@, a, b) && b <= n implies found@.contains(
            Run { start: a as usize, end: b as usize },
        ) by {
            if b <= start {
                let r = Run { start: a as usize, end: b as usize };
                assert(before.contains(r));
                let k = choose|k: int| 0 <= k < before.len() && before[k] == r;
                assert(found@[k] == r);
            } else {
                lemma_run_is_the_stretch(kind, strokes@, start as int, n as int, a, b);
                assert(found@[before.len() as int] == (Run { start, end: n }));
            }
        }
        assert forall|k: int| 0 <= k < found@.len() implies counts(
            kind,
            strokes@,
            (#[trigger] found@[k]).start as int,
            found@[k].end as int,
        ) && found@[k].end <= n by {
            if k < before.len() {
                assert(found@[k] == before[k]);
            }
        }
        assert forall|k: int, j: int| 0 <= k < j < found@.len() implies (#[trigger] found@[k]).end
            <= (#[trigger] found@[j]).start by {
            assert(found@[k] == before[k]);
            if j < before.len() {
                assert(found@[j] == before[j]);
            }
        }
    }
    found
}

/// Whether all key presses of a run are in one row.
pub fn is_in_one_row(strokes: &Vec<Stroke>, run: &Run) -> (yes: bool)
    requires
        run.start <= run.end <= strokes@.len(),
    ensures
        yes == in_one_row(strokes@, run.start as int, run.end as int),
{
    let mut i: usize = run.start;
    while i < run.end
        invariant
            run.start <= i <= run.end <= strokes@.len(),
            forall|j: int| run.start <= j < i ==> (#[trigger] strokes@[j]).row == strokes@[run.start as int].row,
        decreases run.end - i,
    {
        if strokes[i].row != strokes[run.start].row {
            return false;
        }
        i += 1;
    }
    true
}

/// How many key presses are made by the finger that made the one before.
pub fn count_repeats(strokes: &Vec<Stroke>) -> (count: usize)
    ensures
        count == repeats(strokes@),
{
    let mut count: usize = 0;
    let mut i: usize = 1;
    if strokes.len() < 2 {
        return 0;
    }
    assert(strokes@.take(1).len() < 2);
    while i < strokes.len()
        invariant
            1 <= i <= strokes.len(),
            count == repeats(strokes@.take(i as int)),
            count < i,
        decreases strokes.len() - i,
    {
        proof {
            let done = strokes@.take(i + 1);
            assert(done.drop_last() =~= strokes@.take(i as int));
            assert(done[done.len() - 2] == strokes@[i - 1]);
            assert(done.last() == strokes@[i as int]);
        }
        let a = strokes[i - 1];
        let b = strokes[i];
        if a.hand == b.hand && a.finger == b.finger {
            count += 1;
        }
        i += 1;
    }
    assert(strokes@.take(strokes@.len() as int) =~= strokes@);
    count
}

/// Three key presses on which the hands take turns are a run that counts,
/// and so earn what is granted for alternation.
pub proof fn lemma_three_turns_count(strokes: Seq<Stroke>)
    requires
        strokes.len() == 3,
        strokes[0].hand != strokes[1].hand,
        strokes[1].hand != strokes[2].hand,
    ensures
        counts(RunKind::Alternation, strokes, 0, 3),
{
}

/// Key presses of one hand hold no run of alternation that counts, however
/// many they are.
pub proof fn lemma_one_hand_never_counts(strokes: Seq<Stroke>, start: int, end: int)
    requires
        forall|i: int| 0 <= i < strokes.len() ==> (#[trigger] strokes[i]).hand == strokes[0].hand,
    ensures
        !counts(RunKind::Alternation, strokes, start, end),
{
    if counts(RunKind::Alternation, strokes, start, end) {
        assert(linked(RunKind::Alternation, strokes[start], strokes[start + 1]));
        assert(strokes[start].hand == strokes[0].hand);
        assert(strokes[start + 1].hand == strokes[0].hand);
    }
}

/// Of two key presses, one repeat is counted if one finger makes both, and
/// none if two fingers do.
pub proof fn lemma_repeat_of_two(first: Stroke, second: Stroke)
    ensures
        repeats(seq![first, second]) == if same_finger(first, second) {
            1nat
        } else {
            0nat
        },
{
    let both = seq![first, second];
    assert(both.drop_last() =~= seq![first]);
    assert(repeats(seq![first]) == 0);
    assert(both[both.len() - 2] == first);
    assert(both.last() == second);
}

} // verus!
