//! The numbers behind the population chart: its peak and a clean axis for it.

use crate::session::{History, HistoryPoint};
use vstd::prelude::*;

verus! {

/// The largest power of ten, from `magnitude` up by tens, that is at most
/// `raw`.
pub open spec fn axis_magnitude(raw: nat, magnitude: nat) -> nat
    decreases raw - magnitude,
{
    if magnitude > 0 && magnitude * 10 <= raw {
        axis_magnitude(raw, magnitude * 10)
    } else {
        magnitude
    }
}

/// The smallest of one, two, five and ten times `magnitude` that reaches `raw`.
pub open spec fn axis_step(raw: nat, magnitude: nat) -> nat {
    if magnitude >= raw {
        magnitude
    } else if 2 * magnitude >= raw {
        2 * magnitude
    } else if 5 * magnitude >= raw {
        5 * magnitude
    } else {
        10 * magnitude
    }
}

/// `n` divided by `d`, rounded up.
pub open spec fn ceil_div(n: nat, d: nat) -> nat {
    if n % d == 0 {
        n / d
    } else {
        n / d + 1
    }
}

/// The axis bound: at least four.
pub open spec fn axis_bound(max: nat) -> nat {
    if max < 4 {
        4
    } else {
        max
    }
}

/// The step of the axis for populations up to `max`.
pub open spec fn nice_step(max: nat) -> nat {
    let raw = ceil_div(axis_bound(max), 4);
    axis_step(raw, axis_magnitude(raw, 1))
}

/// The top of the axis for populations up to `max`: the bound rounded up to
/// a whole number of steps.
pub open spec fn nice_top(max: nat) -> nat {
    ceil_div(axis_bound(max), nice_step(max)) * nice_step(max)
}

pub proof fn lemma_magnitude(raw: nat, magnitude: nat)
    requires
        1 <= magnitude <= raw,
    ensures
        magnitude <= axis_magnitude(raw, magnitude) <= raw,
        axis_magnitude(raw, magnitude) * 10 > raw,
    decreases raw - magnitude,
{
    if magnitude * 10 <= raw {
        lemma_magnitude(raw, magnitude * 10);
    }
}

/// A clean y-axis for populations up to `max`: returns `(top, step)` with a
/// step of one, two or five times a power of ten and at most four intervals.
pub fn nice_axis(max: usize) -> (axis: (usize, usize))
    requires
        axis_magnitude(ceil_div(axis_bound(max as nat), 4), 1) * 10 <= usize::MAX,
        nice_top(max as nat) <= usize::MAX,
    ensures
        axis.0 == nice_top(max as nat),
        axis.1 == nice_step(max as nat),
{
    let max = if max < 4 {
        4
    } else {
        max
    };
    let raw = if max % 4 == 0 {
        max / 4
    } else {
        max / 4 + 1
    };
    let ghost bound = axis_magnitude(raw as nat, 1);
    proof {
        lemma_magnitude(raw as nat, 1);
    }
    let mut magnitude: usize = 1;
    while magnitude * 10 <= raw
        invariant
            1 <= magnitude <= raw,
            axis_magnitude(raw as nat, magnitude as nat) == bound,
            bound * 10 <= usize::MAX,
        decreases raw - magnitude,
    {
        proof {
            lemma_magnitude(raw as nat, magnitude as nat);
        }
        magnitude = magnitude * 10;
    }
    proof {
        lemma_magnitude(raw as nat, magnitude as nat);
    }
    let step = if magnitude >= raw {
        magnitude
    } else if 2 * magnitude >= raw {
        2 * magnitude
    } else if 5 * magnitude >= raw {
        5 * magnitude
    } else {
        10 * magnitude
    };
    proof {
        assert(step >= 1);
        assert(max / step <= max) by (nonlinear_arith)
            requires
                step >= 1,
        ;
        if max % step != 0 {
            assert(step != 1);
            assert(max / step <= max / 2) by (nonlinear_arith)
                requires
                    step >= 2,
            ;
        }
    }
    let intervals = if max % step == 0 {
        max / step
    } else {
        max / step + 1
    };
    (intervals * step, step)
}

/// The highest population in the points.
pub open spec fn points_peak(points: Seq<HistoryPoint>) -> nat
    decreases points.len(),
{
    if points.len() == 0 {
        0
    } else {
        let last = points.last();
        let higher = if last.aphids >= last.ladybugs {
            last.aphids as nat
        } else {
            last.ladybugs as nat
        };
        let rest = points_peak(points.drop_last());
        if higher >= rest {
            higher
        } else {
            rest
        }
    }
}

/// The highest population in the history, of either species; zero when the
/// history is empty.
pub fn history_peak<C>(history: &History<C>) -> (peak: usize)
    ensures
        peak == points_peak(history.0@),
        forall|k: int| 0 <= k < history.0@.len() ==> peak >= (#[trigger] history.0@[k]).aphids && peak
            >= history.0@[k].ladybugs,
        history.0@.len() > 0 ==> exists|k: int| 0 <= k < history.0@.len() && (peak == (#[trigger] history.0@[k]).aphids
            || peak == history.0@[k].ladybugs),
{
    proof {
        crate::laws::law_peak_is_the_highest_population(history.0@);
    }
    let mut peak: usize = 0;
    let mut k: usize = 0;
    while k < history.0.len()
        invariant
            k <= history.0@.len(),
            peak == points_peak(history.0@.subrange(0, k as int)),
        decreases history.0@.len() - k,
    {
        let point = history.0[k];
        let higher = if point.aphids >= point.ladybugs {
            point.aphids
        } else {
            point.ladybugs
        };
        proof {
            assert(history.0@.subrange(0, k + 1).drop_last() =~= history.0@.subrange(0, k as int));
        }
        if higher >= peak {
            peak = higher;
        }
        k = k + 1;
    }
    proof {
        assert(history.0@.subrange(0, history.0@.len() as int) =~= history.0@);
    }
    peak
}

/// The values the y-axis labels: every multiple of `step` from zero up to
/// `top`.
pub fn y_ticks(top: usize, step: usize) -> (ticks: Vec<usize>)
    requires
        step >= 1,
    ensures
        ticks@.len() == top / step + 1,
        forall|j: int| 0 <= j < ticks@.len() ==> #[trigger] ticks@[j] == j * step,
{
    let last = top / step;
    proof {
        assert(last * step <= top) by (nonlinear_arith)
            requires
                step >= 1,
                last == top / step,
        ;
    }
    let mut ticks: Vec<usize> = Vec::new();
    let mut i: usize = 0;
    loop
        invariant_except_break
            i <= last,
            ticks@.len() == i,
        invariant
            step >= 1,
            last == top / step,
            last * step <= top,
            forall|j: int| 0 <= j < ticks@.len() ==> #[trigger] ticks@[j] == j * step,
        ensures
            ticks@.len() == last + 1,
        decreases last - i,
    {
        proof {
            assert(i * step <= last * step) by (nonlinear_arith)
                requires
                    i <= last,
                    step >= 1,
            ;
        }
        ticks.push(i * step);
        if i == last {
            break;
        }
        i = i + 1;
    }
    ticks
}

/// The history indices the x-axis labels: the first, the middle and the last
/// turn, each once.
pub open spec fn x_tick_indices(len: nat) -> Seq<usize> {
    if len <= 1 {
        seq![0]
    } else if len == 2 {
        seq![0, 1]
    } else {
        seq![0, ((len - 1) / 2) as usize, (len - 1) as usize]
    }
}

/// The history indices the x-axis labels for a history of `len` points: the
/// first, the middle and the last, each once.
pub fn x_ticks(len: usize) -> (ticks: Vec<usize>)
    requires
        len >= 1,
    ensures
        ticks@ == x_tick_indices(len as nat),
{
    let last = len - 1;
    let middle = last / 2;
    let mut ticks: Vec<usize> = Vec::new();
    ticks.push(0);
    if middle != 0 {
        ticks.push(middle);
    }
    if last != middle {
        ticks.push(last);
    }
    proof {
        if len > 2 {
            assert(ticks@ =~= seq![0, ((len - 1) / 2) as usize, (len - 1) as usize]);
        } else if len == 2 {
            assert(ticks@ =~= seq![0usize, 1usize]);
        } else {
            assert(ticks@ =~= seq![0usize]);
        }
    }
    ticks
}

} // verus!
