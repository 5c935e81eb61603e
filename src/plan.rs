//! The pass planner: how many marks each category targets, how many
//! positions each of its passes selects, and why the passes fit the budget.
use vstd::prelude::*;
use crate::decoration::{column_sum, scheduled};
use crate::joinerator::{GeneratorFrequency, GeneratorOptions, Options};

verus! {

/// The number of marks one pass of a category with frequency `f` targets, for
/// an input of `n` characters (a percentage is truncated).
pub open spec fn target_count(f: GeneratorFrequency, n: nat) -> nat {
    match f {
        GeneratorFrequency::Percentage { numerator, denominator } => ((numerator as nat) * n
            / (denominator as nat)) as nat,
        GeneratorFrequency::Fixed(k) => k as nat,
    }
}

/// The sum over all categories of target count times stacking.
pub open spec fn total_target_marks(gen: Seq<GeneratorOptions>, n: nat) -> nat
    decreases gen.len(),
{
    if gen.len() == 0 {
        0
    } else {
        total_target_marks(gen.drop_last(), n) + target_count(gen.last().frequency, n) * (
        gen.last().stacking as nat)
    }
}

/// The largest stacking of any category: the number of scheduling rounds.
pub open spec fn total_iterations(gen: Seq<GeneratorOptions>) -> nat
    decreases gen.len(),
{
    if gen.len() == 0 {
        0
    } else {
        let rest = total_iterations(gen.drop_last());
        if gen.last().stacking > rest {
            gen.last().stacking as nat
        } else {
            rest
        }
    }
}

/// The number of positions one pass tries to select: the target itself when no
/// limit is set, else the target scaled by remaining budget / total targets.
pub open spec fn pass_bound(limit: Option<usize>, target: nat, total: nat, n: nat) -> nat {
    match limit {
        None => target,
        Some(l) => if total == 0 {
            0
        } else {
            (target * ((l - n) as nat) / total) as nat
        },
    }
}

/// The number of positions that each pass of category `k` selects.
pub open spec fn selected_per_pass(
    limit: Option<usize>,
    gen: Seq<GeneratorOptions>,
    k: int,
    n: nat,
) -> nat {
    cap(pass_bound(limit, target_count(gen[k].frequency, n), total_target_marks(gen, n), n), n)
}

/// The smaller of `b` and `n`.
pub open spec fn cap(b: nat, n: nat) -> nat {
    if b < n {
        b
    } else {
        n
    }
}

pub(crate) proof fn lemma_total_iterations_ge(gen: Seq<GeneratorOptions>, k: int)
    requires
        0 <= k < gen.len(),
    ensures
        total_iterations(gen) >= gen[k].stacking,
    decreases gen.len(),
{
    if k < gen.len() - 1 {
        lemma_total_iterations_ge(gen.drop_last(), k);
    }
}

/// With a total of at least `u128::MAX`, the scaled bound of a pass is zero,
/// and it is zero also when the total is taken as `u128::MAX`.
pub(crate) proof fn lemma_saturated_bound(c: nat, b: nat, t: nat)
    requires
        c <= u64::MAX,
        b <= u64::MAX,
        t >= u128::MAX,
    ensures
        c * b / t == 0,
        c * b / (u128::MAX as nat) == 0,
{
    assert(c * b <= u64::MAX * u64::MAX) by (nonlinear_arith)
        requires
            c <= u64::MAX,
            b <= u64::MAX,
    ;
    vstd::arithmetic::div_mod::lemma_basic_div((c * b) as int, t as int);
    vstd::arithmetic::div_mod::lemma_basic_div((c * b) as int, u128::MAX as int);
}

/// The sum of the first `k` counters of `row`.
pub open spec fn prefix_sum(row: Seq<usize>, k: int) -> int
    decreases k,
{
    if k <= 0 {
        0
    } else {
        prefix_sum(row, k - 1) + row[k - 1]
    }
}

/// The sum of the first `width` counters of every row of `p`.
pub open spec fn rows_total(p: Seq<Seq<usize>>, width: int) -> int
    decreases p.len(),
{
    if p.len() == 0 {
        0
    } else {
        rows_total(p.drop_last(), width) + prefix_sum(p.last(), width)
    }
}

/// The sum of the first `k` columns of `p`.
pub open spec fn columns_total(p: Seq<Seq<usize>>, k: int) -> int
    decreases k,
{
    if k <= 0 {
        0
    } else {
        columns_total(p, k - 1) + column_sum(p, k - 1)
    }
}

/// The marks the passes of the first `k` generator entries schedule.
pub open spec fn planned_marks(
    limit: Option<usize>,
    gen: Seq<GeneratorOptions>,
    k: int,
    n: nat,
) -> int
    decreases k,
{
    if k <= 0 {
        0
    } else {
        planned_marks(limit, gen, k - 1, n) + gen[k - 1].stacking * selected_per_pass(
            limit,
            gen,
            k - 1,
            n,
        )
    }
}

pub(crate) proof fn lemma_prefix_sum_monotone(row: Seq<usize>, a: int, b: int)
    requires
        0 <= a <= b <= row.len(),
    ensures
        0 <= prefix_sum(row, a) <= prefix_sum(row, b),
    decreases b,
{
    if a < b {
        lemma_prefix_sum_monotone(row, a, b - 1);
    } else if a > 0 {
        lemma_prefix_sum_monotone(row, 0, a - 1);
    }
}

pub(crate) proof fn lemma_rows_total_prefix(p: Seq<Seq<usize>>, width: int, j: int)
    requires
        0 <= j <= p.len(),
        forall|i: int| 0 <= i < p.len() ==> (#[trigger] p[i]).len() >= width >= 0,
    ensures
        0 <= rows_total(p.subrange(0, j), width) <= rows_total(p, width),
    decreases p.len(),
{
    if j == p.len() {
        assert(p.subrange(0, j) =~= p);
        if p.len() > 0 {
            lemma_rows_total_prefix(p.drop_last(), width, j - 1);
            assert(p.drop_last().subrange(0, j - 1) =~= p.drop_last());
            lemma_prefix_sum_monotone(p.last(), 0, width);
        }
    } else {
        lemma_rows_total_prefix(p.drop_last(), width, j);
        assert(p.drop_last().subrange(0, j) =~= p.subrange(0, j));
        lemma_prefix_sum_monotone(p.last(), 0, width);
    }
}

pub(crate) proof fn lemma_columns_push(p: Seq<Seq<usize>>, row: Seq<usize>, k: int)
    requires
        0 <= k <= row.len(),
    ensures
        columns_total(p.push(row), k) == columns_total(p, k) + prefix_sum(row, k),
    decreases k,
{
    if k > 0 {
        lemma_columns_push(p, row, k - 1);
        assert(p.push(row).drop_last() =~= p);
    }
}

pub(crate) proof fn lemma_rows_columns(p: Seq<Seq<usize>>, width: int)
    requires
        width >= 0,
        forall|i: int| 0 <= i < p.len() ==> (#[trigger] p[i]).len() == width,
    ensures
        rows_total(p, width) == columns_total(p, width),
    decreases p.len(),
{
    if p.len() == 0 {
        lemma_columns_empty(p, width);
    } else {
        let rest = p.drop_last();
        lemma_rows_columns(rest, width);
        assert(rest.push(p.last()) =~= p);
        lemma_columns_push(rest, p.last(), width);
    }
}

pub(crate) proof fn lemma_columns_empty(p: Seq<Seq<usize>>, k: int)
    requires
        p.len() == 0,
    ensures
        columns_total(p, k) == 0,
    decreases k,
{
    if k > 0 {
        lemma_columns_empty(p, k - 1);
    }
}

pub(crate) proof fn lemma_columns_planned(opts: Options, s: Seq<char>, p: Seq<Seq<usize>>, k: int)
    requires
        scheduled(opts, s, p),
        0 <= k <= opts.generator@.len(),
    ensures
        columns_total(p, k) == planned_marks(opts.limit, opts.generator@, k, s.len()),
    decreases k,
{
    if k > 0 {
        lemma_columns_planned(opts, s, p, k - 1);
        assert(column_sum(p, k - 1) == opts.generator@[k - 1].stacking * selected_per_pass(
            opts.limit,
            opts.generator@,
            k - 1,
            s.len(),
        ));
    }
}

/// Scaled by `budget / total`, the passes of the first `k` entries schedule
/// at most `budget` times their share of the total.
pub(crate) proof fn lemma_planned_share(l: usize, gen: Seq<GeneratorOptions>, k: int, n: nat)
    requires
        l > n,
        0 <= k <= gen.len(),
        total_target_marks(gen, n) > 0,
    ensures
        planned_marks(Some(l), gen, k, n) * total_target_marks(gen, n) <= (l - n)
            * total_target_marks(gen.subrange(0, k), n),
        planned_marks(Some(l), gen, k, n) >= 0,
    decreases k,
{
    let t = total_target_marks(gen, n) as int;
    let b = (l - n) as int;
    if k == 0 {
        assert(gen.subrange(0, 0) =~= Seq::<GeneratorOptions>::empty());
    } else {
        lemma_planned_share(l, gen, k - 1, n);
        let prefix = gen.subrange(0, k);
        assert(prefix.drop_last() =~= gen.subrange(0, k - 1));
        assert(prefix.last() == gen[k - 1]);
        let target = target_count(gen[k - 1].frequency, n) as int;
        let st = gen[k - 1].stacking as int;
        let sel = selected_per_pass(Some(l), gen, k - 1, n) as int;
        let q = target * b / t;
        assert(q * t <= target * b) by (nonlinear_arith)
            requires
                t > 0,
                target * b >= 0,
                q == target * b / t,
        ;
        assert(sel <= q);
        let before = planned_marks(Some(l), gen, k - 1, n);
        let tk = total_target_marks(gen.subrange(0, k - 1), n) as int;
        assert((before + st * sel) * t <= b * (tk + target * st)) by (nonlinear_arith)
            requires
                before * t <= b * tk,
                sel <= q,
                q * t <= target * b,
                st >= 0,
                sel >= 0,
                t > 0,
        ;
    }
}

/// Under a limit above the input's length, the passes never schedule more
/// marks than the budget holds.
pub(crate) proof fn lemma_planned_within_budget(l: usize, gen: Seq<GeneratorOptions>, n: nat)
    requires
        l > n,
    ensures
        planned_marks(Some(l), gen, gen.len() as int, n) <= l - n,
{
    let t = total_target_marks(gen, n);
    if t == 0 {
        lemma_planned_zero(l, gen, gen.len() as int, n);
    } else {
        lemma_planned_share(l, gen, gen.len() as int, n);
        assert(gen.subrange(0, gen.len() as int) =~= gen);
        let pm = planned_marks(Some(l), gen, gen.len() as int, n);
        assert(pm <= l - n) by (nonlinear_arith)
            requires
                pm * t <= (l - n) * t,
                t > 0,
        ;
    }
}

pub(crate) proof fn lemma_planned_zero(l: usize, gen: Seq<GeneratorOptions>, k: int, n: nat)
    requires
        total_target_marks(gen, n) == 0,
        0 <= k <= gen.len(),
    ensures
        planned_marks(Some(l), gen, k, n) == 0,
    decreases k,
{
    if k > 0 {
        lemma_planned_zero(l, gen, k - 1, n);
        let b = pass_bound(Some(l), target_count(gen[k - 1].frequency, n), 0, n);
        assert(b == 0);
        assert(selected_per_pass(Some(l), gen, k - 1, n) == 0);
    }
}

} // verus!
