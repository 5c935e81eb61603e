//! The shape of a decorated string: every input character followed by the
//! marks put on it, and what holds of every decoration the engine produces.
use vstd::prelude::*;
use crate::joinerator::{Bucket, BucketItem, Options};
use crate::plan::selected_per_pass;
use crate::repertoire::{GlyphPosition, accepts};

verus! {

/// The pending counters of a bucket: one row per character, one column per
/// generator entry.
pub open spec fn pending(b: Bucket) -> Seq<Seq<usize>> {
    b.chars@.map_values(|item: BucketItem| item.additional_glyphs@)
}

/// The sum of column `k` of a table of counters.
pub open spec fn column_sum(p: Seq<Seq<usize>>, k: int) -> int
    decreases p.len(),
{
    if p.len() == 0 {
        0
    } else {
        column_sum(p.drop_last(), k) + p.last()[k]
    }
}

/// The number of `true` values in `s`.
pub open spec fn count_true(s: Seq<bool>) -> nat {
    s.to_multiset().count(true)
}

pub(crate) proof fn lemma_count_true_prefix(n: nat, sel: nat)
    requires
        sel <= n,
    ensures
        count_true(Seq::new(n, |t: int| t < sel)) == sel,
    decreases n,
{
    broadcast use vstd::seq_lib::group_to_multiset_ensures;

    if n == 0 {
        assert(Seq::new(n, |t: int| t < sel) =~= Seq::<bool>::empty());
    } else if sel == n {
        lemma_count_true_prefix((n - 1) as nat, (n - 1) as nat);
        assert(Seq::new(n, |t: int| t < sel) =~= Seq::new((n - 1) as nat, |t: int| t < n - 1).push(
            true,
        ));
    } else {
        lemma_count_true_prefix((n - 1) as nat, sel);
        assert(Seq::new(n, |t: int| t < sel) =~= Seq::new((n - 1) as nat, |t: int| t < sel).push(
            false,
        ));
    }
}

pub(crate) proof fn lemma_column_sum_add(
    before: Seq<Seq<usize>>,
    after: Seq<Seq<usize>>,
    mask: Seq<bool>,
    k: int,
)
    requires
        before.len() == after.len(),
        mask.len() == after.len(),
        forall|t: int|
            0 <= t < after.len() ==> #[trigger] after[t][k] == before[t][k] + (if mask[t] {
                1int
            } else {
                0int
            }),
    ensures
        column_sum(after, k) == column_sum(before, k) + count_true(mask),
    decreases after.len(),
{
    broadcast use vstd::seq_lib::group_to_multiset_ensures;

    if after.len() == 0 {
        assert(mask =~= Seq::<bool>::empty());
    } else {
        let last = after.len() - 1;
        lemma_column_sum_add(before.drop_last(), after.drop_last(), mask.drop_last(), k);
        assert(mask.drop_last().push(mask.last()) =~= mask);
        assert(after[last][k] == before[last][k] + (if mask[last] {
            1int
        } else {
            0int
        }));
    }
}

/// The concatenation of `parts`.
pub open spec fn join(parts: Seq<Seq<char>>) -> Seq<char>
    decreases parts.len(),
{
    if parts.len() == 0 {
        Seq::empty()
    } else {
        join(parts.drop_last()) + parts.last()
    }
}

/// The first `m.len()` characters of `s`, each followed by its marks: `m[i][k]`
/// holds the marks of generator entry `k` put on `s[i]`.
pub open spec fn assemble(s: Seq<char>, m: Seq<Seq<Seq<char>>>) -> Seq<char>
    decreases m.len(),
{
    if m.len() == 0 {
        Seq::empty()
    } else {
        assemble(s, m.drop_last()) + seq![s[m.len() - 1]] + join(m.last())
    }
}

/// Glyph `j` of the repertoire has position `category` and, unless unreadable
/// combinations are allowed, accepts the base character `c`.
pub open spec fn usable(opts: Options, j: int, category: GlyphPosition, c: char) -> bool {
    let g = opts.repertoire.glyphs@[j];
    &&& 0 <= j < opts.repertoire.glyphs@.len()
    &&& g.position == category
    &&& opts.allow_unreadable || accepts(g, c)
}

/// Some glyph of `category` may be put on `c`.
pub open spec fn has_applicable(opts: Options, category: GlyphPosition, c: char) -> bool {
    exists|j: int| usable(opts, j, category, c)
}

/// `x` is the code point of a glyph of `category` that may be put on `c`.
pub open spec fn is_mark(opts: Options, category: GlyphPosition, c: char, x: char) -> bool {
    exists|j: int| usable(opts, j, category, c) && opts.repertoire.glyphs@[j].codepoint == x
}

/// The marks `ms` (one sequence per generator entry) may be put on `c` when
/// its pending counters are `row`.
pub open spec fn marks_fit(opts: Options, c: char, row: Seq<usize>, ms: Seq<Seq<char>>) -> bool {
    let gen = opts.generator@;
    &&& ms.len() == gen.len()
    &&& forall|k: int|
        0 <= k < gen.len() ==> {
            &&& (#[trigger] ms[k]).len() <= row[k]
            &&& !has_applicable(opts, gen[k].category, c) ==> ms[k].len() == 0
            &&& has_applicable(opts, gen[k].category, c) ==> ms[k].len() == row[k]
            &&& forall|t: int| 0 <= t < ms[k].len() ==> is_mark(opts, gen[k].category, c, ms[k][t])
        }
}

/// `p` is a table of pending counters that the passes can produce for the
/// input `s`, and `m` the marks that rendering can put on each character.
pub open spec fn decorated(
    opts: Options,
    s: Seq<char>,
    p: Seq<Seq<usize>>,
    m: Seq<Seq<Seq<char>>>,
) -> bool {
    &&& scheduled(opts, s, p)
    &&& m.len() == s.len()
    &&& forall|i: int| 0 <= i < s.len() ==> #[trigger] marks_fit(opts, s[i], p[i], m[i])
}

/// `p` is a table of pending counters that the passes can produce for the
/// input `s`: column `k` sums to `stacking` times the positions selected per
/// pass, and no counter exceeds the entry's stacking.
pub open spec fn scheduled(opts: Options, s: Seq<char>, p: Seq<Seq<usize>>) -> bool {
    let gen = opts.generator@;
    let n = s.len();
    &&& p.len() == n
    &&& forall|i: int| 0 <= i < n ==> (#[trigger] p[i]).len() == gen.len()
    &&& forall|k: int|
        0 <= k < gen.len() ==> #[trigger] column_sum(p, k) == gen[k].stacking * selected_per_pass(
            opts.limit,
            gen,
            k,
            n,
        )
    &&& forall|i: int, k: int|
        0 <= i < n && 0 <= k < gen.len() ==> #[trigger] p[i][k] <= gen[k].stacking
}

pub(crate) proof fn lemma_column_sum_same(before: Seq<Seq<usize>>, after: Seq<Seq<usize>>, k: int)
    requires
        before.len() == after.len(),
        forall|t: int| 0 <= t < after.len() ==> #[trigger] after[t][k] == before[t][k],
    ensures
        column_sum(after, k) == column_sum(before, k),
    decreases after.len(),
{
    if after.len() > 0 {
        lemma_column_sum_same(before.drop_last(), after.drop_last(), k);
        assert(after[after.len() - 1][k] == before[before.len() - 1][k]);
    }
}

pub(crate) proof fn lemma_column_sum_zero(p: Seq<Seq<usize>>, k: int)
    requires
        forall|t: int| 0 <= t < p.len() ==> #[trigger] p[t][k] == 0,
    ensures
        column_sum(p, k) == 0,
    decreases p.len(),
{
    if p.len() > 0 {
        lemma_column_sum_zero(p.drop_last(), k);
        assert(p[p.len() - 1][k] == 0);
    }
}

pub(crate) proof fn lemma_assemble_push(s: Seq<char>, m: Seq<Seq<Seq<char>>>, ms: Seq<Seq<char>>)
    requires
        m.len() < s.len(),
    ensures
        assemble(s, m.push(ms)) == assemble(s, m) + seq![s[m.len() as int]] + join(ms),
{
    assert(m.push(ms).drop_last() =~= m);
}

/// The number of marks in `m`.
pub open spec fn total_marks(m: Seq<Seq<Seq<char>>>) -> nat
    decreases m.len(),
{
    if m.len() == 0 {
        0
    } else {
        total_marks(m.drop_last()) + join(m.last()).len()
    }
}

/// Decorating adds exactly the marks to the input's length, so the result is
/// never shorter than the input.
pub proof fn lemma_decorated_length(s: Seq<char>, m: Seq<Seq<Seq<char>>>)
    requires
        m.len() <= s.len(),
    ensures
        assemble(s, m).len() == m.len() + total_marks(m),
        assemble(s, m).len() >= m.len(),
    decreases m.len(),
{
    if m.len() > 0 {
        lemma_decorated_length(s, m.drop_last());
    }
}

pub(crate) proof fn lemma_join_empty(parts: Seq<Seq<char>>)
    requires
        forall|k: int| 0 <= k < parts.len() ==> (#[trigger] parts[k]).len() == 0,
    ensures
        join(parts) == Seq::<char>::empty(),
    decreases parts.len(),
{
    if parts.len() > 0 {
        lemma_join_empty(parts.drop_last());
        assert(parts[parts.len() - 1].len() == 0);
        assert(join(parts) =~= Seq::<char>::empty());
    }
}

pub(crate) proof fn lemma_assemble_bare(s: Seq<char>, m: Seq<Seq<Seq<char>>>)
    requires
        m.len() <= s.len(),
        forall|i: int| 0 <= i < m.len() ==> join(#[trigger] m[i]) == Seq::<char>::empty(),
    ensures
        assemble(s, m) == s.subrange(0, m.len() as int),
    decreases m.len(),
{
    if m.len() > 0 {
        let j = m.len() - 1;
        lemma_assemble_bare(s, m.drop_last());
        assert(join(m[j]) == Seq::<char>::empty());
        assert(s.subrange(0, m.len() as int) =~= s.subrange(0, j) + seq![s[j]]);
        assert(assemble(s, m) =~= s.subrange(0, m.len() as int));
    }
}

/// When every configured category has a stacking of zero (in particular when
/// none is configured), decorating leaves the input unchanged.
pub proof fn lemma_disabled_categories(
    opts: Options,
    s: Seq<char>,
    p: Seq<Seq<usize>>,
    m: Seq<Seq<Seq<char>>>,
)
    requires
        decorated(opts, s, p, m),
        forall|k: int| 0 <= k < opts.generator@.len() ==> (#[trigger] opts.generator@[k]).stacking
            == 0,
    ensures
        assemble(s, m) == s,
{
    let gen = opts.generator@;
    assert forall|i: int| 0 <= i < m.len() implies join(#[trigger] m[i]) == Seq::<char>::empty() by {
        assert(marks_fit(opts, s[i], p[i], m[i]));
        assert forall|k: int| 0 <= k < m[i].len() implies (#[trigger] m[i][k]).len() == 0 by {
            assert(p[i][k] <= gen[k].stacking);
        }
        lemma_join_empty(m[i]);
    }
    lemma_assemble_bare(s, m);
    assert(s.subrange(0, s.len() as int) =~= s);
}

/// Unless unreadable combinations are allowed, every mark put on a character
/// comes from a glyph of the entry's category whose rule accepts that
/// character.
pub proof fn lemma_marks_applicable(
    opts: Options,
    s: Seq<char>,
    p: Seq<Seq<usize>>,
    m: Seq<Seq<Seq<char>>>,
    i: int,
    k: int,
    t: int,
)
    requires
        decorated(opts, s, p, m),
        !opts.allow_unreadable,
        0 <= i < s.len(),
        0 <= k < opts.generator@.len(),
        0 <= t < m[i][k].len(),
    ensures
        exists|j: int|
            0 <= j < opts.repertoire.glyphs@.len() && #[trigger] opts.repertoire.glyphs@[j].codepoint
                == m[i][k][t] && opts.repertoire.glyphs@[j].position
                == opts.generator@[k].category && accepts(opts.repertoire.glyphs@[j], s[i]),
{
    assert(marks_fit(opts, s[i], p[i], m[i]));
    assert(is_mark(opts, opts.generator@[k].category, s[i], m[i][k][t]));
}

pub(crate) proof fn lemma_assemble_prefix(s: Seq<char>, m: Seq<Seq<Seq<char>>>, j: int)
    requires
        m.len() <= s.len(),
        0 <= j <= m.len(),
    ensures
        assemble(s, m.subrange(0, j)).len() <= assemble(s, m).len(),
        assemble(s, m).subrange(0, assemble(s, m.subrange(0, j)).len() as int) == assemble(
            s,
            m.subrange(0, j),
        ),
    decreases m.len(),
{
    if j == m.len() {
        assert(m.subrange(0, j) =~= m);
        assert(assemble(s, m).subrange(0, assemble(s, m).len() as int) =~= assemble(s, m));
    } else {
        lemma_assemble_prefix(s, m.drop_last(), j);
        assert(m.drop_last().subrange(0, j) =~= m.subrange(0, j));
        let a = assemble(s, m.drop_last());
        let b = assemble(s, m.subrange(0, j));
        assert(assemble(s, m) == a + seq![s[m.len() - 1]] + join(m.last()));
        assert(assemble(s, m).subrange(0, b.len() as int) =~= a.subrange(0, b.len() as int));
    }
}

/// The characters of the input keep their order: the result is, character
/// by character, the input's character followed by the marks put on it. Here
/// the `i`-th character's part starts where the decoration of the characters
/// before it ends.
pub proof fn lemma_order_preserved(s: Seq<char>, m: Seq<Seq<Seq<char>>>, i: int)
    requires
        m.len() == s.len(),
        0 <= i < s.len(),
    ensures
        ({
            let start = assemble(s, m.subrange(0, i)).len() as int;
            &&& start + 1 + join(m[i]).len() <= assemble(s, m).len()
            &&& assemble(s, m).subrange(start, start + 1 + join(m[i]).len()) == seq![s[i]] + join(
                m[i],
            )
            &&& assemble(s, m.subrange(0, i + 1)).len() == start + 1 + join(m[i]).len()
        }),
{
    let before = m.subrange(0, i);
    let upto = m.subrange(0, i + 1);
    assert(upto.drop_last() =~= before);
    assert(upto.last() == m[i]);
    lemma_assemble_prefix(s, m, i + 1);
    let start = assemble(s, before).len() as int;
    let whole = assemble(s, m);
    let a = assemble(s, upto);
    assert(a == assemble(s, before) + seq![s[i]] + join(m[i]));
    assert(whole.subrange(start, start + 1 + join(m[i]).len()) =~= a.subrange(
        start,
        start + 1 + join(m[i]).len(),
    ));
    assert(a.subrange(start, start + 1 + join(m[i]).len()) =~= seq![s[i]] + join(m[i]));
}

} // verus!
