//! The glyph-distribution engine: plans scheduling passes, runs them over the
//! characters of the input, and renders the chosen marks.
use vstd::prelude::*;
use crate::decoration::{
    assemble,
    column_sum,
    decorated,
    has_applicable,
    is_mark,
    join,
    lemma_assemble_push,
    lemma_column_sum_add,
    lemma_column_sum_same,
    lemma_column_sum_zero,
    lemma_count_true_prefix,
    marks_fit,
    pending,
    scheduled,
    usable,
};
use crate::plan::{
    cap,
    lemma_columns_planned,
    lemma_planned_within_budget,
    lemma_prefix_sum_monotone,
    lemma_rows_columns,
    lemma_rows_total_prefix,
    lemma_saturated_bound,
    lemma_total_iterations_ge,
    pass_bound,
    prefix_sum,
    rows_total,
    selected_per_pass,
    target_count,
    total_iterations,
    total_target_marks,
};
use crate::random::{new_rng, pick, shuffle};
use crate::repertoire::{Glyph, GlyphPosition, Repertoire};
use crate::text::{chars_of, string_of};

verus! {

/// How many marks one pass of a category targets.
#[derive(Clone, Copy, Debug, PartialEq, Eq, Structural)]
pub enum GeneratorFrequency {
    /// The fraction `numerator / denominator` of the input's characters.
    Percentage { numerator: u64, denominator: u64 },
    /// A fixed number of characters.
    Fixed(usize),
}

/// The settings of one attachment category.
#[derive(Clone, Copy, Debug, PartialEq, Eq, Structural)]
pub struct GeneratorOptions {
    pub category: GlyphPosition,
    pub frequency: GeneratorFrequency,
    pub stacking: usize,
}

/// The settings of an engine.
pub struct Options<'a> {
    pub allow_unreadable: bool,
    pub limit: Option<usize>,
    pub repertoire: &'a Repertoire,
    pub generator: Vec<GeneratorOptions>,
}

impl GeneratorFrequency {
    /// A percentage lies in (0, 1]; a fixed count is positive.
    pub open spec fn wf(self) -> bool {
        match self {
            GeneratorFrequency::Percentage { numerator, denominator } => 0 < numerator
                <= denominator,
            GeneratorFrequency::Fixed(n) => n > 0,
        }
    }

    /// The number of marks one pass with this frequency targets for `n`
    /// characters: a percentage of them, truncated, or the fixed count.
    pub fn realize(self, n: usize) -> (r: usize)
        requires
            self.wf(),
        ensures
            r == target_count(self, n as nat),
    {
        match self {
            GeneratorFrequency::Percentage { numerator, denominator } => {
                let num = numerator as u128;
                let len = n as u128;
                proof {
                    assert(num * len <= u64::MAX * u64::MAX) by (nonlinear_arith)
                        requires
                            num <= u64::MAX,
                            len <= u64::MAX,
                    ;
                    assert(num * len / (denominator as int) <= len) by (nonlinear_arith)
                        requires
                            0 < num <= denominator,
                            len >= 0,
                    ;
                }
                let r = (num * len) / (denominator as u128);
                r as usize
            },
            GeneratorFrequency::Fixed(k) => k,
        }
    }
}

/// Every frequency is in its domain and no category is configured twice.
pub open spec fn generator_wf(gen: Seq<GeneratorOptions>) -> bool {
    &&& forall|k: int| 0 <= k < gen.len() ==> (#[trigger] gen[k]).frequency.wf()
    &&& forall|a: int, b: int|
        0 <= a < gen.len() && 0 <= b < gen.len() && a != b ==> (#[trigger] gen[a]).category
            != (#[trigger] gen[b]).category
}

impl<'a> Options<'a> {
    pub open spec fn wf(&self) -> bool {
        generator_wf(self.generator@)
    }
}

/// What remains of the passes of one category.
struct PassDescriptor {
    category: GlyphPosition,
    passes: usize,
    chars: usize,
}

/// The plan of all passes.
struct Passes {
    total_iterations: usize,
    /// The sum of target count times stacking, capped at `u128::MAX`.
    total_additions: u128,
    descriptors: Vec<PassDescriptor>,
}

/// The number of positions a pass selects: `pass_bound` capped at `n`.
fn selection_size(limit: Option<usize>, chars: usize, total: u128, n: usize) -> (r: usize)
    requires
        limit matches Some(l) ==> l > n,
        total <= u128::MAX,
    ensures
        r == cap(pass_bound(limit, chars as nat, total as nat, n as nat), n as nat),
{
    match limit {
        None => if chars < n {
            chars
        } else {
            n
        },
        Some(l) => {
            if total == 0 {
                0
            } else {
                let budget = (l - n) as u128;
                let c = chars as u128;
                proof {
                    assert(c * budget <= u64::MAX * u64::MAX) by (nonlinear_arith)
                        requires
                            c <= u64::MAX,
                            budget <= u64::MAX,
                    ;
                }
                let b = (c * budget) / total;
                if b < n as u128 {
                    b as usize
                } else {
                    n
                }
            }
        },
    }
}

/// The indices, in order, of the glyphs among the first `j` of `rep` whose
/// position is `category`.
pub open spec fn indices_of(rep: Seq<Glyph>, category: GlyphPosition, j: int) -> Seq<usize>
    decreases j,
{
    if j <= 0 {
        Seq::empty()
    } else if rep[j - 1].position == category {
        indices_of(rep, category, j - 1).push((j - 1) as usize)
    } else {
        indices_of(rep, category, j - 1)
    }
}

/// The engine: holds the options, the glyphs of each configured category and
/// the random source.
pub struct Joinerator<'a> {
    options: Options<'a>,
    /// For each generator entry, the indices in the repertoire of the glyphs of
    /// its category, in repertoire order.
    glyphs: Vec<Vec<usize>>,
    rng: rand::rngs::ThreadRng,
}

impl<'a> Joinerator<'a> {
    /// The options this engine was created with.
    pub closed spec fn settings(&self) -> Options<'a> {
        self.options
    }

    /// For each generator entry, the repertoire indices of the glyphs its
    /// marks are drawn from.
    pub closed spec fn glyph_lists(&self) -> Seq<Seq<usize>> {
        self.glyphs@.map_values(|v: Vec<usize>| v@)
    }

    /// The options this engine was created with.
    pub fn options(&self) -> (r: &Options<'a>)
        ensures
            *r == self.settings(),
    {
        &self.options
    }

    /// The options are valid and `glyphs` lists, for each generator entry,
    /// exactly the repertoire glyphs of its category, in repertoire order.
    pub closed spec fn wf(&self) -> bool {
        let gen = self.options.generator@;
        let rep = self.options.repertoire.glyphs@;
        &&& self.options.wf()
        &&& self.glyphs@.len() == gen.len()
        &&& forall|k: int|
            0 <= k < gen.len() ==> (#[trigger] self.glyphs@[k])@ == indices_of(
                rep,
                gen[k].category,
                rep.len() as int,
            )
        &&& forall|k: int, t: int|
            0 <= k < gen.len() && 0 <= t < self.glyphs@[k]@.len() ==> {
                let j = #[trigger] self.glyphs@[k]@[t];
                &&& j < rep.len()
                &&& rep[j as int].position == gen[k].category
            }
        &&& forall|k: int, j: usize|
            0 <= k < gen.len() && j < rep.len() && #[trigger] rep[j as int].position
                == #[trigger] gen[k].category ==> self.glyphs@[k]@.contains(j)
    }

    /// Creates an engine for valid options.
    pub fn new(options: Options<'a>) -> (r: Self)
        requires
            options.wf(),
        ensures
            r.wf(),
            r.settings() == options,
            r.glyph_lists().len() == options.generator@.len(),
            forall|k: int|
                0 <= k < options.generator@.len() ==> #[trigger] r.glyph_lists()[k]
                    == indices_of(
                    options.repertoire.glyphs@,
                    options.generator@[k].category,
                    options.repertoire.glyphs@.len() as int,
                ),
    {
        let mut glyphs: Vec<Vec<usize>> = Vec::new();
        let ghost gen = options.generator@;
        let ghost rep = options.repertoire.glyphs@;
        let mut k: usize = 0;
        while k < options.generator.len()
            invariant
                gen == options.generator@,
                rep == options.repertoire.glyphs@,
                k <= gen.len(),
                glyphs@.len() == k,
                forall|k2: int|
                    0 <= k2 < k ==> (#[trigger] glyphs@[k2])@ == indices_of(
                        rep,
                        gen[k2].category,
                        rep.len() as int,
                    ),
                forall|k2: int, t: int|
                    0 <= k2 < k && 0 <= t < glyphs@[k2]@.len() ==> {
                        let j = #[trigger] glyphs@[k2]@[t];
                        &&& j < rep.len()
                        &&& rep[j as int].position == gen[k2].category
                    },
                forall|k2: int, j: usize|
                    0 <= k2 < k && j < rep.len() && #[trigger] rep[j as int].position
                        == #[trigger] gen[k2].category ==> glyphs@[k2]@.contains(j),
            decreases gen.len() - k,
        {
            let category = options.generator[k].category;
            let mut indices: Vec<usize> = Vec::new();
            let mut j: usize = 0;
            while j < options.repertoire.glyphs.len()
                invariant
                    rep == options.repertoire.glyphs@,
                    category == gen[k as int].category,
                    k < gen.len(),
                    j <= rep.len(),
                    indices@ == indices_of(rep, category, j as int),
                    forall|t: int|
                        0 <= t < indices@.len() ==> {
                            let i = #[trigger] indices@[t];
                            &&& i < j
                            &&& rep[i as int].position == category
                        },
                    forall|i: usize|
                        i < j && #[trigger] rep[i as int].position == category
                            ==> indices@.contains(i),
                decreases rep.len() - j,
            {
                let ghost before = indices@;
                if options.repertoire.glyphs[j].position == category {
                    indices.push(j);
                }
                proof {
                    assert forall|i: usize|
                        i < j + 1 && #[trigger] rep[i as int].position == category implies indices@.contains(
                        i) by {
                        if i < j {
                            let t = choose|t: int| 0 <= t < before.len() && before[t] == i;
                            assert(indices@[t] == i);
                        } else {
                            assert(indices@[indices@.len() - 1] == j);
                        }
                    }
                }
                j = j + 1;
            }
            glyphs.push(indices);
            proof {
                assert(glyphs@[k as int] == indices);
            }
            k = k + 1;
        }
        let r = Joinerator { options, glyphs, rng: new_rng() };
        proof {
            assert forall|k2: int| 0 <= k2 < gen.len() implies #[trigger] r.glyph_lists()[k2]
                == indices_of(rep, gen[k2].category, rep.len() as int) by {
                assert(r.glyph_lists()[k2] == r.glyphs@[k2]@);
            }
        }
        r
    }

    /// Plans the passes for an input of `n` characters.
    fn create_passes(&self, n: usize) -> (r: Passes)
        requires
            self.options.wf(),
        ensures
            r.descriptors@.len() == self.options.generator@.len(),
            forall|k: int|
                0 <= k < r.descriptors@.len() ==> {
                    let d = #[trigger] r.descriptors@[k];
                    let g = self.options.generator@[k];
                    &&& d.category == g.category
                    &&& d.passes == g.stacking
                    &&& d.chars == target_count(g.frequency, n as nat)
                },
            r.total_iterations == total_iterations(self.options.generator@),
            total_target_marks(self.options.generator@, n as nat) < u128::MAX ==> r.total_additions
                == total_target_marks(self.options.generator@, n as nat),
            total_target_marks(self.options.generator@, n as nat) >= u128::MAX ==> r.total_additions
                == u128::MAX,
    {
        let ghost gen = self.options.generator@;
        let mut descriptors: Vec<PassDescriptor> = Vec::new();
        let mut additions: u128 = 0;
        let mut iterations: usize = 0;
        let mut k: usize = 0;
        while k < self.options.generator.len()
            invariant
                gen == self.options.generator@,
                generator_wf(gen),
                k <= gen.len(),
                descriptors@.len() == k,
                forall|k2: int|
                    0 <= k2 < k ==> {
                        let d = #[trigger] descriptors@[k2];
                        let g = gen[k2];
                        &&& d.category == g.category
                        &&& d.passes == g.stacking
                        &&& d.chars == target_count(g.frequency, n as nat)
                    },
                iterations == total_iterations(gen.subrange(0, k as int)),
                total_target_marks(gen.subrange(0, k as int), n as nat) < u128::MAX ==> additions
                    == total_target_marks(gen.subrange(0, k as int), n as nat),
                total_target_marks(gen.subrange(0, k as int), n as nat) >= u128::MAX ==> additions
                    == u128::MAX,
            decreases gen.len() - k,
        {
            let g = self.options.generator[k];
            let chars = g.frequency.realize(n);
            proof {
                assert((chars as u128) * (g.stacking as u128) <= u64::MAX * u64::MAX)
                    by (nonlinear_arith)
                    requires
                        chars <= u64::MAX,
                        g.stacking <= u64::MAX,
                ;
            }
            let term = (chars as u128) * (g.stacking as u128);
            proof {
                let prefix = gen.subrange(0, k as int);
                let next = gen.subrange(0, k + 1);
                assert(next.drop_last() =~= prefix);
                assert(next.last() == g);
            }
            additions = if additions <= u128::MAX - term {
                additions + term
            } else {
                u128::MAX
            };
            if g.stacking > iterations {
                iterations = g.stacking;
            }
            descriptors.push(PassDescriptor { category: g.category, passes: g.stacking, chars });
            k = k + 1;
        }
        proof {
            assert(gen.subrange(0, k as int) =~= gen);
        }
        Passes { total_iterations: iterations, total_additions: additions, descriptors }
    }
}

/// The working state of one input character.
pub struct BucketItem {
    /// Pending marks, one counter for each generator entry.
    pub additional_glyphs: Vec<usize>,
    pub primary_glyph: char,
    pub position: usize,
}

/// The working state of all input characters, in input order.
pub struct Bucket {
    pub chars: Vec<BucketItem>,
}

impl Bucket {
    pub fn new() -> (r: Self)
        ensures
            r.chars@.len() == 0,
    {
        Bucket { chars: Vec::new() }
    }
}

impl BucketItem {
    pub fn new(index: usize, glyph: char) -> (r: Self)
        ensures
            r.position == index,
            r.primary_glyph == glyph,
            r.additional_glyphs@.len() == 0,
    {
        BucketItem { additional_glyphs: Vec::new(), primary_glyph: glyph, position: index }
    }
}

/// Runs one pass of generator entry `k`: `selection` distinct positions,
/// chosen at random, each get one more pending mark of that entry.
fn run_pass(
    rng: &mut rand::rngs::ThreadRng,
    bucket: &mut Bucket,
    k: usize,
    descriptor: &mut PassDescriptor,
    buffer: &mut Vec<bool>,
    selection: usize,
)
    requires
        old(buffer)@.len() == old(bucket).chars@.len(),
        selection <= old(buffer)@.len(),
        forall|i: int|
            0 <= i < old(bucket).chars@.len() ==> k < (
            #[trigger] old(bucket).chars@[i]).additional_glyphs@.len(),
        old(descriptor).passes > 0 ==> forall|i: int|
            0 <= i < old(bucket).chars@.len() ==> (
            #[trigger] old(bucket).chars@[i]).additional_glyphs@[k as int] < usize::MAX,
    ensures
        final(buffer)@.len() == old(buffer)@.len(),
        final(descriptor).category == old(descriptor).category,
        final(descriptor).chars == old(descriptor).chars,
        old(descriptor).passes == 0 ==> *final(bucket) == *old(bucket) && final(descriptor).passes
            == 0,
        old(descriptor).passes > 0 ==> final(descriptor).passes == old(descriptor).passes - 1,
        final(bucket).chars@.len() == old(bucket).chars@.len(),
        forall|i: int|
            0 <= i < final(bucket).chars@.len() ==> {
                let a = #[trigger] final(bucket).chars@[i];
                let b = old(bucket).chars@[i];
                &&& a.primary_glyph == b.primary_glyph
                &&& a.position == b.position
                &&& a.additional_glyphs@.len() == b.additional_glyphs@.len()
                &&& forall|j: int|
                    0 <= j < a.additional_glyphs@.len() && j != k ==> a.additional_glyphs@[j]
                        == b.additional_glyphs@[j]
                &&& a.additional_glyphs@[k as int] == b.additional_glyphs@[k as int]
                    || (old(descriptor).passes > 0 && a.additional_glyphs@[k as int]
                    == b.additional_glyphs@[k as int] + 1)
            },
        old(descriptor).passes > 0 ==> column_sum(pending(*final(bucket)), k as int) == column_sum(
            pending(*old(bucket)),
            k as int,
        ) + selection,
{
    if descriptor.passes == 0 {
        return;
    }
    descriptor.passes = descriptor.passes - 1;

    // Mark the first `selection` positions, then shuffle the marks.
    let n = buffer.len();
    let mut i: usize = 0;
    while i < n
        invariant
            n == buffer@.len(),
            i <= n,
            forall|t: int| 0 <= t < i ==> buffer@[t] == (t < selection),
        decreases n - i,
    {
        buffer.set(i, i < selection);
        i = i + 1;
    }
    proof {
        assert(buffer@ =~= Seq::new(n as nat, |t: int| t < selection));
        lemma_count_true_prefix(n as nat, selection as nat);
    }
    shuffle(rng, buffer);
    proof {
        vstd::seq_lib::to_multiset_len(buffer@);
        vstd::seq_lib::to_multiset_len(Seq::new(n as nat, |t: int| t < selection));
    }

    let ghost start = *bucket;
    let mut i: usize = 0;
    while i < bucket.chars.len()
        invariant
            buffer@.len() == n,
            bucket.chars@.len() == n,
            start.chars@.len() == n,
            i <= n,
            forall|t: int|
                0 <= t < n ==> {
                    let a = #[trigger] bucket.chars@[t];
                    let b = start.chars@[t];
                    &&& a.primary_glyph == b.primary_glyph
                    &&& a.position == b.position
                    &&& a.additional_glyphs@.len() == b.additional_glyphs@.len()
                    &&& k < a.additional_glyphs@.len()
                    &&& b.additional_glyphs@[k as int] < usize::MAX
                    &&& forall|j: int|
                        0 <= j < a.additional_glyphs@.len() && j != k ==> a.additional_glyphs@[j]
                            == b.additional_glyphs@[j]
                    &&& a.additional_glyphs@[k as int] == b.additional_glyphs@[k as int] + (if t < i
                        && buffer@[t] {
                        1int
                    } else {
                        0int
                    })
                },
        decreases n - i,
    {
        if buffer[i] {
            let v = bucket.chars[i].additional_glyphs[k];
            bucket.chars[i].additional_glyphs.set(k, v + 1);
        }
        i = i + 1;
    }
    proof {
        assert forall|t: int| 0 <= t < n implies #[trigger] pending(*bucket)[t][k as int] == pending(
            start,
        )[t][k as int] + (if buffer@[t] {
            1int
        } else {
            0int
        }) by {
            let a = bucket.chars@[t];
        }
        lemma_column_sum_add(pending(start), pending(*bucket), buffer@, k as int);
    }
}

impl<'a> Joinerator<'a> {
    /// The glyphs of generator entry `k` that may be put on `c`.
    fn applicable_glyphs(&self, k: usize, c: char) -> (r: Vec<usize>)
        requires
            self.wf(),
            k < self.options.generator@.len(),
        ensures
            forall|t: int|
                0 <= t < r@.len() ==> usable(
                    self.options,
                    #[trigger] r@[t] as int,
                    self.options.generator@[k as int].category,
                    c,
                ),
            r@.len() > 0 <==> has_applicable(
                self.options,
                self.options.generator@[k as int].category,
                c,
            ),
    {
        let ghost opts = self.options;
        let ghost category = self.options.generator@[k as int].category;
        let candidates = &self.glyphs[k];
        let mut out: Vec<usize> = Vec::new();
        let mut t: usize = 0;
        while t < candidates.len()
            invariant
                self.wf(),
                opts == self.options,
                k < self.options.generator@.len(),
                category == self.options.generator@[k as int].category,
                *candidates == self.glyphs@[k as int],
                t <= candidates@.len(),
                forall|u: int|
                    0 <= u < out@.len() ==> usable(opts, #[trigger] out@[u] as int, category, c),
                (exists|u: int|
                    0 <= u < t && usable(opts, #[trigger] candidates@[u] as int, category, c))
                    ==> out@.len() > 0,
                out@.len() > 0 ==> has_applicable(opts, category, c),
            decreases candidates@.len() - t,
        {
            let j = candidates[t];
            proof {
                assert(j < opts.repertoire.glyphs@.len());
            }
            let ghost before = out@;
            if self.options.allow_unreadable || self.options.repertoire.glyphs[j].is_applicable(c) {
                out.push(j);
                proof {
                    assert(usable(opts, j as int, category, c));
                    assert(out@[out@.len() - 1] == j);
                }
            }
            proof {
                assert forall|u: int|
                    0 <= u < out@.len() implies usable(opts, #[trigger] out@[u] as int, category, c) by {
                    if u < before.len() {
                        assert(out@[u] == before[u]);
                    }
                }
            }
            t = t + 1;
        }
        proof {
            if has_applicable(opts, category, c) {
                let j = choose|j: int| usable(opts, j, category, c);
                assert(j < self.options.repertoire.glyphs.len());
                let ju = j as usize;
                assert(self.options.repertoire.glyphs@[ju as int].position
                    == self.options.generator@[k as int].category);
                assert(self.glyphs@[k as int]@.contains(ju));
                let u = choose|u: int| 0 <= u < candidates@.len() && candidates@[u] == ju;
                assert(usable(opts, candidates@[u] as int, category, c));
            }
        }
        out
    }

    /// Appends `item`'s character and then, for each generator entry in turn,
    /// its pending marks drawn at random from the applicable glyphs (within the
    /// remaining budget, when there is one).
    fn render_char(
        &mut self,
        item: &BucketItem,
        remaining: &mut Option<usize>,
        out: &mut Vec<char>,
    ) -> (ms: Ghost<Seq<Seq<char>>>)
        requires
            old(self).wf(),
            item.additional_glyphs@.len() == old(self).options.generator@.len(),
            old(self).options.limit is None <==> (*old(remaining)) is None,
            (*old(remaining)) matches Some(r0) ==> r0 >= prefix_sum(
                item.additional_glyphs@,
                item.additional_glyphs@.len() as int,
            ),
        ensures
            final(self).wf(),
            final(self).options == old(self).options,
            final(out)@ == old(out)@ + seq![item.primary_glyph] + join(ms@),
            marks_fit(old(self).options, item.primary_glyph, item.additional_glyphs@, ms@),
            (*old(remaining)) is None ==> (*final(remaining)) is None,
            (*old(remaining)) matches Some(r0) ==> (*final(remaining)) matches Some(r1) && r1 + join(
                ms@,
            ).len() == r0,
            join(ms@).len() <= prefix_sum(
                item.additional_glyphs@,
                item.additional_glyphs@.len() as int,
            ),
    {
        let ghost opts = self.options;
        let ghost gen = self.options.generator@;
        let ghost start = out@;
        let ghost r0 = *remaining;
        let c = item.primary_glyph;
        out.push(c);
        let ghost mut ms: Seq<Seq<char>> = Seq::empty();
        let mut k: usize = 0;
        while k < self.options.generator.len()
            invariant
                self.wf(),
                self.options == opts,
                gen == opts.generator@,
                item.additional_glyphs@.len() == gen.len(),
                k <= gen.len(),
                ms.len() == k,
                out@ == start + seq![c] + join(ms),
                opts.limit is None <==> (*remaining) is None,
                r0 is None <==> (*remaining) is None,
                r0 matches Some(a) ==> (*remaining) matches Some(b) && b + join(ms).len() == a,
                join(ms).len() <= prefix_sum(item.additional_glyphs@, k as int),
                (*remaining) matches Some(b) ==> b >= prefix_sum(
                    item.additional_glyphs@,
                    gen.len() as int,
                ) - prefix_sum(item.additional_glyphs@, k as int),
                forall|k2: int|
                    0 <= k2 < k ==> {
                        &&& (#[trigger] ms[k2]).len() <= item.additional_glyphs@[k2]
                        &&& !has_applicable(opts, gen[k2].category, c) ==> ms[k2].len() == 0
                        &&& has_applicable(opts, gen[k2].category, c) ==> ms[k2].len()
                            == item.additional_glyphs@[k2]
                        &&& forall|t: int|
                            0 <= t < ms[k2].len() ==> is_mark(opts, gen[k2].category, c, ms[k2][t])
                    },
            decreases gen.len() - k,
        {
            let pending_count = item.additional_glyphs[k];
            proof {
                lemma_prefix_sum_monotone(item.additional_glyphs@, k + 1, gen.len() as int);
                lemma_prefix_sum_monotone(item.additional_glyphs@, 0, k as int);
            }
            let ghost mut cur: Seq<char> = Seq::empty();
            if pending_count > 0 {
                let count = match *remaining {
                    Some(left) => if pending_count < left {
                        pending_count
                    } else {
                        left
                    },
                    None => pending_count,
                };
                let applicable = self.applicable_glyphs(k, c);
                if applicable.len() > 0 {
                    let mut t: usize = 0;
                    while t < count
                        invariant
                            self.wf(),
                            self.options == opts,
                            t <= count,
                            cur.len() == t,
                            out@ == start + seq![c] + join(ms) + cur,
                            applicable@.len() > 0,
                            k < gen.len(),
                            gen == opts.generator@,
                            forall|u: int|
                                0 <= u < applicable@.len() ==> usable(
                                    opts,
                                    #[trigger] applicable@[u] as int,
                                    gen[k as int].category,
                                    c,
                                ),
                            forall|u: int|
                                0 <= u < cur.len() ==> is_mark(
                                    opts,
                                    gen[k as int].category,
                                    c,
                                    #[trigger] cur[u],
                                ),
                        decreases count - t,
                    {
                        let j = pick(&mut self.rng, &applicable);
                        proof {
                            let u = choose|u: int|
                                0 <= u < applicable@.len() && applicable@[u] == j;
                            assert(usable(opts, applicable@[u] as int, gen[k as int].category, c));
                        }
                        let codepoint = self.options.repertoire.glyphs[j].codepoint;
                        out.push(codepoint);
                        proof {
                            assert(is_mark(opts, gen[k as int].category, c, codepoint));
                            cur = cur.push(codepoint);
                        }
                        t = t + 1;
                    }
                    *remaining = match *remaining {
                        Some(left) => Some(left - count),
                        None => None,
                    };
                }
            }
            proof {
                let next = ms.push(cur);
                assert(next.drop_last() =~= ms);
                assert(join(next) == join(ms) + cur);
                ms = next;
            }
            k = k + 1;
        }
        proof {
            assert(marks_fit(opts, c, item.additional_glyphs@, ms));
        }
        Ghost(ms)
    }
}

impl<'a> Joinerator<'a> {
    /// The working state for `chars`: every counter starts at zero.
    fn create_bucket(&self, chars: &Vec<char>) -> (r: Bucket)
        ensures
            r.chars@.len() == chars@.len(),
            forall|i: int|
                0 <= i < chars@.len() ==> {
                    let item = #[trigger] r.chars@[i];
                    &&& item.primary_glyph == chars@[i]
                    &&& item.position == i
                    &&& item.additional_glyphs@.len() == self.options.generator@.len()
                    &&& forall|k: int|
                        0 <= k < item.additional_glyphs@.len() ==> item.additional_glyphs@[k] == 0
                },
    {
        let mut bucket = Bucket::new();
        let mut i: usize = 0;
        while i < chars.len()
            invariant
                i <= chars@.len(),
                bucket.chars@.len() == i,
                forall|i2: int|
                    0 <= i2 < i ==> {
                        let item = #[trigger] bucket.chars@[i2];
                        &&& item.primary_glyph == chars@[i2]
                        &&& item.position == i2
                        &&& item.additional_glyphs@.len() == self.options.generator@.len()
                        &&& forall|k: int|
                            0 <= k < item.additional_glyphs@.len() ==> item.additional_glyphs@[k]
                                == 0
                    },
            decreases chars@.len() - i,
        {
            let mut item = BucketItem::new(i, chars[i]);
            let mut k: usize = 0;
            while k < self.options.generator.len()
                invariant
                    k <= self.options.generator@.len(),
                    item.additional_glyphs@.len() == k,
                    item.primary_glyph == chars@[i as int],
                    item.position == i,
                    forall|k2: int| 0 <= k2 < k ==> item.additional_glyphs@[k2] == 0,
                decreases self.options.generator@.len() - k,
            {
                item.additional_glyphs.push(0);
                k = k + 1;
            }
            bucket.chars.push(item);
            i = i + 1;
        }
        bucket
    }

    /// Decorates `input` with combining marks.
    ///
    /// With a limit of at most the input's length the input comes back
    /// unchanged. Otherwise each generator entry runs `stacking` passes, each
    /// giving one pending mark to `selected_per_pass` distinct characters
    /// chosen at random; then every character is followed by its pending marks,
    /// drawn at random from the glyphs of the entry's category that may be put
    /// on it (none when there are no such glyphs), within the remaining budget.
    /// The passes are scaled so that the budget always holds all pending marks:
    /// no character loses any of them to it.
    pub fn process(&mut self, input: &str) -> (r: String)
        requires
            old(self).wf(),
        ensures
            final(self).wf(),
            final(self).settings() == old(self).settings(),
            (old(self).settings().limit matches Some(l) && l <= input@.len()) ==> r@ == input@,
            !(old(self).settings().limit matches Some(l) && l <= input@.len()) ==> exists|
                p: Seq<Seq<usize>>,
                m: Seq<Seq<Seq<char>>>,
            | decorated(old(self).settings(), input@, p, m) && r@ == assemble(input@, m),
            forall|l: usize|
                old(self).settings().limit == Some(l) && l > input@.len() ==> r@.len() <= l,
    {
        let ghost opts = self.options;
        let ghost gen = self.options.generator@;
        let chars = chars_of(input);
        let n = chars.len();
        if let Some(l) = self.options.limit {
            if l <= n {
                return input.to_owned();
            }
        }
        let passes = self.create_passes(n);
        let rounds = passes.total_iterations;
        let total_additions = passes.total_additions;
        let mut descriptors = passes.descriptors;

        // How many positions each pass of each entry selects.
        let mut sels: Vec<usize> = Vec::new();
        let mut k: usize = 0;
        while k < descriptors.len()
            invariant
                self.options == opts,
                gen == opts.generator@,
                opts.limit matches Some(l) ==> l > n,
                n == input@.len(),
                descriptors@.len() == gen.len(),
                forall|k2: int|
                    0 <= k2 < descriptors@.len() ==> (#[trigger] descriptors@[k2]).chars
                        == target_count(gen[k2].frequency, n as nat),
                total_target_marks(gen, n as nat) < u128::MAX ==> total_additions
                    == total_target_marks(gen, n as nat),
                total_target_marks(gen, n as nat) >= u128::MAX ==> total_additions == u128::MAX,
                k <= descriptors@.len(),
                sels@.len() == k,
                forall|k2: int|
                    0 <= k2 < k ==> #[trigger] sels@[k2] == selected_per_pass(
                        opts.limit,
                        gen,
                        k2,
                        n as nat,
                    ),
            decreases descriptors@.len() - k,
        {
            let sel = selection_size(self.options.limit, descriptors[k].chars, total_additions, n);
            proof {
                let t = total_target_marks(gen, n as nat);
                if t >= u128::MAX {
                    if let Some(l) = opts.limit {
                        lemma_saturated_bound(
                            descriptors@[k as int].chars as nat,
                            (l - n) as nat,
                            t,
                        );
                    }
                }
            }
            sels.push(sel);
            k = k + 1;
        }

        let mut bucket = self.create_bucket(&chars);
        let mut buffer: Vec<bool> = Vec::new();
        let mut i: usize = 0;
        while i < n
            invariant
                i <= n,
                buffer@.len() == i,
            decreases n - i,
        {
            buffer.push(false);
            i = i + 1;
        }
        proof {
            assert forall|k2: int| 0 <= k2 < gen.len() implies column_sum(pending(bucket), k2)
                == 0 by {
                lemma_column_sum_zero(pending(bucket), k2);
            }
        }

        // Run the passes, one round at a time.
        let mut round: usize = 0;
        while round < rounds
            invariant
                self.wf(),
                self.options == opts,
                gen == opts.generator@,
                n == input@.len(),
                chars@ == input@,
                rounds == total_iterations(gen),
                round <= rounds,
                buffer@.len() == n,
                sels@.len() == gen.len(),
                forall|k2: int| 0 <= k2 < gen.len() ==> #[trigger] sels@[k2] <= n,
                descriptors@.len() == gen.len(),
                forall|k2: int|
                    0 <= k2 < gen.len() ==> {
                        let d = #[trigger] descriptors@[k2];
                        &&& d.passes <= gen[k2].stacking
                        &&& d.passes == gen[k2].stacking - (if round < gen[k2].stacking {
                            round as int
                        } else {
                            gen[k2].stacking as int
                        })
                        &&& column_sum(pending(bucket), k2) == (gen[k2].stacking - d.passes)
                            * sels@[k2]
                    },
                bucket.chars@.len() == n,
                forall|i2: int|
                    0 <= i2 < n ==> {
                        let item = #[trigger] bucket.chars@[i2];
                        &&& item.primary_glyph == chars@[i2]
                        &&& item.additional_glyphs@.len() == gen.len()
                        &&& forall|k2: int|
                            0 <= k2 < gen.len() ==> item.additional_glyphs@[k2] + descriptors@[k2].passes
                                <= gen[k2].stacking
                    },
            decreases rounds - round,
        {
            let mut k: usize = 0;
            while k < descriptors.len()
                invariant
                    self.wf(),
                    self.options == opts,
                    gen == opts.generator@,
                    n == input@.len(),
                    chars@ == input@,
                    round < rounds,
                    buffer@.len() == n,
                    sels@.len() == gen.len(),
                    forall|k2: int| 0 <= k2 < gen.len() ==> #[trigger] sels@[k2] <= n,
                    descriptors@.len() == gen.len(),
                    k <= gen.len(),
                    forall|k2: int|
                        0 <= k2 < gen.len() ==> {
                            let d = #[trigger] descriptors@[k2];
                            let done = if k2 < k {
                                round + 1
                            } else {
                                round as int
                            };
                            &&& d.passes <= gen[k2].stacking
                            &&& d.passes == gen[k2].stacking - (if done < gen[k2].stacking {
                                done
                            } else {
                                gen[k2].stacking as int
                            })
                            &&& column_sum(pending(bucket), k2) == (gen[k2].stacking - d.passes)
                                * sels@[k2]
                        },
                    bucket.chars@.len() == n,
                    forall|i2: int|
                        0 <= i2 < n ==> {
                            let item = #[trigger] bucket.chars@[i2];
                            &&& item.primary_glyph == chars@[i2]
                            &&& item.additional_glyphs@.len() == gen.len()
                            &&& forall|k2: int|
                                0 <= k2 < gen.len() ==> item.additional_glyphs@[k2]
                                    + descriptors@[k2].passes <= gen[k2].stacking
                        },
                decreases gen.len() - k,
            {
                let ghost before = bucket;
                let ghost before_d = descriptors@;
                let sel = sels[k];
                run_pass(&mut self.rng, &mut bucket, k, &mut descriptors[k], &mut buffer, sel);
                proof {
                    assert forall|k2: int| 0 <= k2 < gen.len() && k2 != k implies column_sum(
                        pending(bucket),
                        k2,
                    ) == column_sum(pending(before), k2) by {
                        assert forall|t: int| 0 <= t < n implies #[trigger] pending(bucket)[t][k2]
                            == pending(before)[t][k2] by {
                            assert(bucket.chars@[t].additional_glyphs@[k2]
                                == before.chars@[t].additional_glyphs@[k2]);
                        }
                        lemma_column_sum_same(pending(before), pending(bucket), k2);
                    }
                    let d0 = before_d[k as int].passes as int;
                    let st = gen[k as int].stacking as int;
                    if d0 > 0 {
                        assert((st - (d0 - 1)) * sel == (st - d0) * sel + sel) by (nonlinear_arith);
                    }
                    assert forall|i2: int| 0 <= i2 < n implies {
                        let item = #[trigger] bucket.chars@[i2];
                        &&& item.primary_glyph == chars@[i2]
                        &&& item.additional_glyphs@.len() == gen.len()
                        &&& forall|k2: int|
                            0 <= k2 < gen.len() ==> item.additional_glyphs@[k2]
                                + descriptors@[k2].passes <= gen[k2].stacking
                    } by {
                        let item = bucket.chars@[i2];
                        let old_item = before.chars@[i2];
                        assert forall|k2: int| 0 <= k2 < gen.len() implies item.additional_glyphs@[k2]
                            + descriptors@[k2].passes <= gen[k2].stacking by {
                            if k2 != k {
                                assert(descriptors@[k2] == before_d[k2]);
                            }
                        }
                    }
                }
                k = k + 1;
            }
            round = round + 1;
        }
        proof {
            assert forall|k2: int| 0 <= k2 < gen.len() implies #[trigger] descriptors@[k2].passes
                == 0 by {
                lemma_total_iterations_ge(gen, k2);
            }
        }

        // Render every character in input order.
        let ghost p = pending(bucket);
        let ghost width = gen.len() as int;
        proof {
            assert(scheduled(opts, input@, p));
            lemma_rows_columns(p, width);
            lemma_columns_planned(opts, input@, p, width);
            if let Some(l) = opts.limit {
                lemma_planned_within_budget(l, gen, n as nat);
            }
            assert(p.subrange(0, 0) =~= Seq::<Seq<usize>>::empty());
        }
        let mut out: Vec<char> = Vec::new();
        let mut remaining: Option<usize> = match self.options.limit {
            Some(l) => Some(l - n),
            None => None,
        };
        let ghost mut m: Seq<Seq<Seq<char>>> = Seq::empty();
        let mut i: usize = 0;
        while i < n
            invariant
                self.wf(),
                self.options == opts,
                gen == opts.generator@,
                n == input@.len(),
                chars@ == input@,
                p == pending(bucket),
                bucket.chars@.len() == n,
                forall|i2: int|
                    0 <= i2 < n ==> {
                        let item = #[trigger] bucket.chars@[i2];
                        &&& item.primary_glyph == chars@[i2]
                        &&& item.additional_glyphs@.len() == gen.len()
                    },
                i <= n,
                m.len() == i,
                out@ == assemble(input@, m),
                forall|i2: int| 0 <= i2 < i ==> #[trigger] marks_fit(opts, input@[i2], p[i2], m[i2]),
                opts.limit is None <==> remaining is None,
                opts.limit matches Some(l) ==> remaining matches Some(left) && out@.len() + left + (n
                    - i) == l,
                width == gen.len(),
                remaining matches Some(left) ==> left >= rows_total(p, width) - rows_total(
                    p.subrange(0, i as int),
                    width,
                ),
            decreases n - i,
        {
            proof {
                assert(bucket.chars@[i as int].additional_glyphs@ == p[i as int]);
                assert forall|i2: int| 0 <= i2 < p.len() implies (#[trigger] p[i2]).len() >= width
                    >= 0 by {
                    assert(bucket.chars@[i2].additional_glyphs@ == p[i2]);
                }
                lemma_rows_total_prefix(p, width, i + 1);
                assert(p.subrange(0, i + 1).drop_last() =~= p.subrange(0, i as int));
            }
            let ms = self.render_char(&bucket.chars[i], &mut remaining, &mut out);
            proof {
                lemma_assemble_push(input@, m, ms@);
                m = m.push(ms@);
                assert(m[i as int] == ms@);
            }
            i = i + 1;
        }
        proof {
            assert(decorated(opts, input@, p, m));
        }
        string_of(&out)
    }
}

} // verus!
