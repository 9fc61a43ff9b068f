//! Column width allocator for tabular widgets.
//!
//! Given the total available width and a list of columns, each with either a
//! hard fixed width or a minimum width plus a flex weight, the allocator
//! keeps the columns whose reservation fits (in input order, a dropped
//! column freeing its space for later ones) and then distributes the
//! leftover width over the kept flex columns in proportion to their
//! weights, floored, handing remainder cells out so that no column exceeds
//! its proportional share by more than one cell.

use vstd::prelude::*;
use vstd::arithmetic::div_mod::{lemma_div_is_ordered, lemma_div_multiples_vanish};
use vstd::arithmetic::mul::lemma_mul_inequality;

verus! {

/// One requested column: a hard fixed width overrides flex sizing; a flex
/// column reserves `min_width` and shares leftover space by `flex_weight`.
#[derive(Clone, Copy, Debug, PartialEq, Eq, Structural)]
pub struct ColumnSpec {
    pub min_width: u16,
    pub flex_weight: u16,
    pub hard_width: Option<u16>,
}

/// The widths of the columns that fit, with the input index of each kept
/// column; dropped columns are simply omitted.
#[derive(Clone, Debug)]
pub struct ColumnAllocation {
    pub widths: Vec<u16>,
    pub indices: Vec<usize>,
}

impl ColumnAllocation {
    /// How many columns fit; callers truncate their header and row
    /// rendering to this count.
    pub fn count(&self) -> (r: usize)
        ensures
            r == self.widths@.len(),
    {
        self.widths.len()
    }
}

/// The space a column reserves up front: its hard width, or its minimum.
pub open spec fn base_of(c: ColumnSpec) -> u16 {
    match c.hard_width {
        Some(h) => h,
        None => c.min_width,
    }
}

/// The width still unreserved after the first `i` columns were offered
/// their base width in input order.
pub open spec fn spec_remaining(cols: Seq<ColumnSpec>, total: int, i: int) -> int
    decreases i,
{
    if i <= 0 {
        total
    } else {
        let prev = spec_remaining(cols, total, i - 1);
        if base_of(cols[i - 1]) <= prev {
            prev - base_of(cols[i - 1])
        } else {
            prev
        }
    }
}

/// Column `i` is kept exactly when its base width fits what is left.
pub open spec fn spec_is_kept(cols: Seq<ColumnSpec>, total: int, i: int) -> bool {
    base_of(cols[i]) <= spec_remaining(cols, total, i)
}

/// Total flex weight of the kept flex columns among the first `i`.
pub open spec fn spec_flex_weight_sum(cols: Seq<ColumnSpec>, total: int, i: int) -> int
    decreases i,
{
    if i <= 0 {
        0
    } else {
        spec_flex_weight_sum(cols, total, i - 1) + if spec_is_kept(cols, total, i - 1)
            && cols[i - 1].hard_width is None {
            cols[i - 1].flex_weight as int
        } else {
            0
        }
    }
}

/// The extra cells column `i` receives out of the leftover: the difference
/// of consecutive proportional shares, so that the extras over all kept
/// flex columns telescope to exactly the leftover width.
pub open spec fn spec_extra(cols: Seq<ColumnSpec>, total: int, i: int) -> int {
    let leftover = spec_remaining(cols, total, cols.len() as int);
    let weight_total = spec_flex_weight_sum(cols, total, cols.len() as int);
    if spec_is_kept(cols, total, i) && cols[i].hard_width is None && weight_total > 0 {
        leftover * spec_flex_weight_sum(cols, total, i + 1) / weight_total - leftover
            * spec_flex_weight_sum(cols, total, i) / weight_total
    } else {
        0
    }
}

/// The final width of kept column `i`.
pub open spec fn spec_col_width(cols: Seq<ColumnSpec>, total: int, i: int) -> int {
    base_of(cols[i]) + spec_extra(cols, total, i)
}

/// Sum of a slot sequence's allocated widths, dropped columns counting 0.
pub open spec fn sum_slots(s: Seq<Option<u16>>) -> int
    decreases s.len(),
{
    if s.len() == 0 {
        0
    } else {
        sum_slots(s.drop_last()) + (match s.last() {
            Some(w) => w as int,
            None => 0,
        })
    }
}

/// Sum of the returned widths.
pub open spec fn sum_widths(s: Seq<u16>) -> int
    decreases s.len(),
{
    if s.len() == 0 {
        0
    } else {
        sum_widths(s.drop_last()) + s.last()
    }
}

proof fn lemma_remaining_ordered(cols: Seq<ColumnSpec>, total: int, i: int, j: int)
    requires
        0 <= i <= j,
    ensures
        spec_remaining(cols, total, j) <= spec_remaining(cols, total, i),
    decreases j - i,
{
    if i < j {
        lemma_remaining_ordered(cols, total, i, j - 1);
    }
}

proof fn lemma_remaining_nonneg(cols: Seq<ColumnSpec>, total: int, i: int)
    requires
        total >= 0,
    ensures
        spec_remaining(cols, total, i) >= 0,
    decreases i,
{
    if i > 0 {
        lemma_remaining_nonneg(cols, total, i - 1);
    }
}

proof fn lemma_flex_sum_ordered(cols: Seq<ColumnSpec>, total: int, i: int, j: int)
    requires
        0 <= i <= j,
    ensures
        spec_flex_weight_sum(cols, total, i) <= spec_flex_weight_sum(cols, total, j),
    decreases j - i,
{
    if i < j {
        lemma_flex_sum_ordered(cols, total, i, j - 1);
    }
}

proof fn lemma_flex_sum_nonneg(cols: Seq<ColumnSpec>, total: int, i: int)
    ensures
        spec_flex_weight_sum(cols, total, i) >= 0,
    decreases i,
{
    if i > 0 {
        lemma_flex_sum_nonneg(cols, total, i - 1);
    }
}

proof fn lemma_sum_slots_update(s: Seq<Option<u16>>, i: int, v: u16)
    requires
        0 <= i < s.len(),
    ensures
        sum_slots(s.update(i, Some(v))) == sum_slots(s) + v - (match s[i] {
            Some(w) => w as int,
            None => 0,
        }),
    decreases s.len(),
{
    let t = s.update(i, Some(v));
    if i == s.len() - 1 {
        assert(t.drop_last() =~= s.drop_last());
    } else {
        assert(t.drop_last() =~= s.drop_last().update(i, Some(v)));
        lemma_sum_slots_update(s.drop_last(), i, v);
    }
}

/// A kept flex column's extra share is never negative: proportional shares
/// grow with the prefix weight sum.
proof fn lemma_extra_nonneg(cols: Seq<ColumnSpec>, total: int, i: int)
    requires
        total >= 0,
        0 <= i < cols.len(),
    ensures
        spec_extra(cols, total, i) >= 0,
{
    let n = cols.len() as int;
    let leftover = spec_remaining(cols, total, n);
    let wt = spec_flex_weight_sum(cols, total, n);
    if spec_is_kept(cols, total, i) && cols[i].hard_width is None && wt > 0 {
        lemma_remaining_nonneg(cols, total, n);
        lemma_flex_sum_ordered(cols, total, i, i + 1);
        lemma_flex_sum_nonneg(cols, total, i);
        lemma_mul_inequality(
            spec_flex_weight_sum(cols, total, i),
            spec_flex_weight_sum(cols, total, i + 1),
            leftover,
        );
        assert(spec_flex_weight_sum(cols, total, i) * leftover == leftover
            * spec_flex_weight_sum(cols, total, i)) by (nonlinear_arith);
        assert(spec_flex_weight_sum(cols, total, i + 1) * leftover == leftover
            * spec_flex_weight_sum(cols, total, i + 1)) by (nonlinear_arith);
        lemma_div_is_ordered(
            leftover * spec_flex_weight_sum(cols, total, i),
            leftover * spec_flex_weight_sum(cols, total, i + 1),
            wt,
        );
    }
}

/// Produce the widths of the columns that fit inside `total_width`.
///
/// Kept columns are exactly those whose base width (hard width, else
/// minimum width) fits the space left by earlier kept columns, in input
/// order. A kept hard column gets exactly its hard width; a kept flex
/// column gets its minimum plus its proportional share of the leftover.
/// The returned widths never sum to more than `total_width`.
pub fn allocate(total_width: u16, columns: &Vec<ColumnSpec>) -> (r: ColumnAllocation)
    ensures
        r.widths@.len() == r.indices@.len(),
        forall|k: int|
            0 <= k < r.indices@.len() ==> (r.indices@[k] as int) < columns@.len()
                && spec_is_kept(columns@, total_width as int, r.indices@[k] as int),
        forall|k1: int, k2: int|
            0 <= k1 < k2 < r.indices@.len() ==> r.indices@[k1] < r.indices@[k2],
        forall|i: int|
            0 <= i < columns@.len() && spec_is_kept(columns@, total_width as int, i)
                ==> exists|k: int|
                0 <= k < r.indices@.len() && r.indices@[k] == i,
        forall|k: int|
            0 <= k < r.widths@.len() ==> r.widths@[k] as int == spec_col_width(
                columns@,
                total_width as int,
                r.indices@[k] as int,
            ),
        forall|k: int|
            0 <= k < r.widths@.len() ==> (match columns@[#[trigger] r.indices@[k] as int]
                .hard_width {
                Some(h) => r.widths@[k] == h,
                None => r.widths@[k] >= columns@[r.indices@[k] as int].min_width,
            }),
        sum_widths(r.widths@) <= total_width,
{
    let ghost total = total_width as int;
    let n = columns.len();
    let mut slots: Vec<Option<u16>> = Vec::new();
    let mut remaining: u16 = total_width;
    let mut weight_total: u128 = 0;
    let mut i: usize = 0;
    while i < n
        invariant
            n == columns@.len(),
            i <= n,
            slots@.len() == i,
            remaining == spec_remaining(columns@, total, i as int),
            weight_total == spec_flex_weight_sum(columns@, total, i as int),
            weight_total <= i * 0xFFFF,
            sum_slots(slots@) == total - remaining,
            forall|j: int|
                0 <= j < i ==> slots@[j] == (if spec_is_kept(columns@, total, j) {
                    Some(base_of(columns@[j]))
                } else {
                    Option::<u16>::None
                }),
        decreases n - i,
    {
        let c = columns[i];
        let ghost pre_slots = slots@;
        let base: u16 = match c.hard_width {
            Some(h) => h,
            None => c.min_width,
        };
        if base <= remaining {
            remaining = remaining - base;
            slots.push(Some(base));
            if c.hard_width.is_none() {
                proof {
                    assert((i as int) * 0xFFFF + 0xFFFF <= 0xFFFF_FFFF_FFFF_FFFFu64 * 0x1_0000)
                        by (nonlinear_arith)
                        requires i <= 0xFFFF_FFFF_FFFF_FFFFu64,
                    ;
                }
                weight_total = weight_total + c.flex_weight as u128;
            }
        } else {
            slots.push(None);
        }
        proof {
            assert(slots@.drop_last() =~= pre_slots);
        }
        i = i + 1;
    }
    let ghost leftover = spec_remaining(columns@, total, n as int);
    let ghost wt = spec_flex_weight_sum(columns@, total, n as int);

    if weight_total > 0 {
        let leftover_now: u16 = remaining;
        let mut s: u128 = 0;
        let mut given: u128 = 0;
        let mut j: usize = 0;
        while j < n
            invariant
                n == columns@.len(),
                j <= n,
                slots@.len() == n,
                total == total_width as int,
                leftover == spec_remaining(columns@, total, n as int),
                wt == spec_flex_weight_sum(columns@, total, n as int),
                wt == weight_total,
                wt > 0,
                wt <= n * 0xFFFF,
                leftover_now == leftover,
                s == spec_flex_weight_sum(columns@, total, j as int),
                given == leftover * s / wt,
                sum_slots(slots@) == total - leftover + given,
                forall|q: int|
                    0 <= q < j ==> slots@[q] == (if spec_is_kept(columns@, total, q) {
                        Some((spec_col_width(columns@, total, q)) as u16)
                    } else {
                        Option::<u16>::None
                    }),
                forall|q: int|
                    j <= q < n ==> slots@[q] == (if spec_is_kept(columns@, total, q) {
                        Some(base_of(columns@[q]))
                    } else {
                        Option::<u16>::None
                    }),
                forall|q: int|
                    0 <= q < j && spec_is_kept(columns@, total, q) ==> 0 <= spec_col_width(
                        columns@,
                        total,
                        q,
                    ) <= u16::MAX,
            decreases n - j,
        {
            let c = columns[j];
            let is_kept_flex = match slots[j] {
                Some(_) => c.hard_width.is_none(),
                None => false,
            };
            if is_kept_flex {
                proof {
                    lemma_flex_sum_ordered(columns@, total, j as int + 1, n as int);
                    lemma_flex_sum_nonneg(columns@, total, j as int);
                    lemma_remaining_nonneg(columns@, total, n as int);
                    assert(s + c.flex_weight <= wt);
                    assert(leftover * (s + c.flex_weight) <= leftover * wt) by (nonlinear_arith)
                        requires
                            s + c.flex_weight <= wt,
                            leftover >= 0,
                    ;
                    assert(leftover * s <= leftover * (s + c.flex_weight)) by (nonlinear_arith)
                        requires
                            leftover >= 0,
                            c.flex_weight >= 0,
                    ;
                    lemma_div_is_ordered(
                        leftover * s,
                        leftover * (s + c.flex_weight as int),
                        wt,
                    );
                    lemma_div_is_ordered(leftover * (s + c.flex_weight as int), leftover * wt, wt);
                    lemma_div_multiples_vanish(leftover, wt);
                    assert(wt * leftover == leftover * wt) by (nonlinear_arith);
                    assert(leftover * (s + c.flex_weight as int) / wt <= leftover);
                    assert(leftover * (s + c.flex_weight) <= 0xFFFF * (0xFFFF_FFFF_FFFF_FFFFu64
                        * 0x1_0000)) by (nonlinear_arith)
                        requires
                            0 <= leftover <= 0xFFFF,
                            0 <= s + c.flex_weight <= 0xFFFF_FFFF_FFFF_FFFFu64 * 0x1_0000,
                    ;
                }
                s = s + c.flex_weight as u128;
                let given_new: u128 = (leftover_now as u128) * s / weight_total;
                let extra: u128 = given_new - given;
                let base: u16 = match slots[j] {
                    Some(b) => b,
                    None => 0,
                };
                proof {
                    lemma_remaining_ordered(columns@, total, j as int + 1, n as int);
                    lemma_remaining_nonneg(columns@, total, j as int + 1);
                    assert(base_of(columns@[j as int]) + leftover <= spec_remaining(
                        columns@,
                        total,
                        j as int,
                    ));
                    lemma_remaining_ordered(columns@, total, 0, j as int);
                }
                let new_width: u16 = base + (extra as u16);
                let ghost old_slots = slots@;
                slots.set(j, Some(new_width));
                proof {
                    lemma_sum_slots_update(old_slots, j as int, new_width);
                }
                given = given_new;
            } else {
                proof {
                    assert(spec_flex_weight_sum(columns@, total, j as int + 1)
                        == spec_flex_weight_sum(columns@, total, j as int));
                    if 0 <= j < n && spec_is_kept(columns@, total, j as int)
                        && columns@[j as int].hard_width is Some {
                        assert(spec_extra(columns@, total, j as int) == 0);
                    }
                }
            }
            j = j + 1;
        }
        proof {
            lemma_div_multiples_vanish(leftover, wt);
            assert(wt * leftover == leftover * wt) by (nonlinear_arith);
        }
    } else {
        proof {
            lemma_remaining_nonneg(columns@, total, n as int);
            assert forall|q: int| 0 <= q < n && spec_is_kept(columns@, total, q) implies
                spec_extra(columns@, total, q) == 0 by {
                lemma_flex_sum_nonneg(columns@, total, n as int);
            }
        }
    }

    let mut widths: Vec<u16> = Vec::new();
    let mut indices: Vec<usize> = Vec::new();
    proof {
        lemma_sum_slots_take_bound(slots@, 0);
    }
    let mut k: usize = 0;
    while k < n
        invariant
            n == columns@.len(),
            k <= n,
            slots@.len() == n,
            total == total_width as int,
            widths@.len() == indices@.len(),
            sum_slots(slots@) <= total,
            forall|q: int|
                0 <= q < n ==> slots@[q] == (if spec_is_kept(columns@, total, q) {
                    Some((spec_col_width(columns@, total, q)) as u16)
                } else {
                    Option::<u16>::None
                }),
            forall|q: int|
                0 <= q < n && spec_is_kept(columns@, total, q) ==> 0 <= spec_col_width(
                    columns@,
                    total,
                    q,
                ) <= u16::MAX,
            forall|p: int|
                0 <= p < indices@.len() ==> (indices@[p] as int) < k && spec_is_kept(
                    columns@,
                    total,
                    indices@[p] as int,
                ),
            forall|p1: int, p2: int|
                0 <= p1 < p2 < indices@.len() ==> indices@[p1] < indices@[p2],
            forall|q: int|
                0 <= q < k && spec_is_kept(columns@, total, q) ==> exists|p: int|
                    0 <= p < indices@.len() && indices@[p] == q,
            forall|p: int|
                0 <= p < widths@.len() ==> widths@[p] as int == spec_col_width(
                    columns@,
                    total,
                    indices@[p] as int,
                ),
            sum_widths(widths@) == sum_slots(slots@.take(k as int)),
            sum_slots(slots@.take(k as int)) <= sum_slots(slots@),
        decreases n - k,
    {
        match slots[k] {
            Some(w) => {
                let ghost old_widths = widths@;
                let ghost old_indices = indices@;
                widths.push(w);
                indices.push(k);
                proof {
                    assert(widths@.drop_last() =~= old_widths);
                    assert(indices@.drop_last() =~= old_indices);
                    assert forall|q: int|
                        0 <= q < k + 1 && spec_is_kept(columns@, total, q) implies exists|p: int|
                        0 <= p < indices@.len() && indices@[p] == q by {
                        if q == k {
                            assert(indices@[indices@.len() - 1] == q);
                        } else {
                            let p0 = choose|p: int|
                                0 <= p < old_indices.len() && old_indices[p] == q;
                            assert(indices@[p0] == q);
                        }
                    }
                }
            },
            None => {},
        }
        proof {
            assert(slots@.take(k + 1).drop_last() =~= slots@.take(k as int));
            assert(sum_slots(slots@.take(k + 1)) == sum_slots(slots@.take(k as int)) + (
            match slots@[k as int] {
                Some(w) => w as int,
                None => 0,
            }));
            lemma_sum_slots_take_bound(slots@, k as int + 1);
        }
        k = k + 1;
    }
    proof {
        assert(slots@.take(n as int) =~= slots@);
        assert forall|p: int| 0 <= p < widths@.len() implies (
        match columns@[#[trigger] indices@[p] as int].hard_width {
            Some(h) => widths@[p] == h,
            None => widths@[p] >= columns@[indices@[p] as int].min_width,
        }) by {
            lemma_extra_nonneg(columns@, total, indices@[p] as int);
        }
    }
    ColumnAllocation { widths, indices }
}

/// The sum over a prefix of the slots never exceeds the sum over all of
/// them: dropped columns contribute nothing and widths are nonnegative.
proof fn lemma_sum_slots_take_bound(s: Seq<Option<u16>>, i: int)
    requires
        0 <= i <= s.len(),
    ensures
        sum_slots(s.take(i)) <= sum_slots(s),
    decreases s.len() - i,
{
    if i == s.len() {
        assert(s.take(i) =~= s);
    } else {
        lemma_sum_slots_take_bound(s, i + 1);
        assert(s.take(i + 1).drop_last() =~= s.take(i));
        assert(sum_slots(s.take(i + 1)) >= sum_slots(s.take(i)));
    }
}

} // verus!
