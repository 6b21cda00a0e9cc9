//! The plot data model: sample grids, series, surfaces, axes and colour ramps.

use vstd::prelude::*;
use vstd::arithmetic::div_mod::{
    lemma_div_is_ordered, lemma_div_multiples_vanish, lemma_fundamental_div_mod_converse,
    lemma_div_plus_one,
};
use crate::fixed::{magnitude, ONE};
use crate::math::{count_ticks, tick_count};
use crate::mesh::{mesh_cells, mesh_shape, Mesh};

verus! {

/// An RGBA colour; each channel runs from 0 to [`ONE`].
#[derive(Debug, Clone, Copy, PartialEq, Eq)]
pub struct Color(pub i64, pub i64, pub i64, pub i64);

impl Color {
    /// Opaque black.
    pub fn black() -> (c: Color)
        ensures
            c == Color(0, 0, 0, ONE),
    {
        Color(0, 0, 0, ONE)
    }

    /// Opaque red.
    pub fn red() -> (c: Color)
        ensures
            c == Color(ONE, 0, 0, ONE),
    {
        Color(ONE, 0, 0, ONE)
    }

    /// Opaque blue.
    pub fn blue() -> (c: Color)
        ensures
            c == Color(0, 0, ONE, ONE),
    {
        Color(0, 0, ONE, ONE)
    }
}

/// Sample `i` of the grid that divides `[start, end]` into `steps` equal
/// parts, rounded toward negative infinity. A grid of zero steps holds the
/// single sample `start`.
pub open spec fn sample(start: int, end: int, steps: int, i: int) -> int {
    if steps <= 0 {
        start
    } else {
        start + (i * (end - start)) / steps
    }
}

/// The first and last samples are the interval's endpoints.
pub proof fn lemma_sample_endpoints(start: int, end: int, steps: int)
    requires
        steps > 0,
    ensures
        sample(start, end, steps, 0) == start,
        sample(start, end, steps, steps) == end,
{
    assert(0 * (end - start) == 0);
    assert(0int / steps == 0) by {
        lemma_fundamental_div_mod_converse(0, steps, 0, 0);
    }
    assert((steps * (end - start)) / steps == end - start) by {
        lemma_div_multiples_vanish(end - start, steps);
    }
}

/// Samples follow the direction of the interval: they never decrease over an
/// ascending interval and never increase over a descending one.
pub proof fn lemma_sample_monotone(start: int, end: int, steps: int, i: int, j: int)
    requires
        0 <= i <= j,
    ensures
        start <= end ==> sample(start, end, steps, i) <= sample(start, end, steps, j),
        start >= end ==> sample(start, end, steps, i) >= sample(start, end, steps, j),
{
    if steps > 0 {
        let d = end - start;
        if d == 0 {
            assert(i * d == j * d) by (nonlinear_arith)
                requires d == 0;
        } else if d > 0 {
            assert(i * d <= j * d) by (nonlinear_arith)
                requires 0 <= i <= j, d >= 0;
            lemma_div_is_ordered(i * d, j * d, steps);
        } else {
            assert(j * d <= i * d) by (nonlinear_arith)
                requires 0 <= i <= j, d < 0;
            lemma_div_is_ordered(j * d, i * d, steps);
        }
    }
}

/// Where the interval is at least `steps` raw units long, no two samples
/// coincide: the grid is strictly monotonic.
pub proof fn lemma_sample_strictly_monotone(start: int, end: int, steps: int, i: int, j: int)
    requires
        steps > 0,
        0 <= i < j,
        magnitude(end - start) >= steps,
    ensures
        start < end ==> sample(start, end, steps, i) < sample(start, end, steps, j),
        start > end ==> sample(start, end, steps, i) > sample(start, end, steps, j),
{
    let d = end - start;
    if d > 0 {
        assert(i * d + steps <= j * d) by (nonlinear_arith)
            requires 0 <= i < j, d >= steps, steps > 0;
        lemma_div_is_ordered(i * d + steps, j * d, steps);
        lemma_div_plus_one(i * d, steps);
    } else if d < 0 {
        assert(j * d + steps <= i * d) by (nonlinear_arith)
            requires 0 <= i < j, -d >= steps, steps > 0;
        lemma_div_is_ordered(j * d + steps, i * d, steps);
        lemma_div_plus_one(j * d, steps);
    }
}

/// Every sample lies between the interval's endpoints.
pub proof fn lemma_sample_bounds(start: int, end: int, steps: int, i: int)
    requires
        0 <= i <= steps,
    ensures
        start <= end ==> start <= sample(start, end, steps, i) <= end,
        start >= end ==> end <= sample(start, end, steps, i) <= start,
{
    if steps > 0 {
        lemma_sample_endpoints(start, end, steps);
        lemma_sample_monotone(start, end, steps, 0, i);
        lemma_sample_monotone(start, end, steps, i, steps);
    }
}


/// A uniform grid of samples over an interval.
pub struct Linspace {
    data: Vec<i64>,
}

impl Linspace {
    /// The samples, in order.
    pub closed spec fn view(&self) -> Seq<i64> {
        self.data@
    }

    /// `i * d / steps`, rounded toward negative infinity, for `i <= steps`.
    fn step_offset(i: usize, d: i128, steps: usize) -> (r: i128)
        requires
            0 < steps,
            i <= steps,
            -0x1_0000_0000_0000_0000 < d < 0x1_0000_0000_0000_0000,
        ensures
            r == (i * d) / (steps as int),
    {
        let wide_i: u128 = i as u128;
        let wide_steps: u128 = steps as u128;
        if d >= 0 {
            let span: u128 = d as u128;
            assert(wide_i * span <= 0xffff_ffff_ffff_ffff * 0xffff_ffff_ffff_ffff)
                by (nonlinear_arith)
                requires 0 <= wide_i <= 0xffff_ffff_ffff_ffff, 0 <= span <= 0xffff_ffff_ffff_ffff;
            let product: u128 = wide_i * span;
            let q: u128 = product / wide_steps;
            proof {
                assert(i * d <= steps * d) by (nonlinear_arith)
                    requires 0 <= i <= steps, d >= 0;
                lemma_div_is_ordered(i * d, steps * d, steps as int);
                lemma_div_multiples_vanish(d as int, steps as int);
            }
            q as i128
        } else {
            let span: u128 = (-d) as u128;
            assert(wide_i * span <= 0xffff_ffff_ffff_ffff * 0xffff_ffff_ffff_ffff)
                by (nonlinear_arith)
                requires 0 <= wide_i <= 0xffff_ffff_ffff_ffff, 0 <= span <= 0xffff_ffff_ffff_ffff;
            let product: u128 = wide_i * span;
            let q: u128 = product / wide_steps;
            let rem: u128 = product % wide_steps;
            proof {
                assert(i * span <= steps * span) by (nonlinear_arith)
                    requires 0 <= i <= steps, span >= 0;
                lemma_div_is_ordered(i * span, steps * span, steps as int);
                lemma_div_multiples_vanish(span as int, steps as int);
                assert(product == (steps as int) * (q as int) + rem) by {
                    vstd::arithmetic::div_mod::lemma_fundamental_div_mod(product as int, steps as int);
                }
                assert(i * d == -(product as int)) by (nonlinear_arith)
                    requires product == i * span, span == -d;
            }
            if rem == 0 {
                proof {
                    assert(i * d == (-(q as int)) * (steps as int) + 0) by (nonlinear_arith)
                        requires i * d == -(product as int), product == (steps as int) * (q as int) + rem, rem == 0;
                    lemma_fundamental_div_mod_converse(i * d, steps as int, -(q as int), 0);
                }
                -(q as i128)
            } else {
                proof {
                    assert(i * d == (-(q as int) - 1) * (steps as int) + (steps - rem)) by (nonlinear_arith)
                        requires i * d == -(product as int), product == (steps as int) * (q as int) + rem;
                    lemma_fundamental_div_mod_converse(i * d, steps as int, -(q as int) - 1, steps - rem);
                }
                -(q as i128) - 1
            }
        }
    }

    /// The `steps + 1` samples that divide `[start, end]` into `steps` equal
    /// parts, both endpoints included.
    pub fn linspace(start: i64, end: i64, steps: usize) -> (data: Vec<i64>)
        requires
            steps < usize::MAX,
        ensures
            data@.len() == steps + 1,
            forall|i: int| 0 <= i <= steps ==> #[trigger] data@[i] == sample(start as int, end as int, steps as int, i),
            data@[0] == start,
            steps > 0 ==> data@[steps as int] == end,
            forall|i: int, j: int| 0 <= i <= j <= steps && start <= end ==> data@[i] <= data@[j],
            forall|i: int, j: int| 0 <= i <= j <= steps && start >= end ==> data@[i] >= data@[j],
            forall|i: int, j: int|
                0 <= i < j <= steps && end - start >= steps ==> data@[i] < data@[j],
            forall|i: int, j: int|
                0 <= i < j <= steps && start - end >= steps ==> data@[i] > data@[j],
    {
        let mut data: Vec<i64> = Vec::new();
        if steps == 0 {
            data.push(start);
            return data;
        }
        let mut i: usize = 0;
        while i <= steps
            invariant
                0 < steps < usize::MAX,
                i <= steps + 1,
                data@.len() == i,
                forall|k: int| 0 <= k < i ==> #[trigger] data@[k] == sample(start as int, end as int, steps as int, k),
            decreases steps + 1 - i,
        {
            data.push(Self::at(start, end, steps, i));
            i += 1;
        }
        proof {
            lemma_sample_endpoints(start as int, end as int, steps as int);
            assert forall|i: int, j: int| 0 <= i <= j <= steps && start <= end implies data@[i] <= data@[j] by {
                lemma_sample_monotone(start as int, end as int, steps as int, i, j);
            }
            assert forall|i: int, j: int| 0 <= i <= j <= steps && start >= end implies data@[i] >= data@[j] by {
                lemma_sample_monotone(start as int, end as int, steps as int, i, j);
            }
            assert forall|i: int, j: int|
                0 <= i < j <= steps && end - start >= steps implies data@[i] < data@[j] by {
                lemma_sample_strictly_monotone(start as int, end as int, steps as int, i, j);
            }
            assert forall|i: int, j: int|
                0 <= i < j <= steps && start - end >= steps implies data@[i] > data@[j] by {
                lemma_sample_strictly_monotone(start as int, end as int, steps as int, i, j);
            }
        }
        data
    }

    /// Sample `i` alone, without building the grid.
    pub fn at(start: i64, end: i64, steps: usize, i: usize) -> (value: i64)
        requires
            i <= steps,
        ensures
            value == sample(start as int, end as int, steps as int, i as int),
    {
        if steps == 0 {
            return start;
        }
        let offset = Self::step_offset(i, end as i128 - start as i128, steps);
        proof {
            lemma_sample_bounds(start as int, end as int, steps as int, i as int);
        }
        (start as i128 + offset) as i64
    }

    /// A grid object holding the samples of [`Linspace::linspace`].
    pub fn new(start: i64, end: i64, steps: usize) -> (grid: Linspace)
        requires
            steps < usize::MAX,
        ensures
            grid@.len() == steps + 1,
            forall|i: int| 0 <= i <= steps ==> #[trigger] grid@[i] == sample(start as int, end as int, steps as int, i),
    {
        Linspace { data: Self::linspace(start, end, steps) }
    }

    /// Hands the samples out.
    pub fn into_vec(self) -> (data: Vec<i64>)
        ensures
            data@ == self@,
    {
        self.data
    }
}


/// The smallest element of `s`; `i64::MAX` for an empty sequence.
pub open spec fn least(s: Seq<i64>) -> i64
    decreases s.len(),
{
    if s.len() == 0 {
        i64::MAX
    } else if s.last() < least(s.drop_last()) {
        s.last()
    } else {
        least(s.drop_last())
    }
}

/// The largest element of `s`; `i64::MIN` for an empty sequence.
pub open spec fn greatest(s: Seq<i64>) -> i64
    decreases s.len(),
{
    if s.len() == 0 {
        i64::MIN
    } else if s.last() > greatest(s.drop_last()) {
        s.last()
    } else {
        greatest(s.drop_last())
    }
}

/// The first components of a sequence of pairs.
pub open spec fn firsts(s: Seq<(i64, i64)>) -> Seq<i64> {
    Seq::new(s.len(), |i: int| s[i].0)
}

/// The second components of a sequence of pairs.
pub open spec fn seconds(s: Seq<(i64, i64)>) -> Seq<i64> {
    Seq::new(s.len(), |i: int| s[i].1)
}

/// `least` bounds every element from below and, unless the sequence is
/// empty, is one of them.
pub proof fn lemma_least_is_minimum(s: Seq<i64>)
    ensures
        forall|i: int| 0 <= i < s.len() ==> least(s) <= #[trigger] s[i],
        s.len() > 0 ==> exists|i: int| 0 <= i < s.len() && s[i] == least(s),
        s.len() == 0 ==> least(s) == i64::MAX,
    decreases s.len(),
{
    if s.len() > 0 {
        let front = s.drop_last();
        lemma_least_is_minimum(front);
        assert forall|i: int| 0 <= i < s.len() implies least(s) <= #[trigger] s[i] by {
            if i < front.len() {
                assert(front[i] == s[i]);
            }
        }
        if s.last() < least(front) || front.len() == 0 {
            assert(s[s.len() - 1] == least(s));
        } else {
            let i = choose|i: int| 0 <= i < front.len() && front[i] == least(front);
            assert(s[i] == least(s));
        }
    }
}

/// `greatest` bounds every element from above and, unless the sequence is
/// empty, is one of them.
pub proof fn lemma_greatest_is_maximum(s: Seq<i64>)
    ensures
        forall|i: int| 0 <= i < s.len() ==> greatest(s) >= #[trigger] s[i],
        s.len() > 0 ==> exists|i: int| 0 <= i < s.len() && s[i] == greatest(s),
        s.len() == 0 ==> greatest(s) == i64::MIN,
    decreases s.len(),
{
    if s.len() > 0 {
        let front = s.drop_last();
        lemma_greatest_is_maximum(front);
        assert forall|i: int| 0 <= i < s.len() implies greatest(s) >= #[trigger] s[i] by {
            if i < front.len() {
                assert(front[i] == s[i]);
            }
        }
        if s.last() > greatest(front) || front.len() == 0 {
            assert(s[s.len() - 1] == greatest(s));
        } else {
            let i = choose|i: int| 0 <= i < front.len() && front[i] == greatest(front);
            assert(s[i] == greatest(s));
        }
    }
}

/// The smallest value of `vals` and the first position that holds it;
/// `(i64::MAX, 0)` for an empty slice.
pub fn min(vals: &[i64]) -> (found: (i64, usize))
    ensures
        found.0 == least(vals@),
        vals@.len() == 0 ==> found.1 == 0,
        vals@.len() > 0 ==> found.1 < vals@.len() && vals@[found.1 as int] == found.0,
        forall|i: int| 0 <= i < found.1 ==> vals@[i] > found.0,
        forall|i: int| 0 <= i < vals@.len() ==> vals@[i] >= found.0,
{
    let mut lowest: i64 = i64::MAX;
    let mut pos: usize = 0;
    let mut i: usize = 0;
    while i < vals.len()
        invariant
            i <= vals@.len(),
            lowest == least(vals@.take(i as int)),
            i == 0 ==> pos == 0,
            i > 0 ==> pos < i && vals@[pos as int] == lowest,
            forall|k: int| 0 <= k < pos ==> vals@[k] > lowest,
            forall|k: int| 0 <= k < i ==> vals@[k] >= lowest,
        decreases vals@.len() - i,
    {
        proof {
            assert(vals@.take(i + 1).drop_last() =~= vals@.take(i as int));
        }
        if vals[i] < lowest {
            lowest = vals[i];
            pos = i;
        }
        i += 1;
    }
    proof {
        assert(vals@.take(i as int) =~= vals@);
    }
    (lowest, pos)
}

/// The smallest first component and the smallest second component of `vals`.
pub fn double_min(vals: &[(i64, i64)]) -> (found: (i64, i64))
    ensures
        found.0 == least(firsts(vals@)),
        found.1 == least(seconds(vals@)),
{
    let mut min_1: i64 = i64::MAX;
    let mut min_2: i64 = i64::MAX;
    let mut i: usize = 0;
    while i < vals.len()
        invariant
            i <= vals@.len(),
            min_1 == least(firsts(vals@.take(i as int))),
            min_2 == least(seconds(vals@.take(i as int))),
        decreases vals@.len() - i,
    {
        proof {
            assert(firsts(vals@.take(i + 1)).drop_last() =~= firsts(vals@.take(i as int)));
            assert(seconds(vals@.take(i + 1)).drop_last() =~= seconds(vals@.take(i as int)));
        }
        let (first, second) = vals[i];
        if first < min_1 {
            min_1 = first;
        }
        if second < min_2 {
            min_2 = second;
        }
        i += 1;
    }
    proof {
        assert(vals@.take(i as int) =~= vals@);
    }
    (min_1, min_2)
}

/// The largest first component and the largest second component of `vals`.
pub fn double_max(vals: &[(i64, i64)]) -> (found: (i64, i64))
    ensures
        found.0 == greatest(firsts(vals@)),
        found.1 == greatest(seconds(vals@)),
{
    let mut max_1: i64 = i64::MIN;
    let mut max_2: i64 = i64::MIN;
    let mut i: usize = 0;
    while i < vals.len()
        invariant
            i <= vals@.len(),
            max_1 == greatest(firsts(vals@.take(i as int))),
            max_2 == greatest(seconds(vals@.take(i as int))),
        decreases vals@.len() - i,
    {
        proof {
            assert(firsts(vals@.take(i + 1)).drop_last() =~= firsts(vals@.take(i as int)));
            assert(seconds(vals@.take(i + 1)).drop_last() =~= seconds(vals@.take(i as int)));
        }
        let (first, second) = vals[i];
        if first > max_1 {
            max_1 = first;
        }
        if second > max_2 {
            max_2 = second;
        }
        i += 1;
    }
    proof {
        assert(vals@.take(i as int) =~= vals@);
    }
    (max_1, max_2)
}


/// Whether two strings hold the same text.
fn same_text(a: &str, b: &str) -> (same: bool)
    ensures
        same == (a@ == b@),
{
    let left = a.to_owned();
    let right = b.to_owned();
    left == right
}

/// How many elements of `data` are at most `x`.
pub open spec fn count_at_most(data: Seq<i64>, x: int) -> nat
    decreases data.len(),
{
    if data.len() == 0 {
        0
    } else {
        count_at_most(data.drop_last(), x) + if data.last() <= x { 1nat } else { 0nat }
    }
}

/// The count of [`count_at_most`] never exceeds the length, and counts an
/// element that is itself at most `x`.
pub proof fn lemma_count_at_most_bounds(data: Seq<i64>, x: int)
    ensures
        count_at_most(data, x) <= data.len(),
        (exists|j: int| 0 <= j < data.len() && data[j] <= x) ==> count_at_most(data, x) >= 1,
    decreases data.len(),
{
    if data.len() > 0 {
        let front = data.drop_last();
        lemma_count_at_most_bounds(front, x);
        if exists|j: int| 0 <= j < data.len() && data[j] <= x {
            let j = choose|j: int| 0 <= j < data.len() && data[j] <= x;
            if j < front.len() {
                assert(front[j] <= x);
            }
        }
    }
}

/// Whether the sequence is in ascending order.
pub open spec fn ascending(s: Seq<i64>) -> bool {
    forall|i: int, j: int| 0 <= i <= j < s.len() ==> s[i] <= s[j]
}

/// Taking an element out lowers the count of [`count_at_most`] by one exactly
/// where the element is at most `x`.
pub proof fn lemma_count_without(s: Seq<i64>, i: int, x: int)
    requires
        0 <= i < s.len(),
    ensures
        count_at_most(s, x) == count_at_most(s.remove(i), x) + if s[i] <= x { 1nat } else { 0nat },
    decreases s.len(),
{
    if i == s.len() - 1 {
        assert(s.remove(i) =~= s.drop_last());
    } else {
        lemma_count_without(s.drop_last(), i, x);
        assert(s.remove(i).drop_last() =~= s.drop_last().remove(i));
        assert(s.remove(i).last() == s.last());
    }
}

/// The count of [`count_at_most`] does not depend on the order of the
/// elements.
pub proof fn lemma_count_of_permutation(a: Seq<i64>, b: Seq<i64>, x: int)
    requires
        a.to_multiset() == b.to_multiset(),
    ensures
        count_at_most(a, x) == count_at_most(b, x),
    decreases a.len(),
{
    a.to_multiset_ensures();
    b.to_multiset_ensures();
    if a.len() > 0 {
        let v = a.last();
        assert(a[a.len() - 1] == v);
        assert(a.contains(v));
        assert(a.to_multiset().count(v) > 0);
        assert(b.to_multiset().count(v) > 0);
        assert(b.contains(v));
        let i = choose|i: int| 0 <= i < b.len() && b[i] == v;
        let shorter = a.drop_last();
        let other = b.remove(i);
        assert(shorter =~= a.remove(a.len() - 1));
        assert(shorter.to_multiset() =~= other.to_multiset());
        lemma_count_of_permutation(shorter, other, x);
        lemma_count_without(b, i, x);
    }
}

/// In an ascending sequence the elements that are at most `x` come first:
/// [`count_at_most`] is the position at which the larger ones begin.
pub proof fn lemma_count_of_ascending(s: Seq<i64>, x: int)
    requires
        ascending(s),
    ensures
        count_at_most(s, x) <= s.len(),
        forall|k: int| 0 <= k < count_at_most(s, x) ==> #[trigger] s[k] <= x,
        forall|k: int| count_at_most(s, x) <= k < s.len() ==> #[trigger] s[k] > x,
    decreases s.len(),
{
    if s.len() > 0 {
        let front = s.drop_last();
        assert(ascending(front)) by {
            assert forall|i: int, j: int| 0 <= i <= j < front.len() implies front[i] <= front[j] by {
                assert(s[i] <= s[j]);
            }
        }
        lemma_count_of_ascending(front, x);
        let c = count_at_most(front, x) as int;
        if s.last() <= x && c < front.len() {
            assert(front[c] > x);
            assert(s[c] <= s[s.len() - 1]);
        }
        assert forall|k: int| 0 <= k < count_at_most(s, x) implies #[trigger] s[k] <= x by {
            if k < front.len() {
                assert(front[k] == s[k]);
            }
        }
        assert forall|k: int| count_at_most(s, x) <= k < s.len() implies #[trigger] s[k] > x by {
            if k < front.len() {
                assert(front[k] == s[k]);
            }
        }
    }
}

/// The rank by which [`ramp_position`] places a sample is the last position
/// of its value in the samples sorted in ascending order: to colour by rank is
/// to sort the samples, give each position its colour, and hand every sample
/// the colour of the last position that holds its value.
pub proof fn lemma_rank_is_last_position(data: Seq<i64>, sorted: Seq<i64>, j: int)
    requires
        ascending(sorted),
        sorted.to_multiset() == data.to_multiset(),
        0 <= j < data.len(),
    ensures
        ({
            let rank = count_at_most(data, data[j] as int) - 1;
            &&& 0 <= rank < sorted.len()
            &&& sorted[rank] == data[j]
            &&& forall|k: int| rank < k < sorted.len() ==> #[trigger] sorted[k] > data[j]
        }),
{
    let x = data[j];
    sorted.to_multiset_ensures();
    data.to_multiset_ensures();
    lemma_count_of_permutation(data, sorted, x as int);
    lemma_count_of_ascending(sorted, x as int);
    assert(data.contains(x));
    assert(data.to_multiset().count(x) > 0);
    assert(sorted.to_multiset().count(x) > 0);
    assert(sorted.contains(x));
    let p = choose|p: int| 0 <= p < sorted.len() && sorted[p] == x;
    let count = count_at_most(sorted, x as int) as int;
    if p >= count {
        assert(sorted[p] > x);
    }
    assert(sorted[p] <= sorted[count - 1]);
}

/// The "hot" ramp at position `v` of `[0, 3 * ONE]`: black to red over the
/// first band, red to yellow over the second, yellow to white over the third.
pub open spec fn hot(v: int) -> (i64, i64, i64) {
    if v <= ONE {
        (v as i64, 0, 0)
    } else if v <= 2 * ONE {
        (ONE, (v - ONE) as i64, 0)
    } else if v <= 3 * ONE {
        (ONE, ONE, (v - 2 * ONE) as i64)
    } else {
        (0, 0, 0)
    }
}

/// Where sample `j` falls on `[0, 3 * ONE]`: the samples are ranked in
/// ascending order, equal samples sharing the highest rank among them, and the
/// ranks are spread evenly over the interval.
pub open spec fn ramp_position(data: Seq<i64>, j: int) -> int {
    sample(0, 3 * ONE, data.len() - 1, count_at_most(data, data[j] as int) - 1)
}

/// Whether `table` is the colour table of `data` under the ramp `name`: by
/// rank on the hot ramp for `"hot"`, all black for any other name.
pub open spec fn is_colormap(name: Seq<char>, data: Seq<i64>, table: Seq<(i64, i64, i64)>) -> bool {
    &&& table.len() == data.len()
    &&& name == "hot"@ ==> forall|j: int| 0 <= j < data.len() ==> #[trigger] table[j] == hot(
        ramp_position(data, j),
    )
    &&& name != "hot"@ ==> forall|j: int| 0 <= j < data.len() ==> #[trigger] table[j] == (
        0i64,
        0i64,
        0i64,
    )
}

/// One RGB triple per input sample; each channel runs from 0 to [`ONE`].
pub struct Colormap(pub Vec<(i64, i64, i64)>);

impl Colormap {
    /// Colours the samples of `data` by rank. The name `"hot"` selects the
    /// hot ramp; under any other name every entry is black.
    pub fn new(name: &str, data: &[i64]) -> (table: Colormap)
        ensures
            is_colormap(name@, data@, table.0@),
    {
        let n = data.len();
        let is_hot = same_text(name, "hot");
        let mut colors: Vec<(i64, i64, i64)> = Vec::new();
        let mut j: usize = 0;
        while j < n
            invariant
                j <= n,
                n == data@.len(),
                is_hot == (name@ == "hot"@),
                colors@.len() == j,
                is_hot ==> forall|k: int| 0 <= k < j ==> #[trigger] colors@[k] == hot(
                    ramp_position(data@, k),
                ),
                !is_hot ==> forall|k: int| 0 <= k < j ==> #[trigger] colors@[k] == (0i64, 0i64, 0i64),
            decreases n - j,
        {
            if is_hot {
                let rank = Self::rank(data, j);
                let v = Linspace::at(0, 3 * ONE, n - 1, rank);
                proof {
                    lemma_sample_bounds(0, 3 * ONE as int, n - 1, rank as int);
                }
                let color = if v <= ONE {
                    (v, 0, 0)
                } else if v <= 2 * ONE {
                    (ONE, v - ONE, 0)
                } else {
                    (ONE, ONE, v - 2 * ONE)
                };
                colors.push(color);
            } else {
                colors.push((0, 0, 0));
            }
            j += 1;
        }
        Colormap(colors)
    }

    /// The rank of sample `j`: the number of samples that are at most
    /// `data[j]`, less one.
    fn rank(data: &[i64], j: usize) -> (rank: usize)
        requires
            j < data@.len(),
        ensures
            rank == count_at_most(data@, data@[j as int] as int) - 1,
            rank < data@.len(),
    {
        let x = data[j];
        let mut count: usize = 0;
        let mut k: usize = 0;
        while k < data.len()
            invariant
                k <= data@.len(),
                count == count_at_most(data@.take(k as int), x as int),
                count <= k,
            decreases data@.len() - k,
        {
            proof {
                assert(data@.take(k + 1).drop_last() =~= data@.take(k as int));
            }
            if data[k] <= x {
                count += 1;
            }
            k += 1;
        }
        proof {
            assert(data@.take(k as int) =~= data@);
            lemma_count_at_most_bounds(data@, x as int);
        }
        count - 1
    }
}


/// Whether `mode` names a grid drawing mode: `"none"` draws tick marks only,
/// `"both"` a full background grid.
pub open spec fn is_grid_mode(mode: Seq<char>) -> bool {
    mode == "none"@ || mode == "both"@
}

/// Whether `style` names a line style: `"-"` joins the samples by segments,
/// `"."` marks each sample by a filled circle.
pub open spec fn is_line_style(style: Seq<char>) -> bool {
    style == "-"@ || style == "."@
}

/// How the ticks of a chart are drawn.
#[derive(Debug, Clone, Copy, PartialEq, Eq, Structural)]
pub enum GridMode {
    /// Short marks across the axes: the mode `"none"`.
    Ticks,
    /// Lines across the whole chart: the mode `"both"`.
    Full,
}

/// How the samples of a line are drawn.
#[derive(Debug, Clone, Copy, PartialEq, Eq, Structural)]
pub enum LineStyle {
    /// Segments between neighbouring samples: the style `"-"`.
    Solid,
    /// A filled circle on each sample: the style `"."`.
    Marker,
}

/// The grid mode that `mode` names, if any.
pub open spec fn grid_mode_of(mode: Seq<char>) -> Option<GridMode> {
    if mode == "none"@ {
        Some(GridMode::Ticks)
    } else if mode == "both"@ {
        Some(GridMode::Full)
    } else {
        None
    }
}

/// The line style that `style` names, if any.
pub open spec fn line_style_of(style: Seq<char>) -> Option<LineStyle> {
    if style == "-"@ {
        Some(LineStyle::Solid)
    } else if style == "."@ {
        Some(LineStyle::Marker)
    } else {
        None
    }
}

/// Reads a grid mode; `None` for a string that names none.
pub fn grid_mode(mode: &str) -> (parsed: Option<GridMode>)
    ensures
        parsed == grid_mode_of(mode@),
        parsed.is_some() == is_grid_mode(mode@),
{
    if same_text(mode, "none") {
        Some(GridMode::Ticks)
    } else if same_text(mode, "both") {
        Some(GridMode::Full)
    } else {
        None
    }
}

/// Reads a line style; `None` for a string that names none.
pub fn line_style(style: &str) -> (parsed: Option<LineStyle>)
    ensures
        parsed == line_style_of(style@),
        parsed.is_some() == is_line_style(style@),
{
    if same_text(style, "-") {
        Some(LineStyle::Solid)
    } else if same_text(style, ".") {
        Some(LineStyle::Marker)
    } else {
        None
    }
}

/// The limits and tick spacing of a two-dimensional coordinate system.
pub struct Axes2D {
    pub xlim: [i64; 2],
    pub ylim: [i64; 2],
    pub scale: i64,
}

impl Axes2D {
    /// The unit square with a tick at every unit.
    pub fn new() -> (axes: Self)
        ensures
            axes.xlim@ == seq![0i64, ONE],
            axes.ylim@ == seq![0i64, ONE],
            axes.scale == ONE,
    {
        Self { xlim: [0, ONE], ylim: [0, ONE], scale: ONE }
    }

    pub fn get_xaxes(&self) -> (lim: [i64; 2])
        ensures
            lim == self.xlim,
    {
        self.xlim
    }

    pub fn get_yaxes(&self) -> (lim: [i64; 2])
        ensures
            lim == self.ylim,
    {
        self.ylim
    }

    /// Replaces both pairs of limits.
    pub fn axes(self, xlim: &[i64; 2], ylim: &[i64; 2]) -> (axes: Self)
        ensures
            axes.xlim == *xlim,
            axes.ylim == *ylim,
            axes.scale == self.scale,
    {
        Self { xlim: *xlim, ylim: *ylim, scale: self.scale }
    }

    /// Sets the distance between two ticks.
    pub fn scale(&mut self, scale: i64)
        ensures
            final(self).scale == scale,
            final(self).xlim == old(self).xlim,
            final(self).ylim == old(self).ylim,
    {
        self.scale = scale
    }

    pub fn get_scale(&self) -> (scale: i64)
        ensures
            scale == self.scale,
    {
        self.scale
    }

    /// The number of whole tick distances along the x and the y axis.
    pub fn tick_counts(&self) -> (counts: (usize, usize))
        ensures
            counts.0 == tick_count(self.xlim@[0] as int, self.xlim@[1] as int, self.scale as int),
            counts.1 == tick_count(self.ylim@[0] as int, self.ylim@[1] as int, self.scale as int),
    {
        (
            count_ticks(self.xlim[0], self.xlim[1], self.scale),
            count_ticks(self.ylim[0], self.ylim[1], self.scale),
        )
    }
}

/// The limits and per-axis tick spacing of a three-dimensional coordinate
/// system.
#[derive(Debug)]
pub struct Axes3D {
    pub xlim: [i64; 2],
    pub ylim: [i64; 2],
    pub zlim: [i64; 2],
    pub spacing: [i64; 3],
}

impl Axes3D {
    /// The unit cube with a tick at every unit.
    pub fn new() -> (axes: Self)
        ensures
            axes.xlim@ == seq![0i64, ONE],
            axes.ylim@ == seq![0i64, ONE],
            axes.zlim@ == seq![0i64, ONE],
            axes.spacing@ == seq![ONE, ONE, ONE],
    {
        Self { xlim: [0, ONE], ylim: [0, ONE], zlim: [0, ONE], spacing: [ONE, ONE, ONE] }
    }

    pub fn get_xaxes(&self) -> (lim: [i64; 2])
        ensures
            lim == self.xlim,
    {
        self.xlim
    }

    pub fn get_yaxes(&self) -> (lim: [i64; 2])
        ensures
            lim == self.ylim,
    {
        self.ylim
    }

    pub fn get_zaxes(&self) -> (lim: [i64; 2])
        ensures
            lim == self.zlim,
    {
        self.zlim
    }

    /// Sets the distance between two ticks on every axis.
    pub fn scale(&mut self, scale: i64)
        ensures
            final(self).spacing@ == seq![scale, scale, scale],
            final(self).xlim == old(self).xlim,
            final(self).ylim == old(self).ylim,
            final(self).zlim == old(self).zlim,
    {
        self.spacing = [scale, scale, scale];
    }

    /// The largest of the three tick distances.
    pub open spec fn widest(&self) -> i64 {
        let s = self.spacing@;
        if s[2] > s[1] && s[2] > s[0] {
            s[2]
        } else if s[1] > s[0] {
            s[1]
        } else {
            s[0]
        }
    }

    /// The largest of the three tick distances.
    pub fn get_scale(&self) -> (scale: i64)
        ensures
            scale == self.widest(),
    {
        let mut scale = self.spacing[0];
        if self.spacing[1] > scale {
            scale = self.spacing[1];
        }
        if self.spacing[2] > scale {
            scale = self.spacing[2];
        }
        scale
    }

    pub fn get_xspacing(&self) -> (spacing: i64)
        ensures
            spacing == self.spacing@[0],
    {
        self.spacing[0]
    }

    pub fn get_yspacing(&self) -> (spacing: i64)
        ensures
            spacing == self.spacing@[1],
    {
        self.spacing[1]
    }

    pub fn get_zspacing(&self) -> (spacing: i64)
        ensures
            spacing == self.spacing@[2],
    {
        self.spacing[2]
    }

    /// The number of whole tick distances along the x, the y and the z axis.
    pub fn tick_counts(&self) -> (counts: (usize, usize, usize))
        ensures
            counts.0 == tick_count(
                self.xlim@[0] as int,
                self.xlim@[1] as int,
                self.spacing@[0] as int,
            ),
            counts.1 == tick_count(
                self.ylim@[0] as int,
                self.ylim@[1] as int,
                self.spacing@[1] as int,
            ),
            counts.2 == tick_count(
                self.zlim@[0] as int,
                self.zlim@[1] as int,
                self.spacing@[2] as int,
            ),
    {
        (
            count_ticks(self.xlim[0], self.xlim[1], self.spacing[0]),
            count_ticks(self.ylim[0], self.ylim[1], self.spacing[1]),
            count_ticks(self.zlim[0], self.zlim[1], self.spacing[2]),
        )
    }

    /// Replaces the three pairs of limits.
    pub fn axes(self, xlim: &[i64; 2], ylim: &[i64; 2], zlim: &[i64; 2]) -> (axes: Self)
        ensures
            axes.xlim == *xlim,
            axes.ylim == *ylim,
            axes.zlim == *zlim,
            axes.spacing == self.spacing,
    {
        Self { xlim: *xlim, ylim: *ylim, zlim: *zlim, spacing: self.spacing }
    }
}

/// Two-dimensional axes together with the grid drawing mode.
pub struct Grid {
    pub axes: Axes2D,
    pub grid: String,
}

impl Grid {
    /// Unit axes with tick marks only.
    pub fn default() -> (grid: Self)
        ensures
            grid.axes.xlim@ == seq![0i64, ONE],
            grid.axes.ylim@ == seq![0i64, ONE],
            grid.axes.scale == ONE,
            grid.grid@ == "none"@,
    {
        Self { axes: Axes2D::new(), grid: "none".to_owned() }
    }

    pub fn get_axes(&self) -> (axes: &Axes2D)
        ensures
            *axes == self.axes,
    {
        &self.axes
    }

    /// Axes with the grid drawing mode `grid`, `"none"` or `"both"`.
    pub fn new(axes: Axes2D, grid: &str) -> (made: Self)
        requires
            is_grid_mode(grid@),
        ensures
            made.axes == axes,
            made.grid@ == grid@,
    {
        Self { axes, grid: grid.to_owned() }
    }
}

/// Three-dimensional axes together with the grid drawing mode.
#[derive(Debug)]
pub struct Grid3D {
    pub axes: Axes3D,
    pub grid: String,
}

impl Grid3D {
    /// Unit axes with tick marks only.
    pub fn default() -> (grid: Self)
        ensures
            grid.axes.xlim@ == seq![0i64, ONE],
            grid.axes.ylim@ == seq![0i64, ONE],
            grid.axes.zlim@ == seq![0i64, ONE],
            grid.axes.spacing@ == seq![ONE, ONE, ONE],
            grid.grid@ == "none"@,
    {
        Self { axes: Axes3D::new(), grid: "none".to_owned() }
    }

    pub fn get_axes(&self) -> (axes: &Axes3D)
        ensures
            *axes == self.axes,
    {
        &self.axes
    }

    /// Axes with the grid drawing mode `grid`, `"none"` or `"both"`.
    pub fn new(axes: Axes3D, grid: &str) -> (made: Self)
        requires
            is_grid_mode(grid@),
        ensures
            made.axes == axes,
            made.grid@ == grid@,
    {
        Self { axes, grid: grid.to_owned() }
    }
}

/// The common root of the plot kinds.
pub struct Plot {}


/// The least element of a concatenation is the lesser of the two least
/// elements, and likewise for the greatest.
pub proof fn lemma_extremes_of_concat(a: Seq<i64>, b: Seq<i64>)
    ensures
        least(a + b) == if least(b) < least(a) { least(b) } else { least(a) },
        greatest(a + b) == if greatest(b) > greatest(a) { greatest(b) } else { greatest(a) },
    decreases b.len(),
{
    if b.len() == 0 {
        assert(a + b =~= a);
    } else {
        lemma_extremes_of_concat(a, b.drop_last());
        assert((a + b).drop_last() =~= a + b.drop_last());
        assert((a + b).last() == b.last());
    }
}

/// A series of samples with its styling.
#[derive(Debug)]
pub struct Line2D {
    pub color: Color,
    pub data: Vec<(i64, i64)>,
    pub linestyle: String,
    pub legend: Option<String>,
}

impl Line2D {
    /// Pairs the abscissas with the ordinates, index by index, as far as both
    /// reach. The line is black and solid.
    pub fn new(x: &[i64], y: &[i64]) -> (line: Self)
        ensures
            line.data@.len() == if x@.len() <= y@.len() { x@.len() } else { y@.len() },
            forall|i: int| 0 <= i < line.data@.len() ==> #[trigger] line.data@[i] == (x@[i], y@[i]),
            line.color == Color(0, 0, 0, ONE),
            line.linestyle@ == "-"@,
            line.legend.is_none(),
    {
        let n = if x.len() <= y.len() { x.len() } else { y.len() };
        let mut data: Vec<(i64, i64)> = Vec::new();
        let mut i: usize = 0;
        while i < n
            invariant
                i <= n,
                n <= x@.len(),
                n <= y@.len(),
                data@.len() == i,
                forall|k: int| 0 <= k < i ==> #[trigger] data@[k] == (x@[k], y@[k]),
            decreases n - i,
        {
            data.push((x[i], y[i]));
            i += 1;
        }
        Self { color: Color::black(), data, linestyle: "-".to_owned(), legend: None }
    }

    pub fn color(self, color: Color) -> (line: Self)
        ensures
            line.color == color,
            line.data == self.data,
            line.linestyle == self.linestyle,
            line.legend == self.legend,
    {
        Self { color, data: self.data, linestyle: self.linestyle, legend: self.legend }
    }

    pub fn get_color(&self) -> (color: &Color)
        ensures
            *color == self.color,
    {
        &self.color
    }

    pub fn get_data(&self) -> (data: &Vec<(i64, i64)>)
        ensures
            *data == self.data,
    {
        &self.data
    }

    /// Chooses between segments (`"-"`) and markers (`"."`).
    pub fn linestyle(self, linestyle: &str) -> (line: Self)
        requires
            is_line_style(linestyle@),
        ensures
            line.linestyle@ == linestyle@,
            line.color == self.color,
            line.data == self.data,
            line.legend == self.legend,
    {
        Self {
            color: self.color,
            data: self.data,
            linestyle: linestyle.to_owned(),
            legend: self.legend,
        }
    }
}

/// All samples of all lines, in order.
pub open spec fn all_points(lines: Seq<Line2D>) -> Seq<(i64, i64)>
    decreases lines.len(),
{
    if lines.len() == 0 {
        Seq::empty()
    } else {
        all_points(lines.drop_last()) + lines.last().data@
    }
}

/// A two-dimensional chart: labels, axes, and the series drawn on them.
pub struct Plot2D {
    pub title: String,
    pub xlabel: String,
    pub ylabel: String,
    pub axes: Grid,
    pub lines: Vec<Line2D>,
}

impl Plot2D {
    /// The axis limits span the samples of all lines.
    pub open spec fn limits_span_lines(&self) -> bool {
        let points = all_points(self.lines@);
        points.len() > 0 ==> {
            &&& self.axes.axes.xlim@ == seq![least(firsts(points)), greatest(firsts(points))]
            &&& self.axes.axes.ylim@ == seq![least(seconds(points)), greatest(seconds(points))]
        }
    }

    /// An empty chart over the unit square.
    pub fn new() -> (plot: Self)
        ensures
            plot.title@ == "Plot"@,
            plot.xlabel@ == "x"@,
            plot.ylabel@ == "y"@,
            plot.axes.axes.xlim@ == seq![0i64, ONE],
            plot.axes.axes.ylim@ == seq![0i64, ONE],
            plot.axes.axes.scale == ONE,
            plot.axes.grid@ == "none"@,
            plot.lines@.len() == 0,
    {
        Self {
            title: "Plot".to_owned(),
            xlabel: "x".to_owned(),
            ylabel: "y".to_owned(),
            axes: Grid::default(),
            lines: Vec::new(),
        }
    }

    /// A chart of one line. The limits are the extremes of its samples; a
    /// line without samples leaves the unit square.
    pub fn plot(l: Line2D) -> (plot: Self)
        ensures
            plot.lines@ == seq![l],
            plot.limits_span_lines(),
            l.data@.len() == 0 ==> plot.axes.axes.xlim@ == seq![0i64, ONE] && plot.axes.axes.ylim@
                == seq![0i64, ONE],
            plot.axes.axes.scale == ONE,
            plot.axes.grid@ == "none"@,
            plot.title@ == "Plot"@,
            plot.xlabel@ == "x"@,
            plot.ylabel@ == "y"@,
    {
        let mut plot = Self::new();
        proof {
            assert(plot.lines@ =~= Seq::empty());
        }
        plot.add_line(l);
        proof {
            assert(plot.lines@ =~= seq![l]);
            assert(seq![l].drop_last() =~= Seq::<Line2D>::empty());
            assert(seq![l].last() == l);
            assert(all_points(seq![l].drop_last()) =~= Seq::<(i64, i64)>::empty());
            assert(all_points(seq![l]) =~= l.data@);
        }
        plot
    }

    /// A chart of the line through `(x[i], y[i])`.
    pub fn _plot(x: &[i64], y: &[i64]) -> (plot: Self)
        ensures
            plot.lines@.len() == 1,
            plot.lines@[0].data@.len() == if x@.len() <= y@.len() { x@.len() } else { y@.len() },
            forall|i: int| 0 <= i < plot.lines@[0].data@.len() ==> #[trigger] plot.lines@[0].data@[i] == (
                x@[i],
                y@[i],
            ),
            plot.limits_span_lines(),
            plot.axes.grid@ == "none"@,
    {
        Self::plot(Line2D::new(x, y))
    }

    /// Chooses the grid drawing mode.
    pub fn grid(self, grid: &str) -> (plot: Self)
        requires
            is_grid_mode(grid@),
        ensures
            plot.axes.grid@ == grid@,
            plot.axes.axes == self.axes.axes,
            plot.lines == self.lines,
            plot.title == self.title,
            plot.xlabel == self.xlabel,
            plot.ylabel == self.ylabel,
    {
        Self {
            title: self.title,
            xlabel: self.xlabel,
            ylabel: self.ylabel,
            axes: Grid { axes: self.axes.axes, grid: grid.to_owned() },
            lines: self.lines,
        }
    }

    pub fn get_axes(&self) -> (axes: &Grid)
        ensures
            *axes == self.axes,
    {
        &self.axes
    }

    pub fn get_lines(&self) -> (lines: &Vec<Line2D>)
        ensures
            *lines == self.lines,
    {
        &self.lines
    }

    /// Adds a line and derives the limits anew from the samples of all lines.
    /// While no line holds a sample the limits stay as they are.
    pub fn add_line(&mut self, line: Line2D)
        ensures
            final(self).lines@ == old(self).lines@.push(line),
            final(self).limits_span_lines(),
            all_points(final(self).lines@).len() == 0 ==> final(self).axes.axes == old(self).axes.axes,
            final(self).axes.axes.scale == old(self).axes.axes.scale,
            final(self).axes.grid == old(self).axes.grid,
            final(self).title == old(self).title,
            final(self).xlabel == old(self).xlabel,
            final(self).ylabel == old(self).ylabel,
    {
        self.lines.push(line);
        let mut low: (i64, i64) = (i64::MAX, i64::MAX);
        let mut high: (i64, i64) = (i64::MIN, i64::MIN);
        let mut count: usize = 0;
        let mut k: usize = 0;
        while k < self.lines.len()
            invariant
                k <= self.lines@.len(),
                self.lines@ == old(self).lines@.push(line),
                self.axes == old(self).axes,
                self.title == old(self).title,
                self.xlabel == old(self).xlabel,
                self.ylabel == old(self).ylabel,
                low.0 == least(firsts(all_points(self.lines@.take(k as int)))),
                low.1 == least(seconds(all_points(self.lines@.take(k as int)))),
                high.0 == greatest(firsts(all_points(self.lines@.take(k as int)))),
                high.1 == greatest(seconds(all_points(self.lines@.take(k as int)))),
                (count == 0) == (all_points(self.lines@.take(k as int)).len() == 0),
            decreases self.lines@.len() - k,
        {
            let data = self.lines[k].data.as_slice();
            let (x_min, y_min) = double_min(data);
            let (x_max, y_max) = double_max(data);
            proof {
                let before = all_points(self.lines@.take(k as int));
                let after = all_points(self.lines@.take(k + 1));
                assert(self.lines@.take(k + 1).drop_last() =~= self.lines@.take(k as int));
                assert(after == before + data@);
                assert(firsts(after) =~= firsts(before) + firsts(data@));
                assert(seconds(after) =~= seconds(before) + seconds(data@));
                lemma_extremes_of_concat(firsts(before), firsts(data@));
                lemma_extremes_of_concat(seconds(before), seconds(data@));
            }
            if x_min < low.0 {
                low.0 = x_min;
            }
            if y_min < low.1 {
                low.1 = y_min;
            }
            if x_max > high.0 {
                high.0 = x_max;
            }
            if y_max > high.1 {
                high.1 = y_max;
            }
            if data.len() > 0 {
                count = 1;
            }
            k += 1;
        }
        proof {
            assert(self.lines@.take(k as int) =~= self.lines@);
        }
        if count > 0 {
            self.axes.axes.xlim = [low.0, high.0];
            self.axes.axes.ylim = [low.1, high.1];
        }
    }
}


/// A height field over a mesh: position `(i, j)` lies at
/// `(x_data(i, j), y_data(i, j))` and has the height `z_data(i, j)`.
pub struct Surface3D {
    pub color: Option<Color>,
    pub x_data: Mesh,
    pub y_data: Mesh,
    pub z_data: Mesh,
    pub colormap: Option<Colormap>,
    pub legend: Option<String>,
}

impl Surface3D {
    /// The three grids have one shape, and a colour table, where there is
    /// one, holds one entry per cell.
    pub open spec fn wf(&self) -> bool {
        &&& self.x_data.wf()
        &&& self.y_data.wf()
        &&& self.z_data.wf()
        &&& mesh_shape(self.x_data) == mesh_shape(self.z_data)
        &&& mesh_shape(self.y_data) == mesh_shape(self.z_data)
        &&& self.colormap.is_some() ==> self.colormap.unwrap().0@.len() == mesh_cells(self.z_data).len()
    }

    /// Whether three grids have one shape, as a surface needs.
    pub fn compatible(x: &Mesh, y: &Mesh, z: &Mesh) -> (same: bool)
        ensures
            same == (mesh_shape(*x) == mesh_shape(*z) && mesh_shape(*y) == mesh_shape(*z)),
    {
        let shape = z.shape();
        let x_shape = x.shape();
        let y_shape = y.shape();
        x_shape.0 == shape.0 && x_shape.1 == shape.1 && y_shape.0 == shape.0 && y_shape.1
            == shape.1
    }

    /// A blue surface over the mesh.
    pub fn new(x: Mesh, y: Mesh, z: Mesh) -> (surface: Self)
        requires
            x.wf() && y.wf() && z.wf(),
            mesh_shape(x) == mesh_shape(z),
            mesh_shape(y) == mesh_shape(z),
        ensures
            surface.wf(),
            surface.x_data == x,
            surface.y_data == y,
            surface.z_data == z,
            surface.color == Some(Color(0, 0, ONE, ONE)),
            surface.colormap.is_none(),
            surface.legend.is_none(),
    {
        Self {
            color: Some(Color::blue()),
            x_data: x,
            y_data: y,
            z_data: z,
            colormap: None,
            legend: None,
        }
    }

    pub fn color(self, color: Color) -> (surface: Self)
        ensures
            surface.color == Some(color),
            surface.x_data == self.x_data,
            surface.y_data == self.y_data,
            surface.z_data == self.z_data,
            surface.colormap == self.colormap,
            surface.legend == self.legend,
    {
        Self {
            color: Some(color),
            x_data: self.x_data,
            y_data: self.y_data,
            z_data: self.z_data,
            colormap: self.colormap,
            legend: self.legend,
        }
    }

    pub fn get_color(&self) -> (color: &Option<Color>)
        ensures
            *color == self.color,
    {
        &self.color
    }

    pub fn as_mut_ref(&mut self) -> (surface: &mut Self)
        ensures
            *surface == *old(self),
            *final(self) == *final(surface),
    {
        self
    }

    /// Executable test for [`Surface3D::wf`].
    pub fn is_wf(&self) -> (b: bool)
        ensures
            b == self.wf(),
    {
        let cells = self.z_data.as_slice().len();
        let table_fits = match &self.colormap {
            Some(table) => table.0.len() == cells,
            None => true,
        };
        self.x_data.is_wf() && self.y_data.is_wf() && self.z_data.is_wf() && Self::compatible(
            &self.x_data,
            &self.y_data,
            &self.z_data,
        ) && table_fits
    }

    /// Every abscissa, ordinate and height lies in the coordinate range.
    pub open spec fn in_range(&self) -> bool {
        &&& cells_in_range(mesh_cells(self.x_data))
        &&& cells_in_range(mesh_cells(self.y_data))
        &&& cells_in_range(mesh_cells(self.z_data))
    }

    /// Executable test for [`Surface3D::in_range`].
    pub fn is_in_range(&self) -> (b: bool)
        ensures
            b == self.in_range(),
    {
        all_within_limit(self.x_data.as_slice().as_slice()) && all_within_limit(
            self.y_data.as_slice().as_slice(),
        ) && all_within_limit(self.z_data.as_slice().as_slice())
    }
}

/// Whether every cell lies in the coordinate range.
pub open spec fn cells_in_range(cells: Seq<i64>) -> bool {
    forall|k: int| 0 <= k < cells.len() ==> crate::fixed::in_range(#[trigger] cells[k] as int)
}

/// Executable test for [`cells_in_range`].
pub fn all_within_limit(cells: &[i64]) -> (b: bool)
    ensures
        b == cells_in_range(cells@),
{
    let mut k: usize = 0;
    while k < cells.len()
        invariant
            k <= cells@.len(),
            forall|i: int| 0 <= i < k ==> crate::fixed::in_range(#[trigger] cells@[i] as int),
        decreases cells@.len() - k,
    {
        if !crate::fixed::within_limit(cells[k]) {
            return false;
        }
        k += 1;
    }
    true
}

/// A three-dimensional chart: labels, axes, and at most one surface.
pub struct Plot3D {
    pub title: String,
    pub xlabel: String,
    pub ylabel: String,
    pub zlabel: String,
    pub axes: Grid3D,
    pub surface: Option<Surface3D>,
}

impl Plot3D {
    /// An empty chart over the unit cube.
    pub fn new() -> (plot: Self)
        ensures
            plot.title@ == "Plot"@,
            plot.xlabel@ == "x"@,
            plot.ylabel@ == "y"@,
            plot.zlabel@ == "z"@,
            plot.axes.axes.xlim@ == seq![0i64, ONE],
            plot.axes.axes.ylim@ == seq![0i64, ONE],
            plot.axes.axes.zlim@ == seq![0i64, ONE],
            plot.axes.axes.spacing@ == seq![ONE, ONE, ONE],
            plot.axes.grid@ == "none"@,
            plot.surface.is_none(),
    {
        Self {
            title: "Plot".to_owned(),
            xlabel: "x".to_owned(),
            ylabel: "y".to_owned(),
            zlabel: "z".to_owned(),
            axes: Grid3D::default(),
            surface: None,
        }
    }

    /// A chart of one surface. The limits are the extremes of all abscissas,
    /// of all ordinates and of all heights. A surface without cells leaves the
    /// unit cube.
    pub fn plot(s: Surface3D) -> (plot: Plot3D)
        requires
            s.wf(),
        ensures
            plot.surface == Some(s),
            s.z_data.rows() > 0 && s.z_data.cols() > 0 ==> {
                &&& plot.axes.axes.xlim@ == seq![
                    least(mesh_cells(s.x_data)),
                    greatest(mesh_cells(s.x_data)),
                ]
                &&& plot.axes.axes.ylim@ == seq![
                    least(mesh_cells(s.y_data)),
                    greatest(mesh_cells(s.y_data)),
                ]
                &&& plot.axes.axes.zlim@ == seq![
                    least(mesh_cells(s.z_data)),
                    greatest(mesh_cells(s.z_data)),
                ]
            },
            s.z_data.rows() == 0 || s.z_data.cols() == 0 ==> {
                &&& plot.axes.axes.xlim@ == seq![0i64, ONE]
                &&& plot.axes.axes.ylim@ == seq![0i64, ONE]
                &&& plot.axes.axes.zlim@ == seq![0i64, ONE]
            },
            plot.axes.axes.spacing@ == seq![ONE, ONE, ONE],
            plot.axes.grid@ == "none"@,
            plot.title@ == "Plot"@,
            plot.xlabel@ == "x"@,
            plot.ylabel@ == "y"@,
            plot.zlabel@ == "z"@,
    {
        let mut plot = Self::new();
        let (rows, cols) = s.z_data.shape();
        if rows > 0 && cols > 0 {
            proof {
                assert(mesh_cells(s.z_data).len() > 0) by (nonlinear_arith)
                    requires
                        mesh_cells(s.z_data).len() == s.z_data.rows() * s.z_data.cols(),
                        s.z_data.rows() > 0,
                        s.z_data.cols() > 0,
                ;
            }
            let x_min = s.x_data.min();
            let x_max = s.x_data.max();
            let y_min = s.y_data.min();
            let y_max = s.y_data.max();
            let z_min = s.z_data.min();
            let z_max = s.z_data.max();
            plot.axes = Grid3D::new(
                Axes3D::new().axes(&[x_min, x_max], &[y_min, y_max], &[z_min, z_max]),
                "none",
            );
        }
        plot.surface = Some(s);
        plot
    }

    /// Colours the surface, where there is one, by the ramp `colormap`
    /// applied to its heights.
    pub fn colormap(self, colormap: &str) -> (plot: Plot3D)
        ensures
            plot.surface.is_some() == self.surface.is_some(),
            plot.surface.is_some() ==> {
                let before = self.surface.unwrap();
                let after = plot.surface.unwrap();
                &&& after.colormap.is_some()
                &&& is_colormap(colormap@, mesh_cells(before.z_data), after.colormap.unwrap().0@)
                &&& after.x_data == before.x_data
                &&& after.y_data == before.y_data
                &&& after.z_data == before.z_data
                &&& after.color == before.color
                &&& after.legend == before.legend
                &&& before.wf() ==> after.wf()
            },
            plot.axes == self.axes,
            plot.title == self.title,
            plot.xlabel == self.xlabel,
            plot.ylabel == self.ylabel,
            plot.zlabel == self.zlabel,
    {
        let surface = match self.surface {
            Some(s) => {
                let heights = s.z_data.as_slice();
                let table = Colormap::new(colormap, heights.as_slice());
                Some(
                    Surface3D {
                        color: s.color,
                        x_data: s.x_data,
                        y_data: s.y_data,
                        z_data: s.z_data,
                        colormap: Some(table),
                        legend: s.legend,
                    },
                )
            },
            None => None,
        };
        Plot3D {
            title: self.title,
            xlabel: self.xlabel,
            ylabel: self.ylabel,
            zlabel: self.zlabel,
            axes: self.axes,
            surface,
        }
    }

    /// Sets the distance between two ticks on every axis.
    pub fn spacing(self, spacing: i64) -> (plot: Plot3D)
        ensures
            plot.axes.axes.spacing@ == seq![spacing, spacing, spacing],
            plot.axes.axes.xlim == self.axes.axes.xlim,
            plot.axes.axes.ylim == self.axes.axes.ylim,
            plot.axes.axes.zlim == self.axes.axes.zlim,
            plot.axes.grid == self.axes.grid,
            plot.surface == self.surface,
            plot.title == self.title,
            plot.xlabel == self.xlabel,
            plot.ylabel == self.ylabel,
            plot.zlabel == self.zlabel,
    {
        let mut plot = self;
        plot.axes.axes.scale(spacing);
        plot
    }

    /// Sets the title.
    pub fn title(self, title: &str) -> (plot: Plot3D)
        ensures
            plot.title@ == title@,
            plot.axes == self.axes,
            plot.surface == self.surface,
            plot.xlabel == self.xlabel,
            plot.ylabel == self.ylabel,
            plot.zlabel == self.zlabel,
    {
        let mut plot = self;
        plot.title = title.to_owned();
        plot
    }

    pub fn get_axes(&self) -> (axes: &Grid3D)
        ensures
            *axes == self.axes,
    {
        &self.axes
    }

    pub fn get_surface(&self) -> (surface: &Option<Surface3D>)
        ensures
            *surface == self.surface,
    {
        &self.surface
    }

    pub fn get_title(&self) -> (title: &String)
        ensures
            *title == self.title,
    {
        &self.title
    }

    pub fn get_xlabel(&self) -> (label: &String)
        ensures
            *label == self.xlabel,
    {
        &self.xlabel
    }

    pub fn get_ylabel(&self) -> (label: &String)
        ensures
            *label == self.ylabel,
    {
        &self.ylabel
    }

    pub fn get_zlabel(&self) -> (label: &String)
        ensures
            *label == self.zlabel,
    {
        &self.zlabel
    }
}

} // verus!
