//! Deterministic core packing: weigh the active paras, give Asset Hub its own
//! core when there is room, greedily place the rest onto the least-loaded
//! cores under a per-core cap, and split each core's 57600 parts among its
//! paras in proportion to their weights (largest-remainder rounding).

use vstd::prelude::*;

use crate::config::Packing;
use crate::model::{packings_view, Assignment, CorePacking, CorePackingView};
use crate::sorting::{
    insert_by, lemma_insert_by_at, lemma_sort_by_multiset, sort_by, sort_u32, u32_less,
};

verus! {

/// Parts of a whole core.
pub const PARTS_FULL: u32 = 57600;

/// Para id of Asset Hub.
pub const ASSET_HUB_ID: u32 = 1000;

/// A para considered for packing.
#[derive(Clone, Copy, Debug)]
pub struct Para {
    pub id: u32,
    pub weight: u32,
}

/// The per-core plan and the paras that found no core (they fall back to
/// on-demand and are reported).
pub struct PackingResult {
    pub cores: Vec<CorePacking>,
    pub dropped: Vec<u32>,
}

// ---------------------------------------------------------------------------
// Splitting one core's parts
// ---------------------------------------------------------------------------

/// Sum of the weights of a bucket.
pub open spec fn load_of(b: Seq<Para>) -> int
    decreases b.len(),
{
    if b.len() == 0 {
        0
    } else {
        load_of(b.drop_last()) + b.last().weight
    }
}

/// Sum of a sequence of parts.
pub open spec fn sum_u32(s: Seq<u32>) -> int
    decreases s.len(),
{
    if s.len() == 0 {
        0
    } else {
        sum_u32(s.drop_last()) + s.last()
    }
}

/// Even split of the parts over `n` paras: the first `57600 % n` get one more.
pub open spec fn even_split_spec(n: nat) -> Seq<u32> {
    if n == 0 {
        Seq::empty()
    } else {
        let base = 57600nat / n;
        let leftover = 57600 - base * n;
        Seq::new(n, |i: int| (base + if i < leftover { 1int } else { 0int }) as u32)
    }
}

/// Floor of each para's exact proportional share.
pub open spec fn floors_of(b: Seq<Para>, t: int) -> Seq<u32> {
    Seq::new(b.len(), |i: int| ((57600 * b[i].weight) / t) as u32)
}

/// (index, remainder) of each para's exact proportional share.
pub open spec fn rems_of(b: Seq<Para>, t: int) -> Seq<(usize, u64)> {
    Seq::new(b.len(), |i: int| (i as usize, ((57600 * b[i].weight) % t) as u64))
}

/// Largest remainder first, ties by lower index.
pub open spec fn rem_first() -> spec_fn((usize, u64), (usize, u64)) -> bool {
    |a: (usize, u64), b: (usize, u64)| a.1 > b.1 || (a.1 == b.1 && a.0 < b.0)
}

/// Hands out `k` single parts, one at a time, walking `order` cyclically.
pub open spec fn bump(s: Seq<u32>, order: Seq<(usize, u64)>, k: nat) -> Seq<u32>
    decreases k,
{
    if k == 0 || order.len() == 0 {
        s
    } else {
        let p = bump(s, order, (k - 1) as nat);
        let i = order[(k - 1) % (order.len() as int)].0 as int;
        p.update(i, (p[i] + 1) as u32)
    }
}

/// Parts of 57600 for each para of a bucket, proportional to the weights
/// with largest-remainder rounding (even split when all weights are zero).
pub open spec fn split_spec(b: Seq<Para>) -> Seq<u32> {
    let t = load_of(b);
    if t == 0 {
        even_split_spec(b.len())
    } else {
        let floors = floors_of(b, t);
        let leftover = if sum_u32(floors) <= 57600 { 57600 - sum_u32(floors) } else { 0 };
        bump(floors, sort_by(rems_of(b, t), rem_first()), leftover as nat)
    }
}

pub(crate) proof fn lemma_sum_push(s: Seq<u32>, x: u32)
    ensures
        sum_u32(s.push(x)) == sum_u32(s) + x,
{
    assert(s.push(x).drop_last() =~= s);
}

pub(crate) proof fn lemma_sum_nonneg_elem(s: Seq<u32>, i: int)
    requires
        0 <= i < s.len(),
    ensures
        s[i] <= sum_u32(s),
        0 <= sum_u32(s),
    decreases s.len(),
{
    if i < s.len() - 1 {
        lemma_sum_nonneg_elem(s.drop_last(), i);
    } else {
        lemma_sum_nonneg(s.drop_last());
    }
}

pub(crate) proof fn lemma_sum_nonneg(s: Seq<u32>)
    ensures
        0 <= sum_u32(s),
    decreases s.len(),
{
    if s.len() > 0 {
        lemma_sum_nonneg(s.drop_last());
    }
}

pub(crate) proof fn lemma_sum_update_inc(s: Seq<u32>, i: int)
    requires
        0 <= i < s.len(),
        s[i] < u32::MAX,
    ensures
        sum_u32(s.update(i, (s[i] + 1) as u32)) == sum_u32(s) + 1,
    decreases s.len(),
{
    let t = s.update(i, (s[i] + 1) as u32);
    if i == s.len() - 1 {
        assert(t.drop_last() =~= s.drop_last());
    } else {
        lemma_sum_update_inc(s.drop_last(), i);
        assert(t.drop_last() =~= s.drop_last().update(i, (s[i] + 1) as u32));
    }
}

pub(crate) proof fn lemma_load_push(b: Seq<Para>, p: Para)
    ensures
        load_of(b.push(p)) == load_of(b) + p.weight,
{
    assert(b.push(p).drop_last() =~= b);
}

pub(crate) proof fn lemma_load_bound(b: Seq<Para>)
    ensures
        0 <= load_of(b) <= b.len() * 4294967295,
    decreases b.len(),
{
    if b.len() > 0 {
        lemma_load_bound(b.drop_last());
    }
}

pub(crate) proof fn lemma_prefix_load_le(b: Seq<Para>, j: int)
    requires
        0 <= j <= b.len(),
    ensures
        load_of(b.take(j)) <= load_of(b),
    decreases b.len() - j,
{
    if j == b.len() {
        assert(b.take(j) =~= b);
    } else {
        lemma_prefix_load_le(b, j + 1);
        assert(b.take(j + 1) =~= b.take(j).push(b[j]));
        lemma_load_push(b.take(j), b[j]);
    }
}

pub(crate) proof fn lemma_order_indices(rems: Seq<(usize, u64)>, order: Seq<(usize, u64)>, n: int)
    requires
        order.to_multiset() == rems.to_multiset(),
        forall|k: int| 0 <= k < rems.len() ==> (#[trigger] rems[k]).0 < n,
    ensures
        forall|j: int| 0 <= j < order.len() ==> (#[trigger] order[j]).0 < n,
{
    broadcast use vstd::seq_lib::group_to_multiset_ensures;

    assert forall|j: int| 0 <= j < order.len() implies (#[trigger] order[j]).0 < n by {
        assert(order.contains(order[j]));
        assert(order.to_multiset().count(order[j]) > 0);
        assert(rems.contains(order[j]));
        let k = choose|k: int| 0 <= k < rems.len() && rems[k] == order[j];
        assert(rems[k].0 < n);
    }
}

/// Sum of the weights of a bucket.
pub fn bucket_load(b: &Vec<Para>) -> (r: u64)
    requires
        b@.len() <= u32::MAX,
    ensures
        r == load_of(b@),
{
    let mut s: u64 = 0;
    let n = b.len();
    for i in 0..n
        invariant
            n == b@.len(),
            n <= u32::MAX,
            s == load_of(b@.take(i as int)),
            s <= i * 4294967295,
    {
        proof {
            assert(b@.take(i + 1) =~= b@.take(i as int).push(b@[i as int]));
            lemma_load_push(b@.take(i as int), b@[i as int]);
        }
        s = s + b[i].weight as u64;
    }
    assert(b@.take(n as int) =~= b@);
    s
}

/// Splits the parts evenly over `n` paras (the first `57600 % n` get one more).
pub fn even_split(n: usize) -> (r: Vec<u32>)
    requires
        n <= u32::MAX,
    ensures
        r@ == even_split_spec(n as nat),
{
    if n == 0 {
        return Vec::new();
    }
    let nn = n as u32;
    let base = PARTS_FULL / nn;
    assert(base * nn <= 57600 && 57600 - base * nn < nn) by (nonlinear_arith)
        requires
            nn > 0,
            base == 57600int / (nn as int),
    ;
    let mut leftover = PARTS_FULL - base * nn;
    let ghost lo = leftover;
    let mut out: Vec<u32> = Vec::new();
    for i in 0..n
        invariant
            n == nn,
            out@.len() == i,
            forall|k: int| 0 <= k < i ==> out@[k] == base,
    {
        out.push(base);
    }
    let mut i: usize = 0;
    while leftover > 0
        invariant
            n == nn,
            out@.len() == n,
            lo < n,
            i + leftover == lo,
            forall|k: int| 0 <= k < n ==> out@[k] == base + if k < i { 1int } else { 0int },
            base + 1 <= 57601,
        decreases leftover,
    {
        let cur = out[i];
        out.set(i, cur + 1);
        leftover = leftover - 1;
        i = i + 1;
    }
    assert(out@ =~= even_split_spec(n as nat));
    out
}

/// Stable insertion of remainders, largest first.
fn sort_rems(v: &Vec<(usize, u64)>) -> (r: Vec<(usize, u64)>)
    ensures
        r@ == sort_by(v@, rem_first()),
{
    let mut out: Vec<(usize, u64)> = Vec::new();
    let n = v.len();
    for i in 0..n
        invariant
            n == v.len(),
            out@ == sort_by(v@.take(i as int), rem_first()),
    {
        let x = v[i];
        let mut j: usize = 0;
        while j < out.len() && !(x.1 > out[j].1 || (x.1 == out[j].1 && x.0 < out[j].0))
            invariant
                j <= out.len(),
                forall|k: int| 0 <= k < j ==> !(rem_first())(x, #[trigger] out@[k]),
            decreases out.len() - j,
        {
            j = j + 1;
        }
        proof {
            lemma_insert_by_at(out@, x, rem_first(), j as int);
            assert(v@.take(i + 1).drop_last() =~= v@.take(i as int));
            assert(v@.take(i + 1).last() == x);
        }
        out.insert(j, x);
    }
    assert(v@.take(n as int) =~= v@);
    out
}

/// Splits 57600 across a bucket proportionally to the weights with
/// largest-remainder rounding.
pub fn split_parts(bucket: &Vec<Para>) -> (r: Vec<u32>)
    requires
        bucket@.len() <= u32::MAX,
    ensures
        r@ == split_spec(bucket@),
{
    let total = bucket_load(bucket);
    if total == 0 {
        return even_split(bucket.len());
    }
    let ghost b = bucket@;
    let ghost t = total as int;
    let n = bucket.len();
    let mut floors: Vec<u32> = Vec::new();
    let mut rems: Vec<(usize, u64)> = Vec::new();
    let mut assigned: u32 = 0;
    for i in 0..n
        invariant
            n == b.len(),
            b == bucket@,
            t == total,
            t == load_of(b),
            t > 0,
            floors@ == floors_of(b, t).take(i as int),
            rems@ == rems_of(b, t).take(i as int),
            assigned == sum_u32(floors@),
            t * sum_u32(floors@) <= 57600 * load_of(b.take(i as int)),
            load_of(b.take(i as int)) <= t,
    {
        let w = bucket[i].weight;
        let exact: u64 = 57600u64 * (w as u64);
        proof {
            assert(b.take(i + 1) =~= b.take(i as int).push(b[i as int]));
            lemma_load_push(b.take(i as int), b[i as int]);
            lemma_prefix_load_le(b, i + 1);
            assert((exact as int) / t <= 57600) by (nonlinear_arith)
                requires
                    exact == 57600 * w,
                    w <= t,
                    t > 0,
            ;
        }
        let floor = (exact / total) as u32;
        let rem = exact % total;
        proof {
            assert(b.take(i + 1) =~= b.take(i as int).push(b[i as int]));
            lemma_load_push(b.take(i as int), b[i as int]);
            lemma_prefix_load_le(b, i + 1);
            assert(t * (floor as int) <= 57600 * (w as int)) by (nonlinear_arith)
                requires
                    t > 0,
                    floor as int == (57600 * (w as int)) / t,
            ;
            lemma_sum_push(floors@, floor);
            assert(t * (sum_u32(floors@) + floor) == t * sum_u32(floors@) + t * floor) by (nonlinear_arith);
            assert(57600 * load_of(b.take(i + 1)) == 57600 * load_of(b.take(i as int)) + 57600 * (w as int)) by (nonlinear_arith)
                requires
                    load_of(b.take(i + 1)) == load_of(b.take(i as int)) + w,
            ;
            assert(sum_u32(floors@) + floor <= 57600) by (nonlinear_arith)
                requires
                    t * (sum_u32(floors@) + floor) <= 57600 * load_of(b.take(i + 1)),
                    load_of(b.take(i + 1)) <= t,
                    t > 0,
            ;
        }
        floors.push(floor);
        rems.push((i, rem));
        assigned = assigned + floor;
        proof {
            assert(floors@ =~= floors_of(b, t).take(i + 1));
            assert(rems@ =~= rems_of(b, t).take(i + 1));
        }
    }
    assert(b.take(n as int) =~= b);
    assert(floors@ =~= floors_of(b, t));
    assert(rems@ =~= rems_of(b, t));
    proof { lemma_sum_nonneg(floors@); }
    assert(assigned <= 57600) by (nonlinear_arith)
        requires
            t * assigned <= 57600 * t,
            t > 0,
    ;
    let mut leftover: u32 = PARTS_FULL - assigned;
    let ghost total_left = leftover;
    let order = sort_rems(&rems);
    proof {
        lemma_sort_by_multiset(rems@, rem_first());
        lemma_order_indices(rems@, order@, n as int);
    }
    let mut parts = floors;
    let mut k: usize = 0;
    while leftover > 0 && order.len() > 0
        invariant
            order@ == sort_by(rems_of(b, t), rem_first()),
            order@.len() == n,
            forall|j: int| 0 <= j < order@.len() ==> (#[trigger] order@[j]).0 < n,
            parts@.len() == n,
            parts@ == bump(floors_of(b, t), order@, k as nat),
            k + leftover == total_left,
            total_left == 57600 - sum_u32(floors_of(b, t)),
            sum_u32(parts@) == sum_u32(floors_of(b, t)) + k,
        decreases leftover,
    {
        let idx = k % order.len();
        let i = order[idx].0;
        let cur = parts[i];
        let ghost before = parts@;
        proof {
            lemma_sum_nonneg_elem(parts@, i as int);
            lemma_sum_nonneg(floors_of(b, t));
            lemma_sum_update_inc(before, i as int);
        }
        parts.set(i, cur + 1);
        leftover = leftover - 1;
        k = k + 1;
    }
    assert(parts@ == split_spec(b));
    parts
}

// ---------------------------------------------------------------------------
// Placing paras onto cores
// ---------------------------------------------------------------------------

/// Higher weight first, ties by lower id.
pub open spec fn para_first() -> spec_fn(Para, Para) -> bool {
    |a: Para, b: Para| a.weight > b.weight || (a.weight == b.weight && a.id < b.id)
}

/// The paras of `ids` with their configured weights.
pub open spec fn weigh(ids: Seq<u32>, cfg: Packing) -> Seq<Para> {
    ids.map_values(|id: u32| Para { id, weight: cfg.spec_weight_for(id) })
}

/// Index of the first para with id `id`.
pub open spec fn find_id(s: Seq<Para>, id: u32) -> Option<int>
    decreases s.len(),
{
    if s.len() == 0 {
        None
    } else if s[0].id == id {
        Some(0)
    } else {
        match find_id(s.drop_first(), id) {
            Some(k) => Some(k + 1),
            None => None,
        }
    }
}

/// The buckets as sequences.
pub open spec fn bview(b: Seq<Vec<Para>>) -> Seq<Seq<Para>> {
    b.map_values(|v: Vec<Para>| v@)
}

/// Scans cores `start .. start + k` in index order and keeps the first core
/// with room (fewer than `cap` paras) whose load is strictly below the best
/// so far (starting from `u32::MAX`). Returns (core, its load).
pub open spec fn scan_best(buckets: Seq<Seq<Para>>, start: int, k: nat, cap: int) -> (Option<int>, int)
    decreases k,
{
    if k == 0 {
        (None, 4294967295)
    } else {
        let prev = scan_best(buckets, start, (k - 1) as nat, cap);
        let c = start + k - 1;
        if buckets[c].len() >= cap {
            prev
        } else if load_of(buckets[c]) < prev.1 {
            (Some(c), load_of(buckets[c]))
        } else {
            prev
        }
    }
}

/// The core the next para goes to: the least-loaded core with room among
/// `start ..`, lowest index on ties.
pub open spec fn choose_core(buckets: Seq<Seq<Para>>, start: int, cap: int) -> Option<int> {
    scan_best(buckets, start, (buckets.len() - start) as nat, cap).0
}

/// Places `paras` in order; returns the buckets and the ids left without a core.
pub open spec fn place_all(buckets: Seq<Seq<Para>>, start: int, cap: int, paras: Seq<Para>) -> (
    Seq<Seq<Para>>,
    Seq<u32>,
)
    decreases paras.len(),
{
    if paras.len() == 0 {
        (buckets, Seq::empty())
    } else {
        let prev = place_all(buckets, start, cap, paras.drop_last());
        let p = paras.last();
        match choose_core(prev.0, start, cap) {
            Some(c) => (prev.0.update(c, prev.0[c].push(p)), prev.1),
            None => (prev.0, prev.1.push(p.id)),
        }
    }
}

/// Per-core cap: raised from `cap` by one while the `n` paras do not fit on
/// `r` cores and the cap is below `hard`.
pub open spec fn grow_cap(n: int, r: int, cap: int, hard: int) -> int
    decreases hard - cap,
{
    if n > r * cap && cap < hard {
        grow_cap(n, r, cap + 1, hard)
    } else {
        cap
    }
}

/// `target` empty buckets.
pub open spec fn empty_buckets(target: nat) -> Seq<Seq<Para>> {
    Seq::new(target, |c: int| Seq::<Para>::empty())
}

/// Sets Asset Hub aside on core 0 when there are at least two cores:
/// (paras still to place, initial buckets, first core open to them).
pub open spec fn ah_split(sorted: Seq<Para>, target: u32) -> (Seq<Para>, Seq<Seq<Para>>, int) {
    let e = empty_buckets(target as nat);
    if target >= 2 {
        match find_id(sorted, ASSET_HUB_ID) {
            Some(i) => (sorted.remove(i), e.update(0, seq![sorted[i]]), 1),
            None => (sorted, e, 0),
        }
    } else {
        (sorted, e, 0)
    }
}

/// The cap used for `n` paras over `packable` cores.
pub open spec fn packing_cap(n: nat, packable: int, cfg: Packing) -> int {
    let r = if packable > 1 { packable } else { 1 };
    let c0 = if cfg.max_chains_per_core > 1 { cfg.max_chains_per_core as int } else { 1 };
    grow_cap(n as int, r, c0, cfg.hard_max_chains_per_core as int)
}

/// The core record of bucket `b` at index `idx`.
pub open spec fn core_of(b: Seq<Para>, idx: int) -> CorePackingView {
    CorePackingView {
        core: idx as u32,
        assignments: Seq::new(
            b.len(),
            |i: int| Assignment { para_id: b[i].id, parts: split_spec(b)[i] },
        ),
    }
}

/// The records of the non-empty buckets among the first `k`, in index order.
pub open spec fn emit(buckets: Seq<Seq<Para>>, k: nat) -> Seq<CorePackingView>
    decreases k,
{
    if k == 0 {
        Seq::empty()
    } else {
        let prev = emit(buckets, (k - 1) as nat);
        if buckets[k - 1].len() == 0 {
            prev
        } else {
            prev.push(core_of(buckets[k - 1], k - 1))
        }
    }
}

/// The placement of `ids` onto `target` cores: paras sorted by weight, Asset
/// Hub set aside on core 0 when there are two cores or more, the others
/// placed greedily under the cap. Returns (buckets, ids left without a core).
pub open spec fn packing_state(ids: Seq<u32>, target: u32, cfg: Packing) -> (
    Seq<Seq<Para>>,
    Seq<u32>,
) {
    let sorted = sort_by(weigh(ids, cfg), para_first());
    let split = ah_split(sorted, target);
    let cap = packing_cap(split.0.len(), target - split.2, cfg);
    place_all(split.1, split.2, cap, split.0)
}

/// The packing of `ids` onto `target` cores: (core records, dropped ids).
pub open spec fn spec_compute_packing(ids: Seq<u32>, target: u32, cfg: Packing) -> (
    Seq<CorePackingView>,
    Seq<u32>,
) {
    if target == 0 {
        (Seq::empty(), ids)
    } else {
        let placed = packing_state(ids, target, cfg);
        (emit(placed.0, target as nat), sort_by(placed.1, u32_less()))
    }
}

/// An `Option<usize>` as an `Option<int>`.
pub open spec fn opt_int(o: Option<usize>) -> Option<int> {
    match o {
        Some(c) => Some(c as int),
        None => None,
    }
}

pub(crate) proof fn lemma_scan_best_props(buckets: Seq<Seq<Para>>, start: int, k: nat, cap: int)
    ensures
        match scan_best(buckets, start, k, cap).0 {
            Some(c) => start <= c < start + k && buckets[c].len() < cap && load_of(buckets[c])
                == scan_best(buckets, start, k, cap).1,
            None => scan_best(buckets, start, k, cap).1 == 4294967295,
        },
    decreases k,
{
    if k > 0 {
        lemma_scan_best_props(buckets, start, (k - 1) as nat, cap);
    }
}

fn weigh_paras(para_ids: &[u32], cfg: &Packing) -> (r: Vec<Para>)
    ensures
        r@ == weigh(para_ids@, *cfg),
{
    let mut out: Vec<Para> = Vec::new();
    let n = para_ids.len();
    for i in 0..n
        invariant
            n == para_ids@.len(),
            out@ == weigh(para_ids@.take(i as int), *cfg),
    {
        let id = para_ids[i];
        let w = cfg.weight_for(id);
        out.push(Para { id, weight: w });
        assert(out@ =~= weigh(para_ids@.take(i + 1), *cfg));
    }
    assert(para_ids@.take(n as int) =~= para_ids@);
    out
}

fn sort_paras(v: &Vec<Para>) -> (r: Vec<Para>)
    ensures
        r@ == sort_by(v@, para_first()),
{
    let mut out: Vec<Para> = Vec::new();
    let n = v.len();
    for i in 0..n
        invariant
            n == v.len(),
            out@ == sort_by(v@.take(i as int), para_first()),
    {
        let x = v[i];
        let mut j: usize = 0;
        while j < out.len() && !(x.weight > out[j].weight || (x.weight == out[j].weight && x.id
            < out[j].id))
            invariant
                j <= out.len(),
                forall|k: int| 0 <= k < j ==> !(para_first())(x, #[trigger] out@[k]),
            decreases out.len() - j,
        {
            j = j + 1;
        }
        proof {
            lemma_insert_by_at(out@, x, para_first(), j as int);
            assert(v@.take(i + 1).drop_last() =~= v@.take(i as int));
            assert(v@.take(i + 1).last() == x);
        }
        out.insert(j, x);
    }
    assert(v@.take(n as int) =~= v@);
    out
}

pub(crate) proof fn lemma_find_id_at(s: Seq<Para>, id: u32, i: int)
    requires
        0 <= i <= s.len(),
        forall|k: int| 0 <= k < i ==> (#[trigger] s[k]).id != id,
        i < s.len() ==> s[i].id == id,
    ensures
        find_id(s, id) == if i < s.len() { Some(i) } else { None::<int> },
    decreases s.len(),
{
    if s.len() > 0 && i > 0 {
        let t = s.drop_first();
        assert forall|k: int| 0 <= k < i - 1 implies (#[trigger] t[k]).id != id by {
            assert(t[k] == s[k + 1]);
        }
        if i - 1 < t.len() {
            assert(t[i - 1] == s[i]);
        }
        lemma_find_id_at(t, id, i - 1);
    }
}

fn find_para(s: &Vec<Para>, id: u32) -> (r: Option<usize>)
    ensures
        opt_int(r) == find_id(s@, id),
{
    let n = s.len();
    let mut i: usize = 0;
    while i < n
        invariant
            n == s@.len(),
            i <= n,
            forall|k: int| 0 <= k < i ==> (#[trigger] s@[k]).id != id,
        decreases n - i,
    {
        if s[i].id == id {
            proof {
                lemma_find_id_at(s@, id, i as int);
            }
            return Some(i);
        }
        i = i + 1;
    }
    proof {
        lemma_find_id_at(s@, id, n as int);
    }
    None
}

fn best_core(buckets: &Vec<Vec<Para>>, start: usize, cap: u32) -> (r: Option<usize>)
    requires
        start <= buckets@.len(),
        forall|c: int| 0 <= c < buckets@.len() ==> (#[trigger] buckets@[c])@.len() <= u32::MAX,
    ensures
        opt_int(r) == choose_core(bview(buckets@), start as int, cap as int),
{
    let ghost bv = bview(buckets@);
    let n = buckets.len();
    let mut best: Option<usize> = None;
    let mut best_load: u64 = 4294967295;
    let mut c = start;
    while c < n
        invariant
            n == buckets@.len(),
            bv == bview(buckets@),
            start <= c <= n,
            forall|c: int| 0 <= c < buckets@.len() ==> (#[trigger] buckets@[c])@.len() <= u32::MAX,
            (opt_int(best), best_load as int) == scan_best(bv, start as int, (c - start) as nat, cap as int),
        decreases n - c,
    {
        assert(bv[c as int] == buckets@[c as int]@);
        if (buckets[c].len() as u64) < (cap as u64) {
            let load = bucket_load(&buckets[c]);
            if load < best_load {
                best = Some(c);
                best_load = load;
            }
        }
        c = c + 1;
    }
    best
}

fn exceeds(n: u64, r: u64, cap: u32) -> (b: bool)
    requires
        r <= u32::MAX,
    ensures
        b == (n > r * cap),
{
    assert(r * (cap as u64) <= 18446744073709551615u64) by (nonlinear_arith)
        requires
            r <= 4294967295u64,
            cap <= 4294967295u32,
    ;
    n > r * (cap as u64)
}

pub(crate) proof fn lemma_find_id_some(s: Seq<Para>, id: u32)
    ensures
        match find_id(s, id) {
            Some(i) => 0 <= i < s.len() && s[i].id == id,
            None => true,
        },
    decreases s.len(),
{
    if s.len() > 0 && s[0].id != id {
        lemma_find_id_some(s.drop_first(), id);
    }
}

pub(crate) proof fn lemma_bump_len(s: Seq<u32>, order: Seq<(usize, u64)>, k: nat)
    requires
        forall|j: int| 0 <= j < order.len() ==> (#[trigger] order[j]).0 < s.len(),
    ensures
        bump(s, order, k).len() == s.len(),
    decreases k,
{
    if k > 0 && order.len() > 0 {
        lemma_bump_len(s, order, (k - 1) as nat);
    }
}

/// The split has one entry per para.
pub proof fn lemma_split_len(b: Seq<Para>)
    ensures
        split_spec(b).len() == b.len(),
{
    let t = load_of(b);
    if t != 0 {
        let floors = floors_of(b, t);
        let leftover = if sum_u32(floors) <= 57600 { 57600 - sum_u32(floors) } else { 0 };
        lemma_sort_by_multiset(rems_of(b, t), rem_first());
        lemma_order_indices(rems_of(b, t), sort_by(rems_of(b, t), rem_first()), b.len() as int);
        lemma_bump_len(floors, sort_by(rems_of(b, t), rem_first()), leftover as nat);
    }
}

/// Computes the packing of the live `para_ids` onto `target_cores` cores.
pub fn compute_packing(para_ids: &[u32], target_cores: u32, cfg: &Packing) -> (res: PackingResult)
    requires
        para_ids@.len() <= u32::MAX,
    ensures
        packings_view(res.cores@) == spec_compute_packing(para_ids@, target_cores, *cfg).0,
        res.dropped@ == spec_compute_packing(para_ids@, target_cores, *cfg).1,
{
    if target_cores == 0 {
        let mut all: Vec<u32> = Vec::new();
        let n = para_ids.len();
        for i in 0..n
            invariant
                n == para_ids@.len(),
                all@ =~= para_ids@.take(i as int),
        {
            all.push(para_ids[i]);
        }
        assert(para_ids@.take(n as int) =~= para_ids@);
        proof {
            assert(packings_view(Seq::<CorePacking>::empty()) =~= Seq::<CorePackingView>::empty());
        }
        return PackingResult { cores: Vec::new(), dropped: all };
    }
    let weighed = weigh_paras(para_ids, cfg);
    let mut rest = sort_paras(&weighed);
    let ghost sorted = rest@;
    let target = target_cores as usize;

    let mut buckets: Vec<Vec<Para>> = Vec::new();
    for c in 0..target
        invariant
            bview(buckets@) =~= empty_buckets(c as nat),
            buckets@.len() == c,
    {
        let ghost before = buckets@;
        buckets.push(Vec::new());
        assert(buckets@[c as int]@ =~= Seq::<Para>::empty());
        assert forall|k: int| 0 <= k < c + 1 implies bview(buckets@)[k] =~= empty_buckets((c + 1) as nat)[k] by {
            if k < c {
                assert(buckets@[k] == before[k]);
                assert(bview(before)[k] == empty_buckets(c as nat)[k]);
            }
        }
        assert(bview(buckets@) =~= empty_buckets((c + 1) as nat));
    }
    let mut start: usize = 0;
    if target_cores >= 2 {
        match find_para(&rest, ASSET_HUB_ID) {
            Some(pos) => {
                proof {
                    lemma_find_id_some(rest@, ASSET_HUB_ID);
                }
                let ah = rest.remove(pos);
                let ghost before = buckets@;
                assert(bview(before)[0] == before[0]@);
                buckets[0].push(ah);
                start = 1;
                assert(buckets@[0]@ =~= seq![ah]);
                assert forall|k: int| 0 <= k < target implies bview(buckets@)[k] =~= empty_buckets(target as nat).update(0, seq![ah])[k] by {
                    if k > 0 {
                        assert(buckets@[k] == before[k]);
                        assert(bview(before)[k] == empty_buckets(target as nat)[k]);
                    }
                }
                assert(bview(buckets@) =~= empty_buckets(target as nat).update(0, seq![ah]));
            },
            None => {},
        }
    }
    let ghost split = ah_split(sorted, target_cores);
    assert(rest@ == split.0 && bview(buckets@) == split.1 && start == split.2);
    proof {
        lemma_sort_by_multiset(weighed@, para_first());
    }

    // Per-core cap.
    let n = rest.len();
    let packable = target - start;
    let r: u64 = if packable > 1 { packable as u64 } else { 1 };
    let mut cap: u32 = if cfg.max_chains_per_core > 1 { cfg.max_chains_per_core } else { 1 };
    let ghost c0 = cap;
    while exceeds(n as u64, r, cap) && cap < cfg.hard_max_chains_per_core
        invariant
            r <= u32::MAX,
            grow_cap(n as int, r as int, cap as int, cfg.hard_max_chains_per_core as int)
                == grow_cap(n as int, r as int, c0 as int, cfg.hard_max_chains_per_core as int),
        decreases cfg.hard_max_chains_per_core - cap,
    {
        cap = cap + 1;
    }
    assert(cap as int == packing_cap(split.0.len(), target_cores - split.2, *cfg));

    // Greedy placement.
    let ghost b0 = bview(buckets@);
    assert forall|c: int| 0 <= c < buckets@.len() implies (#[trigger] buckets@[c])@.len() <= u32::MAX by {
        assert(bview(buckets@)[c] == buckets@[c]@);
    }
    let mut dropped: Vec<u32> = Vec::new();
    for i in 0..n
        invariant
            n == rest@.len(),
            buckets@.len() == target,
            start <= target,
            (bview(buckets@), dropped@) == place_all(b0, start as int, cap as int, rest@.take(i as int)),
            forall|c: int| 0 <= c < buckets@.len() ==> (#[trigger] buckets@[c])@.len() <= u32::MAX,
    {
        let p = rest[i];
        let best = best_core(&buckets, start, cap);
        proof {
            assert(rest@.take(i + 1).drop_last() =~= rest@.take(i as int));
            assert(rest@.take(i + 1).last() == p);
            lemma_scan_best_props(bview(buckets@), start as int, (target - start) as nat, cap as int);
        }
        match best {
            Some(c) => {
                let ghost before = bview(buckets@);
                buckets[c].push(p);
                assert(bview(buckets@) =~= before.update(c as int, before[c as int].push(p)));
            },
            None => {
                dropped.push(p.id);
            },
        }
    }
    assert(rest@.take(n as int) =~= rest@);
    let ghost placed = bview(buckets@);
    assert((placed, dropped@) == packing_state(para_ids@, target_cores, *cfg));

    // One record per non-empty core.
    let mut cores: Vec<CorePacking> = Vec::new();
    for idx in 0..target
        invariant
            buckets@.len() == target,
            placed == bview(buckets@),
            forall|c: int| 0 <= c < buckets@.len() ==> (#[trigger] buckets@[c])@.len() <= u32::MAX,
            packings_view(cores@) == emit(placed, idx as nat),
            target == target_cores,
    {
        let bucket = &buckets[idx];
        assert(placed[idx as int] == bucket@);
        if bucket.len() > 0 {
            let parts = split_parts(bucket);
            proof {
                lemma_split_len(bucket@);
            }
            let mut assignments: Vec<Assignment> = Vec::new();
            let m = bucket.len();
            let ghost want = core_of(bucket@, idx as int);
            for i in 0..m
                invariant
                    m == bucket@.len(),
                    parts@ == split_spec(bucket@),
                    parts@.len() == m,
                    want == core_of(bucket@, idx as int),
                    assignments@ =~= want.assignments.take(i as int),
            {
                assignments.push(Assignment { para_id: bucket[i].id, parts: parts[i] });
            }
            assert(want.assignments.take(m as int) =~= want.assignments);
            let ghost before = cores@;
            cores.push(CorePacking { core: idx as u32, assignments });
            assert(packings_view(cores@) =~= packings_view(before).push(want));
        }
    }
    let sorted_dropped = sort_u32(&dropped);
    PackingResult { cores, dropped: sorted_dropped }
}

} // verus!
