//! Laws of the core packing: every core is fully shared out, Asset Hub keeps
//! a core of its own, no para is lost or duplicated, dropped paras are
//! reported in order, and no core exceeds the cap.

use vstd::multiset::Multiset;
use vstd::prelude::*;

use crate::config::Packing;
use crate::model::{Assignment, CorePackingView};
use crate::packing::{
    ah_split, bump, core_of, emit, even_split_spec, floors_of, lemma_bump_len, lemma_load_bound,
    lemma_load_push, lemma_order_indices, lemma_scan_best_props, lemma_split_len,
    lemma_sum_nonneg, lemma_sum_nonneg_elem, lemma_sum_update_inc, load_of, packing_cap,
    packing_state, para_first, place_all, rem_first, rems_of, scan_best, spec_compute_packing, split_spec,
    sum_u32, weigh, find_id, grow_cap, empty_buckets, choose_core, lemma_find_id_some, Para, ASSET_HUB_ID, PARTS_FULL,
};
use crate::sorting::{insert_by, ascending, lemma_insert_by_contains, lemma_sort_ascending, lemma_sort_by_multiset, sort_by, u32_less};

verus! {

/// Sum of the parts of a list of assignments.
pub open spec fn parts_sum(a: Seq<Assignment>) -> int
    decreases a.len(),
{
    if a.len() == 0 {
        0
    } else {
        parts_sum(a.drop_last()) + a.last().parts
    }
}

/// Parts sums grow along prefixes.
pub proof fn lemma_parts_sum_prefix(a: Seq<Assignment>, j: int)
    requires
        0 <= j <= a.len(),
    ensures
        0 <= parts_sum(a.take(j)) <= parts_sum(a),
    decreases a.len() - j,
{
    if j == a.len() {
        assert(a.take(j) =~= a);
        lemma_parts_sum_nonneg(a);
    } else {
        lemma_parts_sum_prefix(a, j + 1);
        assert(a.take(j + 1).drop_last() =~= a.take(j));
        lemma_parts_sum_nonneg(a.take(j));
    }
}

proof fn lemma_parts_sum_nonneg(a: Seq<Assignment>)
    ensures
        0 <= parts_sum(a),
    decreases a.len(),
{
    if a.len() > 0 {
        lemma_parts_sum_nonneg(a.drop_last());
    }
}

proof fn lemma_even_sum(n: nat, m: nat)
    requires
        n > 0,
        m <= n,
    ensures
        sum_u32(even_split_spec(n).take(m as int)) == m * (57600nat / n) + if m < 57600 - (57600nat
            / n) * n {
            m as int
        } else {
            57600 - (57600nat / n) * n
        },
    decreases m,
{
    let s = even_split_spec(n);
    let base = 57600nat / n;
    let lo = 57600 - base * n;
    assert(base * n <= 57600 && lo < n) by (nonlinear_arith)
        requires
            n > 0,
            base == 57600nat / n,
            lo == 57600 - base * n,
    ;
    if m == 0 {
        assert(s.take(0) =~= Seq::<u32>::empty());
    } else {
        lemma_even_sum(n, (m - 1) as nat);
        assert(s.take(m as int).drop_last() =~= s.take(m - 1));
        assert(m * base == (m - 1) * base + base) by (nonlinear_arith);
    }
}

proof fn lemma_weight_le_load(b: Seq<Para>, i: int)
    requires
        0 <= i < b.len(),
    ensures
        b[i].weight <= load_of(b),
    decreases b.len(),
{
    lemma_load_bound(b.drop_last());
    if i < b.len() - 1 {
        lemma_weight_le_load(b.drop_last(), i);
    }
}

proof fn lemma_floors_sum(b: Seq<Para>, t: int, j: int)
    requires
        t == load_of(b),
        t > 0,
        0 <= j <= b.len(),
    ensures
        t * sum_u32(floors_of(b, t).take(j)) <= 57600 * load_of(b.take(j)),
    decreases j,
{
    let f = floors_of(b, t);
    if j == 0 {
        assert(f.take(0) =~= Seq::<u32>::empty());
        assert(b.take(0) =~= Seq::<Para>::empty());
    } else {
        lemma_floors_sum(b, t, j - 1);
        assert(f.take(j).drop_last() =~= f.take(j - 1));
        assert(b.take(j) =~= b.take(j - 1).push(b[j - 1]));
        lemma_load_push(b.take(j - 1), b[j - 1]);
        lemma_weight_le_load(b, j - 1);
        let w = b[j - 1].weight as int;
        assert((57600 * w) / t <= 57600) by (nonlinear_arith)
            requires
                w <= t,
                t > 0,
                w >= 0,
        ;
        let fl = f[j - 1] as int;
        assert(fl == (57600 * w) / t);
        assert(t * fl <= 57600 * w) by (nonlinear_arith)
            requires
                t > 0,
                fl == (57600 * w) / t,
        ;
        assert(t * (sum_u32(f.take(j - 1)) + fl) == t * sum_u32(f.take(j - 1)) + t * fl)
            by (nonlinear_arith);
        assert(57600 * (load_of(b.take(j - 1)) + w) == 57600 * load_of(b.take(j - 1)) + 57600 * w)
            by (nonlinear_arith);
    }
}

proof fn lemma_bump_sum(s: Seq<u32>, order: Seq<(usize, u64)>, k: nat)
    requires
        order.len() > 0,
        forall|j: int| 0 <= j < order.len() ==> (#[trigger] order[j]).0 < s.len(),
        sum_u32(s) + k <= 57600,
    ensures
        sum_u32(bump(s, order, k)) == sum_u32(s) + k,
    decreases k,
{
    if k > 0 {
        lemma_bump_sum(s, order, (k - 1) as nat);
        let p = bump(s, order, (k - 1) as nat);
        lemma_bump_len(s, order, (k - 1) as nat);
        let i = order[(k - 1) % (order.len() as int)].0 as int;
        lemma_sum_nonneg_elem(p, i);
        lemma_sum_update_inc(p, i);
    }
}

/// A non-empty bucket's split hands out exactly 57600 parts.
pub proof fn lemma_split_sum(b: Seq<Para>)
    requires
        b.len() > 0,
    ensures
        sum_u32(split_spec(b)) == 57600,
{
    let t = load_of(b);
    lemma_load_bound(b);
    if t == 0 {
        let n = b.len();
        lemma_even_sum(n, n);
        assert(even_split_spec(n).take(n as int) =~= even_split_spec(n));
        let base = 57600nat / n;
        assert(base * n <= 57600 && 57600 - base * n < n) by (nonlinear_arith)
            requires
                n > 0,
                base == 57600nat / n,
        ;
        assert(n * base == base * n) by (nonlinear_arith);
    } else {
        let f = floors_of(b, t);
        lemma_floors_sum(b, t, b.len() as int);
        assert(f.take(b.len() as int) =~= f);
        assert(b.take(b.len() as int) =~= b);
        lemma_sum_nonneg(f);
        assert(sum_u32(f) <= 57600) by (nonlinear_arith)
            requires
                t * sum_u32(f) <= 57600 * t,
                t > 0,
        ;
        let order = sort_by(rems_of(b, t), rem_first());
        lemma_sort_by_multiset(rems_of(b, t), rem_first());
        lemma_order_indices(rems_of(b, t), order, b.len() as int);
        lemma_bump_sum(f, order, (57600 - sum_u32(f)) as nat);
    }
}

proof fn lemma_parts_sum_core(b: Seq<Para>, idx: int, k: int)
    requires
        0 <= k <= b.len(),
    ensures
        parts_sum(core_of(b, idx).assignments.take(k)) == sum_u32(split_spec(b).take(k)),
    decreases k,
{
    lemma_split_len(b);
    if k == 0 {
        assert(core_of(b, idx).assignments.take(0) =~= Seq::<Assignment>::empty());
        assert(split_spec(b).take(0) =~= Seq::<u32>::empty());
    } else {
        lemma_parts_sum_core(b, idx, k - 1);
        assert(core_of(b, idx).assignments.take(k).drop_last() =~= core_of(
            b,
            idx,
        ).assignments.take(k - 1));
        assert(split_spec(b).take(k).drop_last() =~= split_spec(b).take(k - 1));
    }
}

/// Every record of `emit` is the record of a non-empty bucket, at strictly
/// increasing core indices below `k`.
pub proof fn lemma_emit_shape(buckets: Seq<Seq<Para>>, k: nat)
    requires
        k <= buckets.len(),
        k <= u32::MAX + 1,
    ensures
        forall|i: int|
            0 <= i < emit(buckets, k).len() ==> {
                let c = (#[trigger] emit(buckets, k)[i]).core as int;
                &&& 0 <= c < k
                &&& buckets[c].len() > 0
                &&& emit(buckets, k)[i] == core_of(buckets[c], c)
            },
        forall|i: int, j: int|
            0 <= i < j < emit(buckets, k).len() ==> (#[trigger] emit(buckets, k)[i]).core < (
            #[trigger] emit(buckets, k)[j]).core,
    decreases k,
{
    if k > 0 {
        lemma_emit_shape(buckets, (k - 1) as nat);
        let prev = emit(buckets, (k - 1) as nat);
        let e = emit(buckets, k);
        if buckets[k - 1].len() != 0 {
            let last = core_of(buckets[k - 1], k - 1);
            assert(e == prev.push(last));
            assert(last.core as int == k - 1);
            assert forall|i: int| 0 <= i < e.len() implies {
                let c = (#[trigger] e[i]).core as int;
                &&& 0 <= c < k
                &&& buckets[c].len() > 0
                &&& e[i] == core_of(buckets[c], c)
            } by {
                if i < prev.len() {
                    assert(e[i] == prev[i]);
                }
            }
            assert forall|i: int, j: int| 0 <= i < j < e.len() implies (#[trigger] e[i]).core < (
            #[trigger] e[j]).core by {
                assert(e[i] == prev[i]);
                if j < prev.len() {
                    assert(e[j] == prev[j]);
                }
            }
        }
    }
}

/// Law: every core of a computed packing shares out exactly 57600 parts.
pub proof fn law_core_parts_sum_to_full(ids: Seq<u32>, target: u32, cfg: Packing)
    ensures
        forall|i: int|
            0 <= i < spec_compute_packing(ids, target, cfg).0.len() ==> parts_sum(
                #[trigger] spec_compute_packing(ids, target, cfg).0[i].assignments,
            ) == PARTS_FULL,
{
    if target > 0 {
        let placed = packing_state(ids, target, cfg);
        lemma_packing_state_len(ids, target, cfg);
        lemma_emit_shape(placed.0, target as nat);
        let cores = emit(placed.0, target as nat);
        assert forall|i: int| 0 <= i < cores.len() implies parts_sum(
            #[trigger] cores[i].assignments,
        ) == PARTS_FULL by {
            let c = cores[i].core as int;
            let b = placed.0[c];
            lemma_split_len(b);
            lemma_parts_sum_core(b, c, b.len() as int);
            assert(core_of(b, c).assignments.take(b.len() as int) =~= core_of(b, c).assignments);
            assert(split_spec(b).take(b.len() as int) =~= split_spec(b));
            lemma_split_sum(b);
        }
    }
}

proof fn lemma_place_all_len(buckets: Seq<Seq<Para>>, start: int, cap: int, paras: Seq<Para>)
    requires
        0 <= start <= buckets.len(),
    ensures
        place_all(buckets, start, cap, paras).0.len() == buckets.len(),
    decreases paras.len(),
{
    if paras.len() > 0 {
        lemma_place_all_len(buckets, start, cap, paras.drop_last());
        let prev = place_all(buckets, start, cap, paras.drop_last());
        lemma_scan_best_props(prev.0, start, (prev.0.len() - start) as nat, cap);
    }
}

/// The placement keeps one bucket per target core.
pub proof fn lemma_packing_state_len(ids: Seq<u32>, target: u32, cfg: Packing)
    requires
        target > 0,
    ensures
        packing_state(ids, target, cfg).0.len() == target,
{
    let sorted = sort_by(weigh(ids, cfg), para_first());
    let split = ah_split(sorted, target);
    let cap = packing_cap(split.0.len(), target - split.2, cfg);
    lemma_place_all_len(split.1, split.2, cap, split.0);
}

proof fn lemma_find_id_none(s: Seq<Para>, id: u32)
    ensures
        find_id(s, id) is None ==> forall|k: int| 0 <= k < s.len() ==> (#[trigger] s[k]).id != id,
    decreases s.len(),
{
    if s.len() > 0 && s[0].id != id {
        lemma_find_id_none(s.drop_first(), id);
        assert forall|k: int| 0 < k < s.len() implies s[k] == s.drop_first()[k - 1] by {}
    }
}

proof fn lemma_place_all_keeps(buckets: Seq<Seq<Para>>, start: int, cap: int, paras: Seq<Para>, c: int)
    requires
        0 <= c < start <= buckets.len(),
    ensures
        place_all(buckets, start, cap, paras).0[c] == buckets[c],
        place_all(buckets, start, cap, paras).0.len() == buckets.len(),
    decreases paras.len(),
{
    if paras.len() > 0 {
        lemma_place_all_keeps(buckets, start, cap, paras.drop_last(), c);
        let prev = place_all(buckets, start, cap, paras.drop_last());
        lemma_scan_best_props(prev.0, start, (prev.0.len() - start) as nat, cap);
    }
}

proof fn lemma_emit_first(b: Seq<Seq<Para>>, k: nat)
    requires
        1 <= k <= b.len(),
        b[0].len() > 0,
    ensures
        emit(b, k).len() > 0,
        emit(b, k)[0] == core_of(b[0], 0),
    decreases k,
{
    if k > 1 {
        lemma_emit_first(b, (k - 1) as nat);
    } else {
        assert(emit(b, 0) =~= Seq::<CorePackingView>::empty());
    }
}

/// A single para takes the whole core.
pub proof fn lemma_split_single(p: Para)
    ensures
        split_spec(seq![p]) == seq![PARTS_FULL],
{
    let b = seq![p];
    assert(b.drop_last() =~= Seq::<Para>::empty());
    assert(b.last() == p);
    assert(load_of(b.drop_last()) == 0);
    let t = load_of(b);
    assert(t == p.weight);
    if t == 0 {
        assert(even_split_spec(1) =~= seq![57600u32]);
    } else {
        let f = floors_of(b, t);
        assert((57600 * t) / t == 57600) by (nonlinear_arith)
            requires
                t > 0,
        ;
        assert(f =~= seq![57600u32]);
        assert(f.drop_last() =~= Seq::<u32>::empty());
        assert(sum_u32(f.drop_last()) == 0);
        assert(f.last() == 57600u32);
        assert(sum_u32(f) == 57600);
    }
}

/// Law: with at least two cores and Asset Hub among the active paras, core 0
/// is Asset Hub's alone, with all 57600 parts.
pub proof fn law_asset_hub_dedicated_core(ids: Seq<u32>, target: u32, cfg: Packing)
    requires
        target >= 2,
        ids.contains(ASSET_HUB_ID),
    ensures
        spec_compute_packing(ids, target, cfg).0.len() > 0,
        spec_compute_packing(ids, target, cfg).0[0] == (CorePackingView {
            core: 0,
            assignments: seq![Assignment { para_id: ASSET_HUB_ID, parts: PARTS_FULL }],
        }),
{
    broadcast use vstd::seq_lib::group_to_multiset_ensures;

    let w = weigh(ids, cfg);
    let k0 = choose|k: int| 0 <= k < ids.len() && ids[k] == ASSET_HUB_ID;
    assert(w[k0].id == ASSET_HUB_ID);
    assert(w.contains(w[k0]));
    let sorted = sort_by(w, para_first());
    lemma_sort_by_multiset(w, para_first());
    assert(w.to_multiset().count(w[k0]) > 0);
    assert(sorted.contains(w[k0]));
    let k1 = choose|k: int| 0 <= k < sorted.len() && sorted[k] == w[k0];
    lemma_find_id_none(sorted, ASSET_HUB_ID);
    lemma_find_id_some(sorted, ASSET_HUB_ID);
    let i = find_id(sorted, ASSET_HUB_ID)->Some_0;
    let split = ah_split(sorted, target);
    assert(split.2 == 1);
    assert(split.1[0] == seq![sorted[i]]);
    let cap = packing_cap(split.0.len(), target - split.2, cfg);
    lemma_place_all_keeps(split.1, split.2, cap, split.0, 0);
    let placed = packing_state(ids, target, cfg);
    assert(placed.0[0] == seq![sorted[i]]);
    lemma_emit_first(placed.0, target as nat);
    lemma_split_single(sorted[i]);
    let c = core_of(seq![sorted[i]], 0);
    assert(c.assignments =~= seq![Assignment { para_id: ASSET_HUB_ID, parts: PARTS_FULL }]);
}

/// Law: the dropped ids come out in ascending order (whenever there is at
/// least one core; with none, every id is dropped in input order).
pub proof fn law_dropped_ascending(ids: Seq<u32>, target: u32, cfg: Packing)
    ensures
        target > 0 ==> ascending(spec_compute_packing(ids, target, cfg).1),
        target == 0 ==> spec_compute_packing(ids, target, cfg).1 == ids
            && spec_compute_packing(ids, target, cfg).0.len() == 0,
{
    if target > 0 {
        lemma_sort_ascending(packing_state(ids, target, cfg).1);
    }
}

/// Law: records come in strictly increasing core order, each for an existing
/// core and with at least one para.
pub proof fn law_cores_ordered_nonempty(ids: Seq<u32>, target: u32, cfg: Packing)
    ensures
        forall|i: int|
            0 <= i < spec_compute_packing(ids, target, cfg).0.len() ==> {
                &&& (#[trigger] spec_compute_packing(ids, target, cfg).0[i]).core < target
                &&& spec_compute_packing(ids, target, cfg).0[i].assignments.len() > 0
            },
        forall|i: int, j: int|
            0 <= i < j < spec_compute_packing(ids, target, cfg).0.len() ==> (
            #[trigger] spec_compute_packing(ids, target, cfg).0[i]).core < (
            #[trigger] spec_compute_packing(ids, target, cfg).0[j]).core,
{
    if target > 0 {
        let placed = packing_state(ids, target, cfg);
        lemma_packing_state_len(ids, target, cfg);
        lemma_emit_shape(placed.0, target as nat);
    }
}

proof fn lemma_grow_cap_bound(n: int, r: int, c: int, h: int)
    ensures
        c <= grow_cap(n, r, c, h),
        grow_cap(n, r, c, h) <= if c > h { c } else { h },
    decreases h - c,
{
    if n > r * c && c < h {
        lemma_grow_cap_bound(n, r, c + 1, h);
    }
}

proof fn lemma_place_all_bound(buckets: Seq<Seq<Para>>, start: int, cap: int, paras: Seq<Para>, bound: int)
    requires
        0 <= start <= buckets.len(),
        cap <= bound,
        forall|c: int| 0 <= c < buckets.len() ==> (#[trigger] buckets[c]).len() <= bound,
    ensures
        forall|c: int|
            0 <= c < place_all(buckets, start, cap, paras).0.len() ==> (
            #[trigger] place_all(buckets, start, cap, paras).0[c]).len() <= bound,
    decreases paras.len(),
{
    if paras.len() > 0 {
        lemma_place_all_bound(buckets, start, cap, paras.drop_last(), bound);
        lemma_place_all_len(buckets, start, cap, paras.drop_last());
        let prev = place_all(buckets, start, cap, paras.drop_last());
        lemma_scan_best_props(prev.0, start, (prev.0.len() - start) as nat, cap);
    }
}

/// The largest number of paras a core may receive.
pub open spec fn core_size_bound(cfg: Packing) -> int {
    let c0 = if cfg.max_chains_per_core > 1 { cfg.max_chains_per_core as int } else { 1 };
    if c0 > cfg.hard_max_chains_per_core { c0 } else { cfg.hard_max_chains_per_core as int }
}

/// Law: no core holds more paras than the larger of the soft cap (at least
/// one) and the hard cap.
pub proof fn law_core_size_within_cap(ids: Seq<u32>, target: u32, cfg: Packing)
    ensures
        forall|i: int|
            0 <= i < spec_compute_packing(ids, target, cfg).0.len() ==> (
            #[trigger] spec_compute_packing(ids, target, cfg).0[i]).assignments.len()
                <= core_size_bound(cfg),
{
    if target > 0 {
        let sorted = sort_by(weigh(ids, cfg), para_first());
        let split = ah_split(sorted, target);
        let cap = packing_cap(split.0.len(), target - split.2, cfg);
        let r = if target - split.2 > 1 { target - split.2 } else { 1 };
        let c0 = if cfg.max_chains_per_core > 1 { cfg.max_chains_per_core as int } else { 1 };
        lemma_grow_cap_bound(split.0.len() as int, r, c0, cfg.hard_max_chains_per_core as int);
        let bound = core_size_bound(cfg);
        assert forall|c: int| 0 <= c < split.1.len() implies (#[trigger] split.1[c]).len() <= bound by {}
        lemma_place_all_bound(split.1, split.2, cap, split.0, bound);
        let placed = packing_state(ids, target, cfg);
        lemma_packing_state_len(ids, target, cfg);
        lemma_emit_shape(placed.0, target as nat);
    }
}

// ---------------------------------------------------------------------------
// Conservation of paras
// ---------------------------------------------------------------------------

/// The ids of a bucket, in order.
pub open spec fn ids_of(b: Seq<Para>) -> Seq<u32> {
    b.map_values(|p: Para| p.id)
}

/// All ids held by a list of buckets.
pub open spec fn bucket_ids(bs: Seq<Seq<Para>>) -> Multiset<u32>
    decreases bs.len(),
{
    if bs.len() == 0 {
        Multiset::empty()
    } else {
        bucket_ids(bs.drop_last()).add(ids_of(bs.last()).to_multiset())
    }
}

/// All para ids of a list of core records.
pub open spec fn packed_ids(cores: Seq<CorePackingView>) -> Multiset<u32>
    decreases cores.len(),
{
    if cores.len() == 0 {
        Multiset::empty()
    } else {
        packed_ids(cores.drop_last()).add(
            cores.last().assignments.map_values(|a: Assignment| a.para_id).to_multiset(),
        )
    }
}

proof fn lemma_insert_by_ids(s: Seq<Para>, x: Para)
    ensures
        ids_of(insert_by(s, x, para_first())).to_multiset() == ids_of(s).to_multiset().insert(x.id),
    decreases s.len(),
{
    broadcast use vstd::seq_lib::group_to_multiset_ensures;
    broadcast use vstd::seq_lib::lemma_multiset_commutative;

    if s.len() == 0 {
        assert(ids_of(seq![x]) =~= Seq::<u32>::empty().push(x.id));
        assert(ids_of(s) =~= Seq::<u32>::empty());
    } else if (para_first())(x, s[0]) {
        assert(ids_of(seq![x] + s) =~= seq![x.id] + ids_of(s));
        assert(seq![x.id] =~= Seq::<u32>::empty().push(x.id));
        assert((seq![x.id] + ids_of(s)).to_multiset() =~= seq![x.id].to_multiset().add(ids_of(s).to_multiset()));
    } else {
        let t = s.drop_first();
        lemma_insert_by_ids(t, x);
        let it = insert_by(t, x, para_first());
        assert(ids_of(seq![s[0]] + it) =~= seq![s[0].id] + ids_of(it));
        assert(ids_of(s) =~= seq![s[0].id] + ids_of(t));
        assert(seq![s[0].id] =~= Seq::<u32>::empty().push(s[0].id));
        assert((seq![s[0].id] + ids_of(it)).to_multiset() =~= seq![s[0].id].to_multiset().add(ids_of(it).to_multiset()));
        assert((seq![s[0].id] + ids_of(t)).to_multiset() =~= seq![s[0].id].to_multiset().add(ids_of(t).to_multiset()));
    }
}

proof fn lemma_sort_ids(s: Seq<Para>)
    ensures
        ids_of(sort_by(s, para_first())).to_multiset() == ids_of(s).to_multiset(),
    decreases s.len(),
{
    broadcast use vstd::seq_lib::group_to_multiset_ensures;

    if s.len() == 0 {
        assert(ids_of(Seq::<Para>::empty()) =~= Seq::<u32>::empty());
    } else {
        lemma_sort_ids(s.drop_last());
        lemma_insert_by_ids(sort_by(s.drop_last(), para_first()), s.last());
        assert(ids_of(s) =~= ids_of(s.drop_last()).push(s.last().id));
    }
}

proof fn lemma_bucket_ids_push(bs: Seq<Seq<Para>>, c: int, p: Para)
    requires
        0 <= c < bs.len(),
    ensures
        bucket_ids(bs.update(c, bs[c].push(p))) == bucket_ids(bs).insert(p.id),
    decreases bs.len(),
{
    broadcast use vstd::seq_lib::group_to_multiset_ensures;

    let u = bs.update(c, bs[c].push(p));
    if c == bs.len() - 1 {
        assert(u.drop_last() =~= bs.drop_last());
        assert(ids_of(bs[c].push(p)) =~= ids_of(bs[c]).push(p.id));
        assert(bucket_ids(u) =~= bucket_ids(bs).insert(p.id));
    } else {
        lemma_bucket_ids_push(bs.drop_last(), c, p);
        assert(u.drop_last() =~= bs.drop_last().update(c, bs[c].push(p)));
        assert(bucket_ids(u) =~= bucket_ids(bs).insert(p.id));
    }
}

proof fn lemma_bucket_ids_empty(n: nat)
    ensures
        bucket_ids(empty_buckets(n)) == Multiset::<u32>::empty(),
    decreases n,
{
    broadcast use vstd::seq_lib::group_to_multiset_ensures;

    if n > 0 {
        lemma_bucket_ids_empty((n - 1) as nat);
        assert(empty_buckets(n).drop_last() =~= empty_buckets((n - 1) as nat));
        assert(ids_of(empty_buckets(n).last()) =~= Seq::<u32>::empty());
        assert(bucket_ids(empty_buckets(n)) =~= Multiset::<u32>::empty());
    }
}

proof fn lemma_place_all_ids(buckets: Seq<Seq<Para>>, start: int, cap: int, paras: Seq<Para>)
    requires
        0 <= start <= buckets.len(),
    ensures
        bucket_ids(place_all(buckets, start, cap, paras).0).add(
            place_all(buckets, start, cap, paras).1.to_multiset(),
        ) == bucket_ids(buckets).add(ids_of(paras).to_multiset()),
    decreases paras.len(),
{
    broadcast use vstd::seq_lib::group_to_multiset_ensures;

    if paras.len() == 0 {
        assert(ids_of(paras) =~= Seq::<u32>::empty());
        assert(bucket_ids(buckets).add(Seq::<u32>::empty().to_multiset()) =~= bucket_ids(buckets));
    } else {
        lemma_place_all_ids(buckets, start, cap, paras.drop_last());
        lemma_place_all_len(buckets, start, cap, paras.drop_last());
        let prev = place_all(buckets, start, cap, paras.drop_last());
        let p = paras.last();
        lemma_scan_best_props(prev.0, start, (prev.0.len() - start) as nat, cap);
        assert(ids_of(paras) =~= ids_of(paras.drop_last()).push(p.id));
        match choose_core(prev.0, start, cap) {
            Some(c) => {
                lemma_bucket_ids_push(prev.0, c, p);
            },
            None => {},
        }
        let cur = place_all(buckets, start, cap, paras);
        assert(bucket_ids(cur.0).add(cur.1.to_multiset()) =~= bucket_ids(prev.0).add(
            prev.1.to_multiset(),
        ).insert(p.id));
        assert(bucket_ids(buckets).add(ids_of(paras).to_multiset()) =~= bucket_ids(buckets).add(
            ids_of(paras.drop_last()).to_multiset(),
        ).insert(p.id));
    }
}

proof fn lemma_emit_ids(bs: Seq<Seq<Para>>, k: nat)
    requires
        k <= bs.len(),
    ensures
        packed_ids(emit(bs, k)) == bucket_ids(bs.take(k as int)),
    decreases k,
{
    broadcast use vstd::seq_lib::group_to_multiset_ensures;

    if k == 0 {
        assert(bs.take(0) =~= Seq::<Seq<Para>>::empty());
    } else {
        lemma_emit_ids(bs, (k - 1) as nat);
        assert(bs.take(k as int).drop_last() =~= bs.take(k - 1));
        let b = bs[k - 1];
        assert(bs.take(k as int).last() == b);
        if b.len() == 0 {
            assert(ids_of(b) =~= Seq::<u32>::empty());
            assert(bucket_ids(bs.take(k as int)) =~= bucket_ids(bs.take(k - 1)));
        } else {
            let c = core_of(b, k - 1);
            lemma_split_len(b);
            assert(c.assignments.map_values(|a: Assignment| a.para_id) =~= ids_of(b));
            let e = emit(bs, k);
            assert(e.drop_last() == emit(bs, (k - 1) as nat));
        }
    }
}

/// Law: packing neither loses nor duplicates a para: the para ids on the
/// cores together with the dropped ids are exactly the input ids.
pub proof fn law_paras_conserved(ids: Seq<u32>, target: u32, cfg: Packing)
    ensures
        packed_ids(spec_compute_packing(ids, target, cfg).0).add(
            spec_compute_packing(ids, target, cfg).1.to_multiset(),
        ) == ids.to_multiset(),
{
    broadcast use vstd::seq_lib::group_to_multiset_ensures;

    if target == 0 {
        assert(packed_ids(Seq::<CorePackingView>::empty()) == Multiset::<u32>::empty());
        assert(Multiset::<u32>::empty().add(ids.to_multiset()) =~= ids.to_multiset());
    } else {
        let w = weigh(ids, cfg);
        assert(ids_of(w) =~= ids);
        let sorted = sort_by(w, para_first());
        lemma_sort_ids(w);
        let split = ah_split(sorted, target);
        let e = empty_buckets(target as nat);
        lemma_bucket_ids_empty(target as nat);
        lemma_find_id_some(sorted, ASSET_HUB_ID);
        if target >= 2 && find_id(sorted, ASSET_HUB_ID) is Some {
            let i = find_id(sorted, ASSET_HUB_ID)->Some_0;
            assert(e[0].push(sorted[i]) =~= seq![sorted[i]]);
            lemma_bucket_ids_push(e, 0, sorted[i]);
            assert(ids_of(sorted.remove(i)) =~= ids_of(sorted).remove(i));
            assert(ids_of(sorted)[i] == sorted[i].id);
            assert(bucket_ids(split.1).add(ids_of(split.0).to_multiset()) =~= ids.to_multiset());
        } else {
            assert(bucket_ids(split.1).add(ids_of(split.0).to_multiset()) =~= ids.to_multiset());
        }
        let cap = packing_cap(split.0.len(), target - split.2, cfg);
        lemma_place_all_ids(split.1, split.2, cap, split.0);
        let placed = packing_state(ids, target, cfg);
        lemma_packing_state_len(ids, target, cfg);
        lemma_emit_ids(placed.0, target as nat);
        assert(placed.0.take(target as int) =~= placed.0);
        lemma_sort_by_multiset(placed.1, u32_less());
    }
}

// ---------------------------------------------------------------------------
// Largest-remainder rounding stays within one part of the exact share
// ---------------------------------------------------------------------------

proof fn lemma_floors_lower(b: Seq<Para>, t: int, j: int)
    requires
        t == load_of(b),
        t > 0,
        0 <= j <= b.len(),
    ensures
        t * sum_u32(floors_of(b, t).take(j)) + t * j >= 57600 * load_of(b.take(j)) + j,
    decreases j,
{
    let f = floors_of(b, t);
    if j == 0 {
        assert(f.take(0) =~= Seq::<u32>::empty());
        assert(b.take(0) =~= Seq::<Para>::empty());
    } else {
        lemma_floors_lower(b, t, j - 1);
        assert(f.take(j).drop_last() =~= f.take(j - 1));
        assert(f.take(j).last() == f[j - 1]);
        assert(b.take(j) =~= b.take(j - 1).push(b[j - 1]));
        lemma_load_push(b.take(j - 1), b[j - 1]);
        lemma_weight_le_load(b, j - 1);
        let w = b[j - 1].weight as int;
        assert((57600 * w) / t <= 57600) by (nonlinear_arith)
            requires
                w <= t,
                t > 0,
                w >= 0,
        ;
        let fl = f[j - 1] as int;
        assert(fl == (57600 * w) / t);
        assert(t * fl + t >= 57600 * w + 1) by (nonlinear_arith)
            requires
                t > 0,
                w >= 0,
                fl == (57600 * w) / t,
        ;
        let sp = sum_u32(f.take(j - 1));
        assert(t * (sp + fl) == t * sp + t * fl) by (nonlinear_arith);
        assert(t * j == t * (j - 1) + t) by (nonlinear_arith);
        assert(57600 * (load_of(b.take(j - 1)) + w) == 57600 * load_of(b.take(j - 1)) + 57600 * w)
            by (nonlinear_arith);
    }
}

/// With some weight on the core, the floors leave fewer parts over than
/// there are paras.
proof fn lemma_leftover_small(b: Seq<Para>)
    requires
        load_of(b) > 0,
    ensures
        sum_u32(floors_of(b, load_of(b))) <= 57600,
        57600 - sum_u32(floors_of(b, load_of(b))) < b.len(),
{
    let t = load_of(b);
    let n = b.len() as int;
    let f = floors_of(b, t);
    lemma_floors_sum(b, t, n);
    lemma_floors_lower(b, t, n);
    assert(f.take(n) =~= f);
    assert(b.take(n) =~= b);
    let sf = sum_u32(f);
    assert(sf <= 57600) by (nonlinear_arith)
        requires
            t * sf <= 57600 * t,
            t > 0,
    ;
    assert(n > 0) by {
        if n == 0 {
            assert(b =~= Seq::<Para>::empty());
        }
    }
    assert(t * (sf + n) == t * sf + t * n) by (nonlinear_arith);
    assert(t * (sf + n) > 57600 * t);
    assert(sf + n > 57600) by (nonlinear_arith)
        requires
            t * (sf + n) > 57600 * t,
            t > 0,
    ;
}

/// The largest-remainder order names each para exactly once.
proof fn lemma_order_distinct(b: Seq<Para>, t: int)
    requires
        b.len() <= usize::MAX,
    ensures
        sort_by(rems_of(b, t), rem_first()).len() == b.len(),
        forall|j: int|
            0 <= j < b.len() ==> (#[trigger] sort_by(rems_of(b, t), rem_first())[j]).0 < b.len(),
        forall|x: int, y: int|
            0 <= x < y < b.len() ==> (#[trigger] sort_by(rems_of(b, t), rem_first())[x]).0
                != (#[trigger] sort_by(rems_of(b, t), rem_first())[y]).0,
{
    broadcast use vstd::seq_lib::group_to_multiset_ensures;

    let rems = rems_of(b, t);
    let order = sort_by(rems, rem_first());
    lemma_sort_by_multiset(rems, rem_first());
    lemma_order_indices(rems, order, b.len() as int);
    assert(rems.no_duplicates()) by {
        assert forall|x: int, y: int| 0 <= x < rems.len() && 0 <= y < rems.len() && x != y implies rems[x]
            != rems[y] by {
            assert(rems[x].0 == x as usize);
            assert(rems[y].0 == y as usize);
        }
    }
    rems.lemma_multiset_has_no_duplicates();
    assert forall|x: (usize, u64)| order.to_multiset().contains(x) implies order.to_multiset().count(x)
        == 1 by {}
    order.lemma_multiset_has_no_duplicates_conv();
    assert forall|x: int, y: int| 0 <= x < y < b.len() implies (#[trigger] order[x]).0
        != (#[trigger] order[y]).0 by {
        assert(order.contains(order[x]));
        assert(order.contains(order[y]));
        assert(order.to_multiset().count(order[x]) > 0);
        assert(order.to_multiset().count(order[y]) > 0);
        assert(rems.contains(order[x]));
        assert(rems.contains(order[y]));
        let kx = choose|k: int| 0 <= k < rems.len() && rems[k] == order[x];
        let ky = choose|k: int| 0 <= k < rems.len() && rems[k] == order[y];
        if order[x].0 == order[y].0 {
            assert(rems[kx].0 == kx as usize);
            assert(rems[ky].0 == ky as usize);
            assert(kx == ky);
            assert(order[x] == order[y]);
        }
    }
}

/// `i` is among the first `k` entries of `order`.
pub open spec fn bumped(order: Seq<(usize, u64)>, k: nat, i: int) -> bool {
    exists|m: int| 0 <= m < k && (#[trigger] order[m]).0 == i
}

proof fn lemma_bump_once(s: Seq<u32>, order: Seq<(usize, u64)>, k: nat)
    requires
        k <= order.len(),
        forall|j: int| 0 <= j < order.len() ==> (#[trigger] order[j]).0 < s.len(),
        forall|x: int, y: int|
            0 <= x < y < order.len() ==> (#[trigger] order[x]).0 != (#[trigger] order[y]).0,
        forall|i: int| 0 <= i < s.len() ==> s[i] < u32::MAX,
    ensures
        bump(s, order, k).len() == s.len(),
        forall|i: int|
            0 <= i < s.len() ==> bump(s, order, k)[i] == if bumped(order, k, i) {
                s[i] + 1
            } else {
                s[i] as int
            },
    decreases k,
{
    lemma_bump_len(s, order, k);
    if k > 0 {
        lemma_bump_once(s, order, (k - 1) as nat);
        let p = bump(s, order, (k - 1) as nat);
        let last = (k - 1) as int;
        vstd::arithmetic::div_mod::lemma_small_mod(last as nat, order.len());
        let idx = order[last].0 as int;
        assert(!bumped(order, (k - 1) as nat, idx)) by {
            if bumped(order, (k - 1) as nat, idx) {
                let m = choose|m: int| 0 <= m < k - 1 && (#[trigger] order[m]).0 == idx;
                assert(order[m].0 != order[last].0);
            }
        }
        assert forall|i: int| 0 <= i < s.len() implies bump(s, order, k)[i] == if bumped(
            order,
            k,
            i,
        ) {
            s[i] + 1
        } else {
            s[i] as int
        } by {
            if i == idx {
                assert(order[last].0 == i);
                assert(bumped(order, k, i));
            } else {
                if bumped(order, k, i) {
                    let m = choose|m: int| 0 <= m < k && (#[trigger] order[m]).0 == i;
                    assert(m != last);
                    assert(bumped(order, (k - 1) as nat, i));
                }
                if bumped(order, (k - 1) as nat, i) {
                    let m = choose|m: int| 0 <= m < k - 1 && (#[trigger] order[m]).0 == i;
                    assert(bumped(order, k, i));
                }
            }
        }
    }
}

/// Law: on a core with some weight, each para gets the floor of its exact
/// proportional share of 57600, or one part more (largest-remainder
/// rounding).
pub proof fn law_split_within_one(b: Seq<Para>, i: int)
    requires
        0 <= i < b.len(),
        b.len() <= usize::MAX,
        load_of(b) > 0,
    ensures
        floors_of(b, load_of(b))[i] <= split_spec(b)[i] <= floors_of(b, load_of(b))[i] + 1,
{
    let t = load_of(b);
    let f = floors_of(b, t);
    lemma_leftover_small(b);
    lemma_order_distinct(b, t);
    let order = sort_by(rems_of(b, t), rem_first());
    assert forall|j: int| 0 <= j < f.len() implies f[j] < u32::MAX by {
        lemma_weight_le_load(b, j);
        let w = b[j].weight as int;
        assert((57600 * w) / t <= 57600) by (nonlinear_arith)
            requires
                w <= t,
                t > 0,
                w >= 0,
        ;
    }
    let leftover = (57600 - sum_u32(f)) as nat;
    lemma_bump_once(f, order, leftover);
}

/// Law: largest-remainder rounding, stated directly: on a core with some
/// weight, a para gets one part more than the floor of its exact share
/// exactly when it is among the first `57600 - (sum of floors)` paras in
/// order of remainder (largest first, ties by position).
pub proof fn law_split_largest_remainder(b: Seq<Para>, i: int)
    requires
        0 <= i < b.len(),
        b.len() <= usize::MAX,
        load_of(b) > 0,
    ensures
        split_spec(b)[i] == floors_of(b, load_of(b))[i] + if bumped(
            sort_by(rems_of(b, load_of(b)), rem_first()),
            (57600 - sum_u32(floors_of(b, load_of(b)))) as nat,
            i,
        ) {
            1int
        } else {
            0int
        },
{
    let t = load_of(b);
    let f = floors_of(b, t);
    lemma_leftover_small(b);
    lemma_order_distinct(b, t);
    let order = sort_by(rems_of(b, t), rem_first());
    assert forall|j: int| 0 <= j < f.len() implies f[j] < u32::MAX by {
        lemma_weight_le_load(b, j);
        let w = b[j].weight as int;
        assert((57600 * w) / t <= 57600) by (nonlinear_arith)
            requires
                w <= t,
                t > 0,
                w >= 0,
        ;
    }
    lemma_bump_once(f, order, (57600 - sum_u32(f)) as nat);
}

/// Law: on a core without weight, the parts are split evenly: each para
/// gets `57600 / n` parts or one more.
pub proof fn law_split_even_without_weight(b: Seq<Para>, i: int)
    requires
        0 <= i < b.len(),
        load_of(b) == 0,
    ensures
        57600int / (b.len() as int) <= split_spec(b)[i] <= 57600int / (b.len() as int) + 1,
{
}

// ---------------------------------------------------------------------------
// Paras are dropped only when every open core is full
// ---------------------------------------------------------------------------

/// Whether Asset Hub takes a core of its own: there are two cores or more
/// and it is among the paras.
pub open spec fn dedicated_ah(ids: Seq<u32>, target: u32) -> bool {
    target >= 2 && ids.contains(ASSET_HUB_ID)
}

/// The paras competing for the open cores (all but a dedicated Asset Hub).
pub open spec fn contenders(ids: Seq<u32>, target: u32) -> int {
    ids.len() - if dedicated_ah(ids, target) { 1int } else { 0int }
}

/// The cores open to them (all but Asset Hub's own).
pub open spec fn open_cores(ids: Seq<u32>, target: u32) -> int {
    target - if dedicated_ah(ids, target) { 1int } else { 0int }
}

/// Paras held by the buckets `start .. start + k`.
pub open spec fn held(bs: Seq<Seq<Para>>, start: int, k: nat) -> int
    decreases k,
{
    if k == 0 {
        0
    } else {
        held(bs, start, (k - 1) as nat) + bs[start + k - 1].len()
    }
}

proof fn lemma_held_update(bs: Seq<Seq<Para>>, start: int, k: nat, c: int, x: Seq<Para>)
    requires
        0 <= start,
        start + k <= bs.len(),
        start <= c < start + k,
    ensures
        held(bs.update(c, x), start, k) == held(bs, start, k) - bs[c].len() + x.len(),
    decreases k,
{
    if k > 0 {
        if c < start + k - 1 {
            lemma_held_update(bs, start, (k - 1) as nat, c, x);
        } else {
            lemma_held_same(bs, start, (k - 1) as nat, c, x);
        }
    }
}

proof fn lemma_held_same(bs: Seq<Seq<Para>>, start: int, k: nat, c: int, x: Seq<Para>)
    requires
        0 <= start,
        start + k <= c < bs.len(),
    ensures
        held(bs.update(c, x), start, k) == held(bs, start, k),
    decreases k,
{
    if k > 0 {
        lemma_held_same(bs, start, (k - 1) as nat, c, x);
    }
}

proof fn lemma_held_full(bs: Seq<Seq<Para>>, start: int, k: nat, cap: int)
    requires
        0 <= start,
        start + k <= bs.len(),
        forall|c: int| start <= c < start + k ==> (#[trigger] bs[c]).len() >= cap,
    ensures
        held(bs, start, k) >= k * cap,
    decreases k,
{
    if k > 0 {
        lemma_held_full(bs, start, (k - 1) as nat, cap);
        assert(bs[start + k - 1].len() >= cap);
        assert(k * cap == (k - 1) * cap + cap) by (nonlinear_arith);
    } else {
        assert(k * cap == 0) by (nonlinear_arith)
            requires
                k == 0,
        ;
    }
}

proof fn lemma_held_empty(bs: Seq<Seq<Para>>, start: int, k: nat)
    requires
        0 <= start,
        start + k <= bs.len(),
        forall|c: int| start <= c < start + k ==> (#[trigger] bs[c]).len() == 0,
    ensures
        held(bs, start, k) == 0,
    decreases k,
{
    if k > 0 {
        lemma_held_empty(bs, start, (k - 1) as nat);
    }
}

/// With every load below the starting bound, a scan that finds no core
/// means every scanned core is full.
proof fn lemma_scan_none_full(bs: Seq<Seq<Para>>, start: int, k: nat, cap: int)
    requires
        scan_best(bs, start, k, cap).0 is None,
        forall|c: int| start <= c < start + k ==> load_of(#[trigger] bs[c]) < 4294967295,
    ensures
        forall|c: int| start <= c < start + k ==> (#[trigger] bs[c]).len() >= cap,
    decreases k,
{
    if k > 0 {
        let prev = scan_best(bs, start, (k - 1) as nat, cap);
        let c = start + k - 1;
        lemma_scan_best_props(bs, start, (k - 1) as nat, cap);
        assert(prev.0 is None);
        assert(bs[c].len() >= cap);
        lemma_scan_none_full(bs, start, (k - 1) as nat, cap);
    }
}

proof fn lemma_load_nonneg(b: Seq<Para>)
    ensures
        load_of(b) >= 0,
    decreases b.len(),
{
    if b.len() > 0 {
        lemma_load_nonneg(b.drop_last());
    }
}

/// Placing paras one by one: every open bucket weighs at most the paras
/// placed, each para is either held or dropped, and a para is dropped only
/// when the open buckets already hold `m * cap` paras.
proof fn lemma_place_all_room(b0: Seq<Seq<Para>>, start: int, cap: int, paras: Seq<Para>)
    requires
        0 <= start <= b0.len(),
        forall|c: int| start <= c < b0.len() ==> (#[trigger] b0[c]).len() == 0,
        load_of(paras) < 4294967295,
    ensures
        place_all(b0, start, cap, paras).0.len() == b0.len(),
        forall|c: int|
            start <= c < b0.len() ==> load_of(#[trigger] place_all(b0, start, cap, paras).0[c])
                <= load_of(paras),
        held(place_all(b0, start, cap, paras).0, start, (b0.len() - start) as nat)
            + place_all(b0, start, cap, paras).1.len() == paras.len(),
        place_all(b0, start, cap, paras).1.len() > 0 ==> paras.len() - 1 >= (b0.len() - start)
            * cap,
    decreases paras.len(),
{
    let m = (b0.len() - start) as nat;
    if paras.len() == 0 {
        lemma_held_empty(b0, start, m);
    } else {
        let q = paras.drop_last();
        let p = paras.last();
        assert(paras =~= q.push(p));
        lemma_load_push(q, p);
        lemma_load_nonneg(q);
        lemma_place_all_room(b0, start, cap, q);
        let prev = place_all(b0, start, cap, q);
        match choose_core(prev.0, start, cap) {
            Some(c) => {
                lemma_scan_best_props(prev.0, start, (prev.0.len() - start) as nat, cap);
                lemma_held_update(prev.0, start, m, c, prev.0[c].push(p));
                lemma_load_push(prev.0[c], p);
            },
            None => {
                assert forall|c: int| start <= c < start + m implies load_of(#[trigger] prev.0[c])
                    < 4294967295 by {}
                lemma_scan_none_full(prev.0, start, m, cap);
                lemma_held_full(prev.0, start, m, cap);
            },
        }
    }
}

proof fn lemma_load_prepend(x: Para, s: Seq<Para>)
    ensures
        load_of(seq![x] + s) == x.weight + load_of(s),
    decreases s.len(),
{
    if s.len() == 0 {
        assert(seq![x] + s =~= seq![x]);
        assert(seq![x].drop_last() =~= Seq::<Para>::empty());
        assert(seq![x].last() == x);
        assert(load_of(Seq::<Para>::empty()) == 0);
    } else {
        lemma_load_prepend(x, s.drop_last());
        assert((seq![x] + s).drop_last() =~= seq![x] + s.drop_last());
        assert((seq![x] + s).last() == s.last());
    }
}

proof fn lemma_load_insert(s: Seq<Para>, x: Para)
    ensures
        load_of(insert_by(s, x, para_first())) == load_of(s) + x.weight,
    decreases s.len(),
{
    if s.len() == 0 {
        lemma_load_prepend(x, s);
    } else if (para_first())(x, s[0]) {
        lemma_load_prepend(x, s);
    } else {
        let t = s.drop_first();
        lemma_load_insert(t, x);
        lemma_load_prepend(s[0], insert_by(t, x, para_first()));
        assert(s =~= seq![s[0]] + t);
        lemma_load_prepend(s[0], t);
    }
}

proof fn lemma_load_sort(s: Seq<Para>)
    ensures
        load_of(sort_by(s, para_first())) == load_of(s),
    decreases s.len(),
{
    if s.len() > 0 {
        lemma_load_sort(s.drop_last());
        lemma_load_insert(sort_by(s.drop_last(), para_first()), s.last());
    }
}

proof fn lemma_load_remove(s: Seq<Para>, i: int)
    requires
        0 <= i < s.len(),
    ensures
        load_of(s.remove(i)) == load_of(s) - s[i].weight,
    decreases s.len(),
{
    if i == s.len() - 1 {
        assert(s.remove(i) =~= s.drop_last());
    } else {
        lemma_load_remove(s.drop_last(), i);
        assert(s.remove(i).drop_last() =~= s.drop_last().remove(i));
        assert(s.remove(i).last() == s.last());
    }
}

proof fn lemma_grow_cap_fits(n: int, r: int, cap: int, hard: int)
    requires
        r >= 1,
        n <= r * (if cap > hard { cap } else { hard }),
    ensures
        n <= r * grow_cap(n, r, cap, hard),
    decreases hard - cap,
{
    if n > r * cap && cap < hard {
        lemma_grow_cap_fits(n, r, cap + 1, hard);
    }
}

/// Asset Hub is set aside exactly when it gets a core of its own: the
/// paras left to place are the contenders, over the open cores.
proof fn lemma_split_counts(ids: Seq<u32>, target: u32, cfg: Packing)
    requires
        target > 0,
    ensures
        ah_split(sort_by(weigh(ids, cfg), para_first()), target).0.len() == contenders(ids, target),
        target - ah_split(sort_by(weigh(ids, cfg), para_first()), target).2 == open_cores(ids, target),
{
    broadcast use vstd::seq_lib::group_to_multiset_ensures;

    let w = weigh(ids, cfg);
    let sorted = sort_by(w, para_first());
    lemma_sort_by_multiset(w, para_first());
    lemma_load_sort(w);
    lemma_sort_ids(w);
    assert(ids_of(w) =~= ids);
    let split = ah_split(sorted, target);
    let e = empty_buckets(target as nat);
    // Asset Hub is set aside exactly when it gets a core of its own.
    lemma_find_id_some(sorted, ASSET_HUB_ID);
    if target >= 2 {
        if ids.contains(ASSET_HUB_ID) {
            assert(ids.to_multiset().count(ASSET_HUB_ID) > 0);
            assert(ids_of(sorted).contains(ASSET_HUB_ID));
            let k = choose|k: int| 0 <= k < ids_of(sorted).len() && ids_of(sorted)[k] == ASSET_HUB_ID;
            if find_id(sorted, ASSET_HUB_ID) is None {
                lemma_find_id_none(sorted, ASSET_HUB_ID);
                assert(sorted[k].id == ASSET_HUB_ID);
            }
        } else {
            if find_id(sorted, ASSET_HUB_ID) is Some {
                let i = find_id(sorted, ASSET_HUB_ID)->Some_0;
                assert(ids_of(sorted)[i] == ASSET_HUB_ID);
                assert(ids_of(sorted).contains(ASSET_HUB_ID));
                assert(ids.to_multiset().count(ASSET_HUB_ID) > 0);
            }
        }
    }
    assert(split.0.len() == contenders(ids, target));
    assert(target - split.2 == open_cores(ids, target));
}

/// Law: no para is dropped to on-demand while there is room: when the paras
/// other than a dedicated Asset Hub number at most the cores open to them
/// times the larger of the two caps, every para gets a core. (Loads are
/// compared below 2^32 - 1, so the total weight stays under it.)
pub proof fn law_no_drop_while_room(ids: Seq<u32>, target: u32, cfg: Packing)
    requires
        target > 0,
        load_of(weigh(ids, cfg)) < 4294967295,
        contenders(ids, target) <= open_cores(ids, target) * core_size_bound(cfg),
    ensures
        spec_compute_packing(ids, target, cfg).1.len() == 0,
{
    broadcast use vstd::seq_lib::group_to_multiset_ensures;

    let w = weigh(ids, cfg);
    let sorted = sort_by(w, para_first());
    lemma_sort_by_multiset(w, para_first());
    lemma_load_sort(w);
    let split = ah_split(sorted, target);
    lemma_split_counts(ids, target, cfg);
    lemma_find_id_some(sorted, ASSET_HUB_ID);
    // The paras to place weigh no more than all of them.
    lemma_load_nonneg(sorted);
    if target >= 2 && find_id(sorted, ASSET_HUB_ID) is Some {
        let i = find_id(sorted, ASSET_HUB_ID)->Some_0;
        lemma_load_remove(sorted, i);
    }
    assert(load_of(split.0) < 4294967295);
    // The open buckets start empty.
    assert forall|c: int| split.2 <= c < split.1.len() implies (#[trigger] split.1[c]).len() == 0 by {}
    let open = target - split.2;
    let cap = packing_cap(split.0.len(), open, cfg);
    let c0 = if cfg.max_chains_per_core > 1 { cfg.max_chains_per_core as int } else { 1 };
    assert(open >= 1);
    lemma_grow_cap_fits(split.0.len() as int, open, c0, cfg.hard_max_chains_per_core as int);
    lemma_place_all_room(split.1, split.2, cap, split.0);
    let placed = packing_state(ids, target, cfg);
    lemma_sort_by_multiset(placed.1, u32_less());
}

/// The soft cap per core (at least one).
pub open spec fn soft_cap(cfg: Packing) -> int {
    if cfg.max_chains_per_core > 1 { cfg.max_chains_per_core as int } else { 1 }
}

/// Law: the soft cap holds while it suffices: when the paras other than a
/// dedicated Asset Hub number at most the cores open to them times the soft
/// cap, no core holds more paras than the soft cap.
pub proof fn law_soft_cap_when_room(ids: Seq<u32>, target: u32, cfg: Packing)
    requires
        target > 0,
        contenders(ids, target) <= open_cores(ids, target) * soft_cap(cfg),
    ensures
        forall|i: int|
            0 <= i < spec_compute_packing(ids, target, cfg).0.len() ==> (
            #[trigger] spec_compute_packing(ids, target, cfg).0[i]).assignments.len()
                <= soft_cap(cfg),
{
    let sorted = sort_by(weigh(ids, cfg), para_first());
    let split = ah_split(sorted, target);
    lemma_split_counts(ids, target, cfg);
    let open = target - split.2;
    let r = if open > 1 { open } else { 1 };
    let c0 = soft_cap(cfg);
    assert(open >= 1);
    assert(grow_cap(split.0.len() as int, r, c0, cfg.hard_max_chains_per_core as int) == c0);
    let cap = packing_cap(split.0.len(), open, cfg);
    assert(cap == c0);
    assert forall|c: int| 0 <= c < split.1.len() implies (#[trigger] split.1[c]).len() <= c0 by {}
    lemma_place_all_bound(split.1, split.2, cap, split.0, c0);
    let placed = packing_state(ids, target, cfg);
    lemma_packing_state_len(ids, target, cfg);
    lemma_emit_shape(placed.0, target as nat);
}

proof fn lemma_scan_full_none(bs: Seq<Seq<Para>>, start: int, k: nat, cap: int)
    requires
        forall|c: int| start <= c < start + k ==> (#[trigger] bs[c]).len() >= cap,
    ensures
        scan_best(bs, start, k, cap).0 is None,
    decreases k,
{
    if k > 0 {
        lemma_scan_full_none(bs, start, (k - 1) as nat, cap);
        assert(bs[start + k - 1].len() >= cap);
    }
}

/// Once a para is dropped every later one is: the ids left without a core
/// are those of a suffix of the paras (from index `k` on), and then every
/// open bucket is full.
proof fn lemma_place_all_suffix(b0: Seq<Seq<Para>>, start: int, cap: int, paras: Seq<Para>) -> (k: int)
    requires
        0 <= start <= b0.len(),
        forall|c: int| start <= c < b0.len() ==> (#[trigger] b0[c]).len() == 0,
        load_of(paras) < 4294967295,
    ensures
        0 <= k <= paras.len(),
        place_all(b0, start, cap, paras).1 == ids_of(paras.skip(k)),
        place_all(b0, start, cap, paras).1.len() > 0 ==> forall|c: int|
            start <= c < b0.len() ==> (#[trigger] place_all(b0, start, cap, paras).0[c]).len() >= cap,
    decreases paras.len(),
{
    if paras.len() == 0 {
        assert(ids_of(paras.skip(0)) =~= Seq::<u32>::empty());
        0
    } else {
        let q = paras.drop_last();
        let p = paras.last();
        assert(paras =~= q.push(p));
        lemma_load_push(q, p);
        lemma_load_nonneg(q);
        let kq = lemma_place_all_suffix(b0, start, cap, q);
        lemma_place_all_room(b0, start, cap, q);
        let prev = place_all(b0, start, cap, q);
        let m = (b0.len() - start) as nat;
        match choose_core(prev.0, start, cap) {
            Some(c) => {
                if prev.1.len() > 0 {
                    lemma_scan_full_none(prev.0, start, m, cap);
                }
                assert(ids_of(paras.skip(paras.len() as int)) =~= Seq::<u32>::empty());
                paras.len() as int
            },
            None => {
                assert forall|c: int| start <= c < start + m implies load_of(#[trigger] prev.0[c])
                    < 4294967295 by {}
                lemma_scan_none_full(prev.0, start, m, cap);
                assert(ids_of(paras.skip(kq)) =~= ids_of(q.skip(kq)).push(p.id));
                kq
            },
        }
    }
}

proof fn lemma_remove_sorted(s: Seq<Para>, i: int)
    requires
        paras_sorted(s),
        0 <= i < s.len(),
    ensures
        paras_sorted(s.remove(i)),
{
    let t = s.remove(i);
    assert forall|x: int, y: int| 0 <= x < y < t.len() implies !(para_first())(#[trigger] t[y], #[trigger] t[x]) by {
        let xs = if x < i { x } else { x + 1 };
        let ys = if y < i { y } else { y + 1 };
        assert(t[x] == s[xs]);
        assert(t[y] == s[ys]);
    }
}

proof fn lemma_grow_cap_least(n: int, r: int, cap: int, hard: int, c: int)
    requires
        r >= 1,
        cap <= c,
        n <= r * c,
    ensures
        grow_cap(n, r, cap, hard) <= c,
    decreases hard - cap,
{
    if n > r * cap && cap < hard {
        assert(cap < c) by (nonlinear_arith)
            requires
                n > r * cap,
                n <= r * c,
                r >= 1,
        ;
        lemma_grow_cap_least(n, r, cap + 1, hard, c);
    }
}

/// Law: the per-core cap rises from the soft cap only as far as needed: for
/// any cap `c` at or above the soft cap under which the paras other than a
/// dedicated Asset Hub fit on the cores open to them (`contenders <=
/// open_cores * c`), no core holds more than `c` paras. (For 8 such paras
/// on 2 open cores with soft cap 3, no core holds more than 4.)
pub proof fn law_cap_rises_only_as_needed(ids: Seq<u32>, target: u32, cfg: Packing, c: int)
    requires
        target > 0,
        soft_cap(cfg) <= c,
        contenders(ids, target) <= open_cores(ids, target) * c,
    ensures
        forall|i: int|
            0 <= i < spec_compute_packing(ids, target, cfg).0.len() ==> (
            #[trigger] spec_compute_packing(ids, target, cfg).0[i]).assignments.len() <= c,
{
    let sorted = sort_by(weigh(ids, cfg), para_first());
    let split = ah_split(sorted, target);
    lemma_split_counts(ids, target, cfg);
    let open = target - split.2;
    assert(open >= 1);
    let cap = packing_cap(split.0.len(), open, cfg);
    lemma_grow_cap_least(split.0.len() as int, open, soft_cap(cfg), cfg.hard_max_chains_per_core as int, c);
    assert(cap <= c);
    assert forall|k: int| 0 <= k < split.1.len() implies (#[trigger] split.1[k]).len() <= c by {}
    lemma_place_all_bound(split.1, split.2, cap, split.0, c);
    let placed = packing_state(ids, target, cfg);
    lemma_packing_state_len(ids, target, cfg);
    lemma_emit_shape(placed.0, target as nat);
}

/// Law: paras are dropped to on-demand lowest priority first: when para
/// `a` is dropped, so is every para `b` of the input that ranks below it
/// (lower weight, or the same weight and a higher id), Asset Hub on a core
/// of its own aside. (Loads are compared below 2^32 - 1, so the total
/// weight stays under it.)
pub proof fn law_drops_lowest_priority(ids: Seq<u32>, target: u32, cfg: Packing, a: u32, b: u32)
    requires
        target > 0,
        load_of(weigh(ids, cfg)) < 4294967295,
        spec_compute_packing(ids, target, cfg).1.contains(a),
        ids.contains(b),
        !(target >= 2 && b == ASSET_HUB_ID),
        (para_first())(
            Para { id: a, weight: cfg.spec_weight_for(a) },
            Para { id: b, weight: cfg.spec_weight_for(b) },
        ),
    ensures
        spec_compute_packing(ids, target, cfg).1.contains(b),
{
    broadcast use vstd::seq_lib::group_to_multiset_ensures;

    let w = weigh(ids, cfg);
    let sorted = sort_by(w, para_first());
    lemma_sort_by_multiset(w, para_first());
    lemma_load_sort(w);
    lemma_sort_sorted(w);
    lemma_find_id_some(sorted, ASSET_HUB_ID);
    let split = ah_split(sorted, target);
    let s = split.0;
    let removed = target >= 2 && find_id(sorted, ASSET_HUB_ID) is Some;
    let ir: int = if removed { find_id(sorted, ASSET_HUB_ID)->Some_0 } else { -1 };
    // The paras to place: sorted, of weight below the bound.
    lemma_load_nonneg(sorted);
    if removed {
        lemma_load_remove(sorted, ir);
        lemma_remove_sorted(sorted, ir);
        assert(s == sorted.remove(ir));
    } else {
        assert(s == sorted);
    }
    assert(load_of(s) < 4294967295);
    assert(paras_sorted(s));
    // Each of them carries its configured weight.
    assert forall|x: int| 0 <= x < s.len() implies (#[trigger] s[x]).weight == cfg.spec_weight_for(s[x].id) by {
        let xs = if removed && x >= ir { x + 1 } else { x };
        assert(s[x] == sorted[xs]);
        assert(sorted.contains(sorted[xs]));
        assert(sorted.to_multiset().count(sorted[xs]) > 0);
        assert(w.to_multiset().count(sorted[xs]) > 0);
        assert(w.contains(sorted[xs]));
        let y = choose|y: int| 0 <= y < w.len() && w[y] == sorted[xs];
        assert(w[y] == Para { id: ids[y], weight: cfg.spec_weight_for(ids[y]) });
    }
    // The placement drops a suffix of them.
    assert forall|c: int| split.2 <= c < split.1.len() implies (#[trigger] split.1[c]).len() == 0 by {}
    let cap = packing_cap(s.len(), target - split.2, cfg);
    let k = lemma_place_all_suffix(split.1, split.2, cap, s);
    let placed = packing_state(ids, target, cfg);
    lemma_sort_by_multiset(placed.1, u32_less());
    let dropped = ids_of(s.skip(k));
    assert(placed.1 == dropped);
    // `a` is dropped: it is at some index `ia >= k`.
    let out = spec_compute_packing(ids, target, cfg).1;
    assert(out == sort_by(placed.1, u32_less()));
    assert(out.to_multiset().count(a) > 0);
    assert(placed.1.to_multiset().count(a) > 0);
    assert(dropped.contains(a));
    let da = choose|d: int| 0 <= d < dropped.len() && dropped[d] == a;
    let ia = k + da;
    assert(s[ia].id == a);
    let pa = s[ia];
    // `b` is among the paras to place, at some index `jb`.
    let pb = Para { id: b, weight: cfg.spec_weight_for(b) };
    let yb = choose|y: int| 0 <= y < ids.len() && ids[y] == b;
    assert(w[yb] == pb);
    assert(w.contains(pb));
    assert(w.to_multiset().count(pb) > 0);
    assert(sorted.to_multiset().count(pb) > 0);
    assert(sorted.contains(pb));
    let xb = choose|x: int| 0 <= x < sorted.len() && sorted[x] == pb;
    let jb = if removed && xb > ir { xb - 1 } else { xb };
    if removed {
        assert(sorted[ir].id == ASSET_HUB_ID);
        assert(xb != ir);
    }
    assert(s[jb] == pb);
    // `b` ranks below `a`, so it comes after it, in the dropped suffix.
    if jb < ia {
        assert(!(para_first())(s[ia], s[jb]));
    }
    assert(jb > ia);
    assert(dropped[jb - k] == b);
    assert(placed.1.contains(b));
    assert(placed.1.to_multiset().count(b) > 0);
    assert(out.to_multiset().count(b) > 0);
}

// ---------------------------------------------------------------------------
// The packing does not depend on the order of the input ids
// ---------------------------------------------------------------------------

/// Paras in weight-then-id order (no para goes before an earlier one).
pub open spec fn paras_sorted(s: Seq<Para>) -> bool {
    forall|i: int, j: int| 0 <= i < j < s.len() ==> !(para_first())(#[trigger] s[j], #[trigger] s[i])
}

proof fn lemma_insert_sorted(s: Seq<Para>, x: Para)
    requires
        paras_sorted(s),
    ensures
        paras_sorted(insert_by(s, x, para_first())),
    decreases s.len(),
{
    let r = insert_by(s, x, para_first());
    if s.len() == 0 {
    } else if (para_first())(x, s[0]) {
        assert forall|i: int, j: int| 0 <= i < j < r.len() implies !(para_first())(#[trigger] r[j], #[trigger] r[i]) by {
            if i == 0 {
                assert(r[j] == s[j - 1]);
                if j - 1 > 0 {
                    assert(!(para_first())(s[j - 1], s[0]));
                }
            } else {
                assert(r[i] == s[i - 1]);
                assert(r[j] == s[j - 1]);
            }
        }
    } else {
        let t = s.drop_first();
        assert forall|i: int, j: int| 0 <= i < j < t.len() implies !(para_first())(#[trigger] t[j], #[trigger] t[i]) by {
            assert(t[i] == s[i + 1]);
            assert(t[j] == s[j + 1]);
        }
        lemma_insert_sorted(t, x);
        let it = insert_by(t, x, para_first());
        assert forall|i: int, j: int| 0 <= i < j < r.len() implies !(para_first())(#[trigger] r[j], #[trigger] r[i]) by {
            if i == 0 {
                let y = r[j];
                assert(y == it[j - 1]);
                assert(it.contains(y));
                lemma_insert_by_contains(t, x, para_first(), y);
                if y != x {
                    let k = choose|k: int| 0 <= k < t.len() && t[k] == y;
                    assert(t[k] == s[k + 1]);
                    assert(!(para_first())(s[k + 1], s[0]));
                }
            } else {
                assert(r[i] == it[i - 1]);
                assert(r[j] == it[j - 1]);
            }
        }
    }
}

proof fn lemma_sort_sorted(s: Seq<Para>)
    ensures
        paras_sorted(sort_by(s, para_first())),
    decreases s.len(),
{
    if s.len() > 0 {
        lemma_sort_sorted(s.drop_last());
        lemma_insert_sorted(sort_by(s.drop_last(), para_first()), s.last());
    }
}

/// Two sorted sequences of the same paras are equal.
proof fn lemma_sorted_unique(a: Seq<Para>, b: Seq<Para>)
    requires
        paras_sorted(a),
        paras_sorted(b),
        a.to_multiset() == b.to_multiset(),
    ensures
        a == b,
    decreases a.len(),
{
    broadcast use vstd::seq_lib::group_to_multiset_ensures;
    broadcast use vstd::multiset::group_multiset_axioms;

    vstd::seq_lib::to_multiset_len(a);
    vstd::seq_lib::to_multiset_len(b);
    assert(a.len() == b.len());
    if a.len() > 0 {
        let n = a.len() as int;
        let x = a.last();
        let y = b.last();
        assert(b.contains(y));
        assert(b.to_multiset().count(y) > 0);
        assert(a.contains(y));
        let ka = choose|k: int| 0 <= k < n && a[k] == y;
        if ka < n - 1 {
            assert(!(para_first())(a[n - 1], a[ka]));
        }
        assert(a.contains(x));
        assert(a.to_multiset().count(x) > 0);
        assert(b.contains(x));
        let kb = choose|k: int| 0 <= k < n && b[k] == x;
        if kb < n - 1 {
            assert(!(para_first())(b[n - 1], b[kb]));
        }
        assert(x == y);
        let da = a.drop_last();
        let db = b.drop_last();
        assert(a =~= da.push(x));
        assert(b =~= db.push(x));
        vstd::seq_lib::to_multiset_build(da, x);
        vstd::seq_lib::to_multiset_build(db, x);
        assert(a.to_multiset() == da.to_multiset().insert(x));
        assert(b.to_multiset() == db.to_multiset().insert(x));
        assert(da.to_multiset() =~= db.to_multiset()) by {
            assert forall|v: Para| da.to_multiset().count(v) == db.to_multiset().count(v) by {
                assert(da.to_multiset().insert(x).count(v) == db.to_multiset().insert(x).count(v));
                assert(a.to_multiset().count(v) == b.to_multiset().count(v));
            }
        }
        assert forall|i: int, j: int| 0 <= i < j < da.len() implies !(para_first())(#[trigger] da[j], #[trigger] da[i]) by {
            assert(da[i] == a[i] && da[j] == a[j]);
        }
        assert forall|i: int, j: int| 0 <= i < j < db.len() implies !(para_first())(#[trigger] db[j], #[trigger] db[i]) by {
            assert(db[i] == b[i] && db[j] == b[j]);
        }
        lemma_sorted_unique(da, db);
    } else {
        assert(a =~= b);
    }
}

/// How often a para occurs among the weighed ids.
proof fn lemma_weigh_count(s: Seq<u32>, cfg: Packing, p: Para)
    ensures
        weigh(s, cfg).to_multiset().count(p) == if p.weight == cfg.spec_weight_for(p.id) {
            s.to_multiset().count(p.id)
        } else {
            0
        },
    decreases s.len(),
{
    broadcast use vstd::seq_lib::group_to_multiset_ensures;
    broadcast use vstd::multiset::group_multiset_axioms;

    if s.len() == 0 {
        assert(weigh(s, cfg) =~= Seq::<Para>::empty());
    } else {
        let d = s.drop_last();
        lemma_weigh_count(d, cfg, p);
        let last = Para { id: s.last(), weight: cfg.spec_weight_for(s.last()) };
        assert(weigh(s, cfg) =~= weigh(d, cfg).push(last));
        assert(s =~= d.push(s.last()));
    }
}

/// Law: the packing does not depend on the order of the input ids: on at
/// least one core, any reordering of the same ids gives the same cores
/// (index, paras in order, parts) and the same dropped list.
pub proof fn law_packing_ignores_order(ids: Seq<u32>, q: Seq<u32>, target: u32, cfg: Packing)
    requires
        target >= 1,
        q.to_multiset() == ids.to_multiset(),
    ensures
        spec_compute_packing(q, target, cfg) == spec_compute_packing(ids, target, cfg),
{
    let wq = weigh(q, cfg);
    let wi = weigh(ids, cfg);
    assert(wq.to_multiset() =~= wi.to_multiset()) by {
        assert forall|p: Para| wq.to_multiset().count(p) == wi.to_multiset().count(p) by {
            lemma_weigh_count(q, cfg, p);
            lemma_weigh_count(ids, cfg, p);
        }
    }
    lemma_sort_by_multiset(wq, para_first());
    lemma_sort_by_multiset(wi, para_first());
    lemma_sort_sorted(wq);
    lemma_sort_sorted(wi);
    lemma_sorted_unique(sort_by(wq, para_first()), sort_by(wi, para_first()));
}

} // verus!
