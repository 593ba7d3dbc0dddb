//! Reading the live relay / Asset Hub state out of decoded chain values:
//! finality lag, era progress, core count, minimum set size, backing
//! groups, and the active paras with their current core packing (from the
//! claim queue).

use vstd::prelude::*;
use vstd::string::StringExecFns;

use crate::model::{
    packings_view, AssetHubState, Assignment, CorePacking, CorePackingView, EraProgress, ParaInfo,
    RelayState, StateSnapshot, ValidatorGroups,
};
use crate::packing::{even_split, even_split_spec};
use crate::sorting::{insert_by, lemma_insert_by_at, sort_by, sort_u32, u32_less};
use crate::text::{decimal, push_decimal};
use crate::value::{
    as_seq, children, field, flat_u32, seq_len, spec_field, spec_flat_u32, spec_variant_name,
    variant_name, DynValue,
};

verus! {

/// Blocks per session (1h at 6s).
pub const EPOCH_BLOCKS: u64 = 600;

/// Sessions per era.
pub const SESSIONS_PER_ERA: u64 = 6;

/// Blocks per era (6h).
pub const ERA_BLOCKS: u64 = 3600;

/// Minimum validator-set size in force when the parameters map holds none.
pub const DEFAULT_MIN_SET_SIZE: u32 = 100;

/// Most parameter entries scanned for the minimum set size.
pub const MAX_PARAMETER_SCAN: usize = 512;

/// Pallet names under which Asset Hub may expose its staking pallet, in the
/// order they are tried.
pub fn staking_pallet_candidates() -> (r: Vec<&'static str>)
    ensures
        r@.len() == 3,
        r@[0]@ == "Staking"@,
        r@[1]@ == "StakingAsync"@,
        r@[2]@ == "StakingAhClient"@,
{
    let mut v: Vec<&'static str> = Vec::new();
    v.push("Staking");
    v.push("StakingAsync");
    v.push("StakingAhClient");
    v
}

/// (best block, finality lag): the best block is the freshly read head (or
/// the tick's block when the head is unavailable), never below finalized.
pub fn best_and_lag(head: Option<u64>, relay_best: u64, finalized: u64) -> (r: (u64, u64))
    ensures
        r.0 == if (match head {
            Some(h) => h,
            None => relay_best,
        }) >= finalized {
            match head {
                Some(h) => h,
                None => relay_best,
            }
        } else {
            finalized
        },
        r.1 == r.0 - finalized,
{
    let b = match head {
        Some(h) => h,
        None => relay_best,
    };
    let best = if b >= finalized {
        b
    } else {
        finalized
    };
    (best, best - finalized)
}

/// The absolute era of a session index.
pub open spec fn spec_era_of(session_index: u32) -> u32 {
    (session_index as int / 6) as u32
}

/// The absolute era index of a session.
pub fn era_of_session(session_index: u32) -> (r: u32)
    ensures
        r == spec_era_of(session_index),
{
    ((session_index as u64) / SESSIONS_PER_ERA) as u32
}

/// Blocks of the current era behind `best`: whole sessions plus the blocks
/// into the current session (none when its start is unknown or ahead).
pub open spec fn spec_blocks_into_era(session_index: u32, session_start: Option<u64>, best: u64) -> int {
    (session_index % 6) * 600 + match session_start {
        Some(start) => if best >= start {
            best - start
        } else {
            0
        },
        None => 0,
    }
}

/// What the era progress states for a session, its start and the best block.
pub open spec fn era_progress_ok(p: EraProgress, session_index: u32, session_start: Option<u64>, best: u64) -> bool {
    &&& p.current_era == spec_era_of(session_index)
    &&& p.session_in_era == session_index % 6
    &&& p.blocks_into_era == spec_blocks_into_era(session_index, session_start, best)
    &&& p.era_length_blocks == 3600
    &&& p.next_era_in_secs == (if p.blocks_into_era <= 3600 {
        3600 - p.blocks_into_era
    } else {
        0
    }) * 6
}

/// Era progress at best block `best`, given the current session's start
/// block when known.
pub fn era_progress(session_index: u32, session_start: Option<u64>, best: u64) -> (r: EraProgress)
    requires
        spec_blocks_into_era(session_index, session_start, best) <= u64::MAX,
    ensures
        era_progress_ok(r, session_index, session_start, best),
{
    let session_in_era = ((session_index as u64) % SESSIONS_PER_ERA) as u32;
    let current_era = era_of_session(session_index);
    let into_session: u64 = match session_start {
        Some(start) => if best >= start {
            best - start
        } else {
            0
        },
        None => 0,
    };
    let blocks_into_era = (session_in_era as u64) * EPOCH_BLOCKS + into_session;
    let remaining = ERA_BLOCKS.saturating_sub(blocks_into_era);
    EraProgress {
        current_era,
        session_in_era,
        blocks_into_era,
        era_length_blocks: ERA_BLOCKS,
        next_era_in_secs: remaining * 6,
    }
}

/// `schedulerParams.numCores` of the active configuration (snake or camel
/// case field names).
pub open spec fn spec_num_cores(cfg: DynValue) -> Option<u32> {
    let sched = match spec_field(cfg, "scheduler_params"@) {
        Some(s) => Some(s),
        None => spec_field(cfg, "schedulerParams"@),
    };
    match sched {
        Some(s) => {
            let num = match spec_field(s, "num_cores"@) {
                Some(n) => Some(n),
                None => spec_field(s, "numCores"@),
            };
            match num {
                Some(n) => spec_flat_u32(n),
                None => None,
            }
        },
        None => None,
    }
}

/// Core count from the active configuration value.
pub fn num_cores_from(cfg: &DynValue) -> (r: Option<u32>)
    ensures
        r == spec_num_cores(*cfg),
{
    let sched = match field(cfg, "scheduler_params") {
        Some(s) => Some(s),
        None => field(cfg, "schedulerParams"),
    };
    match sched {
        Some(s) => {
            let num = match field(s, "num_cores") {
                Some(n) => Some(n),
                None => field(s, "numCores"),
            };
            match num {
                Some(n) => flat_u32(n),
                None => None,
            }
        },
        None => None,
    }
}

/// The last child (from the end) that reads as a `u32`.
pub open spec fn last_u32_of(s: Seq<DynValue>) -> Option<u32>
    decreases s.len(),
{
    if s.len() == 0 {
        None
    } else {
        match spec_flat_u32(s.last()) {
            Some(n) => Some(n),
            None => last_u32_of(s.drop_last()),
        }
    }
}

/// Depth-first search for a `MinimumValidatorSetSize` variant; its integer
/// payload is the last field that reads as a `u32`.
pub open spec fn spec_find_min_set_size(v: DynValue) -> Option<u32>
    decreases v, 1nat, 0nat,
{
    let here = if spec_variant_name(v) == Some("MinimumValidatorSetSize"@) {
        last_u32_of(children(v))
    } else {
        None
    };
    match here {
        Some(n) => Some(n),
        None => find_in_children(v, children_len(v)),
    }
}

/// Number of children of `v`.
pub open spec fn children_len(v: DynValue) -> nat {
    match v {
        DynValue::Named(f) => f@.len(),
        DynValue::Unnamed(x) => x@.len(),
        DynValue::NamedVariant(_, f) => f@.len(),
        DynValue::UnnamedVariant(_, x) => x@.len(),
        _ => 0,
    }
}

/// The i-th child of `v`.
pub open spec fn child_at(v: DynValue, i: int) -> DynValue {
    match v {
        DynValue::Named(f) => f@[i].1,
        DynValue::Unnamed(x) => x@[i],
        DynValue::NamedVariant(_, f) => f@[i].1,
        DynValue::UnnamedVariant(_, x) => x@[i],
        _ => DynValue::Other,
    }
}

/// The search over the first `k` children of `v`, in order.
pub open spec fn find_in_children(v: DynValue, k: nat) -> Option<u32>
    decreases v, 0nat, k,
{
    if k == 0 || k > children_len(v) {
        None
    } else {
        match find_in_children(v, (k - 1) as nat) {
            Some(n) => Some(n),
            None => {
                proof {
                    lemma_child_decreases(v, k - 1);
                }
                spec_find_min_set_size(child_at(v, k - 1))
            },
        }
    }
}

pub proof fn lemma_child_decreases(v: DynValue, i: int)
    requires
        0 <= i < children_len(v),
    ensures
        decreases_to!(v => child_at(v, i)),
{
    match v {
        DynValue::Named(f) => {
            assert(decreases_to!(f => f@));
            assert(decreases_to!(f@ => f@[i]));
        },
        DynValue::Unnamed(x) => {
            assert(decreases_to!(x => x@));
            assert(decreases_to!(x@ => x@[i]));
        },
        DynValue::NamedVariant(_, f) => {
            assert(decreases_to!(f => f@));
            assert(decreases_to!(f@ => f@[i]));
        },
        DynValue::UnnamedVariant(_, x) => {
            assert(decreases_to!(x => x@));
            assert(decreases_to!(x@ => x@[i]));
        },
        _ => {},
    }
}

/// `children` and `child_at` agree.
pub proof fn lemma_children_at(v: DynValue)
    ensures
        children(v).len() == children_len(v),
        forall|i: int| 0 <= i < children_len(v) ==> children(v)[i] == child_at(v, i),
{
}

/// The integer payload of the last child that reads as a `u32`.
fn last_u32(kids: &Vec<&DynValue>) -> (r: Option<u32>)
    ensures
        r == last_u32_of(kids@.map_values(|x: &DynValue| *x)),
{
    let ghost s = kids@.map_values(|x: &DynValue| *x);
    let mut i = kids.len();
    assert(s.take(i as int) =~= s);
    while i > 0
        invariant
            i <= kids@.len(),
            s == kids@.map_values(|x: &DynValue| *x),
            last_u32_of(s) == last_u32_of(s.take(i as int)),
        decreases i,
    {
        assert(s.take(i as int).drop_last() =~= s.take(i - 1));
        assert(s.take(i as int).last() == *kids@[i - 1]);
        match flat_u32(kids[i - 1]) {
            Some(n) => {
                return Some(n);
            },
            None => {},
        }
        i = i - 1;
    }
    None
}

/// Searches a decoded value for the `MinimumValidatorSetSize` variant and
/// returns its integer payload.
pub fn find_min_set_size(v: &DynValue) -> (r: Option<u32>)
    ensures
        r == spec_find_min_set_size(*v),
    decreases v,
{
    let kids = as_seq(v);
    proof {
        lemma_children_at(*v);
        assert(kids@.map_values(|x: &DynValue| *x) =~= children(*v));
    }
    let here = match variant_name(v) {
        Some(name) => if crate::value::str_eq(name, "MinimumValidatorSetSize") {
            last_u32(&kids)
        } else {
            None
        },
        None => None,
    };
    assert(spec_find_min_set_size(*v) == match (if spec_variant_name(*v) == Some("MinimumValidatorSetSize"@) {
        last_u32_of(children(*v))
    } else {
        None
    }) {
        Some(n) => Some(n),
        None => find_in_children(*v, children_len(*v)),
    });
    if here.is_some() {
        return here;
    }
    let n = kids.len();
    for i in 0..n
        invariant
            n == kids@.len(),
            n == children_len(*v),
            forall|k: int| 0 <= k < n ==> *kids@[k] == child_at(*v, k),
            find_in_children(*v, i as nat) is None,
            spec_find_min_set_size(*v) == find_in_children(*v, n as nat),
    {
        proof {
            lemma_child_decreases(*v, i as int);
        }
        let found = find_min_set_size(kids[i]);
        if found.is_some() {
            proof {
                lemma_find_children_hit(*v, i as nat, n as nat);
            }
            return found;
        }
    }
    None
}

proof fn lemma_find_children_hit(v: DynValue, i: nat, k: nat)
    requires
        i < k <= children_len(v),
        find_in_children(v, i) is None,
        spec_find_min_set_size(child_at(v, i as int)) is Some,
    ensures
        find_in_children(v, k) == spec_find_min_set_size(child_at(v, i as int)),
    decreases k,
{
    if k > i + 1 {
        lemma_find_children_hit(v, i, (k - 1) as nat);
    }
}

/// The minimum validator-set size from the entries of the parameters map,
/// in iteration order (`None` for an entry that could not be read): the
/// first of the first 512 entries that carries it, else the default.
pub open spec fn spec_min_set_size(entries: Seq<Option<DynValue>>, k: nat) -> u32
    decreases k,
{
    if k == 0 {
        DEFAULT_MIN_SET_SIZE
    } else {
        let prev = spec_min_set_size(entries, (k - 1) as nat);
        if first_hit(entries, (k - 1) as nat) {
            prev
        } else {
            match entries[k - 1] {
                Some(v) => match spec_find_min_set_size(v) {
                    Some(n) => n,
                    None => prev,
                },
                None => prev,
            }
        }
    }
}

/// Whether one of the first `k` entries carries the parameter.
pub open spec fn first_hit(entries: Seq<Option<DynValue>>, k: nat) -> bool
    decreases k,
{
    if k == 0 {
        false
    } else {
        first_hit(entries, (k - 1) as nat) || match entries[k - 1] {
            Some(v) => spec_find_min_set_size(v) is Some,
            None => false,
        }
    }
}

/// The minimum validator-set size read from the parameters map entries.
pub fn min_set_size_from(entries: &Vec<Option<DynValue>>) -> (r: u32)
    ensures
        r == spec_min_set_size(
            entries@,
            if entries@.len() < 512 {
                entries@.len()
            } else {
                512
            },
        ),
{
    let n = if entries.len() < MAX_PARAMETER_SCAN {
        entries.len()
    } else {
        MAX_PARAMETER_SCAN
    };
    for i in 0..n
        invariant
            n <= entries@.len(),
            n == if entries@.len() < 512 {
                entries@.len()
            } else {
                512
            },
            !first_hit(entries@, i as nat),
            spec_min_set_size(entries@, i as nat) == DEFAULT_MIN_SET_SIZE,
    {
        match &entries[i] {
            Some(v) => {
                match find_min_set_size(v) {
                    Some(found) => {
                        proof {
                            lemma_min_set_size_hit(entries@, i as nat, n as nat);
                        }
                        return found;
                    },
                    None => {},
                }
            },
            None => {},
        }
    }
    DEFAULT_MIN_SET_SIZE
}

proof fn lemma_min_set_size_hit(entries: Seq<Option<DynValue>>, i: nat, n: nat)
    requires
        i < n <= entries.len(),
        !first_hit(entries, i),
        spec_min_set_size(entries, i) == DEFAULT_MIN_SET_SIZE,
        entries[i as int] is Some,
        spec_find_min_set_size(entries[i as int]->Some_0) is Some,
    ensures
        spec_min_set_size(entries, n) == spec_find_min_set_size(entries[i as int]->Some_0)->Some_0,
        first_hit(entries, n),
    decreases n - i,
{
    if n > i + 1 {
        lemma_min_set_size_hit(entries, i, (n - 1) as nat);
    }
}

/// The staking-client mode: the variant name, or "unknown".
pub open spec fn spec_ah_client_mode(v: Option<DynValue>) -> Seq<char> {
    match v {
        Some(x) => match spec_variant_name(x) {
            Some(n) => n,
            None => "unknown"@,
        },
        None => "unknown"@,
    }
}

/// The staking-client mode from its storage value.
pub fn ah_client_mode_from(v: Option<&DynValue>) -> (r: String)
    ensures
        r@ == spec_ah_client_mode(
            match v {
                Some(x) => Some(*x),
                None => None,
            },
        ),
{
    let mut out = String::new();
    match v {
        Some(x) => match variant_name(x) {
            Some(n) => {
                out.append(n);
            },
            None => {
                out.append("unknown");
            },
        },
        None => {
            out.append("unknown");
        },
    }
    out
}

/// Number of entries of a sequence value (the active set), 0 when absent.
pub fn validators_from(v: Option<&DynValue>) -> (r: u32)
    ensures
        r == match v {
            Some(x) => children(*x).len() as u32,
            None => 0,
        },
{
    match v {
        Some(x) => seq_len(x) as u32,
        None => 0,
    }
}

/// What the backing groups state of the validator-groups value: one size
/// per group, each its member count.
pub open spec fn groups_ok(g: ValidatorGroups, v: Option<DynValue>) -> bool {
    match v {
        Some(x) => {
            &&& g.sizes@.len() == children(x).len()
            &&& forall|i: int|
                0 <= i < g.sizes@.len() ==> g.sizes@[i] == children(children(x)[i]).len() as u32
            &&& g.count == children(x).len() as u32
        },
        None => g.count == 0 && g.sizes@.len() == 0,
    }
}

/// Backing-group sizes from the validator-groups value.
pub fn validator_groups_from(v: Option<&DynValue>) -> (r: ValidatorGroups)
    ensures
        groups_ok(
            r,
            match v {
                Some(x) => Some(*x),
                None => None,
            },
        ),
{
    match v {
        Some(x) => {
            let groups = as_seq(x);
            let mut sizes: Vec<u32> = Vec::new();
            let n = groups.len();
            for i in 0..n
                invariant
                    n == groups@.len(),
                    n == children(*x).len(),
                    forall|k: int| 0 <= k < n ==> *groups@[k] == children(*x)[k],
                    sizes@.len() == i,
                    forall|k: int| 0 <= k < i ==> sizes@[k] == children(children(*x)[k]).len() as u32,
            {
                sizes.push(seq_len(groups[i]) as u32);
            }
            ValidatorGroups { count: sizes.len() as u32, sizes }
        },
        None => ValidatorGroups { count: 0, sizes: Vec::new() },
    }
}

/// The first candidate value that reads as a `u32`, else 0.
pub open spec fn spec_first_u32(c: Seq<Option<DynValue>>) -> u32
    decreases c.len(),
{
    if c.len() == 0 {
        0
    } else {
        match c[0] {
            Some(v) => match spec_flat_u32(v) {
                Some(n) => n,
                None => spec_first_u32(c.drop_first()),
            },
            None => spec_first_u32(c.drop_first()),
        }
    }
}

/// Asset Hub's validator count from the per-candidate-pallet values.
pub fn ah_validator_count_from(candidates: &Vec<Option<DynValue>>) -> (r: u32)
    ensures
        r == spec_first_u32(candidates@),
{
    let n = candidates.len();
    let mut i: usize = 0;
    assert(candidates@.skip(0) =~= candidates@);
    while i < n
        invariant
            n == candidates@.len(),
            i <= n,
            spec_first_u32(candidates@) == spec_first_u32(candidates@.skip(i as int)),
        decreases n - i,
    {
        assert(candidates@.skip(i as int)[0] == candidates@[i as int]);
        assert(candidates@.skip(i as int).drop_first() =~= candidates@.skip(i + 1));
        match &candidates[i] {
            Some(v) => match flat_u32(v) {
                Some(c) => {
                    return c;
                },
                None => {},
            },
            None => {},
        }
        i = i + 1;
    }
    0
}

/// Display name of a para.
pub open spec fn spec_para_name(id: u32) -> Seq<char> {
    if id == 1000 {
        "Asset Hub"@
    } else if id == 1001 {
        "Collectives"@
    } else if id == 1002 {
        "Bridge Hub"@
    } else if id == 1004 {
        "People"@
    } else if id == 1005 {
        "Coretime"@
    } else {
        "Para "@ + decimal(id as nat)
    }
}

/// Display name of a para.
pub fn para_name(id: u32) -> (r: String)
    ensures
        r@ == spec_para_name(id),
{
    let mut s = String::new();
    if id == 1000 {
        s.append("Asset Hub");
    } else if id == 1001 {
        s.append("Collectives");
    } else if id == 1002 {
        s.append("Bridge Hub");
    } else if id == 1004 {
        s.append("People");
    } else if id == 1005 {
        s.append("Coretime");
    } else {
        s.append("Para ");
        push_decimal(&mut s, id as u128);
    }
    s
}

// ---------------------------------------------------------------------------
// Claim queue: active paras and the current packing
// ---------------------------------------------------------------------------

/// The values behind a list of references.
pub open spec fn deref_all(v: Seq<&DynValue>) -> Seq<DynValue> {
    v.map_values(|x: &DynValue| *x)
}

/// Whether every value looks like a `(core index, paras)` pair.
pub open spec fn looks_like_entries(es: Seq<DynValue>) -> bool {
    es.len() > 0 && forall|i: int|
        0 <= i < es.len() ==> children(#[trigger] es[i]).len() == 2 && spec_flat_u32(
            children(es[i])[0],
        ) is Some
}

/// Peels single-element wrapper layers (at most `fuel` of them) until the
/// values look like `(core, paras)` pairs.
pub open spec fn peel(es: Seq<DynValue>, fuel: nat) -> Seq<DynValue>
    decreases fuel,
{
    if fuel == 0 || looks_like_entries(es) {
        es
    } else if es.len() == 1 {
        peel(children(es[0]), (fuel - 1) as nat)
    } else {
        es
    }
}

/// The claim-queue entries: the answer's children, peeled at most 3 times.
pub open spec fn claim_entries(cq: DynValue) -> Seq<DynValue> {
    peel(children(cq), 3)
}

/// The values that read as `u32`, in order.
pub open spec fn ids_in(xs: Seq<DynValue>) -> Seq<u32>
    decreases xs.len(),
{
    if xs.len() == 0 {
        Seq::empty()
    } else {
        let p = ids_in(xs.drop_last());
        match spec_flat_u32(xs.last()) {
            Some(id) => p.push(id),
            None => p,
        }
    }
}

/// A `(core, para ids)` entry, if the value has at least two fields and the
/// first reads as a core index.
pub open spec fn entry_of(e: DynValue) -> Option<(u32, Seq<u32>)> {
    let parts = children(e);
    if parts.len() < 2 {
        None
    } else {
        match spec_flat_u32(parts[0]) {
            Some(c) => Some((c, ids_in(children(parts[1])))),
            None => None,
        }
    }
}

/// The readable entries, in order.
pub open spec fn core_entries(es: Seq<DynValue>) -> Seq<(u32, Seq<u32>)>
    decreases es.len(),
{
    if es.len() == 0 {
        Seq::empty()
    } else {
        let p = core_entries(es.drop_last());
        match entry_of(es.last()) {
            Some(x) => p.push(x),
            None => p,
        }
    }
}

/// Lower core index first (stable).
pub open spec fn core_key_less() -> spec_fn((u32, Seq<u32>), (u32, Seq<u32>)) -> bool {
    |a: (u32, Seq<u32>), b: (u32, Seq<u32>)| a.0 < b.0
}

/// The claim-queue entries sorted by core index.
pub open spec fn sorted_entries(cq: DynValue) -> Seq<(u32, Seq<u32>)> {
    sort_by(core_entries(claim_entries(cq)), core_key_less())
}

/// Distinct values in first-occurrence order.
pub open spec fn dedup(s: Seq<u32>) -> Seq<u32>
    decreases s.len(),
{
    if s.len() == 0 {
        Seq::empty()
    } else {
        let p = dedup(s.drop_last());
        if p.contains(s.last()) {
            p
        } else {
            p.push(s.last())
        }
    }
}

/// All para ids of the entries, in order.
pub open spec fn all_ids(es: Seq<(u32, Seq<u32>)>) -> Seq<u32>
    decreases es.len(),
{
    if es.len() == 0 {
        Seq::empty()
    } else {
        all_ids(es.drop_last()) + es.last().1
    }
}

/// Number of entries listing `id`.
pub open spec fn core_count(es: Seq<(u32, Seq<u32>)>, id: u32) -> nat
    decreases es.len(),
{
    if es.len() == 0 {
        0
    } else {
        core_count(es.drop_last(), id) + if es.last().1.contains(id) {
            1nat
        } else {
            0nat
        }
    }
}

/// The active para ids, ascending and distinct.
pub open spec fn active_ids(es: Seq<(u32, Seq<u32>)>) -> Seq<u32> {
    sort_by(dedup(all_ids(es)), u32_less())
}

/// The current packing record of one entry: its distinct paras, split evenly.
pub open spec fn current_core(c: u32, ids: Seq<u32>) -> CorePackingView {
    let d = dedup(ids);
    CorePackingView {
        core: c,
        assignments: Seq::new(
            d.len(),
            |i: int| Assignment { para_id: d[i], parts: even_split_spec(d.len())[i] },
        ),
    }
}

/// The current packing: one record per entry with at least one para.
pub open spec fn current_packing(es: Seq<(u32, Seq<u32>)>) -> Seq<CorePackingView>
    decreases es.len(),
{
    if es.len() == 0 {
        Seq::empty()
    } else {
        let p = current_packing(es.drop_last());
        if es.last().1.len() == 0 {
            p
        } else {
            p.push(current_core(es.last().0, es.last().1))
        }
    }
}

/// The view of the exec entries.
pub open spec fn entries_view(v: Seq<(u32, Vec<u32>)>) -> Seq<(u32, Seq<u32>)> {
    v.map_values(|e: (u32, Vec<u32>)| (e.0, e.1@))
}

fn looks_like(entries: &Vec<&DynValue>) -> (r: bool)
    ensures
        r == looks_like_entries(deref_all(entries@)),
{
    let ghost es = deref_all(entries@);
    let n = entries.len();
    if n == 0 {
        return false;
    }
    for i in 0..n
        invariant
            n == entries@.len(),
            es == deref_all(entries@),
            forall|k: int|
                0 <= k < i ==> children(#[trigger] es[k]).len() == 2 && spec_flat_u32(
                    children(es[k])[0],
                ) is Some,
    {
        assert(es[i as int] == *entries@[i as int]);
        let parts = as_seq(entries[i]);
        if parts.len() != 2 {
            return false;
        }
        if flat_u32(parts[0]).is_none() {
            return false;
        }
    }
    true
}

fn ids_from(xs: &Vec<&DynValue>) -> (r: Vec<u32>)
    ensures
        r@ == ids_in(deref_all(xs@)),
{
    let mut out: Vec<u32> = Vec::new();
    let n = xs.len();
    for i in 0..n
        invariant
            n == xs@.len(),
            out@ == ids_in(deref_all(xs@).take(i as int)),
    {
        assert(deref_all(xs@).take(i + 1).drop_last() =~= deref_all(xs@).take(i as int));
        assert(deref_all(xs@).take(i + 1).last() == *xs@[i as int]);
        match flat_u32(xs[i]) {
            Some(id) => out.push(id),
            None => {},
        }
    }
    assert(deref_all(xs@).take(n as int) =~= deref_all(xs@));
    out
}

fn entry_from(e: &DynValue) -> (r: Option<(u32, Vec<u32>)>)
    ensures
        match r {
            Some(x) => entry_of(*e) == Some((x.0, x.1@)),
            None => entry_of(*e) is None,
        },
{
    let parts = as_seq(e);
    if parts.len() < 2 {
        return None;
    }
    match flat_u32(parts[0]) {
        Some(c) => {
            let kids = as_seq(parts[1]);
            assert(deref_all(kids@) =~= children(*parts@[1]));
            let ids = ids_from(&kids);
            Some((c, ids))
        },
        None => None,
    }
}

fn contains_u32(v: &Vec<u32>, x: u32) -> (r: bool)
    ensures
        r == v@.contains(x),
{
    let n = v.len();
    for i in 0..n
        invariant
            n == v@.len(),
            forall|k: int| 0 <= k < i ==> v@[k] != x,
    {
        if v[i] == x {
            assert(v@[i as int] == x);
            return true;
        }
    }
    false
}

/// Distinct values in first-occurrence order.
pub fn dedup_u32(v: &Vec<u32>) -> (r: Vec<u32>)
    ensures
        r@ == dedup(v@),
{
    let mut out: Vec<u32> = Vec::new();
    let n = v.len();
    for i in 0..n
        invariant
            n == v@.len(),
            out@ == dedup(v@.take(i as int)),
    {
        assert(v@.take(i + 1).drop_last() =~= v@.take(i as int));
        assert(v@.take(i + 1).last() == v@[i as int]);
        if !contains_u32(&out, v[i]) {
            out.push(v[i]);
        }
    }
    assert(v@.take(n as int) =~= v@);
    out
}

proof fn lemma_dedup_len(s: Seq<u32>)
    ensures
        dedup(s).len() <= s.len(),
        dedup(s).len() == 0 <==> s.len() == 0,
    decreases s.len(),
{
    if s.len() > 0 {
        lemma_dedup_len(s.drop_last());
    }
}

/// No core of the claim-queue answer lists more than `u32::MAX` paras.
pub open spec fn claim_queue_fits(cq: DynValue) -> bool {
    forall|i: int|
        0 <= i < core_entries(claim_entries(cq)).len() ==> (#[trigger] core_entries(
            claim_entries(cq),
        )[i]).1.len() <= u32::MAX
}

/// The active paras of a claim-queue answer: distinct ids ascending, each
/// with its name, the number of cores it appears on, and whether it is a
/// system para.
pub open spec fn paras_ok(ps: Seq<ParaInfo>, cq: DynValue) -> bool {
    &&& ps.len() == active_ids(sorted_entries(cq)).len()
    &&& forall|i: int|
        0 <= i < ps.len() ==> {
            let id = active_ids(sorted_entries(cq))[i];
            &&& (#[trigger] ps[i]).id == id
            &&& ps[i].name@ == spec_para_name(id)
            &&& ps[i].cores == core_count(sorted_entries(cq), id) as u32
            &&& ps[i].is_system == (id < 2000)
        }
}

/// Active paras (ascending, with the number of cores each appears on) and
/// the current on-chain packing (each core's distinct paras split evenly),
/// read from the claim-queue answer.
pub fn claim_queue_from(cq: &DynValue) -> (r: (Vec<ParaInfo>, Vec<CorePacking>))
    requires
        claim_queue_fits(*cq),
    ensures
        paras_ok(r.0@, *cq),
        packings_view(r.1@) == current_packing(sorted_entries(*cq)),
{
    // Peel wrapper layers until the children look like (core, paras) pairs.
    let mut entries = as_seq(cq);
    assert(deref_all(entries@) =~= children(*cq));
    let mut fuel: u32 = 3;
    let mut done = false;
    while fuel > 0 && !done
        invariant
            claim_entries(*cq) == if done {
                deref_all(entries@)
            } else {
                peel(deref_all(entries@), fuel as nat)
            },
        decreases fuel as int + if done {
            0int
        } else {
            1int
        },
    {
        if looks_like(&entries) {
            done = true;
        } else if entries.len() == 1 {
            let inner = as_seq(entries[0]);
            assert(deref_all(inner@) =~= children(deref_all(entries@)[0]));
            entries = inner;
            fuel = fuel - 1;
        } else {
            done = true;
        }
    }
    let ghost es = deref_all(entries@);
    assert(es == claim_entries(*cq));

    // Readable (core, paras) entries, kept sorted by core index.
    let mut sorted: Vec<(u32, Vec<u32>)> = Vec::new();
    let n = entries.len();
    for i in 0..n
        invariant
            n == entries@.len(),
            es == deref_all(entries@),
            entries_view(sorted@) == sort_by(core_entries(es.take(i as int)), core_key_less()),
    {
        assert(es.take(i + 1).drop_last() =~= es.take(i as int));
        assert(es.take(i + 1).last() == *entries@[i as int]);
        match entry_from(entries[i]) {
            Some(x) => {
                let c = x.0;
                let mut j: usize = 0;
                while j < sorted.len() && !(c < sorted[j].0)
                    invariant
                        j <= sorted@.len(),
                        forall|k: int|
                            0 <= k < j ==> !(core_key_less())(
                                (c, x.1@),
                                #[trigger] entries_view(sorted@)[k],
                            ),
                    decreases sorted@.len() - j,
                {
                    j = j + 1;
                }
                proof {
                    lemma_insert_by_at(entries_view(sorted@), (c, x.1@), core_key_less(), j as int);
                    let ce = core_entries(es.take(i as int));
                    assert(ce.push((c, x.1@)).drop_last() =~= ce);
                }
                let ghost before = sorted@;
                sorted.insert(j, x);
                assert(entries_view(sorted@) =~= entries_view(before).insert(j as int, (c, x.1@)));
            },
            None => {},
        }
    }
    assert(es.take(n as int) =~= es);
    let ghost se = entries_view(sorted@);
    assert(se == sorted_entries(*cq));
    proof {
        broadcast use vstd::seq_lib::group_to_multiset_ensures;

        let ce = core_entries(es);
        crate::sorting::lemma_sort_by_multiset(ce, core_key_less());
        assert forall|i: int| 0 <= i < se.len() implies (#[trigger] se[i]).1.len() <= u32::MAX by {
            assert(se.contains(se[i]));
            assert(se.to_multiset().count(se[i]) > 0);
            assert(ce.contains(se[i]));
            let k = choose|k: int| 0 <= k < ce.len() && ce[k] == se[i];
            assert(ce[k].1.len() <= u32::MAX);
        }
    }

    // Active paras: distinct ids, ascending, with their core counts.
    let mut flat: Vec<u32> = Vec::new();
    let m = sorted.len();
    for k in 0..m
        invariant
            m == sorted@.len(),
            se == entries_view(sorted@),
            flat@ == all_ids(se.take(k as int)),
    {
        assert(se.take(k + 1).drop_last() =~= se.take(k as int));
        let ids = &sorted[k].1;
        let ghost before = flat@;
        for q in 0..ids.len()
            invariant
                flat@ == before + ids@.take(q as int),
        {
            flat.push(ids[q]);
            assert(flat@ =~= before + ids@.take(q + 1));
        }
        assert(ids@.take(ids@.len() as int) =~= ids@);
    }
    assert(se.take(m as int) =~= se);
    let distinct = dedup_u32(&flat);
    let ids_sorted = sort_u32(&distinct);
    let mut paras: Vec<ParaInfo> = Vec::new();
    let np = ids_sorted.len();
    for p in 0..np
        invariant
            np == ids_sorted@.len(),
            ids_sorted@ == active_ids(se),
            m == sorted@.len(),
            se == entries_view(sorted@),
            paras@.len() == p,
            forall|i: int|
                0 <= i < p ==> {
                    let id = active_ids(se)[i];
                    &&& (#[trigger] paras@[i]).id == id
                    &&& paras@[i].name@ == spec_para_name(id)
                    &&& paras@[i].cores == core_count(se, id) as u32
                    &&& paras@[i].is_system == (id < 2000)
                },
    {
        let id = ids_sorted[p];
        let mut count: u64 = 0;
        for k in 0..m
            invariant
                m == sorted@.len(),
                se == entries_view(sorted@),
                count == core_count(se.take(k as int), id),
                count <= k,
        {
            assert(se.take(k + 1).drop_last() =~= se.take(k as int));
            if contains_u32(&sorted[k].1, id) {
                count = count + 1;
            }
        }
        assert(se.take(m as int) =~= se);
        let name = para_name(id);
        paras.push(ParaInfo { id, name, cores: count as u32, is_system: id < 2000 });
    }

    // Current packing: each core's distinct paras, split evenly.
    let mut packing: Vec<CorePacking> = Vec::new();
    for k in 0..m
        invariant
            m == sorted@.len(),
            se == entries_view(sorted@),
            se == sorted_entries(*cq),
            forall|i: int| 0 <= i < se.len() ==> (#[trigger] se[i]).1.len() <= u32::MAX,
            packings_view(packing@) == current_packing(se.take(k as int)),
    {
        assert(se.take(k + 1).drop_last() =~= se.take(k as int));
        assert(se.take(k + 1).last() == se[k as int]);
        let d = dedup_u32(&sorted[k].1);
        proof {
            lemma_dedup_len(sorted@[k as int].1@);
        }
        if d.len() > 0 {
            let parts = even_split(d.len());
            let nd = d.len();
            let ghost want = current_core(sorted@[k as int].0, sorted@[k as int].1@);
            let mut assignments: Vec<Assignment> = Vec::new();
            for q in 0..nd
                invariant
                    nd == d@.len(),
                    parts@ == even_split_spec(nd as nat),
                    d@ == dedup(sorted@[k as int].1@),
                    want == current_core(sorted@[k as int].0, sorted@[k as int].1@),
                    assignments@ =~= want.assignments.take(q as int),
            {
                assignments.push(Assignment { para_id: d[q], parts: parts[q] });
            }
            assert(want.assignments.take(nd as int) =~= want.assignments);
            let ghost before = packing@;
            packing.push(CorePacking { core: sorted[k].0, assignments });
            assert(packings_view(packing@) =~= packings_view(before).push(want));
        }
    }
    assert(se.take(m as int) =~= se);
    (paras, packing)
}

/// What one tick reads from the two chains, undecoded: the relay's heads
/// and storage values, the claim-queue answer, and Asset Hub's heads and
/// staking values. `None` marks a read that failed or found nothing.
pub struct ChainReads {
    /// When the reads were made (RFC3339).
    pub fetched_at: String,
    /// The relay best block the tick was started for.
    pub relay_best: u64,
    /// The relay head read afresh, if available.
    pub relay_head: Option<u64>,
    pub relay_finalized: u64,
    pub spec_version: u32,
    pub relay_chain: Option<String>,
    /// `Session.CurrentIndex`.
    pub session_index: Option<DynValue>,
    /// `Session.Validators`.
    pub session_validators: Option<DynValue>,
    /// `Configuration.ActiveConfig`.
    pub active_config: Option<DynValue>,
    /// The `Parameters.Parameters` values in iteration order (`None` for an
    /// entry that failed to read or decode); empty when the map could not be
    /// iterated.
    pub parameters: Vec<Option<DynValue>>,
    /// `StakingAhClient.Mode`.
    pub ah_client_mode: Option<DynValue>,
    /// `ParaScheduler.ValidatorGroups`.
    pub validator_groups: Option<DynValue>,
    /// The `ParachainHost_claim_queue` answer.
    pub claim_queue: Option<DynValue>,
    /// `ParaScheduler.SessionStartBlock`.
    pub session_start: Option<DynValue>,
    pub ah_finalized: u64,
    pub ah_head: Option<u64>,
    pub ah_chain: Option<String>,
    /// `ValidatorCount` of each staking pallet candidate, in candidate order.
    pub ah_validator_counts: Vec<Option<DynValue>>,
}

/// A storage value read as a `u32`.
pub open spec fn opt_u32(v: Option<DynValue>) -> Option<u32> {
    match v {
        Some(x) => spec_flat_u32(x),
        None => None,
    }
}

/// The relay best block of a tick's reads.
pub open spec fn spec_best(r: ChainReads) -> u64 {
    let b = match r.relay_head {
        Some(h) => h,
        None => r.relay_best,
    };
    if b >= r.relay_finalized {
        b
    } else {
        r.relay_finalized
    }
}

/// The session index of a tick's reads (0 when unreadable).
pub open spec fn spec_session_index(r: ChainReads) -> u32 {
    match opt_u32(r.session_index) {
        Some(n) => n,
        None => 0,
    }
}

/// The current session's start block of a tick's reads.
pub open spec fn spec_session_start(r: ChainReads) -> Option<u64> {
    match opt_u32(r.session_start) {
        Some(n) => Some(n as u64),
        None => None,
    }
}

/// How many parameter entries are scanned.
pub open spec fn scan_len(entries: Seq<Option<DynValue>>) -> nat {
    if entries.len() < 512 {
        entries.len()
    } else {
        512
    }
}

/// A text read, or a fallback when the read failed.
pub open spec fn text_or(t: Option<String>, fallback: Seq<char>) -> Seq<char> {
    match t {
        Some(s) => s@,
        None => fallback,
    }
}

fn text_or_else(t: &Option<String>, fallback: &str) -> (r: String)
    ensures
        r@ == text_or(*t, fallback@),
{
    match t {
        Some(s) => s.clone(),
        None => {
            let mut s = String::new();
            s.append(fallback);
            s
        },
    }
}

fn opt_ref(v: &Option<DynValue>) -> (r: Option<&DynValue>)
    ensures
        match r {
            Some(x) => *v == Some(*x),
            None => v is None,
        },
{
    match v {
        Some(x) => Some(x),
        None => None,
    }
}

/// The live snapshot from a tick's reads (the online-fraction estimate is
/// left to the caller). Relay: the best block never below finalized, the
/// lag between them, the session index (0 when unreadable), its era
/// progress, the active-set size, the core count (0 when unreadable), the
/// minimum set size from the first parameter entries, the staking-client
/// mode, the backing groups, and the active paras with the current packing
/// from the claim queue (none without an answer). Asset Hub: its head (or
/// finalized block), finalized block, and the first readable validator
/// count.
pub fn build_state(reads: &ChainReads) -> (r: StateSnapshot)
    requires
        spec_blocks_into_era(spec_session_index(*reads), spec_session_start(*reads), spec_best(*reads))
            <= u64::MAX,
        match reads.claim_queue {
            Some(cq) => claim_queue_fits(cq),
            None => true,
        },
    ensures
        r.fetched_at == reads.fetched_at,
        r.relay.chain@ == text_or(reads.relay_chain, "Paseo Testnet"@),
        r.relay.spec_version == reads.spec_version,
        r.relay.best_block == spec_best(*reads),
        r.relay.finalized_block == reads.relay_finalized,
        r.relay.finality_lag == spec_best(*reads) - reads.relay_finalized,
        r.relay.session_index == spec_session_index(*reads),
        era_progress_ok(
            r.relay.era_progress,
            spec_session_index(*reads),
            spec_session_start(*reads),
            spec_best(*reads),
        ),
        r.relay.validators == match reads.session_validators {
            Some(x) => children(x).len() as u32,
            None => 0,
        },
        r.relay.min_validator_set_size == spec_min_set_size(
            reads.parameters@,
            scan_len(reads.parameters@),
        ),
        r.relay.cores == match reads.active_config {
            Some(c) => match spec_num_cores(c) {
                Some(n) => n,
                None => 0,
            },
            None => 0,
        },
        r.relay.ah_client_mode@ == spec_ah_client_mode(reads.ah_client_mode),
        groups_ok(r.relay.validator_groups, reads.validator_groups),
        match reads.claim_queue {
            Some(cq) => paras_ok(r.paras@, cq) && packings_view(r.packing@) == current_packing(
                sorted_entries(cq),
            ),
            None => r.paras@.len() == 0 && r.packing@.len() == 0,
        },
        r.asset_hub.chain@ == text_or(reads.ah_chain, "Asset Hub"@),
        r.asset_hub.best_block == match reads.ah_head {
            Some(h) => h,
            None => reads.ah_finalized,
        },
        r.asset_hub.finalized_block == reads.ah_finalized,
        r.asset_hub.validator_count == spec_first_u32(reads.ah_validator_counts@),
{
    // ---- Relay ----
    let (best, finality_lag) = best_and_lag(reads.relay_head, reads.relay_best, reads.relay_finalized);
    let chain = text_or_else(&reads.relay_chain, "Paseo Testnet");
    let session_index: u32 = match opt_ref(&reads.session_index) {
        Some(v) => match flat_u32(v) {
            Some(n) => n,
            None => 0,
        },
        None => 0,
    };
    let validators = validators_from(opt_ref(&reads.session_validators));
    let cores: u32 = match opt_ref(&reads.active_config) {
        Some(c) => match num_cores_from(c) {
            Some(n) => n,
            None => 0,
        },
        None => 0,
    };
    let min_validator_set_size = min_set_size_from(&reads.parameters);
    let ah_client_mode = ah_client_mode_from(opt_ref(&reads.ah_client_mode));
    let validator_groups = validator_groups_from(opt_ref(&reads.validator_groups));
    let (paras, packing) = match opt_ref(&reads.claim_queue) {
        Some(cq) => claim_queue_from(cq),
        None => (Vec::new(), Vec::new()),
    };
    let session_start: Option<u64> = match opt_ref(&reads.session_start) {
        Some(v) => match flat_u32(v) {
            Some(n) => Some(n as u64),
            None => None,
        },
        None => None,
    };
    let era_progress = era_progress(session_index, session_start, best);
    let relay = RelayState {
        chain,
        spec_version: reads.spec_version,
        best_block: best,
        finalized_block: reads.relay_finalized,
        finality_lag,
        session_index,
        era_progress,
        validators,
        min_validator_set_size,
        cores,
        ah_client_mode,
        validator_groups,
    };
    // ---- Asset Hub ----
    let asset_hub = AssetHubState {
        chain: text_or_else(&reads.ah_chain, "Asset Hub"),
        best_block: match reads.ah_head {
            Some(h) => h,
            None => reads.ah_finalized,
        },
        finalized_block: reads.ah_finalized,
        validator_count: ah_validator_count_from(&reads.ah_validator_counts),
    };
    StateSnapshot { fetched_at: reads.fetched_at.clone(), relay, asset_hub, paras, packing }
}

} // verus!
