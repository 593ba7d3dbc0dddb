//! The on-chain levers of a step and how they are assembled: minimum set
//! size, core count and per-core assignment on the relay; validator count
//! and forced unstakes on Asset Hub. Each lever is a plain description of
//! the call; the caller encodes it, wraps it in proxy + sudo and submits it.

use vstd::prelude::*;
use vstd::string::StringExecFns;

use crate::config::{Plan, Step};
use crate::model::{Assignment, CorePacking};
use crate::packing_laws::parts_sum;
use crate::text::{decimal, push_decimal};
use crate::value::str_eq;

verus! {

/// Which chain an item is dispatched to.
#[derive(Clone, Copy, Debug, PartialEq, Eq, Structural)]
pub enum ChainKind {
    Relay,
    AssetHub,
}

impl ChainKind {
    /// Name of the chain in the API.
    pub open spec fn spec_api_name(&self) -> Seq<char> {
        match self {
            ChainKind::Relay => "relay"@,
            ChainKind::AssetHub => "assetHub"@,
        }
    }

    /// Name of the chain in the API.
    pub fn api_name(&self) -> (r: &'static str)
        ensures
            r@ == self.spec_api_name(),
    {
        match self {
            ChainKind::Relay => "relay",
            ChainKind::AssetHub => "assetHub",
        }
    }
}

/// Pallet and call names resolved from the live metadata.
pub struct Resolved {
    pub proxy_pallet: String,
    pub sudo_pallet: String,
    pub parameters_pallet: String,
    pub coretime_pallet: String,
    pub utility_pallet: String,
    pub ah_proxy_pallet: String,
    pub ah_sudo_pallet: String,
    pub staking_pallet: String,
    pub set_validator_count_call: String,
    pub force_unstake_call: String,
    pub ah_utility_pallet: String,
    /// The live timeslice period, used for the `assign_core` begin.
    pub timeslice_period: u32,
}

/// The pallet found in the metadata, or the conventional name.
pub open spec fn name_or(found: Option<String>, fallback: Seq<char>) -> Seq<char> {
    match found {
        Some(s) => s@,
        None => fallback,
    }
}

fn or_name(found: Option<String>, fallback: &str) -> (r: String)
    ensures
        r@ == name_or(found, fallback@),
{
    match found {
        Some(s) => s,
        None => {
            let mut s = String::new();
            s.append(fallback);
            s
        },
    }
}

/// The metadata lookups that resolution starts from: for each lever, the
/// first pallet exposing the call (if any), and the timeslice constant.
pub struct Lookups {
    pub proxy: Option<String>,
    pub sudo: Option<String>,
    pub set_parameter: Option<String>,
    pub request_core_count: Option<String>,
    pub batch_all: Option<String>,
    pub ah_proxy: Option<String>,
    pub ah_sudo: Option<String>,
    pub set_validator_count: Option<String>,
    pub ah_batch_all: Option<String>,
    pub timeslice_period: Option<u128>,
}

/// A pallet of the live metadata with the names of its calls.
pub struct PalletCalls {
    pub name: String,
    pub calls: Vec<String>,
}

/// Whether the pallet has a call named `call`.
pub open spec fn has_call(p: PalletCalls, call: Seq<char>) -> bool {
    exists|k: int| 0 <= k < p.calls@.len() && (#[trigger] p.calls@[k])@ == call
}

/// The name of the first pallet with a call named `call`.
pub open spec fn first_pallet_with(ps: Seq<PalletCalls>, call: Seq<char>) -> Option<Seq<char>>
    decreases ps.len(),
{
    if ps.len() == 0 {
        None
    } else if has_call(ps[0], call) {
        Some(ps[0].name@)
    } else {
        first_pallet_with(ps.drop_first(), call)
    }
}

fn pallet_has_call(p: &PalletCalls, call: &str) -> (r: bool)
    ensures
        r == has_call(*p, call@),
{
    let n = p.calls.len();
    for k in 0..n
        invariant
            n == p.calls@.len(),
            forall|j: int| 0 <= j < k ==> (#[trigger] p.calls@[j])@ != call@,
    {
        if str_eq(p.calls[k].as_str(), call) {
            assert(p.calls@[k as int]@ == call@);
            return true;
        }
    }
    false
}

/// The name of the first pallet exposing a call named `call_name`.
pub fn pallet_with_call(pallets: &Vec<PalletCalls>, call_name: &str) -> (r: Option<String>)
    ensures
        match r {
            Some(n) => first_pallet_with(pallets@, call_name@) == Some(n@),
            None => first_pallet_with(pallets@, call_name@) is None,
        },
{
    let n = pallets.len();
    let mut i: usize = 0;
    assert(pallets@.skip(0) =~= pallets@);
    while i < n
        invariant
            n == pallets@.len(),
            i <= n,
            first_pallet_with(pallets@, call_name@) == first_pallet_with(pallets@.skip(i as int), call_name@),
        decreases n - i,
    {
        assert(pallets@.skip(i as int)[0] == pallets@[i as int]);
        assert(pallets@.skip(i as int).drop_first() =~= pallets@.skip(i + 1));
        if pallet_has_call(&pallets[i], call_name) {
            return Some(pallets[i].name.clone());
        }
        i = i + 1;
    }
    None
}

impl Resolved {
    /// Resolves names: each looked-up pallet or its conventional name; the
    /// timeslice period if it fits in `u32`, else 80.
    pub fn from_lookups(l: Lookups) -> (r: Resolved)
        ensures
            r.proxy_pallet@ == name_or(l.proxy, "Proxy"@),
            r.sudo_pallet@ == name_or(l.sudo, "Sudo"@),
            r.parameters_pallet@ == name_or(l.set_parameter, "Parameters"@),
            r.coretime_pallet@ == name_or(l.request_core_count, "Coretime"@),
            r.utility_pallet@ == name_or(l.batch_all, "Utility"@),
            r.ah_proxy_pallet@ == name_or(l.ah_proxy, "Proxy"@),
            r.ah_sudo_pallet@ == name_or(l.ah_sudo, "Sudo"@),
            r.staking_pallet@ == name_or(l.set_validator_count, "Staking"@),
            r.set_validator_count_call@ == "set_validator_count"@,
            r.force_unstake_call@ == "force_unstake"@,
            r.ah_utility_pallet@ == name_or(l.ah_batch_all, "Utility"@),
            r.timeslice_period == match l.timeslice_period {
                Some(v) => if v <= u32::MAX {
                    v as u32
                } else {
                    80
                },
                None => 80,
            },
    {
        let timeslice_period = match l.timeslice_period {
            Some(v) => if v <= 4294967295u128 {
                v as u32
            } else {
                80
            },
            None => 80,
        };
        let mut svc = String::new();
        svc.append("set_validator_count");
        let mut unstake = String::new();
        unstake.append("force_unstake");
        Resolved {
            proxy_pallet: or_name(l.proxy, "Proxy"),
            sudo_pallet: or_name(l.sudo, "Sudo"),
            parameters_pallet: or_name(l.set_parameter, "Parameters"),
            coretime_pallet: or_name(l.request_core_count, "Coretime"),
            utility_pallet: or_name(l.batch_all, "Utility"),
            ah_proxy_pallet: or_name(l.ah_proxy, "Proxy"),
            ah_sudo_pallet: or_name(l.ah_sudo, "Sudo"),
            staking_pallet: or_name(l.set_validator_count, "Staking"),
            set_validator_count_call: svc,
            force_unstake_call: unstake,
            ah_utility_pallet: or_name(l.ah_batch_all, "Utility"),
            timeslice_period,
        }
    }

    /// The `Proxy` pallet of a chain.
    pub open spec fn spec_proxy_for(&self, chain: ChainKind) -> String {
        match chain {
            ChainKind::Relay => self.proxy_pallet,
            ChainKind::AssetHub => self.ah_proxy_pallet,
        }
    }

    /// The `Sudo` pallet of a chain.
    pub open spec fn spec_sudo_for(&self, chain: ChainKind) -> String {
        match chain {
            ChainKind::Relay => self.sudo_pallet,
            ChainKind::AssetHub => self.ah_sudo_pallet,
        }
    }

    /// The `Utility` pallet of a chain.
    pub open spec fn spec_utility_for(&self, chain: ChainKind) -> String {
        match chain {
            ChainKind::Relay => self.utility_pallet,
            ChainKind::AssetHub => self.ah_utility_pallet,
        }
    }

    /// The `Proxy` pallet of a chain.
    pub fn proxy_pallet_for(&self, chain: ChainKind) -> (r: &String)
        ensures
            *r == match chain {
                ChainKind::Relay => self.proxy_pallet,
                ChainKind::AssetHub => self.ah_proxy_pallet,
            },
    {
        match chain {
            ChainKind::Relay => &self.proxy_pallet,
            ChainKind::AssetHub => &self.ah_proxy_pallet,
        }
    }

    /// The `Sudo` pallet of a chain.
    pub fn sudo_pallet_for(&self, chain: ChainKind) -> (r: &String)
        ensures
            *r == match chain {
                ChainKind::Relay => self.sudo_pallet,
                ChainKind::AssetHub => self.ah_sudo_pallet,
            },
    {
        match chain {
            ChainKind::Relay => &self.sudo_pallet,
            ChainKind::AssetHub => &self.ah_sudo_pallet,
        }
    }

    /// The `Utility` pallet of a chain.
    pub fn utility_pallet_for(&self, chain: ChainKind) -> (r: &String)
        ensures
            *r == match chain {
                ChainKind::Relay => self.utility_pallet,
                ChainKind::AssetHub => self.ah_utility_pallet,
            },
    {
        match chain {
            ChainKind::Relay => &self.utility_pallet,
            ChainKind::AssetHub => &self.ah_utility_pallet,
        }
    }
}

/// One lever call, before encoding.
pub enum LeverCall {
    /// `set_parameter(AhClient::MinimumValidatorSetSize(n))` on the relay.
    SetMinSetSize(u32),
    /// `request_core_count(n)` on the relay.
    RequestCoreCount(u32),
    /// `assign_core(core, begin, [(Task(para), parts)..], None)` on the relay.
    AssignCore { core: u32, begin: u32, assignments: Vec<Assignment> },
    /// `set_validator_count(n)` on Asset Hub.
    SetValidatorCount(u32),
    /// `force_unstake(stash, 0)` on Asset Hub (a 32-byte account): the stash
    /// leaves the active set at the next election. Root may call it, so it
    /// works through sudo.
    ForceUnstake([u8; 32]),
}

/// Whether a call is the `assign_core` of `core` from `begin` with `a`.
pub open spec fn is_assign(call: LeverCall, core: u32, begin: u32, a: Seq<Assignment>) -> bool {
    match call {
        LeverCall::AssignCore { core: c, begin: b, assignments: x } => c == core && b == begin && x@ == a,
        _ => false,
    }
}

/// A lever call with where it goes and how it is shown.
pub struct DispatchItem {
    pub chain: ChainKind,
    pub call_path: String,
    pub args_summary: String,
    pub call: LeverCall,
}

/// A stash of the exit cohort after address decoding: its account bytes and
/// its canonical address text.
pub struct ParsedStash {
    pub account: [u8; 32],
    pub display: String,
}

/// Why a step's calls could not be built.
pub enum BuildError {
    /// A core's parts do not sum to 57600.
    PackingInvariant { core: u32, sum: u32 },
    /// An exit-cohort stash address could not be decoded.
    BadStash(String),
}

/// `<pallet>.<call>`.
pub open spec fn path_of(pallet: Seq<char>, call: Seq<char>) -> Seq<char> {
    pallet + "."@ + call
}

fn make_path(pallet: &String, call: &str) -> (r: String)
    ensures
        r@ == path_of(pallet@, call@),
{
    let mut s = pallet.clone();
    s.append(".");
    s.append(call);
    s
}

/// `<para>:<parts>` for each assignment, joined by commas.
pub open spec fn assignments_text(a: Seq<Assignment>) -> Seq<char>
    decreases a.len(),
{
    if a.len() == 0 {
        Seq::empty()
    } else if a.len() == 1 {
        decimal(a[0].para_id as nat) + ":"@ + decimal(a[0].parts as nat)
    } else {
        assignments_text(a.drop_last()) + ","@ + decimal(a.last().para_id as nat) + ":"@
            + decimal(a.last().parts as nat)
    }
}

/// Summary of an `assign_core` call.
pub open spec fn assign_summary(core: u32, begin: u32, a: Seq<Assignment>) -> Seq<char> {
    "core="@ + decimal(core as nat) + " begin="@ + decimal(begin as nat) + " ["@ + assignments_text(a)
        + "]"@
}

/// Every core's parts sum to 57600.
pub open spec fn cores_full(packing: Seq<CorePacking>) -> bool {
    forall|i: int| 0 <= i < packing.len() ==> parts_sum(#[trigger] packing[i].assignments@) == 57600
}

/// `i` is the first stash that did not decode.
pub open spec fn first_bad_stash(stashes: Seq<Option<ParsedStash>>, i: int) -> bool {
    &&& 0 <= i < stashes.len()
    &&& stashes[i] is None
    &&& forall|k: int| 0 <= k < i ==> (#[trigger] stashes[k]) is Some
}

/// The minimum-set-size call: `<Parameters>.set_parameter` on the relay.
pub open spec fn min_size_item_ok(it: DispatchItem, r: Resolved, n: u32) -> bool {
    &&& it.chain == ChainKind::Relay
    &&& it.call == LeverCall::SetMinSetSize(n)
    &&& it.call_path@ == path_of(r.parameters_pallet@, "set_parameter"@)
    &&& it.args_summary@ == "AhClient::MinimumValidatorSetSize("@ + decimal(n as nat) + ")"@
}

/// The core-count call: `<Coretime>.request_core_count` on the relay.
pub open spec fn core_count_item_ok(it: DispatchItem, r: Resolved, n: u32) -> bool {
    &&& it.chain == ChainKind::Relay
    &&& it.call == LeverCall::RequestCoreCount(n)
    &&& it.call_path@ == path_of(r.coretime_pallet@, "request_core_count"@)
    &&& it.args_summary@ == "count="@ + decimal(n as nat)
}

/// The assignment of one core: `<Coretime>.assign_core` on the relay.
pub open spec fn assign_item_ok(it: DispatchItem, r: Resolved, core: CorePacking, begin: u32) -> bool {
    &&& it.chain == ChainKind::Relay
    &&& is_assign(it.call, core.core, begin, core.assignments@)
    &&& it.call_path@ == path_of(r.coretime_pallet@, "assign_core"@)
    &&& it.args_summary@ == assign_summary(core.core, begin, core.assignments@)
}

/// The validator-count call on Asset Hub.
pub open spec fn validator_count_item_ok(it: DispatchItem, r: Resolved, n: u32) -> bool {
    &&& it.chain == ChainKind::AssetHub
    &&& it.call == LeverCall::SetValidatorCount(n)
    &&& it.call_path@ == path_of(r.staking_pallet@, r.set_validator_count_call@)
    &&& it.args_summary@ == "new="@ + decimal(n as nat)
}

/// The forced unstake of one stash on Asset Hub.
pub open spec fn unstake_item_ok(it: DispatchItem, r: Resolved, stash: ParsedStash) -> bool {
    &&& it.chain == ChainKind::AssetHub
    &&& it.call == LeverCall::ForceUnstake(stash.account)
    &&& it.call_path@ == path_of(r.staking_pallet@, r.force_unstake_call@)
    &&& it.args_summary@ == "stash="@ + stash.display@
}

/// A step's calls, with the names resolved in `r`. Relay: the minimum set
/// size, then the core count, then one `assign_core` per packed core from
/// `begin`. Asset Hub: the validator count, then one forced unstake per
/// decoded stash, in cohort order.
pub open spec fn step_items_ok(
    relay: Seq<DispatchItem>,
    ah: Seq<DispatchItem>,
    r: Resolved,
    step: Step,
    packing: Seq<CorePacking>,
    begin: u32,
    stashes: Seq<Option<ParsedStash>>,
) -> bool {
    &&& forall|i: int| 0 <= i < stashes.len() ==> (#[trigger] stashes[i]) is Some
    &&& relay.len() == packing.len() + 2
    &&& min_size_item_ok(relay[0], r, step.min_validator_set_size)
    &&& core_count_item_ok(relay[1], r, step.cores)
    &&& forall|i: int| 0 <= i < packing.len() ==> assign_item_ok(#[trigger] relay[i + 2], r, packing[i], begin)
    &&& forall|i: int| 0 <= i < relay.len() ==> (#[trigger] relay[i]).chain == ChainKind::Relay
    &&& ah.len() == stashes.len() + 1
    &&& validator_count_item_ok(ah[0], r, step.validators)
    &&& forall|i: int|
        0 <= i < stashes.len() ==> unstake_item_ok(#[trigger] ah[i + 1], r, stashes[i]->Some_0)
    &&& forall|i: int| 0 <= i < ah.len() ==> (#[trigger] ah[i]).chain == ChainKind::AssetHub
}

/// The dispatcher's plain state: whose sudo key the proxy acts for, the
/// resolved names, and whether every call is dry-run before submission.
pub struct Dispatcher {
    pub sudo: [u8; 32],
    pub resolved: Resolved,
    pub dry_run_first: bool,
}

/// Two lever calls are the same call (assignment lists compared by value).
pub open spec fn same_call(a: LeverCall, b: LeverCall) -> bool {
    match (a, b) {
        (
            LeverCall::AssignCore { core: c1, begin: b1, assignments: x1 },
            LeverCall::AssignCore { core: c2, begin: b2, assignments: x2 },
        ) => c1 == c2 && b1 == b2 && x1@ == x2@,
        (LeverCall::AssignCore { .. }, _) => false,
        (_, LeverCall::AssignCore { .. }) => false,
        _ => a == b,
    }
}

/// A copy of a lever call.
pub fn copy_call(c: &LeverCall) -> (r: LeverCall)
    ensures
        same_call(r, *c),
{
    match c {
        LeverCall::SetMinSetSize(n) => LeverCall::SetMinSetSize(*n),
        LeverCall::RequestCoreCount(n) => LeverCall::RequestCoreCount(*n),
        LeverCall::AssignCore { core, begin, assignments } => {
            let mut copy: Vec<Assignment> = Vec::new();
            let n = assignments.len();
            for i in 0..n
                invariant
                    n == assignments@.len(),
                    copy@ =~= assignments@.take(i as int),
            {
                copy.push(assignments[i]);
            }
            assert(assignments@.take(n as int) =~= assignments@);
            LeverCall::AssignCore { core: *core, begin: *begin, assignments: copy }
        },
        LeverCall::SetValidatorCount(n) => LeverCall::SetValidatorCount(*n),
        LeverCall::ForceUnstake(a) => LeverCall::ForceUnstake(*a),
    }
}

/// What the sudo call carries: one lever call, or a chain's calls in one
/// `<utility>.batch_all`.
pub enum InnerCall {
    Lever(LeverCall),
    BatchAll { utility_pallet: String, calls: Vec<LeverCall> },
}

/// A call as submitted: `<proxy>.proxy(Id(real), None, <sudo>.sudo(inner))`.
pub struct ProxiedCall {
    pub proxy_pallet: String,
    /// The sudo account the proxy acts for.
    pub real: [u8; 32],
    pub sudo_pallet: String,
    pub inner: InnerCall,
}

/// A chain's batch: how many calls it carries, and the whole call tree
/// that is submitted.
pub struct BatchPlan {
    pub chain: ChainKind,
    pub count: usize,
    pub call: ProxiedCall,
}

impl Dispatcher {
    /// Whether dry-run-before-submit is required.
    pub fn requires_dry_run(&self) -> (r: bool)
        ensures
            r == self.dry_run_first,
    {
        self.dry_run_first
    }

    /// The proxy and sudo wrapping of `inner` on `chain`.
    pub open spec fn wraps(&self, c: ProxiedCall, chain: ChainKind) -> bool {
        &&& c.proxy_pallet == self.resolved.spec_proxy_for(chain)
        &&& c.real == self.sudo
        &&& c.sudo_pallet == self.resolved.spec_sudo_for(chain)
    }

    /// The batch of `items` on `chain`: their count, and the wrapped
    /// `batch_all` of their calls in order.
    pub open spec fn batch_ok(&self, b: BatchPlan, chain: ChainKind, items: Seq<&DispatchItem>) -> bool {
        &&& b.chain == chain
        &&& b.count == items.len()
        &&& self.wraps(b.call, chain)
        &&& match b.call.inner {
            InnerCall::BatchAll { utility_pallet, calls } => {
                &&& utility_pallet == self.resolved.spec_utility_for(chain)
                &&& calls@.len() == items.len()
                &&& forall|i: int| 0 <= i < items.len() ==> same_call(#[trigger] calls@[i], items[i].call)
            },
            _ => false,
        }
    }

    /// A single item as it is dry-run:
    /// `<proxy>.proxy(Id(sudo), None, <sudo>.sudo(call))` on the item's chain.
    pub fn proxied(&self, item: &DispatchItem) -> (r: ProxiedCall)
        ensures
            self.wraps(r, item.chain),
            match r.inner {
                InnerCall::Lever(c) => same_call(c, item.call),
                _ => false,
            },
    {
        ProxiedCall {
            proxy_pallet: self.resolved.proxy_pallet_for(item.chain).clone(),
            real: self.sudo,
            sudo_pallet: self.resolved.sudo_pallet_for(item.chain).clone(),
            inner: InnerCall::Lever(copy_call(&item.call)),
        }
    }

    /// The batch for a chain's items: none when there is nothing to send,
    /// else one atomic
    /// `<proxy>.proxy(Id(sudo), None, <sudo>.sudo(<utility>.batch_all([calls])))`
    /// carrying the items' calls in order.
    pub fn batch(&self, chain: ChainKind, items: &Vec<&DispatchItem>) -> (r: Option<BatchPlan>)
        ensures
            items@.len() == 0 ==> r is None,
            items@.len() > 0 ==> match r {
                Some(b) => self.batch_ok(b, chain, items@),
                None => false,
            },
    {
        if items.len() == 0 {
            None
        } else {
            let mut calls: Vec<LeverCall> = Vec::new();
            let n = items.len();
            for i in 0..n
                invariant
                    n == items@.len(),
                    calls@.len() == i,
                    forall|k: int| 0 <= k < i ==> same_call(#[trigger] calls@[k], items@[k].call),
            {
                calls.push(copy_call(&items[i].call));
            }
            let call = ProxiedCall {
                proxy_pallet: self.resolved.proxy_pallet_for(chain).clone(),
                real: self.sudo,
                sudo_pallet: self.resolved.sudo_pallet_for(chain).clone(),
                inner: InnerCall::BatchAll {
                    utility_pallet: self.resolved.utility_pallet_for(chain).clone(),
                    calls,
                },
            };
            Some(BatchPlan { chain, count: items.len(), call })
        }
    }

    fn min_set_size_item(&self, n: u32) -> (r: DispatchItem)
        ensures
            r.chain == ChainKind::Relay,
            r.call == LeverCall::SetMinSetSize(n),
            r.call_path@ == path_of(self.resolved.parameters_pallet@, "set_parameter"@),
            r.args_summary@ == "AhClient::MinimumValidatorSetSize("@ + decimal(n as nat) + ")"@,
    {
        let mut args = String::new();
        args.append("AhClient::MinimumValidatorSetSize(");
        push_decimal(&mut args, n as u128);
        args.append(")");
        DispatchItem {
            chain: ChainKind::Relay,
            call_path: make_path(&self.resolved.parameters_pallet, "set_parameter"),
            args_summary: args,
            call: LeverCall::SetMinSetSize(n),
        }
    }

    fn core_count_item(&self, cores: u32) -> (r: DispatchItem)
        ensures
            r.chain == ChainKind::Relay,
            r.call == LeverCall::RequestCoreCount(cores),
            r.call_path@ == path_of(self.resolved.coretime_pallet@, "request_core_count"@),
            r.args_summary@ == "count="@ + decimal(cores as nat),
    {
        let mut args = String::new();
        args.append("count=");
        push_decimal(&mut args, cores as u128);
        DispatchItem {
            chain: ChainKind::Relay,
            call_path: make_path(&self.resolved.coretime_pallet, "request_core_count"),
            args_summary: args,
            call: LeverCall::RequestCoreCount(cores),
        }
    }

    fn assign_core_item(&self, begin: u32, core: &CorePacking) -> (r: DispatchItem)
        ensures
            r.chain == ChainKind::Relay,
            is_assign(r.call, core.core, begin, core.assignments@),
            r.call_path@ == path_of(self.resolved.coretime_pallet@, "assign_core"@),
            r.args_summary@ == assign_summary(core.core, begin, core.assignments@),
    {
        let mut text = String::new();
        let n = core.assignments.len();
        let mut copy: Vec<Assignment> = Vec::new();
        for i in 0..n
            invariant
                n == core.assignments@.len(),
                text@ == assignments_text(core.assignments@.take(i as int)),
                copy@ =~= core.assignments@.take(i as int),
        {
            let a = core.assignments[i];
            if i > 0 {
                text.append(",");
            }
            push_decimal(&mut text, a.para_id as u128);
            text.append(":");
            push_decimal(&mut text, a.parts as u128);
            copy.push(a);
            proof {
                let t = core.assignments@.take(i + 1);
                assert(t.drop_last() =~= core.assignments@.take(i as int));
                assert(t.last() == a);
                if i == 0 {
                    assert(t.len() == 1);
                    assert(t[0] == a);
                }
            }
        }
        assert(core.assignments@.take(n as int) =~= core.assignments@);
        let mut args = String::new();
        args.append("core=");
        push_decimal(&mut args, core.core as u128);
        args.append(" begin=");
        push_decimal(&mut args, begin as u128);
        args.append(" [");
        args.append(text.as_str());
        args.append("]");
        DispatchItem {
            chain: ChainKind::Relay,
            call_path: make_path(&self.resolved.coretime_pallet, "assign_core"),
            args_summary: args,
            call: LeverCall::AssignCore { core: core.core, begin, assignments: copy },
        }
    }

    /// Single-core `assign_core` item, for packing re-assertion.
    pub fn assign_core_reassert(&self, begin: u32, core: &CorePacking) -> (r: DispatchItem)
        ensures
            r.chain == ChainKind::Relay,
            is_assign(r.call, core.core, begin, core.assignments@),
            r.call_path@ == path_of(self.resolved.coretime_pallet@, "assign_core"@),
            r.args_summary@ == assign_summary(core.core, begin, core.assignments@),
    {
        self.assign_core_item(begin, core)
    }

    fn validator_count_item(&self, n: u32) -> (r: DispatchItem)
        ensures
            r.chain == ChainKind::AssetHub,
            r.call == LeverCall::SetValidatorCount(n),
            r.call_path@ == path_of(
                self.resolved.staking_pallet@,
                self.resolved.set_validator_count_call@,
            ),
            r.args_summary@ == "new="@ + decimal(n as nat),
    {
        let mut args = String::new();
        args.append("new=");
        push_decimal(&mut args, n as u128);
        DispatchItem {
            chain: ChainKind::AssetHub,
            call_path: make_path(
                &self.resolved.staking_pallet,
                self.resolved.set_validator_count_call.as_str(),
            ),
            args_summary: args,
            call: LeverCall::SetValidatorCount(n),
        }
    }

    fn force_unstake_item(&self, stash: &ParsedStash) -> (r: DispatchItem)
        ensures
            r.chain == ChainKind::AssetHub,
            r.call == LeverCall::ForceUnstake(stash.account),
            r.call_path@ == path_of(self.resolved.staking_pallet@, self.resolved.force_unstake_call@),
            r.args_summary@ == "stash="@ + stash.display@,
    {
        let mut args = String::new();
        args.append("stash=");
        args.append(stash.display.as_str());
        DispatchItem {
            chain: ChainKind::AssetHub,
            call_path: make_path(
                &self.resolved.staking_pallet,
                self.resolved.force_unstake_call.as_str(),
            ),
            args_summary: args,
            call: LeverCall::ForceUnstake(stash.account),
        }
    }

    /// Builds all dispatch items for a step. Relay order matters: the
    /// minimum set size first (so a set below the old minimum is not
    /// dropped), then the core count, then one assignment per packed core.
    /// Asset Hub: the validator count, then one forced unstake per stash of
    /// the step's exit cohort. `stashes` holds the decoded exit-cohort
    /// addresses, in cohort order (`None` where an address did not decode).
    pub fn build_step_items(
        &self,
        plan: &Plan,
        step: &Step,
        packing: &Vec<CorePacking>,
        begin_timeslice: u32,
        stashes: &Vec<Option<ParsedStash>>,
    ) -> (r: Result<(Vec<DispatchItem>, Vec<DispatchItem>), BuildError>)
        requires
            stashes@.len() == plan.spec_exit_cohort_for(step).len(),
            forall|i: int|
                0 <= i < packing@.len() ==> parts_sum(#[trigger] packing@[i].assignments@)
                    <= u32::MAX,
        ensures
            match r {
                Ok((relay, ah)) => {
                    &&& cores_full(packing@)
                    &&& step_items_ok(relay@, ah@, self.resolved, *step, packing@, begin_timeslice, stashes@)
                },
                Err(BuildError::PackingInvariant { core, sum }) => exists|i: int|
                    0 <= i < packing@.len() && parts_sum(#[trigger] packing@[i].assignments@) != 57600
                        && (forall|k: int|
                        0 <= k < i ==> parts_sum(#[trigger] packing@[k].assignments@) == 57600)
                        && core == packing@[i].core && sum == parts_sum(packing@[i].assignments@),
                Err(BuildError::BadStash(s)) => {
                    &&& cores_full(packing@)
                    &&& exists|i: int|
                        first_bad_stash(stashes@, i) && s == plan.spec_exit_cohort_for(step)[i]
                },
            },
    {
        // Each core's parts must sum to exactly 57600.
        let np = packing.len();
        for k in 0..np
            invariant
                np == packing@.len(),
                forall|i: int|
                    0 <= i < packing@.len() ==> parts_sum(#[trigger] packing@[i].assignments@)
                        <= u32::MAX,
                forall|i: int| 0 <= i < k ==> parts_sum(#[trigger] packing@[i].assignments@) == 57600,
        {
            let sum = core_parts_sum(&packing[k]);
            if sum != 57600 {
                return Err(BuildError::PackingInvariant { core: packing[k].core, sum });
            }
        }

        let mut relay: Vec<DispatchItem> = Vec::new();
        relay.push(self.min_set_size_item(step.min_validator_set_size));
        relay.push(self.core_count_item(step.cores));
        for k in 0..np
            invariant
                np == packing@.len(),
                forall|i: int|
                    0 <= i < packing@.len() ==> parts_sum(#[trigger] packing@[i].assignments@)
                        == 57600,
                relay@.len() == k + 2,
                min_size_item_ok(relay@[0], self.resolved, step.min_validator_set_size),
                core_count_item_ok(relay@[1], self.resolved, step.cores),
                forall|i: int|
                    0 <= i < k ==> assign_item_ok(#[trigger] relay@[i + 2], self.resolved, packing@[i], begin_timeslice),
                forall|i: int| 0 <= i < relay@.len() ==> (#[trigger] relay@[i]).chain == ChainKind::Relay,
        {
            let item = self.assign_core_item(begin_timeslice, &packing[k]);
            relay.push(item);
        }

        let mut ah: Vec<DispatchItem> = Vec::new();
        ah.push(self.validator_count_item(step.validators));
        let cohort = plan.exit_cohort_for(step);
        let ns = stashes.len();
        for k in 0..ns
            invariant
                ns == stashes@.len(),
                forall|i: int|
                    0 <= i < packing@.len() ==> parts_sum(#[trigger] packing@[i].assignments@)
                        == 57600,
                cohort@ == plan.spec_exit_cohort_for(step),
                cohort@.len() == ns,
                ah@.len() == k + 1,
                validator_count_item_ok(ah@[0], self.resolved, step.validators),
                forall|i: int| 0 <= i < k ==> (#[trigger] stashes@[i]) is Some,
                forall|i: int|
                    0 <= i < k ==> unstake_item_ok(#[trigger] ah@[i + 1], self.resolved, stashes@[i]->Some_0),
                forall|i: int| 0 <= i < ah@.len() ==> (#[trigger] ah@[i]).chain == ChainKind::AssetHub,
        {
            match &stashes[k] {
                Some(st) => {
                    let item = self.force_unstake_item(st);
                    ah.push(item);
                },
                None => {
                    assert(first_bad_stash(stashes@, k as int));
                    return Err(BuildError::BadStash(cohort[k].clone()));
                },
            }
        }
        Ok((relay, ah))
    }
}

/// Sum of a core's parts.
pub fn core_parts_sum(core: &CorePacking) -> (r: u32)
    requires
        parts_sum(core.assignments@) <= u32::MAX,
    ensures
        r == parts_sum(core.assignments@),
{
    let n = core.assignments.len();
    let mut s: u32 = 0;
    for i in 0..n
        invariant
            n == core.assignments@.len(),
            parts_sum(core.assignments@) <= u32::MAX,
            s == parts_sum(core.assignments@.take(i as int)),
    {
        proof {
            let t = core.assignments@.take(i + 1);
            assert(t.drop_last() =~= core.assignments@.take(i as int));
            crate::packing_laws::lemma_parts_sum_prefix(core.assignments@, i + 1);
        }
        s = s + core.assignments[i].parts;
    }
    assert(core.assignments@.take(n as int) =~= core.assignments@);
    s
}

/// The timeslice period used for rounding (0 counts as 1).
pub open spec fn spec_period(timeslice_period: u32) -> int {
    if timeslice_period > 1 {
        timeslice_period as int
    } else {
        1
    }
}

/// The next timeslice boundary: `now / TIMESLICE_PERIOD + 1` (a period of
/// 0 counts as 1), truncated to 32 bits.
pub fn next_timeslice(now_block: u64, timeslice_period: u32) -> (r: u32)
    requires
        (now_block as int) / spec_period(timeslice_period) < u64::MAX,
    ensures
        r == ((now_block as int) / spec_period(timeslice_period) + 1) as u32,
{
    let tp: u64 = if timeslice_period > 1 {
        timeslice_period as u64
    } else {
        1
    };
    ((now_block / tp) + 1) as u32
}

} // verus!
