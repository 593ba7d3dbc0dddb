//! The authored plan (intent: step targets, packing weights, exit cohorts)
//! and the runtime settings. The plan never holds chain state.

use vstd::prelude::*;
use vstd::string::StringExecFns;

use crate::text::{decimal, push_decimal};
use crate::control::{chars_of, is_ws, ws};

verus! {

/// Plan metadata.
pub struct Meta {
    pub name: String,
    pub relay_ws: String,
    pub asset_hub_ws: String,
    pub era_hours: u32,
    pub soak_eras: u32,
    /// Optional go-live instant (RFC3339). Until it passes the service holds.
    pub start_at: Option<String>,
    /// Pre-downsize validator-set size, used only for previews.
    pub start_validators: Option<u32>,
}

/// What `chrono::DateTime::parse_from_rfc3339` yields for a text, taken to
/// UTC, as (Unix seconds, sub-second nanoseconds); `None` when it rejects it.
pub uninterp spec fn rfc3339_utc(s: Seq<char>) -> Option<(i64, u32)>;

/// Parses an RFC3339 timestamp with `chrono::DateTime::parse_from_rfc3339`
/// and converts it to UTC. The contract only names the result: it is
/// `rfc3339_utc` of the text; the calendar rules are chrono's.
#[verifier::external_body]
fn parse_rfc3339_utc(s: &str) -> (r: Option<(i64, u32)>)
    ensures
        r == rfc3339_utc(s@),
{
    match chrono::DateTime::parse_from_rfc3339(s) {
        Ok(dt) => {
            let u = dt.with_timezone(&chrono::Utc);
            Some((u.timestamp(), u.timestamp_subsec_nanos()))
        },
        Err(_) => None,
    }
}

impl Meta {
    /// The configured go-live instant as (Unix seconds, nanoseconds), if set
    /// and valid.
    pub fn start_at_dt(&self) -> (r: Option<(i64, u32)>)
        ensures
            r == match self.start_at {
                Some(s) => rfc3339_utc(s@),
                None => None,
            },
    {
        match &self.start_at {
            Some(s) => parse_rfc3339_utc(s.as_str()),
            None => None,
        }
    }
}

/// Soak length in eras when the plan leaves it out.
pub fn default_soak() -> (r: u32)
    ensures
        r == 1,
{
    1
}

/// Dispatch mode when the plan leaves it out.
pub fn default_mode() -> (r: String)
    ensures
        r@ == "auto"@,
{
    let mut s = String::new();
    s.append("auto");
    s
}

/// Default for the boolean dispatch switches.
pub fn default_true() -> (r: bool)
    ensures
        r,
{
    true
}

/// Maximal finality lag (blocks) when the plan leaves it out.
pub fn default_max_lag() -> (r: u64)
    ensures
        r == 6,
{
    6
}

/// Dispatch settings.
pub struct Dispatch {
    /// "auto" fires automatically at the scheduled era; anything else is manual.
    pub mode: String,
    pub dry_run_first: bool,
    pub require_healthy_finality: bool,
}

impl Dispatch {
    /// Whether the mode is the automatic one.
    pub fn is_auto(&self) -> (r: bool)
        ensures
            r == (self.mode@ == "auto"@),
    {
        let auto = default_mode();
        self.mode == auto
    }
}

/// Health gates enforced before any dispatch (the online-fraction threshold,
/// a real number, is held next to the plan by the caller).
pub struct Health {
    pub max_finality_lag_blocks: u64,
}

/// One step of the schedule.
pub struct Step {
    pub id: u32,
    pub era_offset: u32,
    pub validators: u32,
    pub cores: u32,
    pub min_validator_set_size: u32,
    pub note: String,
    /// Terminal milestone: the coordinated shutdown. Never dispatched.
    pub shutdown: bool,
}

impl Step {
    /// The exit-cohort key of this step: `step_<id>`.
    pub open spec fn spec_cohort_key(&self) -> Seq<char> {
        "step_"@ + decimal(self.id as nat)
    }

    /// The exit-cohort key in the plan (`step_<id>`).
    pub fn cohort_key(&self) -> (r: String)
        ensures
            r@ == self.spec_cohort_key(),
    {
        let mut s = String::new();
        s.append("step_");
        push_decimal(&mut s, self.id as u128);
        s
    }
}

/// First value stored under `key` in a list of (key, value) entries.
pub open spec fn lookup_entry<V>(entries: Seq<(String, V)>, key: Seq<char>) -> Option<V>
    decreases entries.len(),
{
    if entries.len() == 0 {
        None
    } else if entries[0].0@ == key {
        Some(entries[0].1)
    } else {
        lookup_entry(entries.drop_first(), key)
    }
}

proof fn lemma_lookup_skip<V>(entries: Seq<(String, V)>, key: Seq<char>, i: int)
    requires
        0 <= i < entries.len(),
        entries[i].0@ != key,
    ensures
        lookup_entry(entries.skip(i), key) == lookup_entry(entries.skip(i + 1), key),
{
    assert(entries.skip(i).drop_first() =~= entries.skip(i + 1));
}

/// No key occurs twice in a list of (key, value) entries, as in the plan
/// file's tables. The plan's lists are built from those tables.
pub open spec fn keys_unique<V>(entries: Seq<(String, V)>) -> bool {
    forall|i: int, j: int| 0 <= i < j < entries.len() ==> entries[i].0@ != entries[j].0@
}

/// With unique keys, the lookup of an entry's key gives that entry's value.
pub proof fn lemma_lookup_finds_entry<V>(entries: Seq<(String, V)>, i: int)
    requires
        keys_unique(entries),
        0 <= i < entries.len(),
    ensures
        lookup_entry(entries, entries[i].0@) == Some(entries[i].1),
    decreases entries.len(),
{
    if i > 0 {
        let t = entries.drop_first();
        assert(entries[0].0@ != entries[i].0@);
        assert(t[i - 1] == entries[i]);
        assert forall|x: int, y: int| 0 <= x < y < t.len() implies t[x].0@ != t[y].0@ by {
            assert(t[x] == entries[x + 1]);
            assert(t[y] == entries[y + 1]);
        }
        lemma_lookup_finds_entry(t, i - 1);
    }
}

/// Index of the first entry stored under `key`, if any, with its meaning.
fn find_entry<V>(entries: &Vec<(String, V)>, key: &String) -> (r: Option<usize>)
    ensures
        match r {
            Some(i) => i < entries@.len() && lookup_entry(entries@, key@) == Some(entries@[i as int].1),
            None => lookup_entry(entries@, key@) is None,
        },
{
    let n = entries.len();
    let mut i: usize = 0;
    assert(entries@.skip(0) =~= entries@);
    while i < n
        invariant
            n == entries@.len(),
            i <= n,
            lookup_entry(entries@, key@) == lookup_entry(entries@.skip(i as int), key@),
        decreases n - i,
    {
        if entries[i].0 == *key {
            assert(entries@.skip(i as int)[0] == entries@[i as int]);
            return Some(i);
        }
        proof {
            lemma_lookup_skip(entries@, key@, i as int);
        }
        i = i + 1;
    }
    assert(entries@.skip(n as int).len() == 0);
    None
}

/// Packing parameters.
pub struct Packing {
    pub max_chains_per_core: u32,
    pub hard_max_chains_per_core: u32,
    pub default_weight: u32,
    /// Explicit weights, keyed by the para id in decimal.
    pub weights: Vec<(String, u32)>,
}

impl Packing {
    /// Weight of a para id: its explicit weight, else `default_weight`.
    pub open spec fn spec_weight_for(&self, para_id: u32) -> u32 {
        match lookup_entry(self.weights@, decimal(para_id as nat)) {
            Some(w) => w,
            None => self.default_weight,
        }
    }

    /// Weight for a para id: explicit weight or `default_weight`.
    pub fn weight_for(&self, para_id: u32) -> (r: u32)
        ensures
            r == self.spec_weight_for(para_id),
    {
        let mut key = String::new();
        push_decimal(&mut key, para_id as u128);
        proof {
            assert(key@ =~= decimal(para_id as nat));
        }
        match find_entry(&self.weights, &key) {
            Some(i) => self.weights[i].1,
            None => self.default_weight,
        }
    }
}

/// The full plan.
pub struct Plan {
    pub meta: Meta,
    pub dispatch: Dispatch,
    pub health: Health,
    pub steps: Vec<Step>,
    /// Exit cohorts: stash addresses (ss58) per `step_<id>` key.
    pub exit_cohort: Vec<(String, Vec<String>)>,
    pub packing: Packing,
}

/// `(cycle id, from, to)` validator counts for the non-shutdown steps of
/// `steps`, where the first `from` is `prev` (or the step's own target) and
/// each later `from` is the previous step's target.
pub open spec fn preview_from(steps: Seq<Step>, prev: Option<u32>) -> Seq<(u32, u32, u32)>
    decreases steps.len(),
{
    if steps.len() == 0 {
        Seq::empty()
    } else if steps[0].shutdown {
        preview_from(steps.drop_first(), prev)
    } else {
        let s = steps[0];
        let from = match prev {
            Some(p) => p,
            None => s.validators,
        };
        seq![(s.id, from, s.validators)] + preview_from(steps.drop_first(), Some(s.validators))
    }
}

impl Plan {
    /// All plan steps, in order (the terminal shutdown step included).
    pub fn enabled_steps(&self) -> (r: Vec<&Step>)
        ensures
            r@.len() == self.steps@.len(),
            forall|i: int| 0 <= i < r@.len() ==> *r@[i] == self.steps@[i],
    {
        let mut out: Vec<&Step> = Vec::new();
        let n = self.steps.len();
        for i in 0..n
            invariant
                n == self.steps@.len(),
                out@.len() == i,
                forall|k: int| 0 <= k < i ==> *out@[k] == self.steps@[k],
        {
            out.push(&self.steps[i]);
        }
        out
    }

    /// `(cycle_id, from, to)` validator counts for each non-shutdown step.
    pub fn preview_cycles(&self) -> (r: Vec<(u32, u32, u32)>)
        ensures
            r@ == preview_from(self.steps@, self.meta.start_validators),
    {
        let mut out: Vec<(u32, u32, u32)> = Vec::new();
        let mut prev = self.meta.start_validators;
        let n = self.steps.len();
        assert(self.steps@.skip(0) =~= self.steps@);
        for i in 0..n
            invariant
                n == self.steps@.len(),
                out@ + preview_from(self.steps@.skip(i as int), prev) == preview_from(
                    self.steps@,
                    self.meta.start_validators,
                ),
        {
            let s = &self.steps[i];
            assert(self.steps@.skip(i as int).drop_first() =~= self.steps@.skip(i + 1));
            assert(self.steps@.skip(i as int)[0] == self.steps@[i as int]);
            if !s.shutdown {
                let from = match prev {
                    Some(p) => p,
                    None => s.validators,
                };
                let ghost old_out = out@;
                out.push((s.id, from, s.validators));
                assert(out@ + preview_from(self.steps@.skip(i + 1), Some(s.validators)) =~= old_out
                    + (seq![(s.id, from, s.validators)] + preview_from(
                    self.steps@.skip(i + 1),
                    Some(s.validators),
                )));
                prev = Some(s.validators);
            }
        }
        assert(self.steps@.skip(n as int) =~= Seq::<Step>::empty());
        assert(out@ + Seq::<(u32, u32, u32)>::empty() =~= out@);
        out
    }

    /// The plan's tables have unique keys (the step keys of the exit
    /// cohorts and the para keys of the weights).
    pub open spec fn wf(&self) -> bool {
        keys_unique(self.exit_cohort@) && keys_unique(self.packing.weights@)
    }

    /// The stashes listed for a step, or none.
    pub open spec fn spec_exit_cohort_for(&self, step: &Step) -> Seq<String> {
        match lookup_entry(self.exit_cohort@, step.spec_cohort_key()) {
            Some(v) => v@,
            None => Seq::empty(),
        }
    }

    /// The exit-cohort stashes (ss58 strings) for a given step.
    pub fn exit_cohort_for(&self, step: &Step) -> (r: Vec<String>)
        ensures
            r@ == self.spec_exit_cohort_for(step),
    {
        let key = step.cohort_key();
        match find_entry(&self.exit_cohort, &key) {
            Some(i) => {
                let src = &self.exit_cohort[i].1;
                let mut out: Vec<String> = Vec::new();
                let n = src.len();
                for k in 0..n
                    invariant
                        n == src@.len(),
                        out@ =~= src@.take(k as int),
                {
                    out.push(src[k].clone());
                }
                assert(src@.take(n as int) =~= src@);
                out
            },
            None => Vec::new(),
        }
    }
}

/// Runtime settings (from the environment, with plan defaults).
pub struct Settings {
    pub proxy_suri: Option<String>,
    pub sudo_account: Option<String>,
    pub relay_ws: String,
    pub ah_ws: String,
    pub control_token: Option<String>,
    pub bind_addr: String,
    pub matrix_homeserver: Option<String>,
    pub matrix_token: Option<String>,
    pub matrix_room: Option<String>,
}

/// The text holds only white space (it trims to nothing).
pub open spec fn blank(s: Seq<char>) -> bool {
    forall|i: int| 0 <= i < s.len() ==> is_ws(#[trigger] s[i])
}

/// A setting given a value that is not blank; otherwise unset.
pub open spec fn nonblank(v: Option<String>) -> Option<String> {
    match v {
        Some(s) => if blank(s@) {
            None
        } else {
            Some(s)
        },
        None => None,
    }
}

/// The value given, or the default.
pub open spec fn or_default(v: Option<String>, default: Seq<char>) -> Seq<char> {
    match v {
        Some(s) => s@,
        None => default,
    }
}

fn is_blank(s: &str) -> (r: bool)
    ensures
        r == blank(s@),
{
    let cs = chars_of(s);
    let mut i: usize = 0;
    while i < cs.len()
        invariant
            cs@ == s@,
            i <= cs@.len(),
            forall|k: int| 0 <= k < i ==> is_ws(#[trigger] cs@[k]),
        decreases cs@.len() - i,
    {
        if !ws(cs[i]) {
            return false;
        }
        i = i + 1;
    }
    true
}

fn nonblank_of(v: Option<String>) -> (r: Option<String>)
    ensures
        r == nonblank(v),
{
    match v {
        Some(s) => {
            if is_blank(s.as_str()) {
                None
            } else {
                Some(s)
            }
        },
        None => None,
    }
}

impl Settings {
    /// The settings from the values of the environment variables (`None`
    /// where a variable is not set): the endpoints default to the plan's,
    /// the bind address to `127.0.0.1:8080`; the other settings count only
    /// when not blank.
    pub fn from_env_values(
        plan: &Plan,
        relay_ws: Option<String>,
        ah_ws: Option<String>,
        bind_addr: Option<String>,
        proxy_suri: Option<String>,
        sudo_account: Option<String>,
        control_token: Option<String>,
        matrix_homeserver: Option<String>,
        matrix_token: Option<String>,
        matrix_room: Option<String>,
    ) -> (s: Settings)
        ensures
            s.relay_ws@ == or_default(relay_ws, plan.meta.relay_ws@),
            s.ah_ws@ == or_default(ah_ws, plan.meta.asset_hub_ws@),
            s.bind_addr@ == or_default(bind_addr, "127.0.0.1:8080"@),
            s.proxy_suri == nonblank(proxy_suri),
            s.sudo_account == nonblank(sudo_account),
            s.control_token == nonblank(control_token),
            s.matrix_homeserver == nonblank(matrix_homeserver),
            s.matrix_token == nonblank(matrix_token),
            s.matrix_room == nonblank(matrix_room),
    {
        let relay_ws = match relay_ws {
            Some(v) => v,
            None => plan.meta.relay_ws.clone(),
        };
        let ah_ws = match ah_ws {
            Some(v) => v,
            None => plan.meta.asset_hub_ws.clone(),
        };
        let bind_addr = match bind_addr {
            Some(v) => v,
            None => {
                let mut d = String::new();
                d.append("127.0.0.1:8080");
                d
            },
        };
        Settings {
            proxy_suri: nonblank_of(proxy_suri),
            sudo_account: nonblank_of(sudo_account),
            relay_ws,
            ah_ws,
            control_token: nonblank_of(control_token),
            bind_addr,
            matrix_homeserver: nonblank_of(matrix_homeserver),
            matrix_token: nonblank_of(matrix_token),
            matrix_room: nonblank_of(matrix_room),
        }
    }
}

/// Law: in a plan with unique table keys, a step's exit cohort is the list
/// stored under its `step_<id>` key, and a para's weight is the one stored
/// under its decimal id.
pub proof fn law_tables_read_their_entries(plan: Plan, step: Step, i: int, j: int)
    requires
        plan.wf(),
    ensures
        0 <= i < plan.exit_cohort@.len() && plan.exit_cohort@[i].0@ == step.spec_cohort_key()
            ==> plan.spec_exit_cohort_for(&step) == plan.exit_cohort@[i].1@,
        0 <= j < plan.packing.weights@.len() ==> forall|id: u32|
            plan.packing.weights@[j].0@ == decimal(id as nat) ==> #[trigger] plan.packing.spec_weight_for(id)
                == plan.packing.weights@[j].1,
{
    if 0 <= i < plan.exit_cohort@.len() {
        lemma_lookup_finds_entry(plan.exit_cohort@, i);
    }
    if 0 <= j < plan.packing.weights@.len() {
        lemma_lookup_finds_entry(plan.packing.weights@, j);
    }
}

} // verus!
