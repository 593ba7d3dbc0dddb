//! Reading a dry-run answer: whether the runtime accepted the call and the
//! call dispatched successfully, and a readable error chain when not.

use vstd::prelude::*;
use vstd::string::StringExecFns;

use crate::text::{decimal, push_decimal};
use crate::value::{
    as_seq, children, field, flat_u128, spec_field, spec_flat_u128, spec_variant_name, str_eq,
    variant_name, DynValue,
};

verus! {

/// `parts` joined with `sep`.
pub open spec fn join(parts: Seq<Seq<char>>, sep: Seq<char>) -> Seq<char>
    decreases parts.len(),
{
    if parts.len() == 0 {
        Seq::empty()
    } else if parts.len() == 1 {
        parts[0]
    } else {
        join(parts.drop_last(), sep) + sep + parts.last()
    }
}

/// The texts of a list of strings.
pub open spec fn texts(v: Seq<String>) -> Seq<Seq<char>> {
    v.map_values(|s: String| s@)
}

/// Joins strings with a separator.
pub fn join_strings(parts: &Vec<String>, sep: &str) -> (r: String)
    ensures
        r@ == join(texts(parts@), sep@),
{
    let mut out = String::new();
    let n = parts.len();
    for i in 0..n
        invariant
            n == parts@.len(),
            out@ == join(texts(parts@.take(i as int)), sep@),
    {
        if i > 0 {
            out.append(sep);
        }
        out.append(parts[i].as_str());
        proof {
            let t = texts(parts@.take(i + 1));
            assert(t.drop_last() =~= texts(parts@.take(i as int)));
            assert(t.last() == parts@[i as int]@);
            if i == 0 {
                assert(t.len() == 1);
            }
        }
    }
    assert(parts@.take(n as int) =~= parts@);
    out
}

/// Decimal texts of the children that read as integers.
pub open spec fn int_texts(xs: Seq<DynValue>) -> Seq<Seq<char>>
    decreases xs.len(),
{
    if xs.len() == 0 {
        Seq::empty()
    } else {
        let p = int_texts(xs.drop_last());
        match spec_flat_u128(xs.last()) {
            Some(n) => p.push(decimal(n as nat)),
            None => p,
        }
    }
}

/// The parts a `Module` error adds: the pallet index and the error bytes.
pub open spec fn module_parts(cur: DynValue) -> Seq<Seq<char>> {
    let me = if children(cur).len() > 0 {
        children(cur)[0]
    } else {
        cur
    };
    let idx = match spec_field(me, "index"@) {
        Some(x) => match spec_flat_u128(x) {
            Some(i) => seq!["pallet#"@ + decimal(i as nat)],
            None => Seq::empty(),
        },
        None => Seq::empty(),
    };
    let err = match spec_field(me, "error"@) {
        Some(e) => {
            let b = int_texts(children(e));
            if b.len() > 0 {
                seq!["err=["@ + join(b, ","@) + "]"@]
            } else {
                Seq::empty()
            }
        },
        None => Seq::empty(),
    };
    idx + err
}

/// Where the walk goes after a variant: its `error` field, else its first child.
pub open spec fn next_after_variant(cur: DynValue) -> Option<DynValue> {
    match spec_field(cur, "error"@) {
        Some(n) => Some(n),
        None => if children(cur).len() > 0 {
            Some(children(cur)[0])
        } else {
            None
        },
    }
}

/// Where the walk goes after a composite: its `error` field, else its only child.
pub open spec fn next_after_composite(cur: DynValue) -> Option<DynValue> {
    match spec_field(cur, "error"@) {
        Some(n) => Some(n),
        None => if children(cur).len() == 1 {
            Some(children(cur)[0])
        } else {
            None
        },
    }
}

/// The variant-name chain of a nested error value, at most `fuel` steps.
pub open spec fn describe_from(cur: DynValue, fuel: nat) -> Seq<Seq<char>>
    decreases fuel,
{
    if fuel == 0 {
        Seq::empty()
    } else {
        match spec_variant_name(cur) {
            Some(name) => if name == "Module"@ {
                seq![name] + module_parts(cur)
            } else {
                match next_after_variant(cur) {
                    Some(n) => seq![name] + describe_from(n, (fuel - 1) as nat),
                    None => seq![name],
                }
            },
            None => match next_after_composite(cur) {
                Some(n) => describe_from(n, (fuel - 1) as nat),
                None => Seq::empty(),
            },
        }
    }
}

/// Rendering of an error value: its chain joined by `::`, or "unknown".
pub open spec fn spec_describe(v: DynValue) -> Seq<char> {
    let parts = describe_from(v, 10);
    if parts.len() == 0 {
        "unknown"@
    } else {
        join(parts, "::"@)
    }
}

fn module_texts(cur: &DynValue) -> (r: Vec<String>)
    ensures
        texts(r@) == module_parts(*cur),
{
    let kids = as_seq(cur);
    let me: &DynValue = if kids.len() > 0 {
        kids[0]
    } else {
        cur
    };
    let mut out: Vec<String> = Vec::new();
    match field(me, "index") {
        Some(x) => match flat_u128(x) {
            Some(i) => {
                let mut s = String::new();
                s.append("pallet#");
                push_decimal(&mut s, i);
                out.push(s);
            },
            None => {},
        },
        None => {},
    }
    let ghost idx_part = texts(out@);
    match field(me, "error") {
        Some(e) => {
            let items = as_seq(e);
            let mut b: Vec<String> = Vec::new();
            let n = items.len();
            for i in 0..n
                invariant
                    n == items@.len(),
                    n == children(*e).len(),
                    forall|k: int| 0 <= k < n ==> *items@[k] == children(*e)[k],
                    texts(b@) == int_texts(children(*e).take(i as int)),
            {
                assert(children(*e).take(i + 1).drop_last() =~= children(*e).take(i as int));
                assert(children(*e).take(i + 1).last() == *items@[i as int]);
                match flat_u128(items[i]) {
                    Some(v) => {
                        let mut t = String::new();
                        push_decimal(&mut t, v);
                        let ghost before = b@;
                        b.push(t);
                        assert(texts(b@) =~= texts(before).push(t@));
                    },
                    None => {},
                }
            }
            assert(children(*e).take(n as int) =~= children(*e));
            if b.len() > 0 {
                let mut s = String::new();
                s.append("err=[");
                let joined = join_strings(&b, ",");
                s.append(joined.as_str());
                s.append("]");
                let ghost before = out@;
                out.push(s);
                assert(texts(out@) =~= texts(before).push(s@));
            }
        },
        None => {},
    }
    assert(texts(out@) =~= module_parts(*cur));
    out
}

/// Renders a nested error value as a `::`-joined variant chain (e.g.
/// `Err::Module::pallet#7::err=[2,0,0,0]`), or "unknown".
pub fn describe(v: &DynValue) -> (r: String)
    ensures
        r@ == spec_describe(*v),
{
    let mut parts: Vec<String> = Vec::new();
    let mut cur: &DynValue = v;
    let mut left: usize = 10;
    let mut done = false;
    while left > 0 && !done
        invariant
            left <= 10,
            describe_from(*v, 10) == if done {
                texts(parts@)
            } else {
                texts(parts@) + describe_from(*cur, left as nat)
            },
        decreases left,
    {
        let ghost before = parts@;
        match variant_name(cur) {
            Some(name) => {
                let mut s = String::new();
                s.append(name);
                parts.push(s);
                if str_eq(name, "Module") {
                    let extra = module_texts(cur);
                    let ne = extra.len();
                    let ghost mid = parts@;
                    for i in 0..ne
                        invariant
                            ne == extra@.len(),
                            texts(parts@) == texts(mid) + texts(extra@.take(i as int)),
                    {
                        let c = extra[i].clone();
                        let ghost pre = parts@;
                        parts.push(c);
                        assert(texts(parts@) =~= texts(pre).push(c@));
                        assert(texts(extra@.take(i + 1)) =~= texts(extra@.take(i as int)).push(
                            extra@[i as int]@,
                        ));
                        assert(texts(parts@) =~= texts(mid) + texts(extra@.take(i + 1)));
                    }
                    assert(extra@.take(ne as int) =~= extra@);
                    assert(texts(parts@) =~= texts(before) + (seq![name@] + module_parts(*cur)));
                    done = true;
                } else {
                    let kids = as_seq(cur);
                    let next = match field(cur, "error") {
                        Some(n) => Some(n),
                        None => if kids.len() > 0 {
                            Some(kids[0])
                        } else {
                            None
                        },
                    };
                    match next {
                        Some(n) => {
                            assert(texts(parts@) + describe_from(*n, (left - 1) as nat) =~= texts(
                                before,
                            ) + (seq![name@] + describe_from(*n, (left - 1) as nat)));
                            cur = n;
                        },
                        None => {
                            assert(texts(parts@) =~= texts(before) + seq![name@]);
                            done = true;
                        },
                    }
                }
            },
            None => {
                let kids = as_seq(cur);
                let next = match field(cur, "error") {
                    Some(n) => Some(n),
                    None => if kids.len() == 1 {
                        Some(kids[0])
                    } else {
                        None
                    },
                };
                match next {
                    Some(n) => {
                        cur = n;
                    },
                    None => {
                        assert(texts(parts@) =~= texts(parts@) + Seq::<Seq<char>>::empty());
                        done = true;
                    },
                }
            },
        }
        left = left - 1;
    }
    if !done {
        assert(texts(parts@) =~= texts(parts@) + describe_from(*cur, 0));
    }
    if parts.len() == 0 {
        let mut s = String::new();
        s.append("unknown");
        s
    } else {
        join_strings(&parts, "::")
    }
}

/// Why a dry run did not pass.
pub enum DryRunError {
    /// The runtime answered `Ok` without effects.
    NoEffects,
    /// The effects carry no `execution_result`.
    MissingExecutionResult,
    /// The call would fail when dispatched (rendered error chain).
    Dispatch(String),
    /// `execution_result` is not a `Result`.
    ExecutionNotResult,
    /// The runtime rejected the dry run itself (rendered error chain).
    Rejected(String),
    /// The answer is not a `Result`.
    NotResult,
}

/// The message of a dry-run error for the call at `path`, naming the call.
pub open spec fn message_text(e: DryRunError, path: Seq<char>) -> Seq<char> {
    match e {
        DryRunError::NoEffects => "dry-run Ok had no effects for "@ + path,
        DryRunError::MissingExecutionResult => "dry-run effects missing execution_result for "@ + path,
        DryRunError::Dispatch(d) => "dry-run dispatch error for "@ + path + ": "@ + d@,
        DryRunError::ExecutionNotResult => "dry-run execution_result not a Result for "@ + path,
        DryRunError::Rejected(d) => "dry-run rejected (DryRunApi Err) for "@ + path + ": "@ + d@,
        DryRunError::NotResult => "dry-run result not a Result variant for "@ + path,
    }
}

impl DryRunError {
    /// The error's message for the call at `path` (such as
    /// `"dry-run dispatch error for Broker.assign_core: Err::Module::Broker"`).
    pub fn message(&self, path: &str) -> (m: String)
        ensures
            m@ == message_text(*self, path@),
    {
        let mut m = String::new();
        match self {
            DryRunError::NoEffects => {
                m.append("dry-run Ok had no effects for ");
                m.append(path);
            },
            DryRunError::MissingExecutionResult => {
                m.append("dry-run effects missing execution_result for ");
                m.append(path);
            },
            DryRunError::Dispatch(d) => {
                m.append("dry-run dispatch error for ");
                m.append(path);
                m.append(": ");
                m.append(d.as_str());
            },
            DryRunError::ExecutionNotResult => {
                m.append("dry-run execution_result not a Result for ");
                m.append(path);
            },
            DryRunError::Rejected(d) => {
                m.append("dry-run rejected (DryRunApi Err) for ");
                m.append(path);
                m.append(": ");
                m.append(d.as_str());
            },
            DryRunError::NotResult => {
                m.append("dry-run result not a Result variant for ");
                m.append(path);
            },
        }
        m
    }
}

/// What a dry-run answer means.
pub enum DryRunVerdict {
    Passed,
    NoEffects,
    MissingExecutionResult,
    Dispatch(Seq<char>),
    ExecutionNotResult,
    Rejected(Seq<char>),
    NotResult,
}

/// The meaning of a dry-run answer `Result<CallDryRunEffects, Error>` whose
/// effects carry the dispatch `Result` in `execution_result`.
pub open spec fn dry_run_verdict(res: DynValue) -> DryRunVerdict {
    if spec_variant_name(res) == Some("Ok"@) {
        if children(res).len() == 0 {
            DryRunVerdict::NoEffects
        } else {
            match spec_field(children(res)[0], "execution_result"@) {
                None => DryRunVerdict::MissingExecutionResult,
                Some(exec) => if spec_variant_name(exec) == Some("Ok"@) {
                    DryRunVerdict::Passed
                } else if spec_variant_name(exec) == Some("Err"@) {
                    DryRunVerdict::Dispatch(spec_describe(exec))
                } else {
                    DryRunVerdict::ExecutionNotResult
                },
            }
        }
    } else if spec_variant_name(res) == Some("Err"@) {
        DryRunVerdict::Rejected(spec_describe(res))
    } else {
        DryRunVerdict::NotResult
    }
}

/// The verdict a result reports.
pub open spec fn verdict_of(r: Result<(), DryRunError>) -> DryRunVerdict {
    match r {
        Ok(()) => DryRunVerdict::Passed,
        Err(DryRunError::NoEffects) => DryRunVerdict::NoEffects,
        Err(DryRunError::MissingExecutionResult) => DryRunVerdict::MissingExecutionResult,
        Err(DryRunError::Dispatch(s)) => DryRunVerdict::Dispatch(s@),
        Err(DryRunError::ExecutionNotResult) => DryRunVerdict::ExecutionNotResult,
        Err(DryRunError::Rejected(s)) => DryRunVerdict::Rejected(s@),
        Err(DryRunError::NotResult) => DryRunVerdict::NotResult,
    }
}

fn is_name(v: &DynValue, name: &str) -> (r: bool)
    ensures
        r == (spec_variant_name(*v) == Some(name@)),
{
    match variant_name(v) {
        Some(n) => str_eq(n, name),
        None => false,
    }
}

/// Interprets a dry-run answer: `Ok(())` only when both the runtime call and
/// the inner dispatch succeeded.
pub fn interpret_dry_run(res: &DynValue) -> (r: Result<(), DryRunError>)
    ensures
        verdict_of(r) == dry_run_verdict(*res),
{
    if is_name(res, "Ok") {
        let kids = as_seq(res);
        if kids.len() == 0 {
            return Err(DryRunError::NoEffects);
        }
        match field(kids[0], "execution_result") {
            None => Err(DryRunError::MissingExecutionResult),
            Some(exec) => {
                if is_name(exec, "Ok") {
                    Ok(())
                } else if is_name(exec, "Err") {
                    Err(DryRunError::Dispatch(describe(exec)))
                } else {
                    Err(DryRunError::ExecutionNotResult)
                }
            },
        }
    } else if is_name(res, "Err") {
        Err(DryRunError::Rejected(describe(res)))
    } else {
        Err(DryRunError::NotResult)
    }
}

} // verus!
