//! Decoded chain values (storage entries and runtime-API answers), read by
//! shape: composites (named or positional), variants, unsigned integers.

use vstd::prelude::*;

verus! {

/// A decoded value.
pub enum DynValue {
    /// Composite with named fields, in order.
    Named(Vec<(String, DynValue)>),
    /// Composite with positional fields.
    Unnamed(Vec<DynValue>),
    /// Enum variant with named fields.
    NamedVariant(String, Vec<(String, DynValue)>),
    /// Enum variant with positional fields.
    UnnamedVariant(String, Vec<DynValue>),
    /// A primitive that reads as an unsigned 128-bit integer.
    Uint(u128),
    /// Any other primitive (text, bool, signed, bit sequence, ...).
    Other,
}

/// The values of a list of named fields.
pub open spec fn field_values(f: Seq<(String, DynValue)>) -> Seq<DynValue> {
    f.map_values(|p: (String, DynValue)| p.1)
}

/// The child values of a composite or variant, in order (none for a primitive).
pub open spec fn children(v: DynValue) -> Seq<DynValue> {
    match v {
        DynValue::Named(f) => field_values(f@),
        DynValue::Unnamed(x) => x@,
        DynValue::NamedVariant(_, f) => field_values(f@),
        DynValue::UnnamedVariant(_, x) => x@,
        _ => Seq::empty(),
    }
}

/// A primitive integer, digging through single-child wrappers.
pub open spec fn spec_flat_u128(v: DynValue) -> Option<u128>
    decreases v,
{
    match v {
        DynValue::Uint(u) => Some(u),
        DynValue::Named(f) => if f@.len() == 1 {
            spec_flat_u128(f@[0].1)
        } else {
            None
        },
        DynValue::Unnamed(x) => if x@.len() == 1 {
            spec_flat_u128(x@[0])
        } else {
            None
        },
        DynValue::NamedVariant(_, f) => if f@.len() == 1 {
            spec_flat_u128(f@[0].1)
        } else {
            None
        },
        DynValue::UnnamedVariant(_, x) => if x@.len() == 1 {
            spec_flat_u128(x@[0])
        } else {
            None
        },
        DynValue::Other => None,
    }
}

/// [`spec_flat_u128`] narrowed to `u32` (`None` when it does not fit).
pub open spec fn spec_flat_u32(v: DynValue) -> Option<u32> {
    match spec_flat_u128(v) {
        Some(u) => if u <= u32::MAX {
            Some(u as u32)
        } else {
            None
        },
        None => None,
    }
}

/// The variant name of a value, if it is a variant.
pub open spec fn spec_variant_name(v: DynValue) -> Option<Seq<char>> {
    match v {
        DynValue::NamedVariant(n, _) => Some(n@),
        DynValue::UnnamedVariant(n, _) => Some(n@),
        _ => None,
    }
}

/// The first field called `name` in a list of named fields.
pub open spec fn named_lookup(f: Seq<(String, DynValue)>, name: Seq<char>) -> Option<DynValue>
    decreases f.len(),
{
    if f.len() == 0 {
        None
    } else if f[0].0@ == name {
        Some(f[0].1)
    } else {
        named_lookup(f.drop_first(), name)
    }
}

/// The field called `name` of a composite or variant with named fields.
pub open spec fn spec_field(v: DynValue, name: Seq<char>) -> Option<DynValue> {
    match v {
        DynValue::Named(f) => named_lookup(f@, name),
        DynValue::NamedVariant(_, f) => named_lookup(f@, name),
        _ => None,
    }
}

/// The child values of a composite or variant, in order.
pub fn as_seq(v: &DynValue) -> (r: Vec<&DynValue>)
    ensures
        r@.len() == children(*v).len(),
        forall|i: int| 0 <= i < r@.len() ==> *r@[i] == children(*v)[i],
{
    let mut out: Vec<&DynValue> = Vec::new();
    match v {
        DynValue::Named(f) | DynValue::NamedVariant(_, f) => {
            let n = f.len();
            for i in 0..n
                invariant
                    n == f@.len(),
                    children(*v) == field_values(f@),
                    out@.len() == i,
                    forall|k: int| 0 <= k < i ==> *out@[k] == f@[k].1,
            {
                out.push(&f[i].1);
            }
        },
        DynValue::Unnamed(x) | DynValue::UnnamedVariant(_, x) => {
            let n = x.len();
            for i in 0..n
                invariant
                    n == x@.len(),
                    children(*v) == x@,
                    out@.len() == i,
                    forall|k: int| 0 <= k < i ==> *out@[k] == x@[k],
            {
                out.push(&x[i]);
            }
        },
        _ => {},
    }
    out
}

/// Number of child values.
pub fn seq_len(v: &DynValue) -> (r: usize)
    ensures
        r == children(*v).len(),
{
    match v {
        DynValue::Named(f) | DynValue::NamedVariant(_, f) => f.len(),
        DynValue::Unnamed(x) | DynValue::UnnamedVariant(_, x) => x.len(),
        _ => 0,
    }
}

/// Digs through single-field wrappers (newtypes such as para or core
/// indices) to a primitive integer.
pub fn flat_u128(v: &DynValue) -> (r: Option<u128>)
    ensures
        r == spec_flat_u128(*v),
    decreases v,
{
    match v {
        DynValue::Uint(u) => Some(*u),
        DynValue::Named(f) | DynValue::NamedVariant(_, f) => {
            if f.len() == 1 {
                flat_u128(&f[0].1)
            } else {
                None
            }
        },
        DynValue::Unnamed(x) | DynValue::UnnamedVariant(_, x) => {
            if x.len() == 1 {
                flat_u128(&x[0])
            } else {
                None
            }
        },
        DynValue::Other => None,
    }
}

/// Same as [`flat_u128`] but narrowed to `u32`.
pub fn flat_u32(v: &DynValue) -> (r: Option<u32>)
    ensures
        r == spec_flat_u32(*v),
{
    match flat_u128(v) {
        Some(u) => if u <= 4294967295u128 {
            Some(u as u32)
        } else {
            None
        },
        None => None,
    }
}

/// The variant name of a value, if it is a variant.
pub fn variant_name(v: &DynValue) -> (r: Option<&str>)
    ensures
        match r {
            Some(s) => spec_variant_name(*v) == Some(s@),
            None => spec_variant_name(*v) is None,
        },
{
    match v {
        DynValue::NamedVariant(n, _) | DynValue::UnnamedVariant(n, _) => Some(n.as_str()),
        _ => None,
    }
}

/// Navigates to the named field `name`.
pub fn field<'a>(v: &'a DynValue, name: &str) -> (r: Option<&'a DynValue>)
    ensures
        match r {
            Some(x) => spec_field(*v, name@) == Some(*x),
            None => spec_field(*v, name@) is None,
        },
{
    match v {
        DynValue::Named(f) | DynValue::NamedVariant(_, f) => {
            let n = f.len();
            let mut i: usize = 0;
            assert(f@.skip(0) =~= f@);
            while i < n
                invariant
                    n == f@.len(),
                    i <= n,
                    spec_field(*v, name@) == named_lookup(f@.skip(i as int), name@),
                decreases n - i,
            {
                if str_eq(f[i].0.as_str(), name) {
                    assert(f@.skip(i as int)[0] == f@[i as int]);
                    return Some(&f[i].1);
                }
                assert(f@.skip(i as int).drop_first() =~= f@.skip(i + 1));
                i = i + 1;
            }
            None
        },
        _ => None,
    }
}

/// Text equality of two string slices.
pub fn str_eq(a: &str, b: &str) -> (r: bool)
    ensures
        r == (a@ == b@),
{
    let x = a.to_owned();
    let y = b.to_owned();
    x == y
}

} // verus!
