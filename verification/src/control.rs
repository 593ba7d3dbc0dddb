//! Operator control requests: which action is asked for, and whether the
//! request carries the configured bearer token.

use vstd::prelude::*;
use vstd::string::StrSliceExecFns;

use crate::shared::{same_but_paused, Shared};
use crate::text::push_char;
use crate::value::str_eq;

verus! {

/// An operator action.
#[derive(Clone, Copy, Debug, PartialEq, Eq, Structural)]
pub enum ControlAction {
    Pause,
    Resume,
    Unknown,
}

/// The action named by a control request ("pause" or "resume").
pub fn control_action(action: &str) -> (r: ControlAction)
    ensures
        r == if action@ == "pause"@ {
            ControlAction::Pause
        } else if action@ == "resume"@ {
            ControlAction::Resume
        } else {
            ControlAction::Unknown
        },
{
    if str_eq(action, "pause") {
        ControlAction::Pause
    } else if str_eq(action, "resume") {
        ControlAction::Resume
    } else {
        ControlAction::Unknown
    }
}

/// Unicode `White_Space` (what `char::is_whitespace` tests).
pub open spec fn is_ws(c: char) -> bool {
    let u = c as u32;
    u == 0x20 || (0x09 <= u <= 0x0d) || u == 0x85 || u == 0xa0 || u == 0x1680 || (0x2000 <= u
        <= 0x200a) || u == 0x2028 || u == 0x2029 || u == 0x202f || u == 0x205f || u == 0x3000
}

pub(crate) fn ws(c: char) -> (r: bool)
    ensures
        r == is_ws(c),
{
    let u = c as u32;
    u == 0x20 || (0x09 <= u && u <= 0x0d) || u == 0x85 || u == 0xa0 || u == 0x1680 || (0x2000 <= u
        && u <= 0x200a) || u == 0x2028 || u == 0x2029 || u == 0x202f || u == 0x205f || u == 0x3000
}

/// The text with every leading `"Bearer "` removed, repeatedly.
pub open spec fn strip_bearer(s: Seq<char>) -> Seq<char>
    decreases s.len(),
{
    if s.len() >= 7 && s.take(7) == seq!['B', 'e', 'a', 'r', 'e', 'r', ' '] {
        strip_bearer(s.skip(7))
    } else {
        s
    }
}

/// Leading white space removed.
pub open spec fn trim_start(s: Seq<char>) -> Seq<char>
    decreases s.len(),
{
    if s.len() > 0 && is_ws(s[0]) {
        trim_start(s.skip(1))
    } else {
        s
    }
}

/// Trailing white space removed.
pub open spec fn trim_end(s: Seq<char>) -> Seq<char>
    decreases s.len(),
{
    if s.len() > 0 && is_ws(s.last()) {
        trim_end(s.drop_last())
    } else {
        s
    }
}

/// Whether an `Authorization` header value carries `expected`: every
/// leading `"Bearer "` stripped, then surrounding white space trimmed.
pub open spec fn bearer_matches(header: Seq<char>, expected: Seq<char>) -> bool {
    trim_end(trim_start(strip_bearer(header))) == expected
}

/// Whether a control request may proceed: always when no token is
/// configured, else only with a header that carries the token.
pub open spec fn spec_authorized(header: Option<Seq<char>>, expected: Option<Seq<char>>) -> bool {
    match expected {
        None => true,
        Some(e) => match header {
            Some(h) => bearer_matches(h, e),
            None => false,
        },
    }
}

pub(crate) fn chars_of(s: &str) -> (r: Vec<char>)
    ensures
        r@ == s@,
{
    let n = s.unicode_len();
    let mut out: Vec<char> = Vec::new();
    for i in 0..n
        invariant
            n == s@.len(),
            out@ =~= s@.take(i as int),
    {
        out.push(s.get_char(i));
    }
    assert(s@.take(n as int) =~= s@);
    out
}

proof fn lemma_strip_at(s: Seq<char>, k: int)
    requires
        0 <= k <= s.len(),
        strip_bearer(s) == strip_bearer(s.skip(k)),
        s.len() - k >= 7 && s.skip(k).take(7) == seq!['B', 'e', 'a', 'r', 'e', 'r', ' '],
    ensures
        strip_bearer(s) == strip_bearer(s.skip(k + 7)),
{
    assert(s.skip(k).skip(7) =~= s.skip(k + 7));
}

/// Whether a control request may proceed.
pub fn authorized(header: Option<&str>, expected: Option<&str>) -> (r: bool)
    ensures
        r == spec_authorized(
            match header {
                Some(h) => Some(h@),
                None => None,
            },
            match expected {
                Some(e) => Some(e@),
                None => None,
            },
        ),
{
    let e = match expected {
        None => {
            return true;
        },
        Some(e) => e,
    };
    let h = match header {
        None => {
            return false;
        },
        Some(h) => h,
    };
    let cs = chars_of(h);
    let n = cs.len();
    // Strip leading "Bearer " repeatedly.
    let mut a: usize = 0;
    assert(cs@.skip(0) =~= cs@);
    loop
        invariant
            n == cs@.len(),
            a <= n,
            strip_bearer(cs@) == strip_bearer(cs@.skip(a as int)),
        ensures
            a <= n,
            strip_bearer(cs@) == cs@.skip(a as int),
        decreases n - a,
    {
        let is_prefix = n - a >= 7 && cs[a] == 'B' && cs[a + 1] == 'e' && cs[a + 2] == 'a'
            && cs[a + 3] == 'r' && cs[a + 4] == 'e' && cs[a + 5] == 'r' && cs[a + 6] == ' ';
        if is_prefix {
            proof {
                assert(cs@.skip(a as int).take(7) =~= seq!['B', 'e', 'a', 'r', 'e', 'r', ' ']);
                lemma_strip_at(cs@, a as int);
            }
            a = a + 7;
        } else {
            proof {
                let t = cs@.skip(a as int);
                if t.len() >= 7 && t.take(7) == seq!['B', 'e', 'a', 'r', 'e', 'r', ' '] {
                    assert(t.take(7)[0] == cs@[a as int]);
                    assert(t.take(7)[1] == cs@[a + 1]);
                    assert(t.take(7)[2] == cs@[a + 2]);
                    assert(t.take(7)[3] == cs@[a + 3]);
                    assert(t.take(7)[4] == cs@[a + 4]);
                    assert(t.take(7)[5] == cs@[a + 5]);
                    assert(t.take(7)[6] == cs@[a + 6]);
                }
            }
            break;
        }
    }
    let ghost stripped = cs@.skip(a as int);
    // Trim leading white space.
    let mut b = a;
    assert(stripped.skip(0) =~= stripped);
    while b < n && ws(cs[b])
        invariant
            n == cs@.len(),
            a <= b <= n,
            stripped == cs@.skip(a as int),
            trim_start(stripped) == trim_start(cs@.skip(b as int)),
        decreases n - b,
    {
        assert(cs@.skip(b as int).skip(1) =~= cs@.skip(b + 1));
        b = b + 1;
    }
    let ghost started = cs@.skip(b as int);
    assert(trim_start(stripped) == started);
    // Trim trailing white space.
    let mut c = n;
    assert(started.take(started.len() as int) =~= started);
    while c > b && ws(cs[c - 1])
        invariant
            n == cs@.len(),
            b <= c <= n,
            started == cs@.skip(b as int),
            trim_end(started) == trim_end(cs@.subrange(b as int, c as int)),
        decreases c - b,
    {
        assert(cs@.subrange(b as int, c as int).drop_last() =~= cs@.subrange(b as int, c - 1));
        c = c - 1;
    }
    assert(cs@.skip(b as int).take((n - b) as int) =~= cs@.subrange(b as int, n as int));
    let ghost trimmed = cs@.subrange(b as int, c as int);
    assert(trim_end(started) == trimmed);
    let mut got = String::new();
    for i in b..c
        invariant
            b <= c <= n,
            n == cs@.len(),
            got@ =~= cs@.subrange(b as int, i as int),
    {
        push_char(&mut got, cs[i]);
    }
    let want = e.to_owned();
    got == want
}

/// The answer to a control request.
#[derive(Clone, Copy, Debug, PartialEq, Eq, Structural)]
pub enum ControlReply {
    /// The bearer token is missing or wrong.
    Unauthorized,
    /// The schedule is now paused.
    Paused,
    /// The schedule runs again.
    Resumed,
    /// The action is neither "pause" nor "resume".
    UnknownAction,
}

/// The reply to a control request with `Authorization` header `header` and
/// action `action`, when the configured token is `token`.
pub open spec fn spec_control_reply(header: Option<Seq<char>>, token: Option<Seq<char>>, action: Seq<char>) -> ControlReply {
    if !spec_authorized(header, token) {
        ControlReply::Unauthorized
    } else if action == "pause"@ {
        ControlReply::Paused
    } else if action == "resume"@ {
        ControlReply::Resumed
    } else {
        ControlReply::UnknownAction
    }
}

/// Handles an operator control request: checks the bearer token against the
/// configured one, then pauses or resumes the schedule. Only an authorized
/// pause or resume changes anything, and then only the pause flag.
pub fn apply_control(shared: &mut Shared, header: Option<&str>, action: &str) -> (r: ControlReply)
    ensures
        r == spec_control_reply(
            match header {
                Some(h) => Some(h@),
                None => None,
            },
            match old(shared).control_token {
                Some(t) => Some(t@),
                None => None,
            },
            action@,
        ),
        final(shared).inner.persisted.paused == match r {
            ControlReply::Paused => true,
            ControlReply::Resumed => false,
            _ => old(shared).inner.persisted.paused,
        },
        same_but_paused(*final(shared), *old(shared)),
{
    let ok = match &shared.control_token {
        Some(t) => authorized(header, Some(t.as_str())),
        None => authorized(header, None),
    };
    if !ok {
        return ControlReply::Unauthorized;
    }
    match control_action(action) {
        ControlAction::Pause => {
            shared.set_paused(true);
            ControlReply::Paused
        },
        ControlAction::Resume => {
            shared.set_paused(false);
            ControlReply::Resumed
        },
        ControlAction::Unknown => ControlReply::UnknownAction,
    }
}

} // verus!
