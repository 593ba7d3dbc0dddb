//! Addressing a Matrix room: when the notifier is configured, whether a room
//! must be resolved from its alias, the client-server API URLs, and the
//! percent-encoding of room ids and aliases in them.

use vstd::prelude::*;

use vstd::string::StringSliceAdditionalSpecFns;

use vstd::string::{StrSliceExecFns, StringExecFns};

use crate::text::{decimal, push_char, push_decimal};

verus! {

/// Bytes kept as they are in a path segment: ASCII letters, digits, `-_.~`.
pub open spec fn unreserved(b: u8) -> bool {
    (65 <= b <= 90) || (97 <= b <= 122) || (48 <= b <= 57) || b == 45 || b == 95 || b == 46
        || b == 126
}

/// Upper-case hexadecimal digit of `d` (`d < 16`).
pub open spec fn hex_digit(d: u8) -> char {
    if d < 10 {
        ((48 + d) as u32) as char
    } else {
        ((55 + d) as u32) as char
    }
}

/// Percent-encoding of a byte string: unreserved bytes as themselves, any
/// other byte as `%` and two upper-case hex digits.
pub open spec fn percent_encoded(bytes: Seq<u8>) -> Seq<char>
    decreases bytes.len(),
{
    if bytes.len() == 0 {
        Seq::empty()
    } else {
        let b = bytes.last();
        let prev = percent_encoded(bytes.drop_last());
        if unreserved(b) {
            prev.push((b as u32) as char)
        } else {
            prev.push('%').push(hex_digit(b / 16)).push(hex_digit(b % 16))
        }
    }
}

fn hex(d: u8) -> (c: char)
    requires
        d < 16,
    ensures
        c == hex_digit(d),
{
    if d < 10 {
        (48u8 + d) as char
    } else {
        (55u8 + d) as char
    }
}

/// Percent-encodes the characters that are not safe in a URL path segment
/// (room ids and aliases contain `#`, `:`, `!`), byte by byte of the UTF-8
/// encoding.
pub fn enc(s: &str) -> (r: String)
    ensures
        r@ == percent_encoded(s.spec_bytes()),
{
    let bytes = s.as_bytes();
    let mut out = String::new();
    let n = bytes.len();
    for i in 0..n
        invariant
            n == bytes@.len(),
            out@ == percent_encoded(bytes@.take(i as int)),
    {
        let b = bytes[i];
        assert(bytes@.take(i + 1).drop_last() =~= bytes@.take(i as int));
        assert(bytes@.take(i + 1).last() == b);
        let keep = (65 <= b && b <= 90) || (97 <= b && b <= 122) || (48 <= b && b <= 57) || b == 45
            || b == 95 || b == 46 || b == 126;
        if keep {
            push_char(&mut out, b as char);
        } else {
            push_char(&mut out, '%');
            push_char(&mut out, hex(b / 16));
            push_char(&mut out, hex(b % 16));
        }
    }
    assert(bytes@.take(n as int) =~= bytes@);
    out
}

/// `s` without its trailing slashes.
pub open spec fn trim_slashes(s: Seq<char>) -> Seq<char>
    decreases s.len(),
{
    if s.len() > 0 && s.last() == '/' {
        trim_slashes(s.drop_last())
    } else {
        s
    }
}

/// The notifier's settings once all three are given: the homeserver URL
/// without trailing slashes, the access token, and the room (an id `!..` or
/// an alias `#..`).
pub struct MatrixConfig {
    pub homeserver: String,
    pub token: String,
    pub room: String,
}

/// The notifier's settings, or `None` (disabled) unless homeserver, token and
/// room are all given and non-empty.
pub fn matrix_config(homeserver: Option<String>, token: Option<String>, room: Option<String>) -> (r: Option<
    MatrixConfig,
>)
    ensures
        match (homeserver, token, room) {
            (Some(h), Some(t), Some(m)) => if h@.len() > 0 && t@.len() > 0 && m@.len() > 0 {
                r matches Some(c) && c.homeserver@ == trim_slashes(h@) && c.token == t && c.room == m
            } else {
                r is None
            },
            _ => r is None,
        },
{
    match (homeserver, token, room) {
        (Some(h), Some(t), Some(m)) => {
            if h.as_str().unicode_len() > 0 && t.as_str().unicode_len() > 0 && m.as_str().unicode_len() > 0 {
                let hv: Vec<char> = crate::control::chars_of(h.as_str());
                let mut end = hv.len();
                assert(hv@.take(end as int) =~= h@);
                while end > 0 && hv[end - 1] == '/'
                    invariant
                        end <= hv@.len(),
                        hv@ == h@,
                        trim_slashes(h@) == trim_slashes(hv@.take(end as int)),
                    decreases end,
                {
                    assert(hv@.take(end as int).drop_last() =~= hv@.take(end - 1));
                    end = end - 1;
                }
                let mut hs = String::new();
                for i in 0..end
                    invariant
                        end <= hv@.len(),
                        hs@ =~= hv@.take(i as int),
                {
                    push_char(&mut hs, hv[i]);
                }
                assert(trim_slashes(hv@.take(end as int)) == hv@.take(end as int));
                Some(MatrixConfig { homeserver: hs, token: t, room: m })
            } else {
                None
            }
        },
        _ => None,
    }
}

/// Whether the room is given by alias and must be resolved to an id first
/// (anything not starting with `!`).
pub fn needs_alias_resolution(room: &str) -> (r: bool)
    ensures
        r == !(room@.len() > 0 && room@[0] == '!'),
{
    if room.unicode_len() == 0 {
        true
    } else {
        room.get_char(0) != '!'
    }
}

/// `<homeserver>/_matrix/client/v3/directory/room/<alias, encoded>`.
pub fn alias_url(homeserver: &str, alias: &str) -> (r: String)
    ensures
        r@ == homeserver@ + "/_matrix/client/v3/directory/room/"@ + percent_encoded(alias.spec_bytes()),
{
    let mut s = String::new();
    s.append(homeserver);
    s.append("/_matrix/client/v3/directory/room/");
    let e = enc(alias);
    s.append(e.as_str());
    s
}

/// `<homeserver>/_matrix/client/v3/rooms/<room id, encoded>/send/m.room.message/paseo-<txn>`.
pub fn send_url(homeserver: &str, room_id: &str, txn: u64) -> (r: String)
    ensures
        r@ == homeserver@ + "/_matrix/client/v3/rooms/"@ + percent_encoded(room_id.spec_bytes())
            + "/send/m.room.message/paseo-"@ + decimal(txn as nat),
{
    let mut s = String::new();
    s.append(homeserver);
    s.append("/_matrix/client/v3/rooms/");
    let e = enc(room_id);
    s.append(e.as_str());
    s.append("/send/m.room.message/paseo-");
    push_decimal(&mut s, txn as u128);
    s
}

} // verus!
