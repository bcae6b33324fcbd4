//! The identifier grammar the command parser accepts.
//!
//! Matrix identifiers are a sigil, a nonempty localpart, and a server name;
//! event identifiers may instead be a sigil followed by an opaque value.
//! A server name here is a host of letters, digits, dots and hyphens,
//! optionally followed by a colon and a nonempty numeric port.

use crate::strutil::{find_char, find_char_spec, lemma_find_char_spec};
use vstd::prelude::*;

verus! {

/// A character a host name may contain.
pub open spec fn is_host_char(c: char) -> bool {
    ('a' <= c && c <= 'z') || ('A' <= c && c <= 'Z') || ('0' <= c && c <= '9') || c == '-' || c
        == '.'
}

/// An ASCII digit.
pub open spec fn is_digit(c: char) -> bool {
    '0' <= c && c <= '9'
}

/// A server name: a nonempty host, optionally `:` and a nonempty port.
pub open spec fn is_server_name(s: Seq<char>) -> bool {
    s.len() > 0 && match find_char_spec(s, ':', 0) {
        None => forall|i: int| 0 <= i < s.len() ==> is_host_char(s[i]),
        Some(i) => i > 0 && (forall|j: int| 0 <= j < i ==> is_host_char(s[j])) && i + 1 < s.len()
            && (forall|j: int| i < j < s.len() ==> is_digit(s[j])),
    }
}

/// A sigil identifier: the sigil, a nonempty localpart, `:`, a server name.
pub open spec fn sigil_id_ok(s: Seq<char>, sigil: char) -> bool {
    s.len() >= 2 && s[0] == sigil && match find_char_spec(s, ':', 1) {
        Some(i) => i > 1 && is_server_name(s.subrange(i + 1, s.len() as int)),
        None => false,
    }
}

/// A user id: `@localpart:server`.
pub open spec fn is_user_id(s: Seq<char>) -> bool {
    sigil_id_ok(s, '@')
}

/// A room id: `!opaque:server`.
pub open spec fn is_room_id(s: Seq<char>) -> bool {
    sigil_id_ok(s, '!')
}

/// A room alias: `#alias:server`.
pub open spec fn is_room_alias(s: Seq<char>) -> bool {
    sigil_id_ok(s, '#')
}

/// An event id: `$opaque`, with a server name required only when a colon is
/// present.
pub open spec fn is_event_id(s: Seq<char>) -> bool {
    s.len() >= 2 && s[0] == '$' && match find_char_spec(s, ':', 1) {
        Some(i) => i > 1 && is_server_name(s.subrange(i + 1, s.len() as int)),
        None => true,
    }
}

/// Are all characters in `[from, to)` host characters?
fn all_host_chars_in(s: &str, from: usize, to: usize) -> (r: bool)
    requires
        from <= to <= s@.len(),
    ensures
        r == forall|j: int| from <= j < to ==> is_host_char(s@[j]),
{
    let mut i: usize = from;
    while i < to
        invariant
            from <= i <= to,
            to <= s@.len(),
            forall|j: int| from <= j < i ==> is_host_char(s@[j]),
        decreases to - i,
    {
        let c = s.get_char(i);
        if !(('a' <= c && c <= 'z') || ('A' <= c && c <= 'Z') || ('0' <= c && c <= '9') || c == '-'
            || c == '.') {
            assert(!is_host_char(s@[i as int]));
            return false;
        }
        i += 1;
    }
    true
}

/// Are all characters in `[from, to)` digits?
fn all_digits_in(s: &str, from: usize, to: usize) -> (r: bool)
    requires
        from <= to <= s@.len(),
    ensures
        r == forall|j: int| from <= j < to ==> is_digit(s@[j]),
{
    let mut i: usize = from;
    while i < to
        invariant
            from <= i <= to,
            to <= s@.len(),
            forall|j: int| from <= j < i ==> is_digit(s@[j]),
        decreases to - i,
    {
        let c = s.get_char(i);
        if !('0' <= c && c <= '9') {
            assert(!is_digit(s@[i as int]));
            return false;
        }
        i += 1;
    }
    true
}

/// Check a server name.
pub fn check_server_name(s: &str) -> (r: bool)
    ensures
        r == is_server_name(s@),
{
    let len = s.unicode_len();
    if len == 0 {
        return false;
    }
    proof {
        lemma_find_char_spec(s@, ':', 0);
    }
    match find_char(s, ':', 0) {
        None => all_host_chars_in(s, 0, len),
        Some(i) => {
            if i == 0 {
                return false;
            }
            if i + 1 >= len {
                return false;
            }
            all_host_chars_in(s, 0, i) && all_digits_in(s, i + 1, len)
        },
    }
}

fn check_sigil_id(s: &str, sigil: char) -> (r: bool)
    ensures
        r == sigil_id_ok(s@, sigil),
{
    let len = s.unicode_len();
    if len < 2 {
        return false;
    }
    if s.get_char(0) != sigil {
        return false;
    }
    proof {
        lemma_find_char_spec(s@, ':', 1);
    }
    match find_char(s, ':', 1) {
        None => false,
        Some(i) => {
            if i <= 1 {
                return false;
            }
            check_server_name(s.substring_char(i + 1, len))
        },
    }
}

/// Check a user id.
pub fn check_user_id(s: &str) -> (r: bool)
    ensures
        r == is_user_id(s@),
{
    check_sigil_id(s, '@')
}

/// Check a room id.
pub fn check_room_id(s: &str) -> (r: bool)
    ensures
        r == is_room_id(s@),
{
    check_sigil_id(s, '!')
}

/// Check a room alias.
pub fn check_room_alias(s: &str) -> (r: bool)
    ensures
        r == is_room_alias(s@),
{
    check_sigil_id(s, '#')
}

/// Check an event id.
pub fn check_event_id(s: &str) -> (r: bool)
    ensures
        r == is_event_id(s@),
{
    let len = s.unicode_len();
    if len < 2 {
        return false;
    }
    if s.get_char(0) != '$' {
        return false;
    }
    proof {
        lemma_find_char_spec(s@, ':', 1);
    }
    match find_char(s, ':', 1) {
        None => true,
        Some(i) => {
            if i <= 1 {
                return false;
            }
            check_server_name(s.substring_char(i + 1, len))
        },
    }
}

} // verus!
