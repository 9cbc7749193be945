//! The form of a list of ICE servers: STUN and TURN addresses, written
//! `stun:host` or `stun://host`, with semicolons between them.

use vstd::prelude::*;
use vstd::string::*;

verus! {

/// The characters `stun:`.
pub open spec fn stun_scheme() -> Seq<char> {
    seq!['s', 't', 'u', 'n', ':']
}

/// The characters `turn:`.
pub open spec fn turn_scheme() -> Seq<char> {
    seq!['t', 'u', 'r', 'n', ':']
}

/// One ICE server: `stun:` or `turn:`, then `//` or not, and then
/// something.
pub open spec fn is_ice_server(s: Seq<char>) -> bool {
    &&& s.len() > 5
    &&& s.subrange(0, 5) == stun_scheme() || s.subrange(0, 5) == turn_scheme()
    &&& !(s.len() == 7 && s[5] == '/' && s[6] == '/')
}

/// From position `i` on, with the current stretch begun at `start`, each
/// stretch of `s` between semicolons is an ICE server.
pub open spec fn ice_servers_from(s: Seq<char>, i: int, start: int) -> bool
    decreases s.len() - i,
{
    if i >= s.len() {
        is_ice_server(s.subrange(start, s.len() as int))
    } else if s[i] == ';' {
        is_ice_server(s.subrange(start, i)) && ice_servers_from(s, i + 1, i + 1)
    } else {
        ice_servers_from(s, i + 1, start)
    }
}

/// `s` is a list of ICE servers: each stretch between semicolons is one,
/// and there is at least one.
pub open spec fn is_ice_server_list(s: Seq<char>) -> bool {
    ice_servers_from(s, 0, 0)
}

fn is_server(s: &str, from: usize, to: usize) -> (b: bool)
    requires
        from <= to <= s@.len(),
    ensures
        b == is_ice_server(s@.subrange(from as int, to as int)),
{
    if to - from <= 5 {
        return false;
    }
    let ghost part = s@.subrange(from as int, to as int);
    let c0 = s.get_char(from);
    let c1 = s.get_char(from + 1);
    let c2 = s.get_char(from + 2);
    let c3 = s.get_char(from + 3);
    let c4 = s.get_char(from + 4);
    assert(part.subrange(0, 5) =~= seq![c0, c1, c2, c3, c4]);
    let stun = c0 == 's' && c1 == 't' && c2 == 'u' && c3 == 'n' && c4 == ':';
    let turn = c0 == 't' && c1 == 'u' && c2 == 'r' && c3 == 'n' && c4 == ':';
    proof {
        if stun {
            assert(part.subrange(0, 5) =~= stun_scheme());
        }
        if turn {
            assert(part.subrange(0, 5) =~= turn_scheme());
        }
        if part.subrange(0, 5) == stun_scheme() {
            assert(stun_scheme()[0] == c0 && stun_scheme()[1] == c1 && stun_scheme()[2] == c2
                && stun_scheme()[3] == c3 && stun_scheme()[4] == c4);
        }
        if part.subrange(0, 5) == turn_scheme() {
            assert(turn_scheme()[0] == c0 && turn_scheme()[1] == c1 && turn_scheme()[2] == c2
                && turn_scheme()[3] == c3 && turn_scheme()[4] == c4);
        }
    }
    if !(stun || turn) {
        return false;
    }
    if to - from == 7 {
        let c5 = s.get_char(from + 5);
        let c6 = s.get_char(from + 6);
        assert(part[5] == c5 && part[6] == c6);
        !(c5 == '/' && c6 == '/')
    } else {
        true
    }
}

/// Whether `s` is a list of ICE servers.
pub fn check_ice_servers(s: &str) -> (b: bool)
    ensures
        b == is_ice_server_list(s@),
{
    let n = s.unicode_len();
    let mut i: usize = 0;
    let mut start: usize = 0;
    while i < n
        invariant
            start <= i <= n,
            n == s@.len(),
            is_ice_server_list(s@) == ice_servers_from(s@, i as int, start as int),
        decreases n - i,
    {
        if s.get_char(i) == ';' {
            if !is_server(s, start, i) {
                return false;
            }
            start = i + 1;
        }
        i = i + 1;
    }
    is_server(s, start, n)
}

} // verus!
