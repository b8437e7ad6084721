//! Address parsing for socket-level peer discovery. The discovery
//! itself inspects the operating system's sockets and belongs to the
//! caller; the address format it reports is parsed here.

use vstd::prelude::*;
use crate::text::spec_parse_u64;

verus! {

/// The last colon of a sequence, or `-1` when there is none.
pub open spec fn last_colon(t: Seq<char>) -> int
    decreases t.len(),
{
    if t.len() == 0 {
        -1
    } else if t.last() == ':' {
        t.len() - 1
    } else {
        last_colon(t.drop_last())
    }
}

/// The first `]` of a sequence at or after `i`, or the length.
pub open spec fn bracket_end(t: Seq<char>, i: int) -> int
    decreases t.len() - i,
{
    if 0 <= i < t.len() && t[i] != ']' {
        bracket_end(t, i + 1)
    } else {
        i
    }
}

/// A port number: digits denoting a value up to `u16::MAX`.
pub open spec fn spec_parse_port(t: Seq<char>) -> Option<u16> {
    match spec_parse_u64(t) {
        Some(v) => if v <= u16::MAX { Some(v as u16) } else { None },
        None => None,
    }
}

/// The parse of a socket address: `[address]:port` for bracketed IPv6
/// (the two characters after the bracket are skipped, as the socket
/// report always places `]:` there), or `address:port` split at the
/// last colon.
pub open spec fn spec_parse_address(t: Seq<char>) -> Option<(Seq<char>, u16)> {
    if t.len() > 0 && t[0] == '[' {
        let be = bracket_end(t, 0);
        if be == t.len() {
            None
        } else if be + 2 > t.len() {
            None
        } else {
            match spec_parse_port(t.skip(be + 2)) {
                Some(p) => Some((t.subrange(1, be), p)),
                None => None,
            }
        }
    } else {
        let lc = last_colon(t);
        if lc < 0 {
            None
        } else {
            match spec_parse_port(t.skip(lc + 1)) {
                Some(p) => Some((t.take(lc), p)),
                None => None,
            }
        }
    }
}

/// A colon at `i` with none after pins `last_colon`.
proof fn lemma_last_colon_char(t: Seq<char>, i: int)
    requires
        0 <= i < t.len(),
        t[i] == ':',
        forall|j: int| i < j < t.len() ==> t[j] != ':',
    ensures
        last_colon(t) == i,
    decreases t.len(),
{
    if i < t.len() - 1 {
        assert(t.drop_last()[i] == ':');
        assert(forall|j: int| i < j < t.drop_last().len() ==> t.drop_last()[j] != ':');
        lemma_last_colon_char(t.drop_last(), i);
    }
}

/// No colon at all pins `last_colon` to `-1`.
proof fn lemma_last_colon_none(t: Seq<char>)
    requires
        forall|j: int| 0 <= j < t.len() ==> t[j] != ':',
    ensures
        last_colon(t) == -1,
    decreases t.len(),
{
    if t.len() > 0 {
        assert(forall|j: int| 0 <= j < t.drop_last().len() ==> t.drop_last()[j] != ':');
        lemma_last_colon_none(t.drop_last());
    }
}

/// A bracket run pins `bracket_end`.
proof fn lemma_bracket_end_char(t: Seq<char>, i: int, r: int)
    requires
        0 <= i <= r <= t.len(),
        forall|j: int| i <= j < r ==> t[j] != ']',
        r == t.len() || t[r] == ']',
    ensures
        bracket_end(t, i) == r,
    decreases r - i,
{
    if i < r {
        lemma_bracket_end_char(t, i + 1, r);
    }
}

/// Parse a socket address of the form `address:port` or `[address]:port`.
#[verifier::loop_isolation(false)]
#[verifier::rlimit(100)]
pub fn parse_address(addr: &str) -> (r: Option<(String, u16)>)
    ensures
        match r {
            Some(p) => spec_parse_address(addr@) == Some((p.0@, p.1)),
            None => spec_parse_address(addr@) is None,
        },
{
    let cs = crate::text::chars_of(addr);
    let n = cs.len();
    if n > 0 && cs[0] == '[' {
        let mut be: usize = 0;
        while be < n && cs[be] != ']'
            invariant
                0 <= be <= n,
                forall|j: int| 0 <= j < be ==> cs@[j] != ']',
            decreases n - be,
        {
            be = be + 1;
        }
        proof {
            lemma_bracket_end_char(addr@, 0, be as int);
        }
        if be == n {
            return None;
        }
        if n - be < 2 {
            return None;
        }
        proof {
            assert(cs@.subrange((be + 2) as int, n as int) =~= addr@.skip(be + 2));
        }
        match parse_port_range(&cs, be + 2, n) {
            Some(p) => {
                let ip = crate::text::string_from_range(&cs, 1, be);
                Some((ip, p))
            },
            None => None,
        }
    } else {
        let mut lc: usize = n;
        while lc > 0 && cs[lc - 1] != ':'
            invariant
                0 <= lc <= n,
                forall|j: int| lc <= j < n ==> cs@[j] != ':',
            decreases lc,
        {
            lc = lc - 1;
        }
        if lc == 0 {
            proof {
                lemma_last_colon_none(addr@);
            }
            return None;
        }
        proof {
            lemma_last_colon_char(addr@, lc - 1);
            assert(cs@.subrange(lc as int, n as int) =~= addr@.skip(lc as int));
        }
        match parse_port_range(&cs, lc, n) {
            Some(p) => {
                let ip = crate::text::string_from_range(&cs, 0, lc - 1);
                proof {
                    assert(cs@.subrange(0, (lc - 1) as int) =~= addr@.take(lc - 1));
                }
                Some((ip, p))
            },
            None => None,
        }
    }
}

/// Parse a port from `s[from..to]`.
fn parse_port_range(s: &Vec<char>, from: usize, to: usize) -> (r: Option<u16>)
    requires
        from <= to <= s@.len(),
    ensures
        r == spec_parse_port(s@.subrange(from as int, to as int)),
{
    match crate::text::parse_u64_range(s, from, to) {
        Some(v) => if v <= u16::MAX as u64 { Some(v as u16) } else { None },
        None => None,
    }
}

} // verus!
