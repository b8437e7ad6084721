//! Location data for peer addresses. The lookup itself is a network
//! concern of the caller; this module holds the location record and the
//! private-address test that decides which addresses are worth looking
//! up at all.

use vstd::prelude::*;
use crate::value::MetricValue;
use crate::text::{is_digit, digits_value, all_digits};
use crate::rawmap::str_starts_with;

verus! {

/// Geolocation information for one address.
#[derive(Debug, Clone)]
pub struct GeoLocation {
    /// City name.
    pub city: String,
    /// Two-letter country code.
    pub country_code: String,
    /// Full country name.
    pub country: String,
    /// Region or state.
    pub region: String,
    /// Provider name, if reported.
    pub isp: Option<String>,
    /// Latitude, if reported.
    pub lat: Option<MetricValue>,
    /// Longitude, if reported.
    pub lon: Option<MetricValue>,
}

/// The short rendering of a location: `City, CC`, or the country code
/// alone when the city is unknown.
pub open spec fn spec_geo_short(city: Seq<char>, cc: Seq<char>) -> Seq<char> {
    if city.len() == 0 || city == "?"@ {
        cc
    } else {
        city + ", "@ + cc
    }
}

impl GeoLocation {
    /// Format as a short `City, CC` string.
    pub fn short(&self) -> (r: String)
        ensures
            r@ == spec_geo_short(self.city@, self.country_code@),
    {
        let unknown = crate::text::str_eq(self.city.as_str(), "?");
        proof {
            reveal_strlit("?");
        }
        if self.city.as_str().unicode_len() == 0 || unknown {
            self.country_code.clone()
        } else {
            let mut out = self.city.clone();
            out.append(", ");
            out.append(self.country_code.as_str());
            proof {
                assert(out@ =~= self.city@ + ", "@ + self.country_code@);
            }
            out
        }
    }
}

/// The end of the run of characters before the first dot at or after `i`.
pub open spec fn dot_end(t: Seq<char>, i: int) -> int
    decreases t.len() - i,
{
    if 0 <= i < t.len() && t[i] != '.' {
        dot_end(t, i + 1)
    } else {
        i
    }
}

/// A decimal octet: digits denoting a value up to 255.
pub open spec fn spec_parse_octet(t: Seq<char>) -> Option<u8> {
    if t.len() > 0 && all_digits(t) && digits_value(t) <= 255 {
        Some(digits_value(t) as u8)
    } else {
        None
    }
}

/// Whether an address is private or local, and so not worth a
/// location lookup: loopback names, the private IPv4 ranges (10.x,
/// 127.x, 172.16-31.x, 192.168.x) and the link-local and unique-local
/// IPv6 prefixes.
pub open spec fn spec_is_private_ip(ip: Seq<char>) -> bool {
    if ip == "127.0.0.1"@ || ip == "::1"@ || ip == "localhost"@ {
        true
    } else {
        let d1 = dot_end(ip, 0);
        let first = ip.take(d1);
        let octet_private = match spec_parse_octet(first) {
            Some(o) => {
                if o == 10 || o == 127 {
                    true
                } else if o == 172 {
                    d1 < ip.len() && (match spec_parse_octet(second_comp(ip, d1)) {
                        Some(s) => 16 <= s <= 31,
                        None => false,
                    })
                } else if o == 192 {
                    d1 < ip.len() && second_comp(ip, d1) == "168"@
                } else {
                    false
                }
            },
            None => false,
        };
        if octet_private {
            true
        } else {
            (ip.len() >= 5 && ip.take(5) == "fe80:"@)
                || (ip.len() >= 2 && ip.take(2) == "fc"@)
                || (ip.len() >= 2 && ip.take(2) == "fd"@)
        }
    }
}

/// The second dot-separated component, after a first dot at `d1`.
pub open spec fn second_comp(ip: Seq<char>, d1: int) -> Seq<char> {
    ip.subrange(d1 + 1, dot_end(ip, d1 + 1))
}

/// A run without dots followed by a dot or the end pins `dot_end`.
proof fn lemma_dot_end_char(t: Seq<char>, i: int, r: int)
    requires
        0 <= i <= r <= t.len(),
        forall|j: int| i <= j < r ==> t[j] != '.',
        r == t.len() || t[r] == '.',
    ensures
        dot_end(t, i) == r,
    decreases r - i,
{
    if i < r {
        lemma_dot_end_char(t, i + 1, r);
    }
}

/// Find the first dot at or after `i`.
fn scan_dot(s: &Vec<char>, i: usize) -> (r: usize)
    requires
        i <= s@.len(),
    ensures
        i <= r <= s@.len(),
        r as int == dot_end(s@, i as int),
{
    let n = s.len();
    let mut k: usize = i;
    while k < n && s[k] != '.'
        invariant
            i <= k <= n == s@.len(),
            forall|j: int| i <= j < k ==> s@[j] != '.',
        decreases n - k,
    {
        k = k + 1;
    }
    proof {
        lemma_dot_end_char(s@, i as int, k as int);
    }
    k
}

/// Parse an octet from `s[from..to]`.
fn parse_octet_range(s: &Vec<char>, from: usize, to: usize) -> (r: Option<u8>)
    requires
        from <= to <= s@.len(),
    ensures
        r == spec_parse_octet(s@.subrange(from as int, to as int)),
{
    match crate::text::parse_u64_range(s, from, to) {
        Some(v) => if v <= 255 { Some(v as u8) } else { None },
        None => None,
    }
}

/// Whether an address is private or local and so not suitable for a
/// location lookup.
#[verifier::rlimit(100)]
pub fn is_private_ip(ip: &str) -> (r: bool)
    ensures
        r == spec_is_private_ip(ip@),
{
    if crate::text::str_eq(ip, "127.0.0.1") || crate::text::str_eq(ip, "::1")
        || crate::text::str_eq(ip, "localhost") {
        return true;
    }
    let cs = crate::text::chars_of(ip);
    let n = cs.len();
    let d1 = scan_dot(&cs, 0);
    proof {
        assert(cs@.subrange(0, d1 as int) =~= ip@.take(d1 as int));
    }
    let octet_private: bool = match parse_octet_range(&cs, 0, d1) {
        Some(o) => {
            if o == 10 || o == 127 {
                true
            } else if o == 172 {
                if d1 < n {
                    let d2 = scan_dot(&cs, d1 + 1);
                    proof {
                        assert(cs@.subrange((d1 + 1) as int, d2 as int)
                            =~= second_comp(ip@, d1 as int));
                    }
                    match parse_octet_range(&cs, d1 + 1, d2) {
                        Some(s2) => 16 <= s2 && s2 <= 31,
                        None => false,
                    }
                } else {
                    false
                }
            } else if o == 192 {
                if d1 < n {
                    let d2 = scan_dot(&cs, d1 + 1);
                    let second = crate::text::string_from_range(&cs, d1 + 1, d2);
                    proof {
                        assert(cs@.subrange((d1 + 1) as int, d2 as int)
                            =~= second_comp(ip@, d1 as int));
                    }
                    crate::text::str_eq(second.as_str(), "168")
                } else {
                    false
                }
            } else {
                false
            }
        },
        None => false,
    };
    if octet_private {
        return true;
    }
    let r = str_starts_with(ip, "fe80:") || str_starts_with(ip, "fc")
        || str_starts_with(ip, "fd");
    proof {
        reveal_strlit("fe80:");
        reveal_strlit("fc");
        reveal_strlit("fd");
    }
    r
}

} // verus!
