//! Subnet keys: the text `a.b.c.d-p` or `a.b.c.d-p&<ipv6>-q` that names a node's
//! IPv4 subnet and, optionally, its IPv6 subnet.
//!
//! A key is read by searching the text for the leftmost place where the pattern
//! `(\d+\.\d+\.\d+\.\d+)-(\d+)(?:&([a-f\d:]+)-(\d+))?` matches (each repetition
//! takes as much as it can, the optional part is taken where it matches), and
//! then reading the captured parts as an IPv4 address, prefix lengths and an IPv6
//! address. `\d` is `regex`'s: any Unicode decimal digit; a captured part with a
//! digit beyond ASCII does not read as a number or an address.
use vstd::prelude::*;

use crate::net::{
    ipv4_addr_text, ipv4_net_text, ipv4_net_valid, ipv6_addr_text, ipv6_net_text,
    ipv6_net_valid, ipv6_text_chars, is_ipv6_text_char, ipv6_network_from_str, ipv6_network_parse, push_ipv4_net_text, Ipv4Net,
    Ipv4Octets, Ipv6Net,
};
use crate::text::{
    all_digits, ascii_digits, chars_of, dec_text, dec_value, digit_end, digit_run, digit_run_end,
    digits_to_u8, hex_end, hex_run, hex_run_end,
    is_hex_key_char, is_pattern_digit, lemma_dec_text, lemma_digit_run_exact,
    lemma_hex_run_exact, lemma_replace_absent, lemma_replace_concat, replace_char, replace_chars,
    string_from_chars,
};

verus! {

// ---------------------------------------------------------------------
// Where the pattern matches
// ---------------------------------------------------------------------

/// `s` holds `c` at position `j`.
pub open spec fn is_at(s: Seq<char>, j: int, c: char) -> bool {
    0 <= j < s.len() && s[j] == c
}

/// End of the first octet's digits, for a match starting at `i`.
pub open spec fn key_e1(s: Seq<char>, i: int) -> int {
    digit_end(s, i)
}

/// End of the second octet's digits.
pub open spec fn key_e2(s: Seq<char>, i: int) -> int {
    digit_end(s, key_e1(s, i) + 1)
}

/// End of the third octet's digits.
pub open spec fn key_e3(s: Seq<char>, i: int) -> int {
    digit_end(s, key_e2(s, i) + 1)
}

/// End of the fourth octet's digits (where the `-` stands).
pub open spec fn key_e4(s: Seq<char>, i: int) -> int {
    digit_end(s, key_e3(s, i) + 1)
}

/// End of the IPv4 prefix's digits.
pub open spec fn key_e5(s: Seq<char>, i: int) -> int {
    digit_end(s, key_e4(s, i) + 1)
}

/// End of the IPv6 address's `[a-f\d:]` characters.
pub open spec fn key_h(s: Seq<char>, i: int) -> int {
    hex_end(s, key_e5(s, i) + 1)
}

/// End of the IPv6 prefix's digits.
pub open spec fn key_q(s: Seq<char>, i: int) -> int {
    digit_end(s, key_h(s, i) + 1)
}

/// The mandatory part of the pattern, `\d+\.\d+\.\d+\.\d+-\d+`, matches at `i`.
pub open spec fn key_matches_at(s: Seq<char>, i: int) -> bool {
    &&& 0 <= i
    &&& key_e1(s, i) > i
    &&& is_at(s, key_e1(s, i), '.')
    &&& key_e2(s, i) > key_e1(s, i) + 1
    &&& is_at(s, key_e2(s, i), '.')
    &&& key_e3(s, i) > key_e2(s, i) + 1
    &&& is_at(s, key_e3(s, i), '.')
    &&& key_e4(s, i) > key_e3(s, i) + 1
    &&& is_at(s, key_e4(s, i), '-')
    &&& key_e5(s, i) > key_e4(s, i) + 1
}

/// The optional part, `&[a-f\d:]+-\d+`, follows the match at `i`.
pub open spec fn key_has_ipv6(s: Seq<char>, i: int) -> bool {
    &&& is_at(s, key_e5(s, i), '&')
    &&& key_h(s, i) > key_e5(s, i) + 1
    &&& is_at(s, key_h(s, i), '-')
    &&& key_q(s, i) > key_h(s, i) + 1
}

/// The leftmost position at or after `i` where the pattern matches.
pub open spec fn first_key_match(s: Seq<char>, i: int) -> Option<int>
    decreases s.len() - i,
{
    if i < 0 || i >= s.len() {
        None
    } else if key_matches_at(s, i) {
        Some(i)
    } else {
        first_key_match(s, i + 1)
    }
}

// ---------------------------------------------------------------------
// Reading the captured parts
// ---------------------------------------------------------------------

/// An octet of a dotted-decimal IPv4 address, read from a run of digits: ASCII
/// digits, at most 255 and without a leading zero (std's `Ipv4Addr` parser
/// refuses octal-looking octets).
pub open spec fn octet_value(t: Seq<char>) -> Option<u8> {
    if all_digits(t) && (t.len() == 1 || t[0] != '0') && dec_value(t) <= 255 {
        Some(dec_value(t) as u8)
    } else {
        None
    }
}

/// A `u8` read from a run of digits (as `u8::from_str`: ASCII digits, leading
/// zeros allowed, at most 255).
pub open spec fn u8_value(t: Seq<char>) -> Option<u8> {
    if all_digits(t) && dec_value(t) <= 255 {
        Some(dec_value(t) as u8)
    } else {
        None
    }
}

/// A subnet key's networks: the IPv4 network and the optional IPv6 network.
pub type KeyNets = ((Ipv4Octets, u8), Option<(u128, u8)>);

/// A key's networks once its IPv6 half has been read: `ipv6_addr` is what
/// `ipnetwork` read from the IPv6 text, `ipv6_prefix` the IPv6 prefix's digits as
/// a `u8`; `None` where either failed or the prefix exceeds 128.
pub open spec fn key_nets_with_ipv6_spec(
    n4: (Ipv4Octets, u8),
    ipv6_addr: Option<(u128, u8)>,
    ipv6_prefix: Option<u8>,
) -> Option<KeyNets> {
    match (ipv6_addr, ipv6_prefix) {
        (Some(a), Some(p6)) => if p6 <= 128 {
            Some((n4, Some((a.0, p6))))
        } else {
            None
        },
        _ => None,
    }
}

/// What the key reads as when the pattern matches at `i`.
pub open spec fn key_nets_at(s: Seq<char>, i: int) -> Option<KeyNets> {
    let o1 = octet_value(s.subrange(i, key_e1(s, i)));
    let o2 = octet_value(s.subrange(key_e1(s, i) + 1, key_e2(s, i)));
    let o3 = octet_value(s.subrange(key_e2(s, i) + 1, key_e3(s, i)));
    let o4 = octet_value(s.subrange(key_e3(s, i) + 1, key_e4(s, i)));
    let p4 = u8_value(s.subrange(key_e4(s, i) + 1, key_e5(s, i)));
    if o1 is Some && o2 is Some && o3 is Some && o4 is Some && p4 is Some && p4.unwrap() <= 32 {
        let n4 = ((o1.unwrap(), o2.unwrap(), o3.unwrap(), o4.unwrap()), p4.unwrap());
        if key_has_ipv6(s, i) {
            key_nets_with_ipv6_spec(
                n4,
                ipv6_network_parse(s.subrange(key_e5(s, i) + 1, key_h(s, i))),
                u8_value(s.subrange(key_h(s, i) + 1, key_q(s, i))),
            )
        } else {
            Some((n4, None))
        }
    } else {
        None
    }
}

/// What a subnet key reads as: the networks of the leftmost match, or `None`
/// where the pattern matches nowhere or the matched parts are not valid networks.
pub open spec fn spec_parse_subnet_key(s: Seq<char>) -> Option<KeyNets> {
    match first_key_match(s, 0) {
        Some(i) => key_nets_at(s, i),
        None => None,
    }
}

/// The key for an IPv4 network and an optional IPv6 network: each CIDR text with
/// `/` replaced by `-`, joined by `&`.
pub open spec fn spec_make_subnet_key(n4: (Ipv4Octets, u8), n6: Option<(u128, u8)>) -> Seq<
    char,
> {
    match n6 {
        Some(v6) => replace_char(ipv4_net_text(n4), '/', '-') + seq!['&'] + replace_char(
            ipv6_net_text(v6),
            '/',
            '-',
        ),
        None => replace_char(ipv4_net_text(n4), '/', '-'),
    }
}

/// A text that the pattern's IPv6 part reads whole: nonempty, all `[a-f\d:]`.
pub open spec fn key_hex_text(t: Seq<char>) -> bool {
    t.len() > 0 && forall|k: int| 0 <= k < t.len() ==> #[trigger] is_hex_key_char(t[k])
}

/// The spec value of a parsed key.
pub open spec fn key_nets_view(r: Option<(Ipv4Net, Option<Ipv6Net>)>) -> Option<KeyNets> {
    match r {
        Some((n4, n6)) => Some(
            (
                n4@,
                match n6 {
                    Some(v6) => Some(v6@),
                    None => None,
                },
            ),
        ),
        None => None,
    }
}

// ---------------------------------------------------------------------
// Executable parsing and formatting
// ---------------------------------------------------------------------

fn is_char_at(v: &Vec<char>, j: usize, c: char) -> (r: bool)
    ensures
        r == is_at(v@, j as int, c),
{
    j < v.len() && v[j] == c
}

/// Whether the mandatory part of the pattern matches at `i`.
fn key_matches_at_exec(v: &Vec<char>, i: usize) -> (r: bool)
    requires
        i <= v.len(),
    ensures
        r == key_matches_at(v@, i as int),
{
    let e1 = digit_run_end(v, i);
    if !(e1 > i && is_char_at(v, e1, '.')) {
        return false;
    }
    let e2 = digit_run_end(v, e1 + 1);
    if !(e2 > e1 + 1 && is_char_at(v, e2, '.')) {
        return false;
    }
    let e3 = digit_run_end(v, e2 + 1);
    if !(e3 > e2 + 1 && is_char_at(v, e3, '.')) {
        return false;
    }
    let e4 = digit_run_end(v, e3 + 1);
    if !(e4 > e3 + 1 && is_char_at(v, e4, '-')) {
        return false;
    }
    let e5 = digit_run_end(v, e4 + 1);
    e5 > e4 + 1
}

/// The characters `v[a..b]`.
fn sub_chars(v: &Vec<char>, a: usize, b: usize) -> (r: Vec<char>)
    requires
        a <= b <= v.len(),
    ensures
        r@ == v@.subrange(a as int, b as int),
{
    let mut r: Vec<char> = Vec::new();
    let mut k: usize = a;
    while k < b
        invariant
            a <= k <= b <= v.len(),
            r@ =~= v@.subrange(a as int, k as int),
        decreases b - k,
    {
        r.push(v[k]);
        k = k + 1;
    }
    r
}

/// The octet written by the characters `v[a..b]`.
fn octet_at(v: &Vec<char>, a: usize, b: usize) -> (r: Option<u8>)
    requires
        a < b <= v.len(),
    ensures
        r == octet_value(v@.subrange(a as int, b as int)),
{
    if !ascii_digits(v, a, b) {
        None
    } else if b - a > 1 && v[a] == '0' {
        None
    } else {
        digits_to_u8(v, a, b)
    }
}

/// The `u8` written by the characters `v[a..b]`.
fn u8_at(v: &Vec<char>, a: usize, b: usize) -> (r: Option<u8>)
    requires
        a <= b <= v.len(),
    ensures
        r == u8_value(v@.subrange(a as int, b as int)),
{
    if !ascii_digits(v, a, b) {
        None
    } else {
        digits_to_u8(v, a, b)
    }
}

/// Reads the networks of a key whose pattern matches at `i`.
fn key_nets_at_exec(v: &Vec<char>, i: usize) -> (r: Option<(Ipv4Net, Option<Ipv6Net>)>)
    requires
        i <= v.len(),
        key_matches_at(v@, i as int),
    ensures
        key_nets_view(r) == key_nets_at(v@, i as int),
{
    let ghost s = v@;
    let e1 = digit_run_end(v, i);
    let e2 = digit_run_end(v, e1 + 1);
    let e3 = digit_run_end(v, e2 + 1);
    let e4 = digit_run_end(v, e3 + 1);
    let e5 = digit_run_end(v, e4 + 1);
    let o1 = octet_at(v, i, e1);
    let o2 = octet_at(v, e1 + 1, e2);
    let o3 = octet_at(v, e2 + 1, e3);
    let o4 = octet_at(v, e3 + 1, e4);
    let p4 = u8_at(v, e4 + 1, e5);
    let (o1, o2, o3, o4, p4) = match (o1, o2, o3, o4, p4) {
        (Some(a), Some(b), Some(c), Some(d), Some(p)) => (a, b, c, d, p),
        _ => {
            return None;
        },
    };
    let n4 = match Ipv4Net::new([o1, o2, o3, o4], p4) {
        Some(n) => n,
        None => {
            return None;
        },
    };
    assert(n4@ == ((o1, o2, o3, o4), p4));
    if !is_char_at(v, e5, '&') {
        return Some((n4, None));
    }
    let h = hex_run_end(v, e5 + 1);
    if !(h > e5 + 1 && is_char_at(v, h, '-')) {
        return Some((n4, None));
    }
    let q = digit_run_end(v, h + 1);
    if !(q > h + 1) {
        return Some((n4, None));
    }
    let text = string_from_chars(&sub_chars(v, e5 + 1, h));
    let ipv6_addr = ipv6_network_from_str(text.as_str());
    let ipv6_prefix = u8_at(v, h + 1, q);
    key_nets_with_ipv6(n4, ipv6_addr, ipv6_prefix)
}

/// A key's networks once its IPv6 half has been read (see
/// `key_nets_with_ipv6_spec`): the IPv4 network with the IPv6 network, or `None`.
pub fn key_nets_with_ipv6(n4: Ipv4Net, ipv6_addr: Option<(u128, u8)>, ipv6_prefix: Option<u8>) -> (r:
    Option<(Ipv4Net, Option<Ipv6Net>)>)
    ensures
        key_nets_view(r) == key_nets_with_ipv6_spec(n4@, ipv6_addr, ipv6_prefix),
{
    match (ipv6_addr, ipv6_prefix) {
        (Some(a), Some(p6)) => match Ipv6Net::new(a.0, p6) {
            Some(n6) => Some((n4, Some(n6))),
            None => None,
        },
        _ => None,
    }
}

/// Reads a subnet key (`10.0.1.0-24` or `10.0.1.0-24&fc00::-64`) into its IPv4
/// network and optional IPv6 network.
///
/// The leftmost place where the key's pattern matches is read; `None` where the
/// pattern matches nowhere, or where what it matched is not a valid network (an
/// octet above 255 or with a leading zero, a prefix above 32 or 128, an IPv6
/// address that `ipnetwork` refuses). The IPv6 text is read by `ipnetwork`'s
/// parser, which for a text without `/` is std's IPv6 address parser. Where the
/// IPv6 part of the pattern does not match, the result has no IPv6 network.
pub fn parse_subnet_key(s: &str) -> (r: Option<(Ipv4Net, Option<Ipv6Net>)>)
    ensures
        key_nets_view(r) == spec_parse_subnet_key(s@),
{
    let v = chars_of(s);
    let mut i: usize = 0;
    while i < v.len()
        invariant
            i <= v.len(),
            v@ == s@,
            first_key_match(v@, 0) == first_key_match(v@, i as int),
        decreases v.len() - i,
    {
        if key_matches_at_exec(&v, i) {
            return key_nets_at_exec(&v, i);
        }
        i = i + 1;
    }
    None
}

/// The subnet key for an IPv4 network and an optional IPv6 network: their CIDR
/// texts with `/` replaced by `-`, joined by `&` (`10.0.1.0-24&fc00::-64`).
///
/// Reading the key back with `parse_subnet_key` gives the same networks, unless
/// the IPv6 address is written in the dotted IPv4-mapped form
/// (`::ffff:a.b.c.d`), whose `.` the key's pattern does not read.
#[verifier::spinoff_prover]
pub fn make_subnet_key(sn4: &Ipv4Net, sn6: Option<&Ipv6Net>) -> (r: String)
    ensures
        r@ == spec_make_subnet_key(
            sn4@,
            match sn6 {
                Some(n) => Some(n@),
                None => None,
            },
        ),
        !r@.contains('/'),
        (sn6 matches Some(n) ==> !ipv6_addr_text(n@.0).contains('.')) ==> spec_parse_subnet_key(r@)
            == Some(
            (
                sn4@,
                match sn6 {
                    Some(n) => Some(n@),
                    None => None,
                },
            ),
        ),
{
    let mut t4: Vec<char> = Vec::new();
    push_ipv4_net_text(&mut t4, sn4);
    let mut key = replace_chars(&t4, '/', '-');
    // The accessor tells that the network is valid (its prefix is at most 32).
    let _ = sn4.prefix();
    match sn6 {
        Some(n6) => {
            let t6 = chars_of(n6.to_string().as_str());
            // The accessor tells that the network is valid (its prefix is at most 128).
            let _ = n6.prefix();
            let k6 = replace_chars(&t6, '/', '-');
            let ghost before = key@;
            key.push('&');
            let mut k: usize = 0;
            while k < k6.len()
                invariant
                    k <= k6.len(),
                    key@ =~= before.push('&') + k6@.take(k as int),
                decreases k6.len() - k,
            {
                key.push(k6[k]);
                k = k + 1;
            }
            assert(k6@.take(k6.len() as int) =~= k6@);
            proof {
                let v6 = n6@;
                assert(key@ =~= spec_make_subnet_key(sn4@, Some(v6)));
                lemma_replace_no_from(ipv4_net_text(sn4@), '/', '-');
                lemma_replace_no_from(ipv6_net_text(v6), '/', '-');
                assert(!key@.contains('/')) by {
                    if key@.contains('/') {
                        let k = choose|k: int| 0 <= k < key@.len() && key@[k] == '/';
                        let l4 = replace_char(ipv4_net_text(sn4@), '/', '-').len();
                        if k < l4 {
                            assert(replace_char(ipv4_net_text(sn4@), '/', '-').contains('/'));
                        } else if k > l4 {
                            assert(replace_char(ipv6_net_text(v6), '/', '-')[k - l4 - 1] == '/');
                        }
                    }
                }
                if !ipv6_addr_text(v6.0).contains('.') {
                    lemma_dotless_ipv6_text(ipv6_addr_text(v6.0));
                    lemma_subnet_key_roundtrip(sn4@, Some(v6));
                }
            }
        },
        None => {
            proof {
                lemma_replace_no_from(ipv4_net_text(sn4@), '/', '-');
                lemma_subnet_key_roundtrip(sn4@, None);
            }
        },
    }
    string_from_chars(&key)
}

proof fn lemma_replace_no_from(s: Seq<char>, from: char, to: char)
    requires
        from != to,
    ensures
        !replace_char(s, from, to).contains(from),
{
    if replace_char(s, from, to).contains(from) {
        let k = choose|k: int| 0 <= k < s.len() && replace_char(s, from, to)[k] == from;
    }
}

// ---------------------------------------------------------------------
// Reading back what was written
// ---------------------------------------------------------------------

/// `t` sits in `s` at `off`.
spec fn placed(s: Seq<char>, off: int, t: Seq<char>) -> bool {
    0 <= off && off + t.len() <= s.len() && s.subrange(off, off + t.len()) == t
}

/// The decimal text of a number sits at `off`, followed by a non-digit or the end:
/// the digit run there is exactly that text.
proof fn lemma_placed_dec(s: Seq<char>, off: int, n: nat)
    requires
        placed(s, off, dec_text(n)),
        off + dec_text(n).len() == s.len() || !is_pattern_digit(s[off + dec_text(n).len()]),
    ensures
        digit_end(s, off) == off + dec_text(n).len(),
        s.subrange(off, digit_end(s, off)) == dec_text(n),
{
    lemma_dec_text(n);
    let t = dec_text(n);
    assert forall|j: int| off <= j < off + t.len() implies #[trigger] is_pattern_digit(s[j]) by {
        assert(s[j] == s.subrange(off, off + t.len())[j - off]);
    }
    lemma_digit_run_exact(s, off, t.len() as int);
}

/// The octet read back from its decimal text is the octet.
proof fn lemma_octet_roundtrip(o: u8)
    ensures
        octet_value(dec_text(o as nat)) == Some(o),
        u8_value(dec_text(o as nat)) == Some(o),
{
    lemma_dec_text(o as nat);
}

/// The IPv4 address text holds no `/`.
#[verifier::spinoff_prover]
pub(crate) proof fn lemma_ipv4_text_no_slash(n: (Ipv4Octets, u8))
    ensures
        !ipv4_addr_text(n.0).contains('/'),
        !dec_text(n.1 as nat).contains('/'),
{
    let o = n.0;
    lemma_dec_text(o.0 as nat);
    lemma_dec_text(o.1 as nat);
    lemma_dec_text(o.2 as nat);
    lemma_dec_text(o.3 as nat);
    lemma_dec_text(n.1 as nat);
    let t = ipv4_addr_text(o);
    if t.contains('/') {
        let k = choose|k: int| 0 <= k < t.len() && t[k] == '/';
        let d0 = dec_text(o.0 as nat);
        let d1 = dec_text(o.1 as nat);
        let d2 = dec_text(o.2 as nat);
        let d3 = dec_text(o.3 as nat);
        if k < d0.len() {
            assert(d0.contains('/'));
        } else if k == d0.len() {
        } else if k < d0.len() + 1 + d1.len() {
            assert(d1[k - d0.len() - 1] == '/');
            assert(d1.contains('/'));
        } else if k == d0.len() + 1 + d1.len() {
        } else if k < d0.len() + 1 + d1.len() + 1 + d2.len() {
            assert(d2[k - d0.len() - 1 - d1.len() - 1] == '/');
            assert(d2.contains('/'));
        } else if k == d0.len() + 1 + d1.len() + 1 + d2.len() {
        } else {
            assert(d3[k - d0.len() - 1 - d1.len() - 1 - d2.len() - 1] == '/');
            assert(d3.contains('/'));
        }
    }
}

/// The key text with its `/` replaced: `a.b.c.d-p`.
proof fn lemma_make_v4(n4: (Ipv4Octets, u8))
    ensures
        replace_char(ipv4_net_text(n4), '/', '-') =~= ipv4_addr_text(n4.0) + seq!['-'] + dec_text(
            n4.1 as nat,
        ),
{
    lemma_ipv4_text_no_slash(n4);
    lemma_replace_concat(ipv4_addr_text(n4.0) + seq!['/'], dec_text(n4.1 as nat), '/', '-');
    lemma_replace_concat(ipv4_addr_text(n4.0), seq!['/'], '/', '-');
    lemma_replace_absent(ipv4_addr_text(n4.0), '/', '-');
    lemma_replace_absent(dec_text(n4.1 as nat), '/', '-');
    assert(replace_char(seq!['/'], '/', '-') =~= seq!['-']);
}

/// A text of `[a-f\d:]` characters holds no `/`.
proof fn lemma_hex_text_no_slash(t: Seq<char>)
    requires
        key_hex_text(t),
    ensures
        !t.contains('/'),
{
    if t.contains('/') {
        let k = choose|k: int| 0 <= k < t.len() && t[k] == '/';
        assert(is_hex_key_char(t[k]));
    }
}

/// The IPv4 half of a key sits at the start of `s`: the pattern's mandatory part
/// matches at 0, and reads back the network.
#[verifier::spinoff_prover]
proof fn lemma_v4_half(s: Seq<char>, n4: (Ipv4Octets, u8))
    requires
        n4.1 <= 32,
        s.len() >= ipv4_addr_text(n4.0).len() + 1 + dec_text(n4.1 as nat).len(),
        s.subrange(0, (ipv4_addr_text(n4.0).len() + 1 + dec_text(n4.1 as nat).len()) as int) == ipv4_addr_text(
            n4.0,
        ) + seq!['-'] + dec_text(n4.1 as nat),
        s.len() == ipv4_addr_text(n4.0).len() + 1 + dec_text(n4.1 as nat).len() || !is_pattern_digit(
            s[(ipv4_addr_text(n4.0).len() + 1 + dec_text(n4.1 as nat).len()) as int],
        ),
    ensures
        key_matches_at(s, 0),
        key_e5(s, 0) == ipv4_addr_text(n4.0).len() + 1 + dec_text(n4.1 as nat).len(),
        octet_value(s.subrange(0, key_e1(s, 0))) == Some(n4.0.0),
        octet_value(s.subrange(key_e1(s, 0) + 1, key_e2(s, 0))) == Some(n4.0.1),
        octet_value(s.subrange(key_e2(s, 0) + 1, key_e3(s, 0))) == Some(n4.0.2),
        octet_value(s.subrange(key_e3(s, 0) + 1, key_e4(s, 0))) == Some(n4.0.3),
        u8_value(s.subrange(key_e4(s, 0) + 1, key_e5(s, 0))) == Some(n4.1),
{
    let o = n4.0;
    let d0 = dec_text(o.0 as nat);
    let d1 = dec_text(o.1 as nat);
    let d2 = dec_text(o.2 as nat);
    let d3 = dec_text(o.3 as nat);
    let dp = dec_text(n4.1 as nat);
    lemma_dec_text(o.0 as nat);
    lemma_dec_text(o.1 as nat);
    lemma_dec_text(o.2 as nat);
    lemma_dec_text(o.3 as nat);
    lemma_dec_text(n4.1 as nat);
    lemma_octet_roundtrip(o.0);
    lemma_octet_roundtrip(o.1);
    lemma_octet_roundtrip(o.2);
    lemma_octet_roundtrip(o.3);
    lemma_octet_roundtrip(n4.1);
    let l: int = (ipv4_addr_text(o).len() + 1 + dp.len()) as int;
    let k = s.subrange(0, l);
    assert(k =~= d0 + seq!['.'] + d1 + seq!['.'] + d2 + seq!['.'] + d3 + seq!['-'] + dp);
    let a1 = d0.len() as int;
    let a2 = a1 + 1 + d1.len();
    let a3 = a2 + 1 + d2.len();
    let a4 = a3 + 1 + d3.len();
    let a5 = a4 + 1 + dp.len();
    assert(a5 == l);
    assert forall|j: int| 0 <= j < l implies s[j] == k[j] by {}
    // The pieces sit at their places.
    assert(s.subrange(0, a1) =~= d0) by {
        assert forall|j: int| 0 <= j < a1 implies s.subrange(0, a1)[j] == d0[j] by {
            assert(s[j] == k[j]);
        }
    }
    assert(s.subrange(a1 + 1, a2) =~= d1) by {
        assert forall|j: int| 0 <= j < d1.len() implies s.subrange(a1 + 1, a2)[j] == d1[j] by {
            assert(s[a1 + 1 + j] == k[a1 + 1 + j]);
        }
    }
    assert(s.subrange(a2 + 1, a3) =~= d2) by {
        assert forall|j: int| 0 <= j < d2.len() implies s.subrange(a2 + 1, a3)[j] == d2[j] by {
            assert(s[a2 + 1 + j] == k[a2 + 1 + j]);
        }
    }
    assert(s.subrange(a3 + 1, a4) =~= d3) by {
        assert forall|j: int| 0 <= j < d3.len() implies s.subrange(a3 + 1, a4)[j] == d3[j] by {
            assert(s[a3 + 1 + j] == k[a3 + 1 + j]);
        }
    }
    assert(s.subrange(a4 + 1, a5) =~= dp) by {
        assert forall|j: int| 0 <= j < dp.len() implies s.subrange(a4 + 1, a5)[j] == dp[j] by {
            assert(s[a4 + 1 + j] == k[a4 + 1 + j]);
        }
    }
    assert(s[a1] == k[a1]);
    assert(s[a2] == k[a2]);
    assert(s[a3] == k[a3]);
    assert(s[a4] == k[a4]);
    assert(s[a1] == '.');
    assert(s[a2] == '.');
    assert(s[a3] == '.');
    assert(s[a4] == '-');
    lemma_placed_dec(s, 0, o.0 as nat);
    lemma_placed_dec(s, a1 + 1, o.1 as nat);
    lemma_placed_dec(s, a2 + 1, o.2 as nat);
    lemma_placed_dec(s, a3 + 1, o.3 as nat);
    lemma_placed_dec(s, a4 + 1, n4.1 as nat);
}

/// The IPv6 half of a key, `&<address>-<prefix>`, ends `s` at `e5`: the
/// pattern's optional part matches there and captures the address text and the
/// prefix.
#[verifier::spinoff_prover]
proof fn lemma_v6_half(s: Seq<char>, e5: int, t: Seq<char>, p: u8)
    requires
        0 <= e5,
        key_hex_text(t),
        s.len() == e5 + 1 + t.len() + 1 + dec_text(p as nat).len(),
        s[e5] == '&',
        s.subrange(e5 + 1, s.len() as int) == t + seq!['-'] + dec_text(p as nat),
    ensures
        hex_end(s, e5 + 1) == e5 + 1 + t.len(),
        s.subrange(e5 + 1, e5 + 1 + t.len()) == t,
        is_at(s, e5 + 1 + t.len(), '-'),
        digit_end(s, e5 + 1 + t.len() + 1) == s.len(),
        u8_value(s.subrange(e5 + 1 + t.len() + 1, s.len() as int)) == Some(p),
{
    let dq = dec_text(p as nat);
    let w = s.subrange(e5 + 1, s.len() as int);
    lemma_dec_text(p as nat);
    lemma_octet_roundtrip(p);
    let h: int = e5 + 1 + t.len();
    assert forall|j: int| e5 + 1 <= j < h implies #[trigger] is_hex_key_char(s[j]) by {
        assert(s[j] == w[j - e5 - 1]);
        assert(w[j - e5 - 1] == t[j - e5 - 1]);
    }
    assert(s[h] == w[h - e5 - 1]);
    assert(s[h] == '-');
    lemma_hex_run_exact(s, e5 + 1, t.len() as int);
    assert(s.subrange(e5 + 1, h) =~= t) by {
        assert forall|j: int| 0 <= j < t.len() implies s.subrange(e5 + 1, h)[j] == t[j] by {
            assert(s[e5 + 1 + j] == w[j]);
        }
    }
    assert(s.subrange(h + 1, s.len() as int) =~= dq) by {
        assert forall|j: int| 0 <= j < dq.len() implies s.subrange(h + 1, s.len() as int)[j]
            == dq[j] by {
            assert(s[h + 1 + j] == w[t.len() + 1 + j]);
        }
    }
    lemma_placed_dec(s, h + 1, p as nat);
}

/// std's text of an IPv6 address without a `.` (any but the IPv4-mapped form)
/// is a run of `[a-f\d:]` characters, which the key's pattern reads whole.
pub proof fn lemma_dotless_ipv6_text(t: Seq<char>)
    requires
        ipv6_text_chars(t),
        !t.contains('.'),
    ensures
        key_hex_text(t),
{
    assert forall|k: int| 0 <= k < t.len() implies #[trigger] is_hex_key_char(t[k]) by {
        assert(is_ipv6_text_char(t[k]));
        if t[k] == '.' {
            assert(t.contains('.'));
        }
    }
}

/// Reading back a key gives the networks it was made of, where the IPv6
/// address's text is a run of `[a-f\d:]` characters that `ipnetwork` reads back
/// as that address.
pub proof fn lemma_subnet_key_roundtrip(n4: (Ipv4Octets, u8), n6: Option<(u128, u8)>)
    requires
        ipv4_net_valid(n4),
        n6 matches Some(v6) ==> {
            &&& ipv6_net_valid(v6)
            &&& key_hex_text(ipv6_addr_text(v6.0))
            &&& ipv6_network_parse(ipv6_addr_text(v6.0)) == Some((v6.0, 128u8))
        },
    ensures
        spec_parse_subnet_key(spec_make_subnet_key(n4, n6)) == Some((n4, n6)),
{
    match n6 {
        None => lemma_roundtrip_v4_only(n4),
        Some(v6) => lemma_roundtrip_with_v6(n4, v6),
    }
}

#[verifier::spinoff_prover]
proof fn lemma_roundtrip_v4_only(n4: (Ipv4Octets, u8))
    requires
        ipv4_net_valid(n4),
    ensures
        spec_parse_subnet_key(spec_make_subnet_key(n4, None)) == Some((n4, None::<(u128, u8)>)),
{
    let s = spec_make_subnet_key(n4, None);
    let head = ipv4_addr_text(n4.0) + seq!['-'] + dec_text(n4.1 as nat);
    let l: int = head.len() as int;
    lemma_make_v4(n4);
    assert(s =~= head);
    assert(s.subrange(0, l) =~= head);
    lemma_v4_half(s, n4);
    assert(!key_has_ipv6(s, 0));
    assert(first_key_match(s, 0) == Some(0int));
}

#[verifier::spinoff_prover]
proof fn lemma_roundtrip_with_v6(n4: (Ipv4Octets, u8), v6: (u128, u8))
    requires
        ipv4_net_valid(n4),
        ipv6_net_valid(v6),
        key_hex_text(ipv6_addr_text(v6.0)),
        ipv6_network_parse(ipv6_addr_text(v6.0)) == Some((v6.0, 128u8)),
    ensures
        spec_parse_subnet_key(spec_make_subnet_key(n4, Some(v6))) == Some((n4, Some(v6))),
{
    let s = spec_make_subnet_key(n4, Some(v6));
    let head = ipv4_addr_text(n4.0) + seq!['-'] + dec_text(n4.1 as nat);
    let l: int = head.len() as int;
    lemma_make_v4(n4);
    let t = ipv6_addr_text(v6.0);
    let dq = dec_text(v6.1 as nat);
    lemma_six_tail(v6);
    let tail = t + seq!['-'] + dq;
    assert(s =~= head + seq!['&'] + tail);
    assert(s.subrange(0, l) =~= head);
    assert(s[l] == '&');
    lemma_v4_half(s, n4);
    assert(s.subrange(l + 1, s.len() as int) =~= tail);
    lemma_v6_half(s, l, t, v6.1);
    assert(key_has_ipv6(s, 0));
    let k = key_nets_at(s, 0);
    assert(k == key_nets_with_ipv6_spec(n4, Some((v6.0, 128u8)), Some(v6.1)));
    assert(first_key_match(s, 0) == Some(0int));
}

/// The IPv6 half of a key with its `/` replaced: `<address>-<prefix>`.
proof fn lemma_six_tail(v6: (u128, u8))
    requires
        key_hex_text(ipv6_addr_text(v6.0)),
    ensures
        replace_char(ipv6_net_text(v6), '/', '-') =~= ipv6_addr_text(v6.0) + seq!['-'] + dec_text(
            v6.1 as nat,
        ),
{
    let t = ipv6_addr_text(v6.0);
    let dq = dec_text(v6.1 as nat);
    lemma_dec_text(v6.1 as nat);
    lemma_hex_text_no_slash(t);
    lemma_replace_concat(t + seq!['/'], dq, '/', '-');
    lemma_replace_concat(t, seq!['/'], '/', '-');
    lemma_replace_absent(t, '/', '-');
    lemma_replace_absent(dq, '/', '-');
    assert(replace_char(seq!['/'], '/', '-') =~= seq!['-']);
}

/// Reading back the key of an IPv4 network alone gives that network.
pub proof fn lemma_ipv4_subnet_key_roundtrip(n4: (Ipv4Octets, u8))
    requires
        ipv4_net_valid(n4),
    ensures
        spec_parse_subnet_key(spec_make_subnet_key(n4, None)) == Some((n4, None::<(u128, u8)>)),
{
    lemma_subnet_key_roundtrip(n4, None);
}

// ---------------------------------------------------------------------
// A key after other text
// ---------------------------------------------------------------------

/// The runs of digits and of `[a-f\d:]` characters in `k` are those of `p + k`,
/// moved by the length of `p`.
proof fn lemma_runs_shift(p: Seq<char>, k: Seq<char>, j: int)
    requires
        0 <= j,
    ensures
        digit_run(p + k, p.len() + j) == digit_run(k, j),
        hex_run(p + k, p.len() + j) == hex_run(k, j),
    decreases k.len() - j,
{
    if j < k.len() {
        assert((p + k)[p.len() + j] == k[j]);
        lemma_runs_shift(p, k, j + 1);
        assert(p.len() + j + 1 == p.len() + (j + 1));
    }
}

/// A run that starts within a text ends within it.
proof fn lemma_run_bound(s: Seq<char>, i: int)
    requires
        0 <= i <= s.len(),
    ensures
        i + digit_run(s, i) <= s.len(),
        i + hex_run(s, i) <= s.len(),
    decreases s.len() - i,
{
    if i < s.len() {
        lemma_run_bound(s, i + 1);
    }
}

/// A character of `k` is the character of `p + k` moved by the length of `p`.
proof fn lemma_is_at_shift(p: Seq<char>, k: Seq<char>, x: int, c: char)
    requires
        0 <= x,
    ensures
        is_at(p + k, p.len() + x, c) == is_at(k, x, c),
{
    if x < k.len() {
        assert((p + k)[p.len() + x] == k[x]);
    }
}

/// The parts that the pattern finds in `k` at `j` are those it finds in `p + k`
/// at `p.len() + j`, moved by the length of `p`.
#[verifier::spinoff_prover]
proof fn lemma_key_ends_shift(p: Seq<char>, k: Seq<char>, j: int)
    requires
        0 <= j,
    ensures
        key_e1(p + k, p.len() + j) == p.len() + key_e1(k, j),
        key_e2(p + k, p.len() + j) == p.len() + key_e2(k, j),
        key_e3(p + k, p.len() + j) == p.len() + key_e3(k, j),
        key_e4(p + k, p.len() + j) == p.len() + key_e4(k, j),
        key_e5(p + k, p.len() + j) == p.len() + key_e5(k, j),
        key_h(p + k, p.len() + j) == p.len() + key_h(k, j),
        key_q(p + k, p.len() + j) == p.len() + key_q(k, j),
        key_matches_at(p + k, p.len() + j) == key_matches_at(k, j),
        key_has_ipv6(p + k, p.len() + j) == key_has_ipv6(k, j),
{
    let s = p + k;
    let l = p.len() as int;
    lemma_runs_shift(p, k, j);
    let e1 = key_e1(k, j);
    lemma_runs_shift(p, k, e1 + 1);
    assert(key_e2(s, l + j) == digit_end(s, l + (e1 + 1)));
    let e2 = key_e2(k, j);
    lemma_runs_shift(p, k, e2 + 1);
    assert(key_e3(s, l + j) == digit_end(s, l + (e2 + 1)));
    let e3 = key_e3(k, j);
    lemma_runs_shift(p, k, e3 + 1);
    assert(key_e4(s, l + j) == digit_end(s, l + (e3 + 1)));
    let e4 = key_e4(k, j);
    lemma_runs_shift(p, k, e4 + 1);
    assert(key_e5(s, l + j) == digit_end(s, l + (e4 + 1)));
    let e5 = key_e5(k, j);
    lemma_runs_shift(p, k, e5 + 1);
    assert(key_h(s, l + j) == hex_end(s, l + (e5 + 1)));
    let h = key_h(k, j);
    lemma_runs_shift(p, k, h + 1);
    assert(key_q(s, l + j) == digit_end(s, l + (h + 1)));
    lemma_is_at_shift(p, k, e1, '.');
    lemma_is_at_shift(p, k, e2, '.');
    lemma_is_at_shift(p, k, e3, '.');
    lemma_is_at_shift(p, k, e4, '-');
    lemma_is_at_shift(p, k, e5, '&');
    lemma_is_at_shift(p, k, h, '-');
}

/// The characters `k[a..b]` are the characters of `p + k` moved by the length
/// of `p`.
proof fn lemma_subrange_shift(p: Seq<char>, k: Seq<char>, a: int, b: int)
    requires
        0 <= a <= b <= k.len(),
    ensures
        (p + k).subrange(p.len() + a, p.len() + b) == k.subrange(a, b),
{
    assert((p + k).subrange(p.len() + a, p.len() + b) =~= k.subrange(a, b));
}

/// What the key reads as at `j` in `k` is what it reads as at `p.len() + j` in
/// `p + k`.
#[verifier::spinoff_prover]
proof fn lemma_key_nets_shift(p: Seq<char>, k: Seq<char>, j: int)
    requires
        0 <= j,
        key_matches_at(k, j),
    ensures
        key_nets_at(p + k, p.len() + j) == key_nets_at(k, j),
{
    let l = p.len() as int;
    lemma_key_ends_shift(p, k, j);
    lemma_runs_shift(p, k, key_e4(k, j) + 1);
    let e1 = key_e1(k, j);
    let e2 = key_e2(k, j);
    let e3 = key_e3(k, j);
    let e4 = key_e4(k, j);
    let e5 = key_e5(k, j);
    lemma_run_bound(k, e4 + 1);
    assert(e5 <= k.len());
    lemma_subrange_shift(p, k, j, e1);
    lemma_subrange_shift(p, k, e1 + 1, e2);
    lemma_subrange_shift(p, k, e2 + 1, e3);
    lemma_subrange_shift(p, k, e3 + 1, e4);
    lemma_subrange_shift(p, k, e4 + 1, e5);
    if key_has_ipv6(k, j) {
        let h = key_h(k, j);
        let q = key_q(k, j);
        lemma_runs_shift(p, k, h + 1);
        lemma_run_bound(k, h + 1);
        assert(q <= k.len());
        lemma_subrange_shift(p, k, e5 + 1, h);
        lemma_subrange_shift(p, k, h + 1, q);
    }
}

/// Searching `p + k` from `p.len() + j` finds the match that searching `k` from
/// `j` finds, moved by the length of `p`.
proof fn lemma_first_match_shift(p: Seq<char>, k: Seq<char>, j: int)
    requires
        0 <= j <= k.len(),
    ensures
        first_key_match(p + k, p.len() + j) == match first_key_match(k, j) {
            Some(i) => Some(p.len() + i),
            None => None::<int>,
        },
    decreases k.len() - j,
{
    if j < k.len() {
        lemma_key_ends_shift(p, k, j);
        if !key_matches_at(k, j) {
            lemma_first_match_shift(p, k, j + 1);
            assert(p.len() + j + 1 == p.len() + (j + 1));
        }
    }
}

/// Where no match starts before `p.len()`, searching from `i` finds what
/// searching from `p.len()` finds.
proof fn lemma_first_match_skips(s: Seq<char>, i: int, l: int)
    requires
        0 <= i <= l <= s.len(),
        forall|x: int| i <= x < l ==> !#[trigger] key_matches_at(s, x),
    ensures
        first_key_match(s, i) == first_key_match(s, l),
    decreases l - i,
{
    if i < l {
        assert(!key_matches_at(s, i));
        lemma_first_match_skips(s, i + 1, l);
    }
}

/// A key is found wherever it stands: text in front of it, in which no match of
/// the key's pattern starts, does not change what the text reads as.
pub proof fn lemma_parse_after_text(p: Seq<char>, k: Seq<char>)
    requires
        forall|x: int| 0 <= x < p.len() ==> !#[trigger] key_matches_at(p + k, x),
    ensures
        spec_parse_subnet_key(p + k) == spec_parse_subnet_key(k),
{
    let s = p + k;
    lemma_first_match_skips(s, 0, p.len() as int);
    lemma_first_match_shift(p, k, 0);
    assert(p.len() + 0 == p.len());
    match first_key_match(k, 0) {
        Some(i) => {
            lemma_first_match_found(k, 0);
            lemma_key_nets_shift(p, k, i);
        },
        None => {},
    }
}

/// A match that the search finds is a match, at or after where it started.
proof fn lemma_first_match_found(s: Seq<char>, i: int)
    ensures
        first_key_match(s, i) matches Some(x) ==> i <= x && key_matches_at(s, x),
    decreases s.len() - i,
{
    if 0 <= i < s.len() && !key_matches_at(s, i) {
        lemma_first_match_found(s, i + 1);
    }
}

/// A written key is read back after any text without digits in front of it
/// (such as the directory of an etcd key, `/coreos.com/network/subnets/`).
pub proof fn lemma_subnet_key_after_text(
    p: Seq<char>,
    n4: (Ipv4Octets, u8),
    n6: Option<(u128, u8)>,
)
    requires
        forall|x: int| 0 <= x < p.len() ==> !#[trigger] is_pattern_digit(p[x]),
        ipv4_net_valid(n4),
        n6 matches Some(v6) ==> {
            &&& ipv6_net_valid(v6)
            &&& key_hex_text(ipv6_addr_text(v6.0))
            &&& ipv6_network_parse(ipv6_addr_text(v6.0)) == Some((v6.0, 128u8))
        },
    ensures
        spec_parse_subnet_key(p + spec_make_subnet_key(n4, n6)) == Some((n4, n6)),
{
    let k = spec_make_subnet_key(n4, n6);
    assert forall|x: int| 0 <= x < p.len() implies !#[trigger] key_matches_at(p + k, x) by {
        if key_matches_at(p + k, x) {
            assert(digit_run(p + k, x) > 0);
            assert((p + k)[x] == p[x]);
        }
    }
    lemma_parse_after_text(p, k);
    lemma_subnet_key_roundtrip(n4, n6);
}

} // verus!
