//! IPv4 and IPv6 networks (an address and a prefix length), as the
//! `ipnetwork` crate models them, with their textual forms.
use vstd::prelude::*;

use vstd::arithmetic::power2::pow2;

use crate::text::{all_digits, dec_text, dec_value, lemma_dec_text, push_dec, string_from_chars};

verus! {

/// The four octets of an IPv4 address, most significant first.
pub type Ipv4Octets = (u8, u8, u8, u8);

/// The dotted-decimal text of an IPv4 address (`a.b.c.d`, each octet in decimal
/// without leading zeros).
pub open spec fn ipv4_addr_text(o: Ipv4Octets) -> Seq<char> {
    dec_text(o.0 as nat) + seq!['.'] + dec_text(o.1 as nat) + seq!['.'] + dec_text(o.2 as nat)
        + seq!['.'] + dec_text(o.3 as nat)
}

/// The CIDR text of an IPv4 network: `address/prefix`.
pub open spec fn ipv4_net_text(n: (Ipv4Octets, u8)) -> Seq<char> {
    ipv4_addr_text(n.0) + seq!['/'] + dec_text(n.1 as nat)
}

/// The textual form of an IPv6 address that std's `Display` for `Ipv6Addr` writes
/// (RFC 5952), which `ipnetwork`'s `Display` writes before the `/`.
pub uninterp spec fn ipv6_addr_text(addr: u128) -> Seq<char>;

/// What `ipnetwork`'s `Ipv6Network::from_str` gives for a text: the address (as a
/// number) and the prefix length, or `None` where it reports an error.
pub uninterp spec fn ipv6_network_parse(text: Seq<char>) -> Option<(u128, u8)>;

/// The CIDR text of an IPv6 network: `address/prefix`.
pub open spec fn ipv6_net_text(n: (u128, u8)) -> Seq<char> {
    ipv6_addr_text(n.0) + seq!['/'] + dec_text(n.1 as nat)
}

/// A character of std's text of an IPv6 address: a lowercase hexadecimal digit,
/// `:`, or `.` (which only the IPv4-mapped form `::ffff:a.b.c.d` holds).
pub open spec fn is_ipv6_text_char(c: char) -> bool {
    ('0' <= c && c <= '9') || ('a' <= c && c <= 'f') || c == ':' || c == '.'
}

/// A nonempty text made of the characters std writes in an IPv6 address.
pub open spec fn ipv6_text_chars(t: Seq<char>) -> bool {
    t.len() > 0 && forall|k: int| 0 <= k < t.len() ==> #[trigger] is_ipv6_text_char(t[k])
}

/// What is known of the texts of an IPv6 network: its address text is made of
/// the characters std writes, and `ipnetwork` reads the address text back as
/// the address (with the full prefix) and the CIDR text back as the network.
pub open spec fn ipv6_texts_read_back(n: (u128, u8)) -> bool {
    &&& ipv6_text_chars(ipv6_addr_text(n.0))
    &&& ipv6_network_parse(ipv6_addr_text(n.0)) == Some((n.0, 128u8))
    &&& ipv6_network_parse(ipv6_net_text(n)) == Some(n)
}

/// The part of a CIDR text `t` before the `/` and the decimal `prefix` that end it.
pub open spec fn addr_part(t: Seq<char>, prefix: u8) -> Seq<char> {
    t.take(t.len() - 1 - dec_text(prefix as nat).len())
}

/// `ipnetwork::Ipv4Network::new`. Claims, as its source shows: it fails exactly
/// when the prefix exceeds 32, and otherwise keeps the address and the prefix as
/// given.
#[verifier::external_body]
fn ipv4_network_new(o: Ipv4Octets, prefix: u8) -> (r: Option<(Ipv4Octets, u8)>)
    ensures
        r == (if prefix <= 32 {
            Some((o, prefix))
        } else {
            None::<(Ipv4Octets, u8)>
        }),
{
    match ipnetwork::Ipv4Network::new([o.0, o.1, o.2, o.3].into(), prefix) {
        Ok(n) => {
            let x = n.ip().octets();
            Some(((x[0], x[1], x[2], x[3]), n.prefix()))
        },
        Err(_) => None,
    }
}

/// `ipnetwork::Ipv6Network::new`. Claims, as its source shows: it fails exactly
/// when the prefix exceeds 128, and otherwise keeps the address and the prefix as
/// given.
#[verifier::external_body]
fn ipv6_network_new(addr: u128, prefix: u8) -> (r: Option<(u128, u8)>)
    ensures
        r == (if prefix <= 128 {
            Some((addr, prefix))
        } else {
            None::<(u128, u8)>
        }),
{
    match ipnetwork::Ipv6Network::new(addr.into(), prefix) {
        Ok(n) => Some((u128::from(n.ip()), n.prefix())),
        Err(_) => None,
    }
}

/// std's `Ipv4Addr::from_str`: the address whose dotted-decimal text `t` is
/// (four octets in decimal without leading zeros, separated by `.`); none for
/// any other text.
pub open spec fn ipv4_addr_read(t: Seq<char>) -> Option<Ipv4Octets> {
    if exists|o: Ipv4Octets| t == #[trigger] ipv4_addr_text(o) {
        Some(choose|o: Ipv4Octets| t == #[trigger] ipv4_addr_text(o))
    } else {
        None
    }
}

/// `u8::from_str`: an optional `+` and one or more ASCII digits, of value at
/// most 255; none for any other text.
pub open spec fn u8_read(t: Seq<char>) -> Option<u8> {
    let d = if t.len() > 0 && t[0] == '+' {
        t.drop_first()
    } else {
        t
    };
    if d.len() > 0 && all_digits(d) && dec_value(d) <= 255 {
        Some(dec_value(d) as u8)
    } else {
        None
    }
}

/// An IPv4 address as a 32-bit number.
pub open spec fn ipv4_value(o: Ipv4Octets) -> nat {
    o.0 as nat * 0x100_0000 + o.1 as nat * 0x1_0000 + o.2 as nat * 0x100 + o.3 as nat
}

/// The netmask of a prefix length `k` (at most 32), as a number: `k` one bits
/// followed by zero bits.
pub open spec fn ipv4_mask_value(k: u8) -> int {
    pow2(32) - pow2((32 - k) as nat)
}

/// `ipnetwork::ipv4_mask_to_prefix`: the prefix length of a netmask that is one
/// bits followed by zero bits; none for any other address.
pub open spec fn ipv4_mask_prefix(m: Ipv4Octets) -> Option<u8> {
    if exists|k: u8| k <= 32 && ipv4_value(m) == #[trigger] ipv4_mask_value(k) {
        Some(choose|k: u8| k <= 32 && ipv4_value(m) == #[trigger] ipv4_mask_value(k))
    } else {
        None
    }
}

/// The prefix part of an IPv4 CIDR text: a netmask in dotted decimal, or a
/// `u8` of at most 32.
pub open spec fn ipv4_prefix_read(v: Seq<char>) -> Option<u8> {
    match ipv4_addr_read(v) {
        Some(m) => ipv4_mask_prefix(m),
        None => match u8_read(v) {
            Some(p) => if p <= 32 {
                Some(p)
            } else {
                None
            },
            None => None,
        },
    }
}

/// `t` holds a `/` at `i` and nowhere else.
pub open spec fn single_slash_at(t: Seq<char>, i: int) -> bool {
    &&& 0 <= i < t.len()
    &&& t[i] == '/'
    &&& forall|j: int| 0 <= j < t.len() && j != i ==> #[trigger] t[j] != '/'
}

/// What `ipnetwork`'s `Ipv4Network::from_str` reads from a text: an address
/// alone gets the prefix 32; an address, a single `/` and a prefix part
/// (`ipv4_prefix_read`) get that prefix; any other text is refused.
pub open spec fn ipv4_cidr_read(t: Seq<char>) -> Option<(Ipv4Octets, u8)> {
    if !t.contains('/') {
        match ipv4_addr_read(t) {
            Some(o) => Some((o, 32u8)),
            None => None,
        }
    } else if exists|i: int| single_slash_at(t, i) {
        let i = choose|i: int| single_slash_at(t, i);
        match (ipv4_addr_read(t.take(i)), ipv4_prefix_read(t.skip(i + 1))) {
            (Some(o), Some(p)) => Some((o, p)),
            _ => None,
        }
    } else {
        None
    }
}

/// `ipnetwork::Ipv4Network::from_str`. Claims: the result is `ipv4_cidr_read` of
/// the text. The source splits the text at its `/` (refusing a second one),
/// reads the address with std's `Ipv4Addr::from_str` (dotted decimal, no leading
/// zeros), reads the part after the `/`, if there is one, as a netmask where
/// std reads it as an address (refused unless it is one bits followed by zero
/// bits; its prefix is the number of one bits) and otherwise as a `u8` of at
/// most 32 (`u8::from_str`: an optional `+` and digits), gives the prefix 32
/// where there is no `/`, and builds the network with `Ipv4Network::new`.
#[verifier::external_body]
pub(crate) fn ipv4_network_from_str(s: &str) -> (r: Option<(Ipv4Octets, u8)>)
    ensures
        r == ipv4_cidr_read(s@),
        r matches Some(p) ==> p.1 <= 32,
{
    match s.parse::<ipnetwork::Ipv4Network>() {
        Ok(n) => {
            let x = n.ip().octets();
            Some(((x[0], x[1], x[2], x[3]), n.prefix()))
        },
        Err(_) => None,
    }
}

/// `ipnetwork::Ipv6Network::from_str`. Claims: the result is
/// `ipv6_network_parse` of the text, and a prefix it returns is at most 128 (it
/// builds the network with `Ipv6Network::new`). Which texts it accepts is left to
/// that name.
#[verifier::external_body]
pub(crate) fn ipv6_network_from_str(s: &str) -> (r: Option<(u128, u8)>)
    ensures
        r == ipv6_network_parse(s@),
        r matches Some(p) ==> p.1 <= 128,
{
    match s.parse::<ipnetwork::Ipv6Network>() {
        Ok(n) => Some((u128::from(n.ip()), n.prefix())),
        Err(_) => None,
    }
}

/// `ipnetwork`'s `Display` for `Ipv6Network`, on the network that
/// `Ipv6Network::new` builds. Claims: there is a text exactly when the prefix is at
/// most 128; it is the address as std writes it (`ipv6_addr_text`), a `/` and the
/// prefix in decimal (the source writes `"{}/{}"` of the address and the prefix);
/// std's address text (RFC 5952: lowercase hexadecimal groups, `:` and `::`, and
/// the dotted IPv4-mapped form) is nonempty and made of `[0-9a-f:.]`;
/// `Ipv6Network::from_str` reads the address part back as that address with the
/// full prefix 128 (std writes an address in a form that its own parser reads
/// back, and a text without `/` gets the prefix 128), and reads the whole text
/// back as the network (the source splits at the single `/`, reads the address
/// with std's parser and the decimal prefix as a `u8` of at most 128).
#[verifier::external_body]
fn ipv6_network_to_string(addr: u128, prefix: u8) -> (r: Option<String>)
    ensures
        r is Some <==> prefix <= 128,
        r matches Some(t) ==> t@ == ipv6_addr_text(addr) + seq!['/'] + dec_text(prefix as nat),
        r matches Some(t) ==> ipv6_network_parse(addr_part(t@, prefix)) == Some((addr, 128u8)),
        r matches Some(t) ==> ipv6_text_chars(ipv6_addr_text(addr)),
        r matches Some(t) ==> ipv6_network_parse(t@) == Some((addr, prefix)),
{
    match ipnetwork::Ipv6Network::new(addr.into(), prefix) {
        Ok(n) => Some(n.to_string()),
        Err(_) => None,
    }
}

/// An IPv4 network: an address and a prefix length of at most 32. Like
/// `ipnetwork::Ipv4Network`, it keeps the address as given (host bits included).
#[derive(Clone, Copy, Debug, PartialEq, Eq)]
pub struct Ipv4Net {
    octets: Ipv4Octets,
    prefix: u8,
}

impl View for Ipv4Net {
    type V = (Ipv4Octets, u8);

    closed spec fn view(&self) -> (Ipv4Octets, u8) {
        (self.octets, self.prefix)
    }
}

/// A valid IPv4 network: its prefix is at most 32.
pub open spec fn ipv4_net_valid(n: (Ipv4Octets, u8)) -> bool {
    n.1 <= 32
}

/// A valid IPv6 network: its prefix is at most 128.
pub open spec fn ipv6_net_valid(n: (u128, u8)) -> bool {
    n.1 <= 128
}

impl Ipv4Net {
    #[verifier::type_invariant]
    spec fn inv(self) -> bool {
        self.prefix <= 32
    }

    /// The network with address `ip` and prefix length `prefix`; `None` where the
    /// prefix exceeds 32 (as `Ipv4Network::new`).
    pub fn new(ip: [u8; 4], prefix: u8) -> (r: Option<Ipv4Net>)
        ensures
            r is Some <==> prefix <= 32,
            r matches Some(n) ==> n@ == ((ip@[0], ip@[1], ip@[2], ip@[3]), prefix),
    {
        match ipv4_network_new((ip[0], ip[1], ip[2], ip[3]), prefix) {
            Some((o, p)) => Some(Ipv4Net { octets: o, prefix: p }),
            None => None,
        }
    }

    /// The address.
    pub fn ip(&self) -> (r: [u8; 4])
        ensures
            r@ == seq![self@.0.0, self@.0.1, self@.0.2, self@.0.3],
    {
        [self.octets.0, self.octets.1, self.octets.2, self.octets.3]
    }

    /// The prefix length, at most 32.
    pub fn prefix(&self) -> (r: u8)
        ensures
            r == self@.1,
            ipv4_net_valid(self@),
    {
        proof {
            use_type_invariant(self);
        }
        self.prefix
    }

    /// The CIDR text, `address/prefix` (what `Display` writes), of this valid
    /// network.
    pub fn to_string(&self) -> (r: String)
        ensures
            r@ == ipv4_net_text(self@),
            ipv4_net_valid(self@),
    {
        proof {
            use_type_invariant(self);
        }
        let mut v: Vec<char> = Vec::new();
        push_ipv4_net_text(&mut v, self);
        string_from_chars(&v)
    }
}

/// Appends the CIDR text of `n` to `v`.
pub fn push_ipv4_net_text(v: &mut Vec<char>, n: &Ipv4Net)
    ensures
        final(v)@ == old(v)@ + ipv4_net_text(n@),
{
    let ip = n.ip();
    push_dec(v, ip[0] as u32);
    v.push('.');
    push_dec(v, ip[1] as u32);
    v.push('.');
    push_dec(v, ip[2] as u32);
    v.push('.');
    push_dec(v, ip[3] as u32);
    v.push('/');
    push_dec(v, n.prefix() as u32);
    assert(v@ =~= old(v)@ + ipv4_net_text(n@));
}

/// An IPv6 network: an address (as a 128-bit number) and a prefix length of at
/// most 128. Like `ipnetwork::Ipv6Network`, it keeps the address as given.
#[derive(Clone, Copy, Debug, PartialEq, Eq)]
pub struct Ipv6Net {
    addr: u128,
    prefix: u8,
}

impl View for Ipv6Net {
    type V = (u128, u8);

    closed spec fn view(&self) -> (u128, u8) {
        (self.addr, self.prefix)
    }
}

impl Ipv6Net {
    #[verifier::type_invariant]
    spec fn inv(self) -> bool {
        self.prefix <= 128
    }

    /// The network with address `addr` and prefix length `prefix`; `None` where
    /// the prefix exceeds 128 (as `Ipv6Network::new`).
    pub fn new(addr: u128, prefix: u8) -> (r: Option<Ipv6Net>)
        ensures
            r is Some <==> prefix <= 128,
            r matches Some(n) ==> n@ == (addr, prefix),
    {
        match ipv6_network_new(addr, prefix) {
            Some((a, p)) => Some(Ipv6Net { addr: a, prefix: p }),
            None => None,
        }
    }

    /// The address, as a 128-bit number.
    pub fn addr(&self) -> (r: u128)
        ensures
            r == self@.0,
    {
        self.addr
    }

    /// The prefix length, at most 128.
    pub fn prefix(&self) -> (r: u8)
        ensures
            r == self@.1,
            ipv6_net_valid(self@),
    {
        proof {
            use_type_invariant(self);
        }
        self.prefix
    }

    /// The CIDR text, `address/prefix` (what `Display` writes). `ipnetwork` reads
    /// the address part back as this address, and the whole text back as this
    /// network.
    pub fn to_string(&self) -> (r: String)
        ensures
            r@ == ipv6_net_text(self@),
            ipv6_texts_read_back(self@),
    {
        let p = self.prefix();
        match ipv6_network_to_string(self.addr, p) {
            Some(t) => {
                proof {
                    lemma_dec_text(p as nat);
                    assert(addr_part(t@, p) =~= ipv6_addr_text(self@.0));
                }
                t
            },
            None => String::new(),
        }
    }
}

} // verus!
