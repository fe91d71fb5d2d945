//! The subnet file (`subnet.env`): what is written to it, and the networks read
//! back from its bytes, which `dotenvy` parses into entries.
use vstd::prelude::*;
use vstd::utf8::encode_utf8;

use crate::net::{
    ipv4_cidr_read, ipv4_net_text, ipv4_network_from_str, ipv6_net_text,
    ipv6_network_from_str, ipv6_network_parse, ipv6_text_chars, ipv6_texts_read_back,
    is_ipv6_text_char, Ipv4Net, Ipv4Octets, Ipv6Net,
};
use crate::key::{lemma_ipv4_subnet_key_roundtrip, lemma_ipv4_text_no_slash, spec_make_subnet_key};
use crate::net::{
    ipv4_addr_read, ipv4_addr_text, ipv4_net_valid, ipv6_addr_text, single_slash_at, u8_read,
};
use crate::text::{
    all_digits, dec_text, is_digit, is_ws, lemma_dec_text, leading_ws, push_dec, split_char,
    split_commas_trimmed, string_from_chars, trailing_ws, trim_seq,
};

verus! {

/// The network configuration that comes with a subnet: which address families
/// are enabled and the cluster-wide networks they belong to.
#[derive(Clone, Copy, Debug, PartialEq, Eq)]
pub struct NetworkConfig {
    pub enable_ipv4: bool,
    pub enable_ipv6: bool,
    pub network: Option<Ipv4Net>,
    pub ipv6_network: Option<Ipv6Net>,
}

impl Default for NetworkConfig {
    fn default() -> (r: Self)
        ensures
            !r.enable_ipv4,
            !r.enable_ipv6,
            r.network is None,
            r.ipv6_network is None,
    {
        NetworkConfig { enable_ipv4: false, enable_ipv6: false, network: None, ipv6_network: None }
    }
}

/// The configuration holds the cluster network of every enabled family for
/// which a subnet is given (the subnet file names both).
pub open spec fn subnet_file_writable(
    config: NetworkConfig,
    sn4: Option<Ipv4Net>,
    sn6: Option<Ipv6Net>,
) -> bool {
    &&& (config.enable_ipv4 && sn4 is Some ==> config.network is Some)
    &&& (config.enable_ipv6 && sn6 is Some ==> config.ipv6_network is Some)
}

/// The entries of the subnet file, key and value, in the order they are
/// written: for an enabled family with a subnet, its cluster network and its
/// subnet; then the MTU and whether IP masquerading is on.
pub open spec fn subnet_file_entries(
    config: NetworkConfig,
    ip_masq: bool,
    sn4: Option<Ipv4Net>,
    sn6: Option<Ipv6Net>,
    mtu: u32,
) -> Seq<(Seq<char>, Seq<char>)> {
    let v4 = if config.enable_ipv4 && sn4 is Some {
        seq![
            ("RKL_NETWORK"@, ipv4_net_text(config.network.unwrap()@)),
            ("RKL_SUBNET"@, ipv4_net_text(sn4.unwrap()@)),
        ]
    } else {
        Seq::empty()
    };
    let v6 = if config.enable_ipv6 && sn6 is Some {
        seq![
            ("RKL_IPV6_NETWORK"@, ipv6_net_text(config.ipv6_network.unwrap()@)),
            ("RKL_IPV6_SUBNET"@, ipv6_net_text(sn6.unwrap()@)),
        ]
    } else {
        Seq::empty()
    };
    v4 + v6 + seq![
        ("RKL_MTU"@, dec_text(mtu as nat)),
        (
            "RKL_IPMASQ"@,
            if ip_masq {
                "true"@
            } else {
                "false"@
            },
        ),
    ]
}

/// The line of an entry: `key=value` and a line feed.
pub open spec fn entry_line(e: (Seq<char>, Seq<char>)) -> Seq<char> {
    e.0 + seq!['='] + e.1 + seq!['\n']
}

/// The text of entries: their lines, in order.
pub open spec fn entry_lines(entries: Seq<(Seq<char>, Seq<char>)>) -> Seq<char>
    decreases entries.len(),
{
    if entries.len() == 0 {
        Seq::empty()
    } else {
        entry_lines(entries.drop_last()) + entry_line(entries.last())
    }
}

/// The contents of the subnet file: the lines of its entries.
pub open spec fn subnet_file_text(
    config: NetworkConfig,
    ip_masq: bool,
    sn4: Option<Ipv4Net>,
    sn6: Option<Ipv6Net>,
    mtu: u32,
) -> Seq<char> {
    entry_lines(subnet_file_entries(config, ip_masq, sn4, sn6, mtu))
}

/// Appends the line `key=value` to `contents`.
fn push_entry(contents: &mut String, key: &str, value: &str)
    ensures
        final(contents)@ == old(contents)@ + entry_line((key@, value@)),
{
    contents.append(key);
    contents.append("=");
    contents.append(value);
    contents.append("\n");
    proof {
        reveal_strlit("=");
        reveal_strlit("\n");
        assert(final(contents)@ =~= old(contents)@ + entry_line((key@, value@)));
    }
}

/// The contents of the subnet file for a configuration, the subnets and the MTU.
///
/// Reading the written entries back gives the networks written: the IPv4
/// subnet and cluster network under `RKL_SUBNET` and `RKL_NETWORK`, the IPv6
/// ones under `RKL_IPV6_SUBNET` and `RKL_IPV6_NETWORK`, each alone, and none
/// under the key of a family that was not written.
pub fn subnet_file_contents(
    config: &NetworkConfig,
    ip_masq: bool,
    sn4: Option<Ipv4Net>,
    sn6: Option<Ipv6Net>,
    mtu: u32,
) -> (r: String)
    requires
        subnet_file_writable(*config, sn4, sn6),
    ensures
        r@ == subnet_file_text(*config, ip_masq, sn4, sn6, mtu),
        ipv4_cidrs_of_entries(subnet_file_entries(*config, ip_masq, sn4, sn6, mtu), "RKL_SUBNET"@)
            == (if config.enable_ipv4 && sn4 is Some {
            seq![sn4.unwrap()@]
        } else {
            Seq::empty()
        }),
        ipv4_cidrs_of_entries(subnet_file_entries(*config, ip_masq, sn4, sn6, mtu), "RKL_NETWORK"@)
            == (if config.enable_ipv4 && sn4 is Some {
            seq![config.network.unwrap()@]
        } else {
            Seq::empty()
        }),
        ipv6_cidrs_of_entries(
            subnet_file_entries(*config, ip_masq, sn4, sn6, mtu),
            "RKL_IPV6_SUBNET"@,
        ) == (if config.enable_ipv6 && sn6 is Some {
            seq![sn6.unwrap()@]
        } else {
            Seq::empty()
        }),
        ipv6_cidrs_of_entries(
            subnet_file_entries(*config, ip_masq, sn4, sn6, mtu),
            "RKL_IPV6_NETWORK"@,
        ) == (if config.enable_ipv6 && sn6 is Some {
            seq![config.ipv6_network.unwrap()@]
        } else {
            Seq::empty()
        }),
        plain_env_entries(subnet_file_entries(*config, ip_masq, sn4, sn6, mtu)),
{
    let mut contents = String::new();
    let ghost mut es: Seq<(Seq<char>, Seq<char>)> = Seq::empty();
    assert(contents@ =~= entry_lines(es));
    if config.enable_ipv4 {
        if let Some(net) = sn4 {
            let cluster = config.network.unwrap();
            push_entry(&mut contents, "RKL_NETWORK", cluster.to_string().as_str());
            proof {
                es = es.push(("RKL_NETWORK"@, ipv4_net_text(cluster@)));
                assert(es.drop_last() =~= Seq::<(Seq<char>, Seq<char>)>::empty());
                assert(contents@ == entry_lines(es));
            }
            push_entry(&mut contents, "RKL_SUBNET", net.to_string().as_str());
            proof {
                let before = es;
                es = es.push(("RKL_SUBNET"@, ipv4_net_text(net@)));
                assert(es.drop_last() =~= before);
        assert(contents@ == entry_lines(es));
            }
        }
    }
    if config.enable_ipv6 {
        if let Some(net) = sn6 {
            let cluster = config.ipv6_network.unwrap();
            push_entry(&mut contents, "RKL_IPV6_NETWORK", cluster.to_string().as_str());
            proof {
                let before = es;
                es = es.push(("RKL_IPV6_NETWORK"@, ipv6_net_text(cluster@)));
                assert(es.drop_last() =~= before);
        assert(contents@ == entry_lines(es));
            }
            push_entry(&mut contents, "RKL_IPV6_SUBNET", net.to_string().as_str());
            proof {
                let before = es;
                es = es.push(("RKL_IPV6_SUBNET"@, ipv6_net_text(net@)));
                assert(es.drop_last() =~= before);
        assert(contents@ == entry_lines(es));
                lemma_subnet_file_ipv6_read_back(*config, ip_masq, sn4, sn6, mtu);
            }
        }
    }
    let mut digits: Vec<char> = Vec::new();
    push_dec(&mut digits, mtu);
    assert(digits@ =~= dec_text(mtu as nat));
    push_entry(&mut contents, "RKL_MTU", string_from_chars(&digits).as_str());
    proof {
        let before = es;
        es = es.push(("RKL_MTU"@, dec_text(mtu as nat)));
        assert(es.drop_last() =~= before);
        assert(contents@ == entry_lines(es));
    }
    let masq = if ip_masq {
        "true"
    } else {
        "false"
    };
    push_entry(&mut contents, "RKL_IPMASQ", masq);
    proof {
        let before = es;
        es = es.push(("RKL_IPMASQ"@, masq@));
        assert(es.drop_last() =~= before);
        assert(contents@ == entry_lines(es));
        assert(es =~= subnet_file_entries(*config, ip_masq, sn4, sn6, mtu));
        lemma_subnet_file_ipv4_read_back(*config, ip_masq, sn4, sn6, mtu);
        lemma_subnet_file_entries_plain(*config, ip_masq, sn4, sn6, mtu);
        if !(config.enable_ipv6 && sn6 is Some) {
            lemma_subnet_file_ipv6_read_back(*config, ip_masq, sn4, sn6, mtu);
        }
    }
    contents
}

/// Where the subnet configuration received for this node is written.
#[derive(Clone, Debug)]
pub struct SubnetReceiver {
    pub subnet_file_path: String,
}

impl SubnetReceiver {
    /// A receiver that writes the subnet file at `subnet_file_path`.
    pub fn new(subnet_file_path: String) -> (r: Self)
        ensures
            r.subnet_file_path == subnet_file_path,
    {
        SubnetReceiver { subnet_file_path }
    }
}

// ---------------------------------------------------------------------
// Reading networks back from the file's entries
// ---------------------------------------------------------------------

/// The `Some` values of `s`, in order.
pub open spec fn somes<T>(s: Seq<Option<T>>) -> Seq<T>
    decreases s.len(),
{
    if s.len() == 0 {
        Seq::<T>::empty()
    } else {
        let r = somes(s.drop_last());
        match s.last() {
            Some(x) => r.push(x),
            None => r,
        }
    }
}

/// The entries of a file (key and value), as character sequences.
pub open spec fn entries_view(entries: Seq<(String, String)>) -> Seq<(Seq<char>, Seq<char>)> {
    entries.map_values(|e: (String, String)| (e.0@, e.1@))
}

/// The IPv4 networks listed in a value: its comma-separated pieces, each trimmed
/// and read by `ipnetwork` (pieces it refuses are skipped).
pub open spec fn ipv4_cidrs_of_value(v: Seq<char>) -> Seq<(Ipv4Octets, u8)> {
    somes(split_char(v, ',').map_values(|p: Seq<char>| ipv4_cidr_read(trim_seq(p))))
}

/// The IPv6 networks listed in a value, as for IPv4.
pub open spec fn ipv6_cidrs_of_value(v: Seq<char>) -> Seq<(u128, u8)> {
    somes(split_char(v, ',').map_values(|p: Seq<char>| ipv6_network_parse(trim_seq(p))))
}

/// The IPv4 networks listed under `key`, entry after entry.
pub open spec fn ipv4_cidrs_of_entries(entries: Seq<(Seq<char>, Seq<char>)>, key: Seq<char>) -> Seq<
    (Ipv4Octets, u8),
>
    decreases entries.len(),
{
    if entries.len() == 0 {
        Seq::empty()
    } else {
        let r = ipv4_cidrs_of_entries(entries.drop_last(), key);
        if entries.last().0 == key {
            r + ipv4_cidrs_of_value(entries.last().1)
        } else {
            r
        }
    }
}

/// The IPv6 networks listed under `key`, entry after entry.
pub open spec fn ipv6_cidrs_of_entries(entries: Seq<(Seq<char>, Seq<char>)>, key: Seq<char>) -> Seq<
    (u128, u8),
>
    decreases entries.len(),
{
    if entries.len() == 0 {
        Seq::empty()
    } else {
        let r = ipv6_cidrs_of_entries(entries.drop_last(), key);
        if entries.last().0 == key {
            r + ipv6_cidrs_of_value(entries.last().1)
        } else {
            r
        }
    }
}

/// The spec values of a list of IPv4 networks.
pub open spec fn nets4_view(v: Seq<Ipv4Net>) -> Seq<(Ipv4Octets, u8)> {
    v.map_values(|n: Ipv4Net| n@)
}

/// The spec values of a list of IPv6 networks.
pub open spec fn nets6_view(v: Seq<Ipv6Net>) -> Seq<(u128, u8)> {
    v.map_values(|n: Ipv6Net| n@)
}

proof fn lemma_somes_step<T>(s: Seq<Option<T>>, k: int)
    requires
        0 <= k < s.len(),
    ensures
        somes(s.take(k + 1)) == match s[k] {
            Some(x) => somes(s.take(k)).push(x),
            None => somes(s.take(k)),
        },
{
    assert(s.take(k + 1).drop_last() =~= s.take(k));
}

/// The networks of what `ipnetwork` read from the pieces of a value, in order,
/// skipping the pieces it refused.
pub fn ipv4_nets_from_parsed(parsed: &Vec<Option<(Ipv4Octets, u8)>>) -> (r: Vec<Ipv4Net>)
    requires
        forall|k: int| 0 <= k < parsed@.len() ==> (#[trigger] parsed@[k] matches Some(p) ==> p.1 <= 32),
    ensures
        nets4_view(r@) == somes(parsed@),
{
    let mut out: Vec<Ipv4Net> = Vec::new();
    let mut k: usize = 0;
    while k < parsed.len()
        invariant
            k <= parsed.len(),
            forall|j: int| 0 <= j < parsed@.len() ==> (#[trigger] parsed@[j] matches Some(p) ==> p.1 <= 32),
            nets4_view(out@) == somes(parsed@.take(k as int)),
        decreases parsed.len() - k,
    {
        proof {
            lemma_somes_step(parsed@, k as int);
        }
        match parsed[k] {
            Some((o, p)) => {
                match Ipv4Net::new([o.0, o.1, o.2, o.3], p) {
                    Some(n) => {
                        let ghost before = out@;
                        out.push(n);
                        assert(nets4_view(out@) =~= nets4_view(before).push(n@));
                    },
                    None => {},
                }
            },
            None => {},
        }
        k = k + 1;
    }
    assert(parsed@.take(parsed.len() as int) =~= parsed@);
    out
}

/// The networks of what `ipnetwork` read from the pieces of a value, in order,
/// skipping the pieces it refused.
pub fn ipv6_nets_from_parsed(parsed: &Vec<Option<(u128, u8)>>) -> (r: Vec<Ipv6Net>)
    requires
        forall|k: int| 0 <= k < parsed@.len() ==> (#[trigger] parsed@[k] matches Some(p) ==> p.1 <= 128),
    ensures
        nets6_view(r@) == somes(parsed@),
{
    let mut out: Vec<Ipv6Net> = Vec::new();
    let mut k: usize = 0;
    while k < parsed.len()
        invariant
            k <= parsed.len(),
            forall|j: int| 0 <= j < parsed@.len() ==> (#[trigger] parsed@[j] matches Some(p) ==> p.1 <= 128),
            nets6_view(out@) == somes(parsed@.take(k as int)),
        decreases parsed.len() - k,
    {
        proof {
            lemma_somes_step(parsed@, k as int);
        }
        match parsed[k] {
            Some((a, p)) => {
                match Ipv6Net::new(a, p) {
                    Some(n) => {
                        let ghost before = out@;
                        out.push(n);
                        assert(nets6_view(out@) =~= nets6_view(before).push(n@));
                    },
                    None => {},
                }
            },
            None => {},
        }
        k = k + 1;
    }
    assert(parsed@.take(parsed.len() as int) =~= parsed@);
    out
}

/// The IPv4 networks listed in a value, appended to `out`.
fn push_ipv4_cidrs(out: &mut Vec<Ipv4Net>, value: &str)
    ensures
        nets4_view(final(out)@) == nets4_view(old(out)@) + ipv4_cidrs_of_value(value@),
{
    let pieces = split_commas_trimmed(value);
    let ghost want = split_char(value@, ',').map_values(
        |p: Seq<char>| ipv4_cidr_read(trim_seq(p)),
    );
    let mut parsed: Vec<Option<(Ipv4Octets, u8)>> = Vec::new();
    let mut k: usize = 0;
    while k < pieces.len()
        invariant
            k <= pieces.len(),
            pieces@.len() == split_char(value@, ',').len(),
            forall|j: int| 0 <= j < pieces@.len() ==> #[trigger] pieces@[j]@ == trim_seq(split_char(value@, ',')[j]),
            want == split_char(value@, ',').map_values(
                |p: Seq<char>| ipv4_cidr_read(trim_seq(p)),
            ),
            parsed@ =~= want.take(k as int),
            forall|j: int| 0 <= j < parsed@.len() ==> (#[trigger] parsed@[j] matches Some(p) ==> p.1 <= 32),
        decreases pieces.len() - k,
    {
        let got = ipv4_network_from_str(pieces[k].as_str());
        parsed.push(got);
        k = k + 1;
    }
    assert(want.take(pieces.len() as int) =~= want);
    let mut nets = ipv4_nets_from_parsed(&parsed);
    let ghost before = out@;
    let ghost added = nets@;
    out.append(&mut nets);
    assert(nets4_view(out@) =~= nets4_view(before) + nets4_view(added));
}

/// The IPv6 networks listed in a value, appended to `out`.
fn push_ipv6_cidrs(out: &mut Vec<Ipv6Net>, value: &str)
    ensures
        nets6_view(final(out)@) == nets6_view(old(out)@) + ipv6_cidrs_of_value(value@),
{
    let pieces = split_commas_trimmed(value);
    let ghost want = split_char(value@, ',').map_values(
        |p: Seq<char>| ipv6_network_parse(trim_seq(p)),
    );
    let mut parsed: Vec<Option<(u128, u8)>> = Vec::new();
    let mut k: usize = 0;
    while k < pieces.len()
        invariant
            k <= pieces.len(),
            pieces@.len() == split_char(value@, ',').len(),
            forall|j: int| 0 <= j < pieces@.len() ==> #[trigger] pieces@[j]@ == trim_seq(split_char(value@, ',')[j]),
            want == split_char(value@, ',').map_values(
                |p: Seq<char>| ipv6_network_parse(trim_seq(p)),
            ),
            parsed@ =~= want.take(k as int),
            forall|j: int| 0 <= j < parsed@.len() ==> (#[trigger] parsed@[j] matches Some(p) ==> p.1 <= 128),
        decreases pieces.len() - k,
    {
        let got = ipv6_network_from_str(pieces[k].as_str());
        parsed.push(got);
        k = k + 1;
    }
    assert(want.take(pieces.len() as int) =~= want);
    let mut nets = ipv6_nets_from_parsed(&parsed);
    let ghost before = out@;
    let ghost added = nets@;
    out.append(&mut nets);
    assert(nets6_view(out@) =~= nets6_view(before) + nets6_view(added));
}

/// The IPv4 networks that a subnet file lists under `cidr_key`: every entry with
/// that key, in order, its value split at commas, each piece trimmed and read as
/// a CIDR; pieces that do not read as one are skipped.
pub fn ipv4_cidrs_from_entries(entries: &Vec<(String, String)>, cidr_key: &str) -> (r: Vec<
    Ipv4Net,
>)
    ensures
        nets4_view(r@) == ipv4_cidrs_of_entries(entries_view(entries@), cidr_key@),
{
    let key = String::from_str(cidr_key);
    let mut out: Vec<Ipv4Net> = Vec::new();
    let mut i: usize = 0;
    while i < entries.len()
        invariant
            i <= entries.len(),
            key@ == cidr_key@,
            nets4_view(out@) == ipv4_cidrs_of_entries(
                entries_view(entries@.take(i as int)),
                cidr_key@,
            ),
        decreases entries.len() - i,
    {
        let entry = &entries[i];
        assert(entries_view(entries@.take(i + 1)).drop_last() =~= entries_view(
            entries@.take(i as int),
        ));
        if entry.0 == key {
            push_ipv4_cidrs(&mut out, entry.1.as_str());
        }
        i = i + 1;
    }
    assert(entries@.take(entries.len() as int) =~= entries@);
    out
}

/// The IPv6 networks that a subnet file lists under `cidr_key`, read as for IPv4.
pub fn ipv6_cidrs_from_entries(entries: &Vec<(String, String)>, cidr_key: &str) -> (r: Vec<
    Ipv6Net,
>)
    ensures
        nets6_view(r@) == ipv6_cidrs_of_entries(entries_view(entries@), cidr_key@),
{
    let key = String::from_str(cidr_key);
    let mut out: Vec<Ipv6Net> = Vec::new();
    let mut i: usize = 0;
    while i < entries.len()
        invariant
            i <= entries.len(),
            key@ == cidr_key@,
            nets6_view(out@) == ipv6_cidrs_of_entries(
                entries_view(entries@.take(i as int)),
                cidr_key@,
            ),
        decreases entries.len() - i,
    {
        let entry = &entries[i];
        assert(entries_view(entries@.take(i + 1)).drop_last() =~= entries_view(
            entries@.take(i as int),
        ));
        if entry.0 == key {
            push_ipv6_cidrs(&mut out, entry.1.as_str());
        }
        i = i + 1;
    }
    assert(entries@.take(entries.len() as int) =~= entries@);
    out
}

// ---------------------------------------------------------------------
// Reading the subnet file's text
// ---------------------------------------------------------------------

/// An ASCII letter.
pub open spec fn is_ascii_letter(c: char) -> bool {
    ('a' <= c && c <= 'z') || ('A' <= c && c <= 'Z')
}

/// A character of a key that dotenvy reads: an ASCII letter or digit, `_` or `.`.
pub open spec fn is_env_key_char(c: char) -> bool {
    is_ascii_letter(c) || is_digit(c) || c == '_' || c == '.'
}

/// A key that dotenvy reads whole: an ASCII letter or `_`, then key characters.
pub open spec fn is_env_key(k: Seq<char>) -> bool {
    &&& k.len() > 0
    &&& (is_ascii_letter(k[0]) || k[0] == '_')
    &&& forall|i: int| 0 <= i < k.len() ==> #[trigger] is_env_key_char(k[i])
}

/// A character that dotenvy keeps as it is in a value: no white space, quote,
/// `$`, `#` or `\`.
pub open spec fn is_plain_value_char(c: char) -> bool {
    !is_ws(c) && c != '$' && c != '\'' && c != '"' && c != '#' && c != '\\'
}

/// A value made of characters that dotenvy keeps as they are.
pub open spec fn is_plain_value(v: Seq<char>) -> bool {
    forall|i: int| 0 <= i < v.len() ==> #[trigger] is_plain_value_char(v[i])
}

/// Entries whose keys and values dotenvy reads as they are written.
pub open spec fn plain_env_entries(es: Seq<(Seq<char>, Seq<char>)>) -> bool {
    forall|i: int| 0 <= i < es.len() ==> is_env_key(#[trigger] es[i].0) && is_plain_value(es[i].1)
}

/// `got` reads back the entries `es`: one entry for each, in order, with its
/// key, and a value that begins with its value (and is empty where it is).
pub open spec fn entries_read_back(
    got: Seq<(Seq<char>, Seq<char>)>,
    es: Seq<(Seq<char>, Seq<char>)>,
) -> bool {
    &&& got.len() == es.len()
    &&& forall|i: int|
        #![trigger got[i]]
        0 <= i < es.len() ==> {
            &&& got[i].0 == es[i].0
            &&& es[i].1.is_prefix_of(got[i].1)
            &&& (es[i].1.len() == 0 ==> got[i].1.len() == 0)
        }
}

/// What holds of the entries dotenvy reads from `bytes`, whatever the
/// environment: where `bytes` are the UTF-8 text of plain `key=value` lines,
/// the entries read back those lines.
pub open spec fn env_read_of(bytes: Seq<u8>, got: Seq<(Seq<char>, Seq<char>)>) -> bool {
    forall|w: Seq<(Seq<char>, Seq<char>)>|
        plain_env_entries(w) && bytes == encode_utf8(#[trigger] entry_lines(w))
            ==> entries_read_back(got, w)
}

/// Two plain values make a plain value.
proof fn lemma_plain_concat(a: Seq<char>, b: Seq<char>)
    requires
        is_plain_value(a),
        is_plain_value(b),
    ensures
        is_plain_value(a + b),
{
    assert forall|i: int| 0 <= i < (a + b).len() implies #[trigger] is_plain_value_char((a + b)[i]) by {
        if i < a.len() {
            assert((a + b)[i] == a[i]);
        } else {
            assert((a + b)[i] == b[i - a.len()]);
        }
    }
}

/// Characters of std's text of an IPv6 address (digits among them), and `/`,
/// are plain.
proof fn lemma_plain_address_chars(t: Seq<char>)
    requires
        forall|i: int| 0 <= i < t.len() ==> #[trigger] is_ipv6_text_char(t[i]) || t[i] == '/',
    ensures
        is_plain_value(t),
{
    assert forall|i: int| 0 <= i < t.len() implies #[trigger] is_plain_value_char(t[i]) by {
        assert(is_ipv6_text_char(t[i]) || t[i] == '/');
    }
}

/// The decimal text of a number is plain.
proof fn lemma_plain_dec(n: nat)
    ensures
        is_plain_value(dec_text(n)),
{
    lemma_dec_text(n);
    let t = dec_text(n);
    assert forall|i: int| 0 <= i < t.len() implies #[trigger] is_ipv6_text_char(t[i]) || t[i] == '/' by {
        assert(is_digit(t[i]));
    }
    lemma_plain_address_chars(t);
}

/// A single `.` or `/` is plain.
proof fn lemma_plain_char(c: char)
    requires
        c == '.' || c == '/',
    ensures
        is_plain_value(seq![c]),
{
    assert forall|i: int| 0 <= i < seq![c].len() implies #[trigger] is_plain_value_char(seq![c][i]) by {
        assert(seq![c][i] == c);
    }
}

/// The CIDR text of an IPv4 network is plain.
proof fn lemma_plain_ipv4_text(n: (Ipv4Octets, u8))
    ensures
        is_plain_value(ipv4_net_text(n)),
{
    let o = n.0;
    let dot = seq!['.'];
    lemma_plain_char('.');
    lemma_plain_char('/');
    lemma_plain_dec(o.0 as nat);
    lemma_plain_dec(o.1 as nat);
    lemma_plain_dec(o.2 as nat);
    lemma_plain_dec(o.3 as nat);
    lemma_plain_dec(n.1 as nat);
    let d0 = dec_text(o.0 as nat);
    let d1 = dec_text(o.1 as nat);
    let d2 = dec_text(o.2 as nat);
    let d3 = dec_text(o.3 as nat);
    lemma_plain_concat(d0, dot);
    lemma_plain_concat(d0 + dot, d1);
    lemma_plain_concat(d0 + dot + d1, dot);
    lemma_plain_concat(d0 + dot + d1 + dot, d2);
    lemma_plain_concat(d0 + dot + d1 + dot + d2, dot);
    lemma_plain_concat(d0 + dot + d1 + dot + d2 + dot, d3);
    lemma_plain_concat(ipv4_addr_text(o), seq!['/']);
    lemma_plain_concat(ipv4_addr_text(o) + seq!['/'], dec_text(n.1 as nat));
}

/// The CIDR text of an IPv6 network whose address text is std's is plain.
proof fn lemma_plain_ipv6_text(n: (u128, u8))
    requires
        ipv6_text_chars(ipv6_addr_text(n.0)),
    ensures
        is_plain_value(ipv6_net_text(n)),
{
    let a = ipv6_addr_text(n.0);
    assert forall|i: int| 0 <= i < a.len() implies #[trigger] is_ipv6_text_char(a[i]) || a[i] == '/' by {
        assert(is_ipv6_text_char(a[i]));
    }
    lemma_plain_address_chars(a);
    lemma_plain_char('/');
    lemma_plain_dec(n.1 as nat);
    lemma_plain_concat(a, seq!['/']);
    lemma_plain_concat(a + seq!['/'], dec_text(n.1 as nat));
}

/// The keys and the masquerading values of the subnet file are read whole.
proof fn lemma_file_words_plain()
    ensures
        is_env_key("RKL_NETWORK"@),
        is_env_key("RKL_SUBNET"@),
        is_env_key("RKL_IPV6_NETWORK"@),
        is_env_key("RKL_IPV6_SUBNET"@),
        is_env_key("RKL_MTU"@),
        is_env_key("RKL_IPMASQ"@),
        is_plain_value("true"@),
        is_plain_value("false"@),
{
    reveal_strlit("RKL_NETWORK");
    reveal_strlit("RKL_SUBNET");
    reveal_strlit("RKL_IPV6_NETWORK");
    reveal_strlit("RKL_IPV6_SUBNET");
    reveal_strlit("RKL_MTU");
    reveal_strlit("RKL_IPMASQ");
    reveal_strlit("true");
    reveal_strlit("false");
}

/// The entries of the subnet file are read whole by dotenvy: their keys are
/// plain, and so are their values where the IPv6 address texts are std's.
pub proof fn lemma_subnet_file_entries_plain(
    config: NetworkConfig,
    ip_masq: bool,
    sn4: Option<Ipv4Net>,
    sn6: Option<Ipv6Net>,
    mtu: u32,
)
    requires
        config.enable_ipv6 && sn6 is Some ==> ipv6_text_chars(ipv6_addr_text(sn6.unwrap()@.0))
            && ipv6_text_chars(ipv6_addr_text(config.ipv6_network.unwrap()@.0)),
    ensures
        plain_env_entries(subnet_file_entries(config, ip_masq, sn4, sn6, mtu)),
{
    lemma_file_words_plain();
    lemma_plain_dec(mtu as nat);
    lemma_plain_ipv4_text(config.network.unwrap()@);
    lemma_plain_ipv4_text(sn4.unwrap()@);
    if config.enable_ipv6 && sn6 is Some {
        lemma_plain_ipv6_text(config.ipv6_network.unwrap()@);
        lemma_plain_ipv6_text(sn6.unwrap()@);
    }
    let es = subnet_file_entries(config, ip_masq, sn4, sn6, mtu);
    assert forall|i: int| 0 <= i < es.len() implies is_env_key(#[trigger] es[i].0) && is_plain_value(
        es[i].1,
    ) by {}
}

/// Reading the text of a written subnet file: whatever the environment, the
/// entries that dotenvy reads from its UTF-8 bytes are the written entries, in
/// order, each with its key and a value that begins with the written value.
pub proof fn lemma_subnet_file_text_read_back(
    config: NetworkConfig,
    ip_masq: bool,
    sn4: Option<Ipv4Net>,
    sn6: Option<Ipv6Net>,
    mtu: u32,
    es: Seq<(Seq<char>, Seq<char>)>,
)
    requires
        plain_env_entries(subnet_file_entries(config, ip_masq, sn4, sn6, mtu)),
        env_read_of(encode_utf8(subnet_file_text(config, ip_masq, sn4, sn6, mtu)), es),
    ensures
        entries_read_back(es, subnet_file_entries(config, ip_masq, sn4, sn6, mtu)),
{
    let w = subnet_file_entries(config, ip_masq, sn4, sn6, mtu);
    assert(encode_utf8(subnet_file_text(config, ip_masq, sn4, sn6, mtu)) == encode_utf8(
        entry_lines(w),
    ));
}

/// `dotenvy::from_read_iter` over `bytes`, keeping the entries it reads, in
/// order (`flatten` skips the lines it refuses). Claims, as dotenvy's source
/// shows (`iter.rs`, `parse.rs`): for the UTF-8 text of `key=value` lines with
/// plain keys and values (`plain_env_entries`), each line gives one entry with
/// its key and a value that begins with its value; an empty value stays empty.
/// After a nonempty value dotenvy appends what `std::env::var` gives for the
/// empty name (`apply_substitution`), which depends on the process's
/// environment, so nothing more is claimed of the value.
#[verifier::external_body]
fn env_entries(bytes: &[u8]) -> (r: Vec<(String, String)>)
    ensures
        env_read_of(bytes@, entries_view(r@)),
{
    dotenvy::from_read_iter(bytes).flatten().collect()
}

/// The IPv4 networks that a subnet file's bytes list under `cidr_key`: the
/// entries dotenvy reads from them (`env_read_of`), read as
/// `ipv4_cidrs_from_entries` does.
pub fn read_cidrs_from_subnet_bytes(bytes: &[u8], cidr_key: &str) -> (r: Vec<Ipv4Net>)
    ensures
        exists|es: Seq<(Seq<char>, Seq<char>)>|
            env_read_of(bytes@, es) && nets4_view(r@) == #[trigger] ipv4_cidrs_of_entries(
                es,
                cidr_key@,
            ),
{
    let entries = env_entries(bytes);
    let r = ipv4_cidrs_from_entries(&entries, cidr_key);
    assert(env_read_of(bytes@, entries_view(entries@)) && nets4_view(r@) == ipv4_cidrs_of_entries(
        entries_view(entries@),
        cidr_key@,
    ));
    r
}

/// The IPv6 networks that a subnet file's bytes list under `cidr_key`, read as
/// for IPv4.
pub fn read_ip6_cidrs_from_subnet_bytes(bytes: &[u8], cidr_key: &str) -> (r: Vec<Ipv6Net>)
    ensures
        exists|es: Seq<(Seq<char>, Seq<char>)>|
            env_read_of(bytes@, es) && nets6_view(r@) == #[trigger] ipv6_cidrs_of_entries(
                es,
                cidr_key@,
            ),
{
    let entries = env_entries(bytes);
    let r = ipv6_cidrs_from_entries(&entries, cidr_key);
    assert(env_read_of(bytes@, entries_view(entries@)) && nets6_view(r@) == ipv6_cidrs_of_entries(
        entries_view(entries@),
        cidr_key@,
    ));
    r
}

/// A character that a sequence holds is held by one of its two parts.
proof fn lemma_concat_contains(a: Seq<char>, b: Seq<char>, c: char)
    ensures
        (a + b).contains(c) ==> a.contains(c) || b.contains(c),
{
    if (a + b).contains(c) {
        let k = choose|k: int| 0 <= k < (a + b).len() && (a + b)[k] == c;
        if k < a.len() {
            assert(a[k] == c);
        } else {
            assert(b[k - a.len()] == c);
        }
    }
}

/// A sequence of digits holds no comma.
proof fn lemma_digits_no_comma(t: Seq<char>)
    requires
        all_digits(t),
    ensures
        !t.contains(','),
{
    if t.contains(',') {
        let k = choose|k: int| 0 <= k < t.len() && t[k] == ',';
        assert(is_digit(t[k]));
    }
}

/// A text without the separator is a single piece.
proof fn lemma_split_without_sep(s: Seq<char>, sep: char)
    requires
        !s.contains(sep),
    ensures
        split_char(s, sep) == seq![s],
    decreases s.len(),
{
    if s.len() == 0 {
        assert(s =~= Seq::<char>::empty());
        assert(split_char(s, sep) =~= seq![s]);
    } else {
        if s.drop_last().contains(sep) {
            let k = choose|k: int| 0 <= k < s.drop_last().len() && s.drop_last()[k] == sep;
            assert(s[k] == sep);
        }
        lemma_split_without_sep(s.drop_last(), sep);
        assert(s.last() != sep) by {
            if s.last() == sep {
                assert(s[s.len() - 1] == sep);
            }
        }
        assert(split_char(s, sep) =~= seq![s.drop_last().push(s.last())]);
        assert(s.drop_last().push(s.last()) =~= s);
    }
}

/// The CIDR text of an IPv4 network holds no comma, and starts and ends with a
/// digit.
proof fn lemma_ipv4_text_shape(n: (Ipv4Octets, u8))
    ensures
        !ipv4_net_text(n).contains(','),
        ipv4_net_text(n).len() > 0,
        is_digit(ipv4_net_text(n)[0]),
        is_digit(ipv4_net_text(n).last()),
{
    let o = n.0;
    let d0 = dec_text(o.0 as nat);
    let d1 = dec_text(o.1 as nat);
    let d2 = dec_text(o.2 as nat);
    let d3 = dec_text(o.3 as nat);
    let dp = dec_text(n.1 as nat);
    lemma_dec_text(o.0 as nat);
    lemma_dec_text(o.1 as nat);
    lemma_dec_text(o.2 as nat);
    lemma_dec_text(o.3 as nat);
    lemma_dec_text(n.1 as nat);
    lemma_digits_no_comma(d0);
    lemma_digits_no_comma(d1);
    lemma_digits_no_comma(d2);
    lemma_digits_no_comma(d3);
    lemma_digits_no_comma(dp);
    let dot = seq!['.'];
    let slash = seq!['/'];
    assert(!dot.contains(','));
    assert(!slash.contains(','));
    lemma_concat_contains(d0, dot, ',');
    lemma_concat_contains(d0 + dot, d1, ',');
    lemma_concat_contains(d0 + dot + d1, dot, ',');
    lemma_concat_contains(d0 + dot + d1 + dot, d2, ',');
    lemma_concat_contains(d0 + dot + d1 + dot + d2, dot, ',');
    lemma_concat_contains(d0 + dot + d1 + dot + d2 + dot, d3, ',');
    lemma_concat_contains(ipv4_addr_text(o), slash, ',');
    lemma_concat_contains(ipv4_addr_text(o) + slash, dp, ',');
    let t = ipv4_net_text(n);
    assert(t[0] == d0[0]);
    assert(is_digit(d0[0]));
    assert(t.last() == dp[dp.len() - 1]);
    assert(is_digit(dp[dp.len() - 1]));
}

/// The CIDR text of an IPv4 network has no white space to trim.
proof fn lemma_ipv4_text_trimmed(n: (Ipv4Octets, u8))
    ensures
        trim_seq(ipv4_net_text(n)) == ipv4_net_text(n),
{
    let t = ipv4_net_text(n);
    lemma_ipv4_text_shape(n);
    assert(!is_ws(t[0]));
    assert(!is_ws(t.last()));
    assert(leading_ws(t) == 0);
    assert(t.skip(0) =~= t);
    assert(trailing_ws(t) == 0);
    assert(t.take(t.len() as int) =~= t);
}

/// `ipnetwork` reads the CIDR text of a valid IPv4 network as that network.
proof fn lemma_ipv4_text_read(n: (Ipv4Octets, u8))
    requires
        ipv4_net_valid(n),
    ensures
        ipv4_cidr_read(ipv4_net_text(n)) == Some(n),
{
    let t = ipv4_net_text(n);
    let a = ipv4_addr_text(n.0);
    let d = dec_text(n.1 as nat);
    let i = a.len() as int;
    lemma_dec_text(n.1 as nat);
    lemma_ipv4_text_no_slash(n);
    assert(t[i] == '/');
    assert(t.contains('/'));
    assert forall|j: int| 0 <= j < t.len() && j != i implies #[trigger] t[j] != '/' by {
        if j < i {
            assert(t[j] == a[j]);
            if a[j] == '/' {
                assert(a.contains('/'));
            }
        } else {
            assert(t[j] == d[j - i - 1]);
            if d[j - i - 1] == '/' {
                assert(d.contains('/'));
            }
        }
    }
    assert(single_slash_at(t, i));
    let c = choose|c: int| single_slash_at(t, c);
    assert(c == i) by {
        if c != i {
            assert(t[i] != '/');
        }
    }
    assert(t.take(i) =~= a);
    assert(t.skip(i + 1) =~= d);
    // The address part is read as the address.
    let o = choose|o: Ipv4Octets| a == #[trigger] ipv4_addr_text(o);
    assert(a == ipv4_addr_text(n.0));
    assert(ipv4_addr_text(o) == a);
    lemma_ipv4_addr_text_injective(o, n.0);
    assert(ipv4_addr_read(a) == Some(n.0));
    // The prefix part holds no `.`, so it is read as a number.
    assert(ipv4_addr_read(d) is None) by {
        if exists|m: Ipv4Octets| d == #[trigger] ipv4_addr_text(m) {
            let m = choose|m: Ipv4Octets| d == #[trigger] ipv4_addr_text(m);
            lemma_dec_text(m.0 as nat);
            let k = dec_text(m.0 as nat).len() as int;
            assert(ipv4_addr_text(m)[k] == '.');
            assert(is_digit(d[k]));
        }
    }
    assert(d[0] != '+') by {
        assert(is_digit(d[0]));
    }
    assert(u8_read(d) == Some(n.1));
}

/// Different IPv4 addresses have different dotted-decimal texts.
proof fn lemma_ipv4_addr_text_injective(o: Ipv4Octets, q: Ipv4Octets)
    requires
        ipv4_addr_text(o) == ipv4_addr_text(q),
    ensures
        o == q,
{
    let m = (o, 0u8);
    let n = (q, 0u8);
    assert(ipv4_net_text(m) == ipv4_net_text(n));
    lemma_ipv4_subnet_key_roundtrip(m);
    lemma_ipv4_subnet_key_roundtrip(n);
    assert(spec_make_subnet_key(m, None) == spec_make_subnet_key(n, None));
}

/// Reading back what was written: an entry under `key` whose value is the CIDR
/// text of a valid IPv4 network (as the subnet file's `RKL_SUBNET` line holds
/// it) lists exactly that network.
pub proof fn lemma_ipv4_cidr_entry_read_back(key: Seq<char>, n: (Ipv4Octets, u8))
    requires
        ipv4_net_valid(n),
    ensures
        ipv4_cidrs_of_entries(seq![(key, ipv4_net_text(n))], key) == seq![n],
{
    let t = ipv4_net_text(n);
    lemma_ipv4_text_shape(n);
    lemma_split_without_sep(t, ',');
    lemma_ipv4_text_trimmed(n);
    lemma_ipv4_text_read(n);
    let parsed = split_char(t, ',').map_values(|p: Seq<char>| ipv4_cidr_read(trim_seq(p)));
    assert(parsed =~= seq![Some(n)]);
    assert(parsed.drop_last() =~= Seq::<Option<(Ipv4Octets, u8)>>::empty());
    assert(somes(parsed.drop_last()) =~= Seq::<(Ipv4Octets, u8)>::empty());
    assert(somes(parsed) =~= seq![n]);
    let entries = seq![(key, t)];
    assert(entries.drop_last() =~= Seq::<(Seq<char>, Seq<char>)>::empty());
    assert(ipv4_cidrs_of_entries(entries.drop_last(), key) =~= Seq::<(Ipv4Octets, u8)>::empty());
    assert(entries.last() == (key, t));
    assert(ipv4_cidrs_of_entries(entries, key) =~= Seq::<(Ipv4Octets, u8)>::empty()
        + ipv4_cidrs_of_value(t));
}

/// How many IPv6 networks a subnet file lists under a key, and the network where
/// there is exactly one.
pub enum SingleCidr {
    /// No network is listed.
    Missing,
    /// Exactly one network is listed.
    Found(Ipv6Net),
    /// More than one network is listed.
    Ambiguous,
}

/// The single IPv6 network of a list: found where the list has exactly one,
/// missing where it is empty, ambiguous where it has more.
pub fn single_ipv6_cidr(cidrs: &Vec<Ipv6Net>) -> (r: SingleCidr)
    ensures
        cidrs@.len() == 0 <==> r is Missing,
        cidrs@.len() == 1 <==> r is Found,
        cidrs@.len() > 1 <==> r is Ambiguous,
        r matches SingleCidr::Found(n) ==> n == cidrs@[0],
{
    if cidrs.len() == 0 {
        SingleCidr::Missing
    } else if cidrs.len() == 1 {
        SingleCidr::Found(cidrs[0])
    } else {
        SingleCidr::Ambiguous
    }
}

// ---------------------------------------------------------------------
// Reading back the entries of a written file
// ---------------------------------------------------------------------

/// The IPv4 networks under a key, for entries one after the other.
proof fn lemma_ipv4_entries_concat(
    a: Seq<(Seq<char>, Seq<char>)>,
    b: Seq<(Seq<char>, Seq<char>)>,
    key: Seq<char>,
)
    ensures
        ipv4_cidrs_of_entries(a + b, key) == ipv4_cidrs_of_entries(a, key) + ipv4_cidrs_of_entries(
            b,
            key,
        ),
    decreases b.len(),
{
    if b.len() == 0 {
        assert(a + b =~= a);
        assert(ipv4_cidrs_of_entries(a, key) + ipv4_cidrs_of_entries(b, key) =~= ipv4_cidrs_of_entries(
            a,
            key,
        ));
    } else {
        lemma_ipv4_entries_concat(a, b.drop_last(), key);
        assert((a + b).drop_last() =~= a + b.drop_last());
        assert((a + b).last() == b.last());
        if b.last().0 == key {
            assert(ipv4_cidrs_of_entries(a, key) + ipv4_cidrs_of_entries(b.drop_last(), key)
                + ipv4_cidrs_of_value(b.last().1) =~= ipv4_cidrs_of_entries(a, key) + (
            ipv4_cidrs_of_entries(b.drop_last(), key) + ipv4_cidrs_of_value(b.last().1)));
        }
    }
}

/// The IPv6 networks under a key, for entries one after the other.
proof fn lemma_ipv6_entries_concat(
    a: Seq<(Seq<char>, Seq<char>)>,
    b: Seq<(Seq<char>, Seq<char>)>,
    key: Seq<char>,
)
    ensures
        ipv6_cidrs_of_entries(a + b, key) == ipv6_cidrs_of_entries(a, key) + ipv6_cidrs_of_entries(
            b,
            key,
        ),
    decreases b.len(),
{
    if b.len() == 0 {
        assert(a + b =~= a);
        assert(ipv6_cidrs_of_entries(a, key) + ipv6_cidrs_of_entries(b, key) =~= ipv6_cidrs_of_entries(
            a,
            key,
        ));
    } else {
        lemma_ipv6_entries_concat(a, b.drop_last(), key);
        assert((a + b).drop_last() =~= a + b.drop_last());
        assert((a + b).last() == b.last());
        if b.last().0 == key {
            assert(ipv6_cidrs_of_entries(a, key) + ipv6_cidrs_of_entries(b.drop_last(), key)
                + ipv6_cidrs_of_value(b.last().1) =~= ipv6_cidrs_of_entries(a, key) + (
            ipv6_cidrs_of_entries(b.drop_last(), key) + ipv6_cidrs_of_value(b.last().1)));
        }
    }
}

/// The networks under a key, for a single entry: those of its value if it has
/// that key, none otherwise.
proof fn lemma_single_entry(k: Seq<char>, v: Seq<char>, key: Seq<char>)
    ensures
        ipv4_cidrs_of_entries(seq![(k, v)], key) == (if k == key {
            ipv4_cidrs_of_value(v)
        } else {
            Seq::empty()
        }),
        ipv6_cidrs_of_entries(seq![(k, v)], key) == (if k == key {
            ipv6_cidrs_of_value(v)
        } else {
            Seq::empty()
        }),
{
    let e = seq![(k, v)];
    let empty = Seq::<(Seq<char>, Seq<char>)>::empty();
    assert(e.drop_last() =~= empty);
    assert(ipv4_cidrs_of_entries(empty, key) == Seq::<(Ipv4Octets, u8)>::empty());
    assert(ipv6_cidrs_of_entries(empty, key) == Seq::<(u128, u8)>::empty());
    assert(e.last() == (k, v));
    assert(Seq::<(Ipv4Octets, u8)>::empty() + ipv4_cidrs_of_value(v) =~= ipv4_cidrs_of_value(v));
    assert(Seq::<(u128, u8)>::empty() + ipv6_cidrs_of_value(v) =~= ipv6_cidrs_of_value(v));
}

/// The keys of the subnet file differ from one another.
proof fn lemma_file_keys_distinct()
    ensures
        "RKL_NETWORK"@ != "RKL_SUBNET"@,
        "RKL_NETWORK"@ != "RKL_IPV6_NETWORK"@,
        "RKL_NETWORK"@ != "RKL_IPV6_SUBNET"@,
        "RKL_NETWORK"@ != "RKL_MTU"@,
        "RKL_NETWORK"@ != "RKL_IPMASQ"@,
        "RKL_SUBNET"@ != "RKL_IPV6_NETWORK"@,
        "RKL_SUBNET"@ != "RKL_IPV6_SUBNET"@,
        "RKL_SUBNET"@ != "RKL_MTU"@,
        "RKL_SUBNET"@ != "RKL_IPMASQ"@,
        "RKL_IPV6_NETWORK"@ != "RKL_IPV6_SUBNET"@,
        "RKL_IPV6_NETWORK"@ != "RKL_MTU"@,
        "RKL_IPV6_NETWORK"@ != "RKL_IPMASQ"@,
        "RKL_IPV6_SUBNET"@ != "RKL_MTU"@,
        "RKL_IPV6_SUBNET"@ != "RKL_IPMASQ"@,
{
    reveal_strlit("RKL_NETWORK");
    reveal_strlit("RKL_SUBNET");
    reveal_strlit("RKL_IPV6_NETWORK");
    reveal_strlit("RKL_IPV6_SUBNET");
    reveal_strlit("RKL_MTU");
    reveal_strlit("RKL_IPMASQ");
    assert("RKL_NETWORK"@[4] == 'N');
    assert("RKL_SUBNET"@[4] == 'S');
    assert("RKL_IPV6_NETWORK"@[4] == 'I');
    assert("RKL_IPV6_SUBNET"@[4] == 'I');
    assert("RKL_MTU"@[4] == 'M');
    assert("RKL_IPMASQ"@[4] == 'I');
    assert("RKL_IPV6_NETWORK"@[6] == 'V');
    assert("RKL_IPV6_SUBNET"@[6] == 'V');
    assert("RKL_IPMASQ"@[6] == 'M');
    assert("RKL_IPV6_NETWORK"@[9] == 'N');
    assert("RKL_IPV6_SUBNET"@[9] == 'S');
}

/// The CIDR text of an IPv6 network whose address text is std's holds no comma
/// and has no white space to trim.
proof fn lemma_ipv6_text_shape(n: (u128, u8))
    requires
        ipv6_text_chars(ipv6_addr_text(n.0)),
    ensures
        !ipv6_net_text(n).contains(','),
        trim_seq(ipv6_net_text(n)) == ipv6_net_text(n),
{
    let a = ipv6_addr_text(n.0);
    let dp = dec_text(n.1 as nat);
    let t = ipv6_net_text(n);
    lemma_dec_text(n.1 as nat);
    lemma_digits_no_comma(dp);
    assert(!a.contains(',')) by {
        if a.contains(',') {
            let k = choose|k: int| 0 <= k < a.len() && a[k] == ',';
            assert(is_ipv6_text_char(a[k]));
        }
    }
    assert(!seq!['/'].contains(','));
    lemma_concat_contains(a, seq!['/'], ',');
    lemma_concat_contains(a + seq!['/'], dp, ',');
    assert(t[0] == a[0]);
    assert(is_ipv6_text_char(a[0]));
    assert(!is_ws(t[0]));
    assert(t.last() == dp[dp.len() - 1]);
    assert(is_digit(dp[dp.len() - 1]));
    assert(!is_ws(t.last()));
    assert(leading_ws(t) == 0);
    assert(t.skip(0) =~= t);
    assert(trailing_ws(t) == 0);
    assert(t.take(t.len() as int) =~= t);
}

/// Reading back what was written: an entry under `key` whose value is the CIDR
/// text of an IPv6 network (as the subnet file's `RKL_IPV6_SUBNET` line holds
/// it) lists exactly that network, where `ipnetwork` reads that text back.
pub proof fn lemma_ipv6_cidr_entry_read_back(key: Seq<char>, n: (u128, u8))
    requires
        ipv6_texts_read_back(n),
    ensures
        ipv6_cidrs_of_entries(seq![(key, ipv6_net_text(n))], key) == seq![n],
{
    let t = ipv6_net_text(n);
    lemma_ipv6_text_shape(n);
    lemma_split_without_sep(t, ',');
    let parsed = split_char(t, ',').map_values(|p: Seq<char>| ipv6_network_parse(trim_seq(p)));
    assert(parsed =~= seq![Some(n)]);
    assert(parsed.drop_last() =~= Seq::<Option<(u128, u8)>>::empty());
    assert(somes(parsed.drop_last()) =~= Seq::<(u128, u8)>::empty());
    assert(somes(parsed) =~= seq![n]);
    lemma_single_entry(key, t, key);
}

/// The entries of the subnet file, split into the IPv4 lines, the IPv6 lines
/// and the last two.
proof fn lemma_file_entries_parts(
    config: NetworkConfig,
    ip_masq: bool,
    sn4: Option<Ipv4Net>,
    sn6: Option<Ipv6Net>,
    mtu: u32,
    key: Seq<char>,
)
    ensures
        ({
            let es = subnet_file_entries(config, ip_masq, sn4, sn6, mtu);
            let v4: Seq<(Seq<char>, Seq<char>)> = if config.enable_ipv4 && sn4 is Some {
                seq![
                    ("RKL_NETWORK"@, ipv4_net_text(config.network.unwrap()@)),
                    ("RKL_SUBNET"@, ipv4_net_text(sn4.unwrap()@)),
                ]
            } else {
                Seq::empty()
            };
            let v6: Seq<(Seq<char>, Seq<char>)> = if config.enable_ipv6 && sn6 is Some {
                seq![
                    ("RKL_IPV6_NETWORK"@, ipv6_net_text(config.ipv6_network.unwrap()@)),
                    ("RKL_IPV6_SUBNET"@, ipv6_net_text(sn6.unwrap()@)),
                ]
            } else {
                Seq::empty()
            };
            let masq: Seq<char> = if ip_masq {
                "true"@
            } else {
                "false"@
            };
            &&& ipv4_cidrs_of_entries(es, key) == ipv4_cidrs_of_entries(v4, key)
                + ipv4_cidrs_of_entries(v6, key) + ipv4_cidrs_of_entries(
                seq![("RKL_MTU"@, dec_text(mtu as nat))],
                key,
            ) + ipv4_cidrs_of_entries(seq![("RKL_IPMASQ"@, masq)], key)
            &&& ipv6_cidrs_of_entries(es, key) == ipv6_cidrs_of_entries(v4, key)
                + ipv6_cidrs_of_entries(v6, key) + ipv6_cidrs_of_entries(
                seq![("RKL_MTU"@, dec_text(mtu as nat))],
                key,
            ) + ipv6_cidrs_of_entries(seq![("RKL_IPMASQ"@, masq)], key)
        }),
{
    let es = subnet_file_entries(config, ip_masq, sn4, sn6, mtu);
    let v4: Seq<(Seq<char>, Seq<char>)> = if config.enable_ipv4 && sn4 is Some {
        seq![
            ("RKL_NETWORK"@, ipv4_net_text(config.network.unwrap()@)),
            ("RKL_SUBNET"@, ipv4_net_text(sn4.unwrap()@)),
        ]
    } else {
        Seq::empty()
    };
    let v6: Seq<(Seq<char>, Seq<char>)> = if config.enable_ipv6 && sn6 is Some {
        seq![
            ("RKL_IPV6_NETWORK"@, ipv6_net_text(config.ipv6_network.unwrap()@)),
            ("RKL_IPV6_SUBNET"@, ipv6_net_text(sn6.unwrap()@)),
        ]
    } else {
        Seq::empty()
    };
    let masq: Seq<char> = if ip_masq {
        "true"@
    } else {
        "false"@
    };
    let t0 = seq![("RKL_MTU"@, dec_text(mtu as nat))];
    let t1 = seq![("RKL_IPMASQ"@, masq)];
    assert(es =~= v4 + v6 + (t0 + t1));
    lemma_ipv4_entries_concat(v4 + v6, t0 + t1, key);
    lemma_ipv4_entries_concat(v4, v6, key);
    lemma_ipv4_entries_concat(t0, t1, key);
    lemma_ipv6_entries_concat(v4 + v6, t0 + t1, key);
    lemma_ipv6_entries_concat(v4, v6, key);
    lemma_ipv6_entries_concat(t0, t1, key);
    assert(ipv4_cidrs_of_entries(v4, key) + ipv4_cidrs_of_entries(v6, key) + (
    ipv4_cidrs_of_entries(t0, key) + ipv4_cidrs_of_entries(t1, key)) =~= ipv4_cidrs_of_entries(
        v4,
        key,
    ) + ipv4_cidrs_of_entries(v6, key) + ipv4_cidrs_of_entries(t0, key) + ipv4_cidrs_of_entries(
        t1,
        key,
    ));
    assert(ipv6_cidrs_of_entries(v4, key) + ipv6_cidrs_of_entries(v6, key) + (
    ipv6_cidrs_of_entries(t0, key) + ipv6_cidrs_of_entries(t1, key)) =~= ipv6_cidrs_of_entries(
        v4,
        key,
    ) + ipv6_cidrs_of_entries(v6, key) + ipv6_cidrs_of_entries(t0, key) + ipv6_cidrs_of_entries(
        t1,
        key,
    ));
}

/// The networks under a key, for two entries.
proof fn lemma_two_entries(a: (Seq<char>, Seq<char>), b: (Seq<char>, Seq<char>), key: Seq<char>)
    ensures
        ipv4_cidrs_of_entries(seq![a, b], key) == ipv4_cidrs_of_entries(seq![a], key)
            + ipv4_cidrs_of_entries(seq![b], key),
        ipv6_cidrs_of_entries(seq![a, b], key) == ipv6_cidrs_of_entries(seq![a], key)
            + ipv6_cidrs_of_entries(seq![b], key),
{
    assert(seq![a, b] =~= seq![a] + seq![b]);
    lemma_ipv4_entries_concat(seq![a], seq![b], key);
    lemma_ipv6_entries_concat(seq![a], seq![b], key);
}

/// Reading back the IPv4 networks of a written subnet file: its entries list
/// the subnet alone under `RKL_SUBNET` and the cluster network alone under
/// `RKL_NETWORK` where IPv4 was written, and nothing under them otherwise.
pub proof fn lemma_subnet_file_ipv4_read_back(
    config: NetworkConfig,
    ip_masq: bool,
    sn4: Option<Ipv4Net>,
    sn6: Option<Ipv6Net>,
    mtu: u32,
)
    requires
        subnet_file_writable(config, sn4, sn6),
        config.enable_ipv4 && sn4 is Some ==> ipv4_net_valid(sn4.unwrap()@) && ipv4_net_valid(
            config.network.unwrap()@,
        ),
    ensures
        ipv4_cidrs_of_entries(subnet_file_entries(config, ip_masq, sn4, sn6, mtu), "RKL_SUBNET"@)
            == (if config.enable_ipv4 && sn4 is Some {
            seq![sn4.unwrap()@]
        } else {
            Seq::empty()
        }),
        ipv4_cidrs_of_entries(subnet_file_entries(config, ip_masq, sn4, sn6, mtu), "RKL_NETWORK"@)
            == (if config.enable_ipv4 && sn4 is Some {
            seq![config.network.unwrap()@]
        } else {
            Seq::empty()
        }),
{
    lemma_file_keys_distinct();
    lemma_ipv4_key_read_back(config, ip_masq, sn4, sn6, mtu, "RKL_SUBNET"@);
    lemma_ipv4_key_read_back(config, ip_masq, sn4, sn6, mtu, "RKL_NETWORK"@);
}

proof fn lemma_ipv4_key_read_back(
    config: NetworkConfig,
    ip_masq: bool,
    sn4: Option<Ipv4Net>,
    sn6: Option<Ipv6Net>,
    mtu: u32,
    key: Seq<char>,
)
    requires
        subnet_file_writable(config, sn4, sn6),
        config.enable_ipv4 && sn4 is Some ==> ipv4_net_valid(sn4.unwrap()@) && ipv4_net_valid(
            config.network.unwrap()@,
        ),
        key == "RKL_SUBNET"@ || key == "RKL_NETWORK"@,
    ensures
        ipv4_cidrs_of_entries(subnet_file_entries(config, ip_masq, sn4, sn6, mtu), key) == (
        if config.enable_ipv4 && sn4 is Some {
            if key == "RKL_SUBNET"@ {
                seq![sn4.unwrap()@]
            } else {
                seq![config.network.unwrap()@]
            }
        } else {
            Seq::empty()
        }),
{
    lemma_file_keys_distinct();
    lemma_file_entries_parts(config, ip_masq, sn4, sn6, mtu, key);
    let masq: Seq<char> = if ip_masq {
        "true"@
    } else {
        "false"@
    };
    lemma_single_entry("RKL_MTU"@, dec_text(mtu as nat), key);
    lemma_single_entry("RKL_IPMASQ"@, masq, key);
    let e6n = ("RKL_IPV6_NETWORK"@, ipv6_net_text(config.ipv6_network.unwrap()@));
    let e6s = ("RKL_IPV6_SUBNET"@, ipv6_net_text(sn6.unwrap()@));
    lemma_two_entries(e6n, e6s, key);
    lemma_single_entry(e6n.0, e6n.1, key);
    lemma_single_entry(e6s.0, e6s.1, key);
    let e4n = ("RKL_NETWORK"@, ipv4_net_text(config.network.unwrap()@));
    let e4s = ("RKL_SUBNET"@, ipv4_net_text(sn4.unwrap()@));
    lemma_two_entries(e4n, e4s, key);
    lemma_single_entry(e4n.0, e4n.1, key);
    lemma_single_entry(e4s.0, e4s.1, key);
    let empty = Seq::<(Seq<char>, Seq<char>)>::empty();
    assert(ipv4_cidrs_of_entries(empty, key) == Seq::<(Ipv4Octets, u8)>::empty());
    if config.enable_ipv4 && sn4 is Some {
        lemma_ipv4_cidr_entry_read_back(key, config.network.unwrap()@);
        lemma_ipv4_cidr_entry_read_back(key, sn4.unwrap()@);
        lemma_single_entry(key, ipv4_net_text(config.network.unwrap()@), key);
        lemma_single_entry(key, ipv4_net_text(sn4.unwrap()@), key);
    }
    assert(ipv4_cidrs_of_entries(subnet_file_entries(config, ip_masq, sn4, sn6, mtu), key) =~= (
    if config.enable_ipv4 && sn4 is Some {
        if key == "RKL_SUBNET"@ {
            seq![sn4.unwrap()@]
        } else {
            seq![config.network.unwrap()@]
        }
    } else {
        Seq::empty()
    }));
}

/// Reading back the IPv6 networks of a written subnet file: its entries list
/// the subnet alone under `RKL_IPV6_SUBNET` and the cluster network alone under
/// `RKL_IPV6_NETWORK` where IPv6 was written (and `ipnetwork` reads their texts
/// back), and nothing under them otherwise.
pub proof fn lemma_subnet_file_ipv6_read_back(
    config: NetworkConfig,
    ip_masq: bool,
    sn4: Option<Ipv4Net>,
    sn6: Option<Ipv6Net>,
    mtu: u32,
)
    requires
        subnet_file_writable(config, sn4, sn6),
        config.enable_ipv6 && sn6 is Some ==> ipv6_texts_read_back(sn6.unwrap()@)
            && ipv6_texts_read_back(config.ipv6_network.unwrap()@),
    ensures
        ipv6_cidrs_of_entries(
            subnet_file_entries(config, ip_masq, sn4, sn6, mtu),
            "RKL_IPV6_SUBNET"@,
        ) == (if config.enable_ipv6 && sn6 is Some {
            seq![sn6.unwrap()@]
        } else {
            Seq::empty()
        }),
        ipv6_cidrs_of_entries(
            subnet_file_entries(config, ip_masq, sn4, sn6, mtu),
            "RKL_IPV6_NETWORK"@,
        ) == (if config.enable_ipv6 && sn6 is Some {
            seq![config.ipv6_network.unwrap()@]
        } else {
            Seq::empty()
        }),
{
    lemma_file_keys_distinct();
    lemma_ipv6_key_read_back(config, ip_masq, sn4, sn6, mtu, "RKL_IPV6_SUBNET"@);
    lemma_ipv6_key_read_back(config, ip_masq, sn4, sn6, mtu, "RKL_IPV6_NETWORK"@);
}

proof fn lemma_ipv6_key_read_back(
    config: NetworkConfig,
    ip_masq: bool,
    sn4: Option<Ipv4Net>,
    sn6: Option<Ipv6Net>,
    mtu: u32,
    key: Seq<char>,
)
    requires
        subnet_file_writable(config, sn4, sn6),
        config.enable_ipv6 && sn6 is Some ==> ipv6_texts_read_back(sn6.unwrap()@)
            && ipv6_texts_read_back(config.ipv6_network.unwrap()@),
        key == "RKL_IPV6_SUBNET"@ || key == "RKL_IPV6_NETWORK"@,
    ensures
        ipv6_cidrs_of_entries(subnet_file_entries(config, ip_masq, sn4, sn6, mtu), key) == (
        if config.enable_ipv6 && sn6 is Some {
            if key == "RKL_IPV6_SUBNET"@ {
                seq![sn6.unwrap()@]
            } else {
                seq![config.ipv6_network.unwrap()@]
            }
        } else {
            Seq::empty()
        }),
{
    lemma_file_keys_distinct();
    lemma_file_entries_parts(config, ip_masq, sn4, sn6, mtu, key);
    let masq: Seq<char> = if ip_masq {
        "true"@
    } else {
        "false"@
    };
    lemma_single_entry("RKL_MTU"@, dec_text(mtu as nat), key);
    lemma_single_entry("RKL_IPMASQ"@, masq, key);
    let e6n = ("RKL_IPV6_NETWORK"@, ipv6_net_text(config.ipv6_network.unwrap()@));
    let e6s = ("RKL_IPV6_SUBNET"@, ipv6_net_text(sn6.unwrap()@));
    lemma_two_entries(e6n, e6s, key);
    lemma_single_entry(e6n.0, e6n.1, key);
    lemma_single_entry(e6s.0, e6s.1, key);
    let e4n = ("RKL_NETWORK"@, ipv4_net_text(config.network.unwrap()@));
    let e4s = ("RKL_SUBNET"@, ipv4_net_text(sn4.unwrap()@));
    lemma_two_entries(e4n, e4s, key);
    lemma_single_entry(e4n.0, e4n.1, key);
    lemma_single_entry(e4s.0, e4s.1, key);
    let empty = Seq::<(Seq<char>, Seq<char>)>::empty();
    assert(ipv6_cidrs_of_entries(empty, key) == Seq::<(u128, u8)>::empty());
    if config.enable_ipv6 && sn6 is Some {
        lemma_ipv6_cidr_entry_read_back(key, config.ipv6_network.unwrap()@);
        lemma_ipv6_cidr_entry_read_back(key, sn6.unwrap()@);
        lemma_single_entry(key, ipv6_net_text(config.ipv6_network.unwrap()@), key);
        lemma_single_entry(key, ipv6_net_text(sn6.unwrap()@), key);
    }
    assert(ipv6_cidrs_of_entries(subnet_file_entries(config, ip_masq, sn4, sn6, mtu), key) =~= (
    if config.enable_ipv6 && sn6 is Some {
        if key == "RKL_IPV6_SUBNET"@ {
            seq![sn6.unwrap()@]
        } else {
            seq![config.ipv6_network.unwrap()@]
        }
    } else {
        Seq::empty()
    }));
}

} // verus!
