use rkl::key::key_nets_with_ipv6;
use rkl::net::Ipv4Net;
use rkl::subnet::{ipv4_nets_from_parsed, ipv6_nets_from_parsed};
use rkl::text::{
    char_is_whitespace, chars_of, digits_to_u8, push_dec, replace_chars, split_commas_trimmed,
};

#[test]
fn split_commas_trims_each_piece() {
    let pieces = split_commas_trimmed(" a ,\tb\n,, c d ,");
    assert_eq!(pieces, vec!["a", "b", "", "c d", ""]);
    assert_eq!(split_commas_trimmed(""), vec![""]);
    // Unicode white space is trimmed too.
    assert_eq!(split_commas_trimmed("\u{3000}x\u{a0}"), vec!["x"]);
}

#[test]
fn digits_read_as_a_byte() {
    let v = chars_of("x0024y256z255");
    assert_eq!(digits_to_u8(&v, 1, 5), Some(24));
    assert_eq!(digits_to_u8(&v, 6, 9), None);
    assert_eq!(digits_to_u8(&v, 10, 13), Some(255));
    assert_eq!(digits_to_u8(&v, 1, 1), Some(0));
}

#[test]
fn decimal_text_and_replacement() {
    let mut v = vec!['#'];
    push_dec(&mut v, 4_294_967_295);
    push_dec(&mut v, 0);
    assert_eq!(v.iter().collect::<String>(), "#42949672950");
    let r = replace_chars(&chars_of("a/b//c"), '/', '-');
    assert_eq!(r.iter().collect::<String>(), "a-b--c");
}

#[test]
fn key_nets_from_a_read_ipv6_half() {
    let n4 = Ipv4Net::new([10, 0, 1, 0], 24).unwrap();
    let got = key_nets_with_ipv6(n4, Some((1, 128)), Some(64)).unwrap();
    assert_eq!(got.0, n4);
    let n6 = got.1.unwrap();
    assert_eq!((n6.addr(), n6.prefix()), (1, 64));
    assert_eq!(key_nets_with_ipv6(n4, Some((1, 128)), Some(129)), None);
    assert_eq!(key_nets_with_ipv6(n4, None, Some(64)), None);
    assert_eq!(key_nets_with_ipv6(n4, Some((1, 128)), None), None);
}

#[test]
fn nets_from_parsed_pieces() {
    let parsed = vec![Some(((10, 0, 0, 0), 8)), None, Some(((1, 2, 3, 4), 32))];
    let nets = ipv4_nets_from_parsed(&parsed);
    let texts: Vec<String> = nets.iter().map(|n| n.to_string()).collect();
    assert_eq!(texts, vec!["10.0.0.0/8", "1.2.3.4/32"]);
    let nets6 = ipv6_nets_from_parsed(&vec![None, Some((2, 127)), None]);
    assert_eq!(nets6.len(), 1);
    assert_eq!((nets6[0].addr(), nets6[0].prefix()), (2, 127));
    assert!(ipv6_nets_from_parsed(&vec![]).is_empty());
}

#[test]
fn white_space_is_stds() {
    for code in 0u32..=0x3100 {
        if let Some(c) = char::from_u32(code) {
            assert_eq!(char_is_whitespace(c), c.is_whitespace(), "U+{code:04X}");
        }
    }
    assert!(char_is_whitespace('\u{205f}'));
    assert!(!char_is_whitespace('\u{180e}'));
    assert!(!char_is_whitespace('\u{200b}'));
}
