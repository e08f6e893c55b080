use dvf_core::parse::{parse_ipv4, parse_u16_ascii, parse_u64_ascii, split_bytes};

#[test]
fn parse_decimal_integers() {
    assert_eq!(parse_u64_ascii(&b"0".to_vec()), Some(0));
    assert_eq!(parse_u64_ascii(&b"25000".to_vec()), Some(25_000));
    assert_eq!(parse_u64_ascii(&b"18446744073709551615".to_vec()), Some(u64::MAX));
    // One past the largest value.
    assert_eq!(parse_u64_ascii(&b"18446744073709551616".to_vec()), None);
    assert_eq!(parse_u64_ascii(&Vec::new()), None);
    assert_eq!(parse_u64_ascii(&b"12a".to_vec()), None);
    assert_eq!(parse_u64_ascii(&b"-5".to_vec()), None);
}

#[test]
fn parse_ports() {
    assert_eq!(parse_u16_ascii(&b"5064".to_vec()), Some(5064));
    assert_eq!(parse_u16_ascii(&b"65535".to_vec()), Some(65_535));
    assert_eq!(parse_u16_ascii(&b"65536".to_vec()), None);
}

#[test]
fn split_on_commas() {
    let parts = split_bytes(&b"http://a:1,http://b:2".to_vec(), b',');
    assert_eq!(parts, vec![b"http://a:1".to_vec(), b"http://b:2".to_vec()]);
    // No separator: the whole string, in one piece.
    assert_eq!(split_bytes(&b"alone".to_vec(), b','), vec![b"alone".to_vec()]);
    // Separators at the edges give empty pieces.
    assert_eq!(
        split_bytes(&b",x,".to_vec(), b','),
        vec![Vec::new(), b"x".to_vec(), Vec::new()]
    );
    assert_eq!(split_bytes(&Vec::new(), b','), vec![Vec::new()]);
}

#[test]
fn parse_ipv4_addresses() {
    assert_eq!(parse_ipv4(&b"127.0.0.1".to_vec()), Some((127, 0, 0, 1)));
    assert_eq!(parse_ipv4(&b"255.255.255.255".to_vec()), Some((255, 255, 255, 255)));
    assert_eq!(parse_ipv4(&b"256.0.0.1".to_vec()), None);
    assert_eq!(parse_ipv4(&b"1.2.3".to_vec()), None);
    assert_eq!(parse_ipv4(&b"1.2.3.4.5".to_vec()), None);
    assert_eq!(parse_ipv4(&b"a.b.c.d".to_vec()), None);
    assert_eq!(parse_ipv4(&b"1..2.3".to_vec()), None);
}
