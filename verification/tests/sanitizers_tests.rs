use waker::sanitizers::{sanitize, AddrType, AddressError};

#[test]
fn sanitize_mac() {
    let macstr = String::from("FFFFFFFFFFFF");
    let formatted = String::from("FF:FF:FF:FF:FF:FF");
    assert_eq!(formatted, sanitize(&macstr, AddrType::MAC).unwrap());
}

#[test]
// No comparison check, just check so the length is correct
fn sanitize_mac_garbage() {
    let macstr =
        String::from("sdakjaojoiwjvoievoijevioqjoijeriojkljlknxxx218913981389981jixjxxjk1kj1k");
    assert_eq!(17, sanitize(&macstr, AddrType::MAC).unwrap().len());
}

#[test]
fn sanitize_ip() {
    let ipstr = String::from("255.255.255.255");
    let formatted = String::from("255.255.255.255");
    assert_eq!(formatted, sanitize(&ipstr, AddrType::IPv4).unwrap());
}

#[test]
fn sanitize_ip_garbage() {
    let ipstr = String::from("asdafasd.255.255.asdakfjjkjkfjk.255.255.asdafa");
    let formatted = String::from("255.255.255.255");
    assert_eq!(formatted, sanitize(&ipstr, AddrType::IPv4).unwrap());
}

#[test]
fn sanitize_mac_upper_cases_lower_digits() {
    assert_eq!("AA:BB:CC:DD:EE:FF", sanitize("aabbccddeeff", AddrType::MAC).unwrap());
}

#[test]
fn sanitize_mac_ignores_extra_digits() {
    assert_eq!("12:34:56:78:9A:BC", sanitize("12:34:56:78:9a:bc:de:f0", AddrType::MAC).unwrap());
}

#[test]
fn sanitize_mac_too_few_digits_is_malformed() {
    assert_eq!(Err(AddressError::Malformed), sanitize("zz:zz:zz", AddrType::MAC));
    assert_eq!(Err(AddressError::Malformed), sanitize("12345678901", AddrType::MAC));
    assert_eq!(Err(AddressError::Malformed), sanitize("", AddrType::MAC));
}

#[test]
fn sanitize_ip_short_input_is_malformed() {
    assert_eq!(Err(AddressError::Malformed), sanitize("10.0.0", AddrType::IPv4));
    assert_eq!(Err(AddressError::Malformed), sanitize("", AddrType::IPv4));
    assert_eq!(Err(AddressError::Malformed), sanitize("256.256.256.256", AddrType::IPv4));
}

#[test]
fn sanitize_ip_discards_bad_segments_and_keeps_first_four() {
    assert_eq!("10.20.30.40", sanitize("10.20.30.40.50", AddrType::IPv4).unwrap());
    assert_eq!("0.1.2.3", sanitize("..0.x.1.2.999.3", AddrType::IPv4).unwrap());
}
