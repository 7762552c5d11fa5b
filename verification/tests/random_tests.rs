use waker::random_machine::{random_host, random_ip, random_mac, random_name};
use waker::sanitizers::canonical_ipv4_text;

#[test]
fn test_random_name() {
    let mut testvec: Vec<String> = Vec::new();
    for _ in 0..10 {
        let test_str = random_name();
        println!("{}", test_str);
        for other in &testvec {
            assert!(!other.eq(&test_str)); // Make sure this particular string is not already present in testvec
        }
        testvec.push(test_str);
    }
}

#[test]
fn test_random_ip() {
    let mut testvec: Vec<String> = Vec::new();
    for _ in 0..10 {
        let test_str = random_ip();
        println!("{}", test_str);
        assert!(test_str.len() >= 7 && test_str.len() <= 15);
        for other in &testvec {
            assert!(!other.eq(&test_str)); // Make sure this particular string is not already present in testvec
        }
        testvec.push(test_str);
    }
}

#[test]
fn test_random_mac() {
    let mut testvec: Vec<String> = Vec::new();
    for _ in 0..10 {
        let test_str = random_mac();
        println!("{}", test_str);
        assert!(test_str.len() == 17);
        for other in &testvec {
            assert!(!other.eq(&test_str)); // Make sure this particular string is not already present in testvec
        }
        testvec.push(test_str);
    }
}

#[test]
fn random_host_is_well_formed() {
    let h = random_host();
    assert!(!h.name.is_empty());
    assert_eq!(1, h.macs.len());
    assert_eq!(17, h.macs[0].len());
    assert_eq!(1, h.ips.len());
    assert!(h.ips[0].len() >= 7 && h.ips[0].len() <= 15);
}

#[test]
fn ipv4_rendering() {
    assert_eq!("192.168.0.1", canonical_ipv4_text(&[192, 168, 0, 1]));
    assert_eq!("0.0.0.0", canonical_ipv4_text(&[0, 0, 0, 0]));
    assert_eq!("255.255.255.255", canonical_ipv4_text(&[255, 255, 255, 255]));
}
