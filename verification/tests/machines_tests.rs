use waker::host::Host;
use waker::machines::Machines;
use waker::sanitizers::AddressError;

#[test]
fn init_machines() {
    let _machine_initialization_test = Machines::new();
}

#[test]
fn init_machines_and_add() {
    let mut m = Machines::new();
    m.add("Demo_Machine", "FF:FF:FF:FF:FF:FF", None);
    assert_eq!(1, m.list.len());
    m.add("Demo_Machine2", "FF:FF:FF:FF:FF:FF", None);
    assert_eq!(2, m.list.len());
}

#[test]
fn add_keeps_given_values() {
    let mut m = Machines::new();
    m.add("alpha", "00:11:22:33:44:55", Some(String::from("10.0.0.2")));
    assert_eq!("alpha", m.list[0].name);
    assert_eq!(vec![String::from("00:11:22:33:44:55")], m.list[0].macs);
    assert_eq!(vec![String::from("10.0.0.2")], m.list[0].ips);
    m.add("beta", "66:77:88:99:AA:BB", None);
    assert!(m.list[1].ips.is_empty());
}

#[test]
fn remove_host_closes_the_gap() {
    let mut m = Machines::new();
    m.add("one", "00:00:00:00:00:01", None);
    m.add("two", "00:00:00:00:00:02", None);
    m.add("three", "00:00:00:00:00:03", None);
    m.remove_host(1);
    assert_eq!(2, m.list.len());
    assert_eq!("one", m.list[0].name);
    assert_eq!("three", m.list[1].name);
}

#[test]
fn batch_wake_isolates_the_malformed_entry() {
    let host = Host {
        name: String::from("lab"),
        macs: vec![
            String::from("10:10:10:10:10:10"),
            String::from("zz:zz:zz"),
            String::from("ff:ff:ff:ff:ff:ff"),
        ],
        ips: vec![],
    };
    let plan = host.wake();
    assert_eq!(3, plan.len());
    assert!(plan[0].is_ok());
    assert_eq!(Some(&AddressError::Malformed), plan[1].as_ref().err());
    assert!(plan[2].is_ok());
    let ok_count = plan.iter().filter(|r| r.is_ok()).count();
    assert_eq!(2, ok_count);
}

#[test]
fn wakeall_plans_every_mac_of_every_host() {
    let mut m = Machines::new();
    m.add("one", "00:11:22:33:44:55", None);
    m.add("two", "not-a-mac", None);
    let plan = m.wakeall();
    assert_eq!(2, plan.len());
    assert_eq!(1, plan[0].len());
    assert!(plan[0][0].is_ok());
    assert_eq!(1, plan[1].len());
    assert!(plan[1][0].is_err());
}

#[test]
fn host_edit_methods() {
    let mut h = Host::new(
        String::from("old"),
        String::from("00:11:22:33:44:55"),
        String::from("10.0.0.1"),
    );
    assert!(!h.set_name(String::new()));
    assert_eq!("old", h.name);
    assert!(h.set_name(String::from("new")));
    assert_eq!("new", h.name);

    assert_eq!(Ok(()), h.add_mac("aabbccddeeff"));
    assert_eq!(vec![String::from("00:11:22:33:44:55"), String::from("AA:BB:CC:DD:EE:FF")], h.macs);
    assert_eq!(Err(AddressError::Malformed), h.add_mac("123"));
    assert_eq!(2, h.macs.len());
    assert_eq!(Ok(()), h.set_mac(0, "FF-FF-FF-FF-FF-00"));
    assert_eq!("FF:FF:FF:FF:FF:00", h.macs[0]);
    h.remove_mac(1);
    assert_eq!(vec![String::from("FF:FF:FF:FF:FF:00")], h.macs);

    assert_eq!(Ok(()), h.add_ip("192.168.0.7"));
    assert_eq!(vec![String::from("10.0.0.1"), String::from("192.168.0.7")], h.ips);
    assert_eq!(Err(AddressError::Malformed), h.add_ip("1.2"));
    assert_eq!(Ok(()), h.set_ip(0, "8.8.8.8"));
    assert_eq!("8.8.8.8", h.ips[0]);
    h.remove_ip(1);
    assert_eq!(vec![String::from("8.8.8.8")], h.ips);
}
