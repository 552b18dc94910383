use imaginet::addr::{parse_ip, parse_ipv4, parse_ipv6, validate_cidr, CidrFault, GatewayFault, IpVal};
use imaginet::config::{Cable, Config, Endpoint, Namespace, NSInterface, Switch, ValidationError};

fn sw(name: &str, ports: Option<u32>) -> Switch {
    Switch { name: name.to_owned(), config: None, ports, hub: None }
}

fn ep(name: &str, port: Option<&str>) -> Endpoint {
    Endpoint { name: name.to_owned(), port: port.map(|p| p.to_owned()), open: None }
}

fn cable(name: &str, a: Endpoint, b: Endpoint) -> Cable {
    Cable { name: name.to_owned(), endpoint_a: a, endpoint_b: b, wirefilter: None, config: None }
}

fn cfg(switch: Vec<Switch>, namespace: Vec<Namespace>, cable: Vec<Cable>) -> Config {
    Config {
        switch: Some(switch),
        namespace: Some(namespace),
        cable: Some(cable),
        slirp: None,
        vxvde: None,
    }
}

#[test]
fn ipv4_parsing() {
    assert_eq!(parse_ipv4("10.0.0.1"), Some(0x0a000001));
    assert_eq!(parse_ipv4("255.255.255.255"), Some(u32::MAX));
    assert_eq!(parse_ipv4("0.0.0.0"), Some(0));
    assert_eq!(parse_ipv4("10.0.0"), None);
    assert_eq!(parse_ipv4("10.0.0.256"), None);
    assert_eq!(parse_ipv4("10.0.0.01"), None);
    assert_eq!(parse_ipv4("a.b.c.d"), None);
}

#[test]
fn ipv6_parsing() {
    assert_eq!(parse_ipv6("::"), Some(0));
    assert_eq!(parse_ipv6("::1"), Some(1));
    assert_eq!(parse_ipv6("fe80::1"), Some(0xfe80_0000_0000_0000_0000_0000_0000_0001));
    assert_eq!(
        parse_ipv6("1:2:3:4:5:6:7:8"),
        Some(0x0001_0002_0003_0004_0005_0006_0007_0008)
    );
    assert_eq!(parse_ipv6("2001:db8::"), Some(0x2001_0db8_0000_0000_0000_0000_0000_0000));
    assert_eq!(parse_ipv6(":"), None);
    assert_eq!(parse_ipv6("1:2:3"), None);
    assert_eq!(parse_ipv6("1::2::3"), None);
    assert_eq!(parse_ipv6("12345::"), None);
}

#[test]
fn cidr_faults() {
    assert!(matches!(validate_cidr("10.0.0.1/24"), Ok((IpVal::V4(0x0a000001), 24))));
    assert!(matches!(validate_cidr("10.0.0.1"), Err(CidrFault::MissingSlash)));
    assert!(matches!(validate_cidr("10.0.0/24"), Err(CidrFault::BadAddress)));
    assert!(matches!(validate_cidr("10.0.0.1/x"), Err(CidrFault::BadMask)));
    assert!(matches!(validate_cidr("10.0.0.1/33"), Err(CidrFault::MaskTooLarge)));
    assert!(matches!(validate_cidr("::1/129"), Err(CidrFault::MaskTooLarge)));
    assert!(matches!(validate_cidr("::1/64"), Ok((IpVal::V6(1), 64))));
}

#[test]
fn gateway_must_share_subnet() {
    // Outside the /24: rejected with the subnet fault.
    let bad = NSInterface {
        name: "eth0".to_owned(),
        ip: Some("10.0.0.1/24".to_owned()),
        gateway: Some("10.0.1.1".to_owned()),
    };
    assert!(matches!(
        bad.checks(),
        Err(ValidationError::InvalidGateway { fault: GatewayFault::NotInSubnet, .. })
    ));

    // Inside the /24: accepted.
    let good = NSInterface {
        name: "eth0".to_owned(),
        ip: Some("10.0.0.1/24".to_owned()),
        gateway: Some("10.0.0.254".to_owned()),
    };
    assert!(good.checks().is_ok());
}

#[test]
fn gateway_family_and_identity() {
    let mixed = NSInterface {
        name: "eth0".to_owned(),
        ip: Some("10.0.0.1/24".to_owned()),
        gateway: Some("::1".to_owned()),
    };
    assert!(matches!(
        mixed.checks(),
        Err(ValidationError::InvalidGateway { fault: GatewayFault::FamilyMismatch, .. })
    ));

    let same = NSInterface {
        name: "eth0".to_owned(),
        ip: Some("10.0.0.1/24".to_owned()),
        gateway: Some("10.0.0.1".to_owned()),
    };
    assert!(matches!(
        same.checks(),
        Err(ValidationError::InvalidGateway { fault: GatewayFault::SameAddress, .. })
    ));

    let no_ip = NSInterface {
        name: "eth0".to_owned(),
        ip: None,
        gateway: Some("10.0.0.1".to_owned()),
    };
    assert!(matches!(no_ip.checks(), Err(ValidationError::GatewayWithoutIp { .. })));
}

#[test]
fn port_at_capacity_gets_zero_index_hint() {
    // One switch with 8 ports, one cable naming port 8: out of range,
    // with the zero-indexing hint.
    let c = cfg(
        vec![sw("s1", Some(8))],
        vec![],
        vec![cable("c1", ep("s1", Some("8")), ep("s1", Some("0")))],
    );
    match c.checks() {
        Err(ValidationError::PortOutOfRange { port, max, zero_hint, .. }) => {
            assert_eq!(port, 8);
            assert_eq!(max, 8);
            assert!(zero_hint);
        },
        other => panic!("unexpected outcome: {:?}", other),
    }
}

#[test]
fn port_above_capacity_no_hint() {
    let c = cfg(
        vec![sw("s1", Some(8))],
        vec![],
        vec![cable("c1", ep("s1", Some("9")), ep("s1", Some("0")))],
    );
    match c.checks() {
        Err(ValidationError::PortOutOfRange { port, zero_hint, .. }) => {
            assert_eq!(port, 9);
            assert!(!zero_hint);
        },
        other => panic!("unexpected outcome: {:?}", other),
    }
}

#[test]
fn two_gateways_rejected() {
    let ns = Namespace {
        name: "n1".to_owned(),
        interfaces: vec![
            NSInterface {
                name: "eth0".to_owned(),
                ip: Some("10.0.0.1/24".to_owned()),
                gateway: Some("10.0.0.254".to_owned()),
            },
            NSInterface {
                name: "eth1".to_owned(),
                ip: Some("10.0.1.1/24".to_owned()),
                gateway: Some("10.0.1.254".to_owned()),
            },
        ],
    };
    let c = cfg(vec![], vec![ns], vec![]);
    assert!(matches!(c.checks(), Err(ValidationError::MultipleGateways { .. })));
}

#[test]
fn duplicate_names_rejected() {
    let ns = Namespace { name: "x".to_owned(), interfaces: vec![] };
    let c = cfg(vec![sw("x", None)], vec![ns], vec![]);
    match c.checks() {
        Err(ValidationError::DuplicateName { name }) => assert_eq!(name, "x"),
        other => panic!("unexpected outcome: {:?}", other),
    }
}

#[test]
fn unknown_endpoint_rejected() {
    let c = cfg(
        vec![sw("s1", None)],
        vec![],
        vec![cable("c1", ep("ghost", None), ep("s1", None))],
    );
    assert!(matches!(c.checks(), Err(ValidationError::UnknownEndpoint { .. })));
}

#[test]
fn open_endpoint_needs_no_device() {
    let mut e = ep("anything", None);
    e.open = Some(true);
    let c = cfg(vec![sw("s1", None)], vec![], vec![cable("c1", e, ep("s1", None))]);
    assert!(c.checks().is_ok());
}

#[test]
fn port_reuse_rejected() {
    let c = cfg(
        vec![sw("s1", Some(8))],
        vec![],
        vec![
            cable("c1", ep("s1", Some("3")), ep("s1", Some("4"))),
            cable("c2", ep("s1", Some("3")), ep("s1", Some("5"))),
        ],
    );
    assert!(matches!(c.checks(), Err(ValidationError::PortAlreadyUsed { .. })));
}

#[test]
fn switch_over_committed() {
    let c = cfg(
        vec![sw("s1", Some(1))],
        vec![],
        vec![cable("c1", ep("s1", None), ep("s1", None))],
    );
    assert!(matches!(c.checks(), Err(ValidationError::SwitchOverCommitted { .. })));
}

#[test]
fn zero_ports_rejected() {
    let c = cfg(vec![sw("s1", Some(0))], vec![], vec![]);
    assert!(matches!(c.checks(), Err(ValidationError::ZeroPorts { .. })));
}

#[test]
fn cable_config_needs_filter() {
    let mut cb = cable("c1", ep("s1", None), ep("s1", None));
    cb.config = Some("/tmp/rules".to_owned());
    let c = cfg(vec![sw("s1", Some(8))], vec![], vec![cb]);
    assert!(matches!(c.checks(), Err(ValidationError::ConfigWithoutFilter { .. })));
}

#[test]
fn well_formed_document_passes() {
    let ns = Namespace {
        name: "n1".to_owned(),
        interfaces: vec![NSInterface {
            name: "eth0".to_owned(),
            ip: Some("10.0.0.2/24".to_owned()),
            gateway: Some("10.0.0.1".to_owned()),
        }],
    };
    let c = cfg(
        vec![sw("s1", Some(8))],
        vec![ns],
        vec![cable("c1", ep("s1", Some("0")), ep("n1", Some("eth0")))],
    );
    assert!(c.checks().is_ok());
}

#[test]
fn family_detection() {
    assert!(matches!(parse_ip("10.0.0.1"), Some(IpVal::V4(_))));
    assert!(matches!(parse_ip("fe80::1"), Some(IpVal::V6(_))));
    assert_eq!(parse_ip("not-an-address"), None);
}
