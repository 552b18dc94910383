use imaginet::cable::VdeConnProtocols;
use imaginet::config::{
    config_to_vde_topology, parse_interfaces, BuildFault, Cable, Config, Endpoint,
    InterfaceArgError, Namespace, NSInterface, Switch,
};

fn cfg(switch: Vec<Switch>, namespace: Vec<Namespace>, cable: Vec<Cable>) -> Config {
    Config {
        switch: Some(switch),
        namespace: Some(namespace),
        cable: Some(cable),
        slirp: None,
        vxvde: None,
    }
}

fn sw(name: &str, ports: Option<u32>, hub: Option<bool>) -> Switch {
    Switch { name: name.to_owned(), config: None, ports, hub }
}

fn ns(name: &str, ifaces: Vec<(&str, Option<&str>, Option<&str>)>) -> Namespace {
    Namespace {
        name: name.to_owned(),
        interfaces: ifaces
            .into_iter()
            .map(|(n, ip, gw)| NSInterface {
                name: n.to_owned(),
                ip: ip.map(|v| v.to_owned()),
                gateway: gw.map(|v| v.to_owned()),
            })
            .collect(),
    }
}

fn ep(name: &str, port: Option<&str>, open: Option<bool>) -> Endpoint {
    Endpoint { name: name.to_owned(), port: port.map(|p| p.to_owned()), open }
}

#[test]
fn build_resolves_endpoints() {
    let c = cfg(
        vec![sw("s1", Some(8), Some(true))],
        vec![ns("n1", vec![("eth0", Some("10.0.0.2/24"), None)])],
        vec![Cable {
            name: "c1".to_owned(),
            endpoint_a: ep("s1", Some("0"), None),
            endpoint_b: ep("n1", Some("eth0"), None),
            wirefilter: None,
            config: None,
        }],
    );
    let t = config_to_vde_topology(&c, &vec![vec![]], &vec![vec![]]).unwrap();

    assert_eq!(t.get_switches().len(), 1);
    assert_eq!(t.get_switches()[0].ports, 8);
    assert!(t.get_switches()[0].hub);

    assert_eq!(t.get_namespaces().len(), 1);
    let n1 = &t.get_namespaces()[0];
    assert_eq!(
        n1.config,
        vec![
            "ip link set lo up\n".to_owned(),
            "ip link set vde0 name eth0".to_owned(),
            "ip addr add 10.0.0.2/24 dev eth0".to_owned(),
            "ip link set eth0 up".to_owned(),
        ]
    );

    let c1 = &t.get_cables()[0];
    assert_eq!(c1.a.name, "./s1/sock");
    assert_eq!(c1.a.protocol, VdeConnProtocols::VDE);
    assert_eq!(c1.b.name, "./n1/eth0");
    assert_eq!(c1.b.protocol, VdeConnProtocols::PTP);
    assert!(!c1.wirefilter);
}

#[test]
fn build_defaults_ports_and_zero_means_default() {
    let c = cfg(vec![sw("a", None, None), sw("b", Some(0), None)], vec![], vec![]);
    let t = config_to_vde_topology(&c, &vec![vec![], vec![]], &vec![]).unwrap();
    assert_eq!(t.get_switches()[0].ports, 32);
    assert_eq!(t.get_switches()[1].ports, 32);
}

#[test]
fn build_rejects_duplicate_names() {
    let c = cfg(vec![sw("x", None, None)], vec![ns("x", vec![])], vec![]);
    assert!(matches!(
        config_to_vde_topology(&c, &vec![vec![]], &vec![]),
        Err(BuildFault::NameAlreadyUsed)
    ));
}

#[test]
fn build_rejects_unresolvable_endpoints() {
    let unknown = cfg(
        vec![sw("s1", None, None)],
        vec![],
        vec![Cable {
            name: "c1".to_owned(),
            endpoint_a: ep("ghost", None, None),
            endpoint_b: ep("s1", None, None),
            wirefilter: None,
            config: None,
        }],
    );
    assert!(matches!(
        config_to_vde_topology(&unknown, &vec![vec![]], &vec![vec![]]),
        Err(BuildFault::UnknownEndpoint)
    ));

    let portless = cfg(
        vec![],
        vec![ns("n1", vec![("eth0", None, None)])],
        vec![Cable {
            name: "c1".to_owned(),
            endpoint_a: ep("n1", None, None),
            endpoint_b: ep("n1", Some("eth0"), None),
            wirefilter: None,
            config: None,
        }],
    );
    assert!(matches!(
        config_to_vde_topology(&portless, &vec![], &vec![vec![]]),
        Err(BuildFault::PortRequired)
    ));

    let missing = cfg(
        vec![],
        vec![ns("n1", vec![("eth0", None, None)])],
        vec![Cable {
            name: "c1".to_owned(),
            endpoint_a: ep("n1", Some("eth9"), None),
            endpoint_b: ep("n1", Some("eth0"), None),
            wirefilter: None,
            config: None,
        }],
    );
    assert!(matches!(
        config_to_vde_topology(&missing, &vec![], &vec![vec![]]),
        Err(BuildFault::NoSuchInterface)
    ));
}

#[test]
fn build_keeps_open_endpoints_unbound() {
    let c = cfg(
        vec![sw("s1", None, None)],
        vec![],
        vec![Cable {
            name: "c1".to_owned(),
            endpoint_a: ep("elsewhere", None, Some(true)),
            endpoint_b: ep("s1", None, None),
            wirefilter: None,
            config: None,
        }],
    );
    let t = config_to_vde_topology(&c, &vec![vec![]], &vec![vec![]]).unwrap();
    assert_eq!(t.get_cables()[0].a.name, "opn/elsewhere");
    assert_eq!(t.get_cables()[0].a.protocol, VdeConnProtocols::PTP);
}

fn args(words: &[&str]) -> Vec<String> {
    words.iter().map(|w| w.to_string()).collect()
}

#[test]
fn interface_arguments_parse() {
    let parsed = parse_interfaces(args(&[
        "--iface", "eth0", "10.0.0.2/24", "10.0.0.1", "--iface", "eth1",
    ]))
    .unwrap();
    assert_eq!(parsed.len(), 2);
    assert_eq!(parsed[0].name, "eth0");
    assert_eq!(parsed[0].ip.as_deref(), Some("10.0.0.2/24"));
    assert_eq!(parsed[0].gateway.as_deref(), Some("10.0.0.1"));
    assert_eq!(parsed[1].name, "eth1");
    assert_eq!(parsed[1].ip, None);

    assert_eq!(parse_interfaces(vec![]).unwrap().len(), 0);
}

#[test]
fn interface_arguments_rejections() {
    assert!(matches!(
        parse_interfaces(args(&["eth0"])),
        Err(InterfaceArgError::MustStartWithMarker)
    ));
    assert!(matches!(
        parse_interfaces(args(&["--iface"])),
        Err(InterfaceArgError::WrongElementCount)
    ));
    assert!(matches!(
        parse_interfaces(args(&["--iface", "a", "b", "c", "d"])),
        Err(InterfaceArgError::WrongElementCount)
    ));
    assert!(matches!(
        parse_interfaces(args(&["--iface", "eth0", "not-cidr"])),
        Err(InterfaceArgError::BadInterface(_))
    ));
}
