use imaginet::cable::{Cable, VdeConnProtocols};
use imaginet::namespace::{Namespace, NSInterface};
use imaginet::slirp::Slirp;
use imaginet::switch::Switch;
use imaginet::topology::Topology;
use imaginet::vxvde::VXVDE;

fn sample_topology() -> Topology {
    let mut t = Topology::new();

    let mut sw = Switch::new("sw1".to_owned());
    sw.set_ports(8);
    sw.set_hub(true);
    sw.add_config("port/setnumports 8".to_owned());
    t.add_switch(sw).unwrap();

    let mut ns = Namespace::new("ns1".to_owned());
    ns.add_interface(NSInterface::new(
        "eth0".to_owned(),
        Some("10.0.0.2/24".to_owned()),
        Some("10.0.0.1".to_owned()),
    ));
    ns.add_interface(NSInterface::new("eth1".to_owned(), None, None));
    for c in Namespace::default_confing() {
        ns.add_config(c);
    }
    for c in ns.config_for_interfaces() {
        ns.add_config(c);
    }
    t.add_namespace(ns).unwrap();

    let cb = Cable::new(
        "c1".to_owned(),
        "./sw1/sock".to_owned(),
        Some("0".to_owned()),
        VdeConnProtocols::VDE,
        "./ns1/eth0".to_owned(),
        None,
        VdeConnProtocols::PTP,
        Some(true),
    );
    t.add_cable(cb).unwrap();

    t.add_slirp(Slirp::new("nat0".to_owned())).unwrap();

    let mut vx = VXVDE::new("mesh0".to_owned());
    vx.set_addr("239.0.0.1".to_owned());
    vx.set_port(14789);
    t.add_vxvde(vx).unwrap();

    t
}

fn assert_equivalent(a: &Topology, b: &Topology) {
    assert_eq!(a.get_switches().len(), b.get_switches().len());
    for (x, y) in a.get_switches().iter().zip(b.get_switches().iter()) {
        assert_eq!(x.name, y.name);
        assert_eq!(x.ports, y.ports);
        assert_eq!(x.hub, y.hub);
        assert_eq!(x.config, y.config);
    }
    assert_eq!(a.get_namespaces().len(), b.get_namespaces().len());
    for (x, y) in a.get_namespaces().iter().zip(b.get_namespaces().iter()) {
        assert_eq!(x.name, y.name);
        assert_eq!(x.config, y.config);
        assert_eq!(x.interfaces.len(), y.interfaces.len());
        for (f, g) in x.interfaces.iter().zip(y.interfaces.iter()) {
            assert_eq!(f.name, g.name);
            assert_eq!(f.ip, g.ip);
            assert_eq!(f.gateway, g.gateway);
        }
    }
    assert_eq!(a.get_cables().len(), b.get_cables().len());
    for (x, y) in a.get_cables().iter().zip(b.get_cables().iter()) {
        assert_eq!(x.name, y.name);
        assert_eq!(x.a.name, y.a.name);
        assert_eq!(x.a.port, y.a.port);
        assert_eq!(x.a.protocol, y.a.protocol);
        assert_eq!(x.b.name, y.b.name);
        assert_eq!(x.b.port, y.b.port);
        assert_eq!(x.b.protocol, y.b.protocol);
        assert_eq!(x.wirefilter, y.wirefilter);
        assert_eq!(x.config, y.config);
    }
    assert_eq!(a.get_slirps().len(), b.get_slirps().len());
    for (x, y) in a.get_slirps().iter().zip(b.get_slirps().iter()) {
        assert_eq!(x.name, y.name);
    }
    assert_eq!(a.get_vxvdes().len(), b.get_vxvdes().len());
    for (x, y) in a.get_vxvdes().iter().zip(b.get_vxvdes().iter()) {
        assert_eq!(x.name, y.name);
        assert_eq!(x.addr, y.addr);
        assert_eq!(x.port, y.port);
    }
}

#[test]
fn round_trip_full_topology() {
    let t = sample_topology();
    let doc = t.to_string();
    let back = Topology::from_string(doc.as_str()).expect("document must parse");
    assert_equivalent(&t, &back);
}

#[test]
fn round_trip_empty_topology() {
    let t = Topology::new();
    let doc = t.to_string();
    let back = Topology::from_string(doc.as_str()).expect("document must parse");
    assert_equivalent(&t, &back);
}

#[test]
fn round_trip_awkward_names() {
    let mut t = Topology::new();
    t.add_switch(Switch::new("with\nnewline".to_owned())).unwrap();
    t.add_switch(Switch::new("with\\backslash".to_owned())).unwrap();
    t.add_switch(Switch::new("".to_owned())).unwrap();
    let doc = t.to_string();
    let back = Topology::from_string(doc.as_str()).expect("document must parse");
    assert_equivalent(&t, &back);
}

#[test]
fn garbage_documents_rejected() {
    assert!(Topology::from_string("").is_none());
    assert!(Topology::from_string("nonsense").is_none());
    assert!(Topology::from_string("1\n").is_none());
    // A document must end with its final newline.
    let t = sample_topology();
    let mut doc = t.to_string();
    doc.pop();
    assert!(Topology::from_string(doc.as_str()).is_none());
    // Trailing junk is refused too.
    let mut doc2 = t.to_string();
    doc2.push_str("junk\n");
    assert!(Topology::from_string(doc2.as_str()).is_none());
}
