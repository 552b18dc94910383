use imaginet::cable::{Cable, VdeConnProtocols};
use imaginet::errors::{DeviceError, TopologyError};
use imaginet::namespace::{Namespace, NSInterface};
use imaginet::slirp::Slirp;
use imaginet::switch::Switch;
use imaginet::topology::{find_endpoint_path, find_endpoint_protocol, Topology};
use imaginet::vxvde::VXVDE;

fn plain_cable(name: &str, a: &str, b: &str) -> Cable {
    Cable::new(
        name.to_owned(),
        a.to_owned(),
        None,
        VdeConnProtocols::VDE,
        b.to_owned(),
        None,
        VdeConnProtocols::VDE,
        None,
    )
}

#[test]
fn names_are_unique_across_kinds() {
    let mut t = Topology::new();
    assert!(t.add_switch(Switch::new("x".to_owned())).is_ok());
    assert!(matches!(
        t.add_namespace(Namespace::new("x".to_owned())),
        Err(TopologyError::NameAlreadyUsed)
    ));
    assert!(matches!(
        t.add_cable(plain_cable("x", "a", "b")),
        Err(TopologyError::NameAlreadyUsed)
    ));
    assert!(matches!(
        t.add_slirp(Slirp::new("x".to_owned())),
        Err(TopologyError::NameAlreadyUsed)
    ));
    assert!(matches!(
        t.add_vxvde(VXVDE::new("x".to_owned())),
        Err(TopologyError::NameAlreadyUsed)
    ));
    assert!(t.add_namespace(Namespace::new("y".to_owned())).is_ok());
    assert!(t.is_name_used("x"));
    assert!(t.is_name_used("y"));
    assert!(!t.is_name_used("z"));
}

#[test]
fn remove_fails_while_cable_references_device() {
    let mut t = Topology::new();
    t.add_switch(Switch::new("sw1".to_owned())).unwrap();
    // Cable endpoints are held in resolved path form.
    t.add_cable(plain_cable("c1", "./sw1/sock", "./other/sock")).unwrap();

    assert!(matches!(t.remove_device(&"sw1".to_owned()), Err(TopologyError::DeviceInUse)));
    assert_eq!(t.get_switches().len(), 1);

    // Removing the cable first unblocks the device.
    assert!(t.remove_device(&"c1".to_owned()).is_ok());
    assert_eq!(t.get_cables().len(), 0);
    assert!(t.remove_device(&"sw1".to_owned()).is_ok());
    assert_eq!(t.get_switches().len(), 0);
}

#[test]
fn remove_takes_exactly_one_device() {
    let mut t = Topology::new();
    t.add_switch(Switch::new("a".to_owned())).unwrap();
    t.add_namespace(Namespace::new("b".to_owned())).unwrap();
    t.add_slirp(Slirp::new("c".to_owned())).unwrap();
    assert!(t.remove_device(&"b".to_owned()).is_ok());
    assert_eq!(t.get_switches().len(), 1);
    assert_eq!(t.get_namespaces().len(), 0);
    assert_eq!(t.get_slirps().len(), 1);
    // Removing an absent name changes nothing and is not an error.
    assert!(t.remove_device(&"ghost".to_owned()).is_ok());
    assert_eq!(t.get_switches().len(), 1);
}

#[test]
fn endpoint_paths_by_kind() {
    let mut t = Topology::new();
    t.add_switch(Switch::new("sw1".to_owned())).unwrap();
    let mut ns = Namespace::new("ns1".to_owned());
    ns.add_interface(NSInterface::new("eth0".to_owned(), None, None));
    t.add_namespace(ns).unwrap();

    assert_eq!(
        find_endpoint_path(&t, "sw1", None, None).unwrap(),
        "./sw1/sock".to_owned()
    );
    let port = "eth0".to_owned();
    assert_eq!(
        find_endpoint_path(&t, "ns1", Some(&port), None).unwrap(),
        "./ns1/eth0".to_owned()
    );
    assert_eq!(
        find_endpoint_path(&t, "anything", None, Some(true)).unwrap(),
        "opn/anything".to_owned()
    );
    assert!(matches!(
        find_endpoint_path(&t, "ns1", None, None),
        Err(DeviceError::PortRequired)
    ));
    let missing = "eth9".to_owned();
    assert!(matches!(
        find_endpoint_path(&t, "ns1", Some(&missing), None),
        Err(DeviceError::NoSuchInterface)
    ));

    assert_eq!(find_endpoint_protocol(&t, "sw1").unwrap(), VdeConnProtocols::VDE);
    assert_eq!(find_endpoint_protocol(&t, "ns1").unwrap(), VdeConnProtocols::PTP);
}

#[test]
fn cable_argument_vectors() {
    let c = Cable::new(
        "c1".to_owned(),
        "./sw1/sock".to_owned(),
        Some("3".to_owned()),
        VdeConnProtocols::VDE,
        "./ns1/eth0".to_owned(),
        None,
        VdeConnProtocols::PTP,
        None,
    );
    assert_eq!(
        c.exec_args("/tmp"),
        vec![
            "vde:///tmp/./sw1/sock[3]".to_owned(),
            "ptp:///tmp/./ns1/eth0".to_owned(),
            "--pidfile".to_owned(),
            "/tmp/c1/pid".to_owned(),
            "--descr".to_owned(),
            "c1".to_owned(),
            "--daemon".to_owned(),
        ]
    );
    assert!(matches!(c.mgmt_path("/tmp"), Err(DeviceError::NotWirefilter)));
    assert!(matches!(c.attach_command(), Err(DeviceError::NotWirefilter)));

    let wf = Cable::new(
        "c2".to_owned(),
        "a".to_owned(),
        None,
        VdeConnProtocols::VDE,
        "b".to_owned(),
        None,
        VdeConnProtocols::VDE,
        Some(true),
    );
    assert_eq!(wf.exec_command(), "dpipe".to_owned());
    let args = wf.exec_args("/tmp");
    assert_eq!(args[0], "--daemon");
    assert_eq!(args[6], "wirefilter");
    assert_eq!(wf.attach_command().unwrap(), "vdeterm".to_owned());
}
