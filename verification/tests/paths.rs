use imaginet::namespace::Namespace;
use imaginet::switch::Switch;

#[test]
fn create_switch() {
    let name = "test";
    let sw = Switch::new(name.to_owned());

    assert_eq!(sw.get_name(), name);
}

#[test]
fn switch_base_path() {
    let name = "lara";
    let sw = Switch::new(name.to_owned());
    let base = "/tmp";

    assert_eq!(sw.base_path(base), String::from("/tmp/lara"));
}

#[test]
fn switch_pid_path() {
    let name = "maasldkf";
    let sw = Switch::new(name.to_owned());
    let base = "/tmp";

    assert_eq!(sw.pid_path(base), String::from("/tmp/maasldkf/pid"));
}

#[test]
fn switch_mgmt_path() {
    let name = "sdfk3i";
    let sw = Switch::new(name.to_owned());
    let base = "/tmp";

    assert_eq!(sw.mgmt_path(base), String::from("/tmp/sdfk3i/mgmt"));
}

#[test]
fn switch_sock_path() {
    let name = "sw-13ndo28";
    let sw = Switch::new(name.to_owned());
    let base = "/tmp";

    assert_eq!(sw.sock_path(base), String::from("/tmp/sw-13ndo28/sock"));
}

#[test]
fn create_namespace() {
    let name = "test";
    let ns = Namespace::new(name.to_owned());

    assert_eq!(ns.get_name(), name);
}

#[test]
fn switch_start_arguments() {
    let mut sw = Switch::new("s1".to_owned());
    sw.set_ports(8);
    sw.set_hub(true);
    let args = sw.exec_args("/tmp");
    assert_eq!(
        args,
        vec![
            "--pidfile".to_owned(),
            "/tmp/s1/pid".to_owned(),
            "--mgmt".to_owned(),
            "/tmp/s1/mgmt".to_owned(),
            "--sock".to_owned(),
            "/tmp/s1/sock".to_owned(),
            "--rcfile".to_owned(),
            "/tmp/s1/config".to_owned(),
            "--numports".to_owned(),
            "8".to_owned(),
            "--daemon".to_owned(),
            "--hub".to_owned(),
        ]
    );
}

#[test]
fn switch_zero_ports_selects_default() {
    let mut sw = Switch::new("s1".to_owned());
    sw.set_ports(0);
    assert_eq!(sw.get_ports(), 32);
}

#[test]
fn namespace_interface_config_commands() {
    let mut ns = Namespace::new("n1".to_owned());
    ns.add_interface(imaginet::namespace::NSInterface::new(
        "eth0".to_owned(),
        Some("10.0.0.1/24".to_owned()),
        Some("10.0.0.254".to_owned()),
    ));
    let cmds = ns.config_for_interfaces();
    assert_eq!(
        cmds,
        vec![
            "ip link set vde0 name eth0".to_owned(),
            "ip addr add 10.0.0.1/24 dev eth0".to_owned(),
            "ip link set eth0 up".to_owned(),
            "ip route add default via 10.0.0.254 dev eth0".to_owned(),
        ]
    );
}
