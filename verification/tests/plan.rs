use imaginet::cable::{Cable, VdeConnProtocols};
use imaginet::namespace::Namespace;
use imaginet::plan::{
    attach_plan, create_decision, device_pid_path, exec_plan, parse_pid, start_plan,
    status_report, stop_targets, PlanError, SpawnMode, StartStep,
};
use imaginet::switch::Switch;
use imaginet::topology::Topology;

fn two_device_topology() -> Topology {
    let mut t = Topology::new();
    let mut sw = Switch::new("sw1".to_owned());
    sw.set_ports(8);
    t.add_switch(sw).unwrap();
    t.add_namespace(Namespace::new("ns1".to_owned())).unwrap();
    t.add_cable(Cable::new(
        "c1".to_owned(),
        "./sw1/sock".to_owned(),
        None,
        VdeConnProtocols::VDE,
        "./ns1/eth0".to_owned(),
        None,
        VdeConnProtocols::PTP,
        Some(true),
    ))
    .unwrap();
    t
}

fn step_name(s: &StartStep) -> Option<&str> {
    match s {
        StartStep::Start { name, .. } => Some(name.as_str()),
        StartStep::AlreadyRunning { name } => Some(name.as_str()),
        StartStep::WriteStarter { .. } => None,
    }
}

#[test]
fn start_skips_running_device() {
    let t = two_device_topology();
    // The switch already runs: its plan entry is the warning alone.
    let plan = start_plan(
        &t,
        "/tmp/net",
        None,
        false,
        &vec![true],
        &vec![false],
        &vec![false],
    )
    .unwrap();

    let mut warned = false;
    for step in &plan {
        match step {
            StartStep::AlreadyRunning { name } if name == "sw1" => warned = true,
            StartStep::Start { name, .. } => assert_ne!(name, "sw1"),
            _ => (),
        }
    }
    assert!(warned);

    // Started twice on the same liveness snapshot, the plan is the same:
    // still no start step for the running device.
    let again = start_plan(
        &t,
        "/tmp/net",
        None,
        false,
        &vec![true],
        &vec![false],
        &vec![false],
    )
    .unwrap();
    assert_eq!(plan.len(), again.len());
}

#[test]
fn start_orders_kinds_and_writes_starter() {
    let t = two_device_topology();
    let plan = start_plan(
        &t,
        "/tmp/net",
        None,
        false,
        &vec![false],
        &vec![false],
        &vec![false],
    )
    .unwrap();
    let names: Vec<Option<&str>> = plan.iter().map(step_name).collect();
    assert_eq!(names, vec![Some("sw1"), None, Some("ns1"), Some("c1")]);
    match &plan[1] {
        StartStep::WriteStarter { path, contents } => {
            assert_eq!(path, "/tmp/net/ns_starter.sh");
            assert!(contents.starts_with("#!/bin/sh"));
        },
        other => panic!("unexpected step: {:?}", other),
    }
    match &plan[2] {
        StartStep::Start { mode, cmd, .. } => {
            assert_eq!(*mode, SpawnMode::Terminal);
            assert_eq!(cmd, "vdens");
        },
        other => panic!("unexpected step: {:?}", other),
    }
}

#[test]
fn start_validates_selection() {
    let t = two_device_topology();
    assert!(matches!(
        start_plan(&t, "/tmp/net", Some(vec!["ghost".to_owned()]), false, &vec![false],
            &vec![false], &vec![false]),
        Err(PlanError::UnknownDevice)
    ));
    assert!(matches!(
        start_plan(&t, "/tmp/net", None, true, &vec![false], &vec![false], &vec![false]),
        Err(PlanError::InlineRequiresSingleDevice)
    ));
    let plan = start_plan(
        &t,
        "/tmp/net",
        Some(vec!["sw1".to_owned()]),
        true,
        &vec![false],
        &vec![false],
        &vec![false],
    )
    .unwrap();
    let names: Vec<Option<&str>> = plan.iter().map(step_name).collect();
    assert_eq!(names, vec![Some("sw1"), None]);
}

#[test]
fn inline_plain_cable_refused() {
    let mut t = Topology::new();
    t.add_cable(Cable::new(
        "c1".to_owned(),
        "a".to_owned(),
        None,
        VdeConnProtocols::VDE,
        "b".to_owned(),
        None,
        VdeConnProtocols::VDE,
        None,
    ))
    .unwrap();
    assert!(matches!(
        start_plan(&t, "/tmp/net", Some(vec!["c1".to_owned()]), true, &vec![], &vec![],
            &vec![false]),
        Err(PlanError::InlineWithoutWirefilter)
    ));
}

#[test]
fn stop_visits_selected_devices_in_kind_order() {
    let t = two_device_topology();
    let all = stop_targets(&t, "/tmp/net", None);
    let names: Vec<&str> = all.iter().map(|s| s.name.as_str()).collect();
    assert_eq!(names, vec!["sw1", "ns1", "c1"]);
    assert_eq!(all[0].pid_path, "/tmp/net/sw1/pid");

    let one = stop_targets(&t, "/tmp/net", Some(vec!["ns1".to_owned()]));
    assert_eq!(one.len(), 1);
    assert_eq!(one[0].name, "ns1");
    assert_eq!(one[0].pid_path, "/tmp/net/ns1/pid");
}

#[test]
fn attach_and_exec_commands() {
    let t = two_device_topology();
    assert!(matches!(
        attach_plan(&t, "/tmp/net", "ghost", true, 7),
        Err(PlanError::DeviceNotFound)
    ));
    assert!(matches!(
        attach_plan(&t, "/tmp/net", "sw1", false, 7),
        Err(PlanError::DeviceNotAlive)
    ));
    let (cmd, args) = attach_plan(&t, "/tmp/net", "sw1", true, 7).unwrap();
    assert_eq!(cmd, "vdeterm");
    assert_eq!(args, vec!["/tmp/net/sw1/mgmt".to_owned()]);

    let (cmd, args) = attach_plan(&t, "/tmp/net", "ns1", true, 1234).unwrap();
    assert_eq!(cmd, "nsenter");
    assert_eq!(args[0], "-t");
    assert_eq!(args[1], "1234");

    let mut command = vec!["ip".to_owned(), "a".to_owned()];
    let (cmd, args) = exec_plan(&t, "/tmp/net", "sw1", true, 7, &mut command).unwrap();
    assert_eq!(cmd, "vdecmd");
    assert_eq!(
        args,
        vec!["-s".to_owned(), "/tmp/net/sw1/mgmt".to_owned(), "ip".to_owned(), "a".to_owned()]
    );
    assert!(command.is_empty());

    assert_eq!(
        device_pid_path(&t, "/tmp/net", "c1").unwrap(),
        "/tmp/net/c1/pid".to_owned()
    );
}

#[test]
fn plain_cable_not_attachable() {
    let mut t = Topology::new();
    t.add_cable(Cable::new(
        "c1".to_owned(),
        "a".to_owned(),
        None,
        VdeConnProtocols::VDE,
        "b".to_owned(),
        None,
        VdeConnProtocols::VDE,
        None,
    ))
    .unwrap();
    assert!(matches!(
        attach_plan(&t, "/tmp/net", "c1", true, 7),
        Err(PlanError::NotAttachable)
    ));
}

#[test]
fn create_needs_force_over_existing_topology() {
    assert!(matches!(create_decision(true, false), Err(PlanError::TopologyAlreadyExists)));
    assert_eq!(create_decision(true, true).unwrap(), true);
    assert_eq!(create_decision(false, false).unwrap(), false);
    assert_eq!(create_decision(false, true).unwrap(), false);
}

#[test]
fn pid_files_are_trimmed_and_parsed() {
    assert_eq!(parse_pid("1234"), Some(1234));
    assert_eq!(parse_pid("  1234\n"), Some(1234));
    assert_eq!(parse_pid("\t42\r\n"), Some(42));
    assert_eq!(parse_pid(""), None);
    assert_eq!(parse_pid("12a4"), None);
    assert_eq!(parse_pid("99999999999999999999"), None);
}

#[test]
fn status_lines() {
    let t = two_device_topology();
    let report = status_report(&t, &None, 0, &vec![true], &vec![false], &vec![true]);
    assert_eq!(
        report,
        vec![
            "Topology status".to_owned(),
            "Namespaces:".to_owned(),
            "- ns1 alive".to_owned(),
            "\nSwitches:".to_owned(),
            "- sw1 dead".to_owned(),
            "\nCables:".to_owned(),
            "- c1 alive".to_owned(),
        ]
    );

    let filtered = status_report(
        &t,
        &Some(vec!["sw1".to_owned()]),
        1,
        &vec![true],
        &vec![true],
        &vec![true],
    );
    assert_eq!(
        filtered,
        vec![
            "Topology status".to_owned(),
            "Namespaces:".to_owned(),
            "\nSwitches:".to_owned(),
            "- sw1 alive".to_owned(),
            "\tports: 8\n\thub: false".to_owned(),
            "\nCables:".to_owned(),
        ]
    );
}
