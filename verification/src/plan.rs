//! The device lifecycle orchestrator's decisions, separated from the
//! processes they drive.  Every operation here turns a trusted topology
//! and a liveness snapshot into a plan of concrete steps — directories to
//! make, files to write, commands to spawn — that a thin runner performs
//! in order.  Devices start in kind order: switches, then namespaces,
//! then cables.

use vstd::prelude::*;
use vstd::string::StringExecFns;
use crate::cable::{cable_exec_args, CableV};
use crate::namespace::{Namespace, NamespaceV, NSInterfaceV, ns_exec_args};
use crate::strutil::{dec_of, joined, join_path, push_arg, str_eq, u64_to_dec};
use crate::switch::{switch_exec_args, SwitchV};
use crate::topology::{
    cable_named, name_used_spec, names_unique, namespace_named, switch_named, Topology, TopologyV,
};

verus! {

/// Runner configuration: the terminal command used for interactive
/// starts and attaches, and the working directory all paths live under.
#[derive(Debug, Clone)]
pub struct Options {
    pub terminal: String,
    pub terminal_args: Vec<String>,
    pub working_dir: String,
}

/// Why an operation was refused before anything ran.
#[derive(Debug, Clone, Copy, PartialEq, Eq, Structural)]
pub enum PlanError {
    /// A plain cable has no management channel to attach to.
    NotAttachable,
    /// A selected device name is not declared in the topology.
    UnknownDevice,
    /// Inline mode needs exactly one selected device.
    InlineRequiresSingleDevice,
    /// No device of the requested name exists.
    DeviceNotFound,
    /// The device exists but its liveness probe was negative.
    DeviceNotAlive,
    /// A plain cable cannot be started inline.
    InlineWithoutWirefilter,
    /// A topology is already persisted and `force` was not given.
    TopologyAlreadyExists,
}

/// How a start step's process is launched.
#[derive(Debug, Clone, Copy, PartialEq, Eq, Structural)]
pub enum SpawnMode {
    /// Spawn directly; the program daemonizes itself.
    Daemon,
    /// Spawn inside a fresh terminal so it stays attachable.
    Terminal,
    /// Replace the current process image; the point of no return.
    Inline,
}

/// Ghost image of a [`StartStep`].
pub ghost enum StartStepV {
    Start {
        name: Seq<char>,
        dir: Seq<char>,
        conf_path: Seq<char>,
        conf_lines: Seq<Seq<char>>,
        cmd: Seq<char>,
        args: Seq<Seq<char>>,
        mode: SpawnMode,
    },
    AlreadyRunning { name: Seq<char> },
    WriteStarter { path: Seq<char>, contents: Seq<char> },
}

/// One step of a start plan, in execution order: create the device
/// directory fresh, write the configuration lines to the config path if
/// any, then launch the command — or warn that the device already runs,
/// or write the shared starter script.
#[derive(Debug, Clone)]
pub enum StartStep {
    Start {
        name: String,
        dir: String,
        conf_path: String,
        conf_lines: Vec<String>,
        cmd: String,
        args: Vec<String>,
        mode: SpawnMode,
    },
    AlreadyRunning { name: String },
    WriteStarter { path: String, contents: String },
}

impl View for StartStep {
    type V = StartStepV;

    open spec fn view(&self) -> StartStepV {
        match self {
            StartStep::Start { name, dir, conf_path, conf_lines, cmd, args, mode } => StartStepV::Start {
                name: name@,
                dir: dir@,
                conf_path: conf_path@,
                conf_lines: conf_lines.deep_view(),
                cmd: cmd@,
                args: args.deep_view(),
                mode: *mode,
            },
            StartStep::AlreadyRunning { name } => StartStepV::AlreadyRunning { name: name@ },
            StartStep::WriteStarter { path, contents } => StartStepV::WriteStarter {
                path: path@,
                contents: contents@,
            },
        }
    }
}

impl DeepView for StartStep {
    type V = StartStepV;

    open spec fn deep_view(&self) -> StartStepV {
        self.view()
    }
}

/// Whether a device name is selected: an empty selection selects every
/// device.
pub open spec fn selected(sel: Seq<Seq<char>>, name: Seq<char>) -> bool {
    sel.len() == 0 || exists|k: int| 0 <= k < sel.len() && sel[k] == name
}

/// The start steps for the first `i` switches.
pub open spec fn switch_steps_upto(
    t: TopologyV,
    sel: Seq<Seq<char>>,
    sa: Seq<bool>,
    wd: Seq<char>,
    i: int,
) -> Seq<StartStepV>
    decreases i,
{
    if i <= 0 {
        Seq::<StartStepV>::empty()
    } else {
        switch_steps_upto(t, sel, sa, wd, i - 1) + switch_step(t, sel, sa, wd, i - 1)
    }
}

/// The start steps for the switch at position `i`: nothing when it is
/// not selected, a warning when it already runs, its start otherwise.
pub open spec fn switch_step(
    t: TopologyV,
    sel: Seq<Seq<char>>,
    sa: Seq<bool>,
    wd: Seq<char>,
    i: int,
) -> Seq<StartStepV> {
    let s = t.switches[i];
    if !selected(sel, s.name) {
        Seq::<StartStepV>::empty()
    } else if sa[i] {
        seq![StartStepV::AlreadyRunning { name: s.name }]
    } else {
        seq![
            StartStepV::Start {
                name: s.name,
                dir: joined(wd, s.name),
                conf_path: joined(joined(wd, s.name), "config"@),
                conf_lines: s.config,
                cmd: "vde_switch"@,
                args: switch_exec_args(s, wd),
                mode: SpawnMode::Daemon,
            },
        ]
    }
}

/// The start steps for the first `i` namespaces.
pub open spec fn ns_steps_upto(
    t: TopologyV,
    sel: Seq<Seq<char>>,
    na: Seq<bool>,
    wd: Seq<char>,
    starter: Seq<char>,
    inline: bool,
    i: int,
) -> Seq<StartStepV>
    decreases i,
{
    if i <= 0 {
        Seq::<StartStepV>::empty()
    } else {
        ns_steps_upto(t, sel, na, wd, starter, inline, i - 1) + ns_step(
            t,
            sel,
            na,
            wd,
            starter,
            inline,
            i - 1,
        )
    }
}

/// The start steps for the namespace at position `i`.
pub open spec fn ns_step(
    t: TopologyV,
    sel: Seq<Seq<char>>,
    na: Seq<bool>,
    wd: Seq<char>,
    starter: Seq<char>,
    inline: bool,
    i: int,
) -> Seq<StartStepV> {
    let n = t.namespaces[i];
    if !selected(sel, n.name) {
        Seq::<StartStepV>::empty()
    } else if na[i] {
        seq![StartStepV::AlreadyRunning { name: n.name }]
    } else {
        seq![
            StartStepV::Start {
                name: n.name,
                dir: joined(wd, n.name),
                conf_path: joined(joined(wd, n.name), "config"@),
                conf_lines: n.config,
                cmd: "vdens"@,
                args: ns_exec_args(n, wd, starter),
                mode: if inline {
                    SpawnMode::Inline
                } else {
                    SpawnMode::Terminal
                },
            },
        ]
    }
}

/// The start steps for the first `i` cables.
pub open spec fn cable_steps_upto(
    t: TopologyV,
    sel: Seq<Seq<char>>,
    ca: Seq<bool>,
    wd: Seq<char>,
    i: int,
) -> Seq<StartStepV>
    decreases i,
{
    if i <= 0 {
        Seq::<StartStepV>::empty()
    } else {
        cable_steps_upto(t, sel, ca, wd, i - 1) + cable_step(t, sel, ca, wd, i - 1)
    }
}

/// The start steps for the cable at position `i`.
pub open spec fn cable_step(
    t: TopologyV,
    sel: Seq<Seq<char>>,
    ca: Seq<bool>,
    wd: Seq<char>,
    i: int,
) -> Seq<StartStepV> {
    let c = t.cables[i];
    if !selected(sel, c.name) {
        Seq::<StartStepV>::empty()
    } else if ca[i] {
        seq![StartStepV::AlreadyRunning { name: c.name }]
    } else {
        seq![
            StartStepV::Start {
                name: c.name,
                dir: joined(wd, c.name),
                conf_path: joined(joined(wd, c.name), "config"@),
                conf_lines: c.config,
                cmd: if c.wirefilter {
                    "dpipe"@
                } else {
                    "vde_plug"@
                },
                args: cable_exec_args(c, wd),
                mode: SpawnMode::Daemon,
            },
        ]
    }
}

/// The whole start plan: selected switches, the shared starter script,
/// selected namespaces, then selected cables.
pub open spec fn start_plan_spec(
    t: TopologyV,
    sel: Seq<Seq<char>>,
    sa: Seq<bool>,
    na: Seq<bool>,
    ca: Seq<bool>,
    wd: Seq<char>,
    starter: Seq<char>,
    contents: Seq<char>,
    inline: bool,
) -> Seq<StartStepV> {
    switch_steps_upto(t, sel, sa, wd, t.switches.len() as int) + seq![
        StartStepV::WriteStarter { path: starter, contents: contents },
    ] + ns_steps_upto(t, sel, na, wd, starter, inline, t.namespaces.len() as int)
        + cable_steps_upto(t, sel, ca, wd, t.cables.len() as int)
}

/// Every selected name is declared in the topology.
pub open spec fn selection_known(t: TopologyV, sel: Seq<Seq<char>>) -> bool {
    forall|k: int| 0 <= k < sel.len() ==> name_used_spec(t, sel[k])
}

/// Some selected, stopped, plain cable would have to start inline.
pub open spec fn inline_cable_conflict(
    t: TopologyV,
    sel: Seq<Seq<char>>,
    ca: Seq<bool>,
) -> bool {
    exists|i: int|
        0 <= i < t.cables.len() && selected(sel, t.cables[i].name) && !ca[i]
            && !t.cables[i].wirefilter
}

/// The selection a device list denotes: none selects everything.
pub open spec fn selection_of(devices: Option<Vec<String>>) -> Seq<Seq<char>> {
    match devices {
        Some(d) => d.deep_view(),
        None => Seq::<Seq<char>>::empty(),
    }
}

/// Whether a name is selected, executably.
fn is_selected(sel: &Vec<String>, name: &str) -> (r: bool)
    ensures
        r == selected(sel.deep_view(), name@),
{
    if sel.len() == 0 {
        return true;
    }
    let n = sel.len();
    let mut k: usize = 0;
    while k < n
        invariant
            n == sel@.len(),
            0 <= k <= n,
            forall|j: int| 0 <= j < k ==> sel.deep_view()[j] != name@,
        decreases n - k,
    {
        if str_eq(sel[k].as_str(), name) {
            proof {
                assert(sel.deep_view()[k as int] == name@);
            }
            return true;
        }
        k = k + 1;
    }
    false
}

/// Compute the plan that starts the selected devices, or all of them
/// when the selection is empty.  Nothing here runs a process: the steps
/// come back in the order a runner must perform them.  Inline mode needs
/// exactly one selected device; every selected name must be declared; a
/// plain cable cannot be started inline.  A device whose liveness flag is
/// set is never started again: its step is the warning alone.
pub fn start_plan(
    t: &Topology,
    working_dir: &str,
    devices: Option<Vec<String>>,
    inline: bool,
    sw_alive: &Vec<bool>,
    ns_alive: &Vec<bool>,
    cb_alive: &Vec<bool>,
) -> (r: Result<Vec<StartStep>, PlanError>)
    requires
        sw_alive@.len() == t@.switches.len(),
        ns_alive@.len() == t@.namespaces.len(),
        cb_alive@.len() == t@.cables.len(),
    ensures
        match r {
            Err(e) => match e {
                PlanError::InlineRequiresSingleDevice => inline && selection_of(devices).len()
                    != 1,
                PlanError::UnknownDevice => !(inline && selection_of(devices).len() != 1)
                    && !selection_known(t@, selection_of(devices)),
                PlanError::InlineWithoutWirefilter => !(inline && selection_of(devices).len()
                    != 1) && selection_known(t@, selection_of(devices)) && inline
                    && inline_cable_conflict(t@, selection_of(devices), cb_alive@),
                _ => false,
            },
            Ok(p) => !(inline && selection_of(devices).len() != 1) && selection_known(
                t@,
                selection_of(devices),
            ) && !(inline && inline_cable_conflict(t@, selection_of(devices), cb_alive@))
                && p.deep_view() == start_plan_spec(
                t@,
                selection_of(devices),
                sw_alive@,
                ns_alive@,
                cb_alive@,
                working_dir@,
                joined(working_dir@, "ns_starter.sh"@),
                crate::namespace::starter_script(),
                inline,
            ),
        },
{
    let empty_sel: Vec<String> = Vec::new();
    let sel: &Vec<String> = match &devices {
        Some(d) => d,
        None => &empty_sel,
    };
    proof {
        assert(sel.deep_view() =~= selection_of(devices));
    }
    let ghost selv = sel.deep_view();

    if inline && sel.len() != 1 {
        return Err(PlanError::InlineRequiresSingleDevice);
    }

    // Every selected name must be declared.
    let ns = sel.len();
    let mut k: usize = 0;
    while k < ns
        invariant
            ns == sel@.len(),
            0 <= k <= ns,
            selv == sel.deep_view(),
            selv == selection_of(devices),
            !(inline && selv.len() != 1),
            forall|j: int| 0 <= j < k ==> name_used_spec(t@, selv[j]),
        decreases ns - k,
    {
        if !t.is_name_used(sel[k].as_str()) {
            proof {
                let ghost w = k as int;
                assert(selv == selection_of(devices));
                assert(0 <= w < selv.len() && !name_used_spec(t@, selv[w]));
                assert(!selection_known(t@, selv));
                assert(!(inline && selection_of(devices).len() != 1));
            }
            return Err(PlanError::UnknownDevice);
        }
        k = k + 1;
    }

    // A plain cable cannot be started inline; refuse before anything
    // runs.
    if inline {
        let m = t.cables.len();
        let mut i: usize = 0;
        while i < m
            invariant
                m == t.cables.len(),
                0 <= i <= m,
                selv == sel.deep_view(),
                selv == selection_of(devices),
                inline,
                !(inline && selv.len() != 1),
                selection_known(t@, selv),
                cb_alive@.len() == t@.cables.len(),
                forall|j: int|
                    0 <= j < i ==> !(selected(selv, t@.cables[j].name) && !cb_alive@[j]
                        && !t@.cables[j].wirefilter),
            decreases m - i,
        {
            let c = &t.cables[i];
            if is_selected(sel, c.name.as_str()) && !cb_alive[i] && !c.wirefilter {
                proof {
                    let ghost w = i as int;
                    assert(0 <= w < t@.cables.len() && selected(selv, t@.cables[w].name)
                        && !cb_alive@[w] && !t@.cables[w].wirefilter);
                    assert(inline_cable_conflict(t@, selv, cb_alive@));
                    assert(selv == selection_of(devices));
                    assert(selection_known(t@, selv));
                    assert(!(inline && selection_of(devices).len() != 1));
                }
                return Err(PlanError::InlineWithoutWirefilter);
            }
            i = i + 1;
        }
    }

    let ghost wd = working_dir@;
    let mut plan: Vec<StartStep> = Vec::new();
    proof {
        assert(plan.deep_view() =~= switch_steps_upto(t@, selv, sw_alive@, wd, 0));
    }

    // Switches first.
    let m = t.switches.len();
    let mut i: usize = 0;
    while i < m
        invariant
            m == t.switches.len(),
            0 <= i <= m,
            selv == sel.deep_view(),
            wd == working_dir@,
            sw_alive@.len() == t@.switches.len(),
            plan.deep_view() == switch_steps_upto(t@, selv, sw_alive@, wd, i as int),
        decreases m - i,
    {
        let s = &t.switches[i];
        if is_selected(sel, s.name.as_str()) {
            if sw_alive[i] {
                push_arg_step(&mut plan, StartStep::AlreadyRunning { name: s.name.clone() });
            } else {
                let step = StartStep::Start {
                    name: s.name.clone(),
                    dir: s.base_path(working_dir),
                    conf_path: s.config_path(working_dir),
                    conf_lines: crate::strutil::clone_strings(&s.config),
                    cmd: s.exec_command(),
                    args: s.exec_args(working_dir),
                    mode: SpawnMode::Daemon,
                };
                push_arg_step(&mut plan, step);
            }
        }
        proof {
            assert(plan.deep_view() =~= switch_steps_upto(t@, selv, sw_alive@, wd, i + 1));
        }
        i = i + 1;
    }
    let ghost sw_part = plan.deep_view();

    // The shared starter script, written once per batch.
    let starter_path = join_path(working_dir, "ns_starter.sh");
    push_arg_step(
        &mut plan,
        StartStep::WriteStarter {
            path: starter_path.clone(),
            contents: String::from_str(Namespace::get_starter_script()),
        },
    );
    proof {
        assert(plan.deep_view() =~= sw_part + seq![
            StartStepV::WriteStarter {
                path: joined(wd, "ns_starter.sh"@),
                contents: crate::namespace::starter_script(),
            },
        ]);
    }
    let ghost head_part = plan.deep_view();

    // Namespaces next.
    let m = t.namespaces.len();
    let mut i: usize = 0;
    while i < m
        invariant
            m == t.namespaces.len(),
            0 <= i <= m,
            selv == sel.deep_view(),
            wd == working_dir@,
            ns_alive@.len() == t@.namespaces.len(),
            starter_path@ == joined(wd, "ns_starter.sh"@),
            head_part == plan_head(t@, selv, sw_alive@, wd),
            plan.deep_view() == head_part + ns_steps_upto(t@, selv, ns_alive@, wd,
                joined(wd, "ns_starter.sh"@), inline, i as int),
        decreases m - i,
    {
        let n = &t.namespaces[i];
        if is_selected(sel, n.name.as_str()) {
            if ns_alive[i] {
                push_arg_step(&mut plan, StartStep::AlreadyRunning { name: n.name.clone() });
            } else {
                let step = StartStep::Start {
                    name: n.name.clone(),
                    dir: n.base_path(working_dir),
                    conf_path: n.config_path(working_dir),
                    conf_lines: crate::strutil::clone_strings(&n.config),
                    cmd: n.exec_command(),
                    args: n.exec_args(working_dir, starter_path.as_str()),
                    mode: if inline {
                        SpawnMode::Inline
                    } else {
                        SpawnMode::Terminal
                    },
                };
                push_arg_step(&mut plan, step);
            }
        }
        proof {
            assert(plan.deep_view() =~= head_part + ns_steps_upto(t@, selv, ns_alive@, wd,
                joined(wd, "ns_starter.sh"@), inline, i + 1));
        }
        i = i + 1;
    }
    let ghost mid_part = plan.deep_view();

    // Cables last.
    let m = t.cables.len();
    let mut i: usize = 0;
    while i < m
        invariant
            m == t.cables.len(),
            0 <= i <= m,
            selv == sel.deep_view(),
            wd == working_dir@,
            cb_alive@.len() == t@.cables.len(),
            mid_part == plan_head(t@, selv, sw_alive@, wd) + ns_steps_upto(t@, selv, ns_alive@,
                wd, joined(wd, "ns_starter.sh"@), inline, t@.namespaces.len() as int),
            plan.deep_view() == mid_part + cable_steps_upto(t@, selv, cb_alive@, wd, i as int),
        decreases m - i,
    {
        let c = &t.cables[i];
        if is_selected(sel, c.name.as_str()) {
            if cb_alive[i] {
                push_arg_step(&mut plan, StartStep::AlreadyRunning { name: c.name.clone() });
            } else {
                let step = StartStep::Start {
                    name: c.name.clone(),
                    dir: c.base_path(working_dir),
                    conf_path: c.config_path(working_dir),
                    conf_lines: crate::strutil::clone_strings(&c.config),
                    cmd: c.exec_command(),
                    args: c.exec_args(working_dir),
                    mode: SpawnMode::Daemon,
                };
                push_arg_step(&mut plan, step);
            }
        }
        proof {
            assert(plan.deep_view() =~= mid_part + cable_steps_upto(t@, selv, cb_alive@, wd, i
                + 1));
        }
        i = i + 1;
    }
    proof {
        assert(plan.deep_view() =~= start_plan_spec(
            t@,
            selv,
            sw_alive@,
            ns_alive@,
            cb_alive@,
            wd,
            joined(wd, "ns_starter.sh"@),
            crate::namespace::starter_script(),
            inline,
        ));
    }
    Ok(plan)
}

/// The plan's head: the switch steps and the starter-script write.
pub open spec fn plan_head(
    t: TopologyV,
    sel: Seq<Seq<char>>,
    sa: Seq<bool>,
    wd: Seq<char>,
) -> Seq<StartStepV> {
    switch_steps_upto(t, sel, sa, wd, t.switches.len() as int) + seq![
        StartStepV::WriteStarter {
            path: joined(wd, "ns_starter.sh"@),
            contents: crate::namespace::starter_script(),
        },
    ]
}

/// Some step of the plan starts a process for the device named `n`.
pub open spec fn plan_starts_name(p: Seq<StartStepV>, n: Seq<char>) -> bool {
    exists|i: int|
        0 <= i < p.len() && (#[trigger] p[i] matches StartStepV::Start { name, .. } && name
            == n)
}

/// Some step of the plan warns that the device named `n` already runs.
pub open spec fn plan_warns_name(p: Seq<StartStepV>, n: Seq<char>) -> bool {
    exists|i: int| 0 <= i < p.len() && #[trigger] p[i] == (StartStepV::AlreadyRunning { name: n })
}

proof fn lemma_sw_part_no_start(
    t: TopologyV,
    sel: Seq<Seq<char>>,
    sa: Seq<bool>,
    wd: Seq<char>,
    k: int,
    n: Seq<char>,
)
    requires
        forall|j: int| 0 <= j < k && t.switches[j].name == n ==> sa[j],
    ensures
        !plan_starts_name(switch_steps_upto(t, sel, sa, wd, k), n),
    decreases k,
{
    if k > 0 {
        lemma_sw_part_no_start(t, sel, sa, wd, k - 1, n);
        let p = switch_steps_upto(t, sel, sa, wd, k);
        let pre = switch_steps_upto(t, sel, sa, wd, k - 1);
        let step = switch_step(t, sel, sa, wd, k - 1);
        assert forall|i: int|
            0 <= i < p.len() implies !(#[trigger] p[i] matches StartStepV::Start { name, .. }
            && name == n) by {
            if i < pre.len() {
                assert(p[i] == pre[i]);
            } else {
                assert(p[i] == step[i - pre.len()]);
            }
        }
    }
}

proof fn lemma_ns_part_no_start(
    t: TopologyV,
    sel: Seq<Seq<char>>,
    na: Seq<bool>,
    wd: Seq<char>,
    starter: Seq<char>,
    inline: bool,
    k: int,
    n: Seq<char>,
)
    requires
        forall|j: int| 0 <= j < k && t.namespaces[j].name == n ==> na[j],
    ensures
        !plan_starts_name(ns_steps_upto(t, sel, na, wd, starter, inline, k), n),
    decreases k,
{
    if k > 0 {
        lemma_ns_part_no_start(t, sel, na, wd, starter, inline, k - 1, n);
        let p = ns_steps_upto(t, sel, na, wd, starter, inline, k);
        let pre = ns_steps_upto(t, sel, na, wd, starter, inline, k - 1);
        let step = ns_step(t, sel, na, wd, starter, inline, k - 1);
        assert forall|i: int|
            0 <= i < p.len() implies !(#[trigger] p[i] matches StartStepV::Start { name, .. }
            && name == n) by {
            if i < pre.len() {
                assert(p[i] == pre[i]);
            } else {
                assert(p[i] == step[i - pre.len()]);
            }
        }
    }
}

proof fn lemma_cb_part_no_start(
    t: TopologyV,
    sel: Seq<Seq<char>>,
    ca: Seq<bool>,
    wd: Seq<char>,
    k: int,
    n: Seq<char>,
)
    requires
        forall|j: int| 0 <= j < k && t.cables[j].name == n ==> ca[j],
    ensures
        !plan_starts_name(cable_steps_upto(t, sel, ca, wd, k), n),
    decreases k,
{
    if k > 0 {
        lemma_cb_part_no_start(t, sel, ca, wd, k - 1, n);
        let p = cable_steps_upto(t, sel, ca, wd, k);
        let pre = cable_steps_upto(t, sel, ca, wd, k - 1);
        let step = cable_step(t, sel, ca, wd, k - 1);
        assert forall|i: int|
            0 <= i < p.len() implies !(#[trigger] p[i] matches StartStepV::Start { name, .. }
            && name == n) by {
            if i < pre.len() {
                assert(p[i] == pre[i]);
            } else {
                assert(p[i] == step[i - pre.len()]);
            }
        }
    }
}

proof fn lemma_sw_part_warns(
    t: TopologyV,
    sel: Seq<Seq<char>>,
    sa: Seq<bool>,
    wd: Seq<char>,
    k: int,
    i: int,
)
    requires
        0 <= i < k,
        selected(sel, t.switches[i].name),
        sa[i],
    ensures
        plan_warns_name(switch_steps_upto(t, sel, sa, wd, k), t.switches[i].name),
    decreases k,
{
    let n = t.switches[i].name;
    let p = switch_steps_upto(t, sel, sa, wd, k);
    let pre = switch_steps_upto(t, sel, sa, wd, k - 1);
    let step = switch_step(t, sel, sa, wd, k - 1);
    if i == k - 1 {
        assert(step[0] == (StartStepV::AlreadyRunning { name: n }));
        assert(p[pre.len() as int] == step[0]);
    } else {
        lemma_sw_part_warns(t, sel, sa, wd, k - 1, i);
        let w = choose|x: int|
            0 <= x < pre.len() && pre[x] == (StartStepV::AlreadyRunning { name: n });
        assert(p[w] == pre[w]);
    }
}

proof fn lemma_ns_part_warns(
    t: TopologyV,
    sel: Seq<Seq<char>>,
    na: Seq<bool>,
    wd: Seq<char>,
    starter: Seq<char>,
    inline: bool,
    k: int,
    i: int,
)
    requires
        0 <= i < k,
        selected(sel, t.namespaces[i].name),
        na[i],
    ensures
        plan_warns_name(
            ns_steps_upto(t, sel, na, wd, starter, inline, k),
            t.namespaces[i].name,
        ),
    decreases k,
{
    let n = t.namespaces[i].name;
    let p = ns_steps_upto(t, sel, na, wd, starter, inline, k);
    let pre = ns_steps_upto(t, sel, na, wd, starter, inline, k - 1);
    let step = ns_step(t, sel, na, wd, starter, inline, k - 1);
    if i == k - 1 {
        assert(step[0] == (StartStepV::AlreadyRunning { name: n }));
        assert(p[pre.len() as int] == step[0]);
    } else {
        lemma_ns_part_warns(t, sel, na, wd, starter, inline, k - 1, i);
        let w = choose|x: int|
            0 <= x < pre.len() && pre[x] == (StartStepV::AlreadyRunning { name: n });
        assert(p[w] == pre[w]);
    }
}

proof fn lemma_cb_part_warns(
    t: TopologyV,
    sel: Seq<Seq<char>>,
    ca: Seq<bool>,
    wd: Seq<char>,
    k: int,
    i: int,
)
    requires
        0 <= i < k,
        selected(sel, t.cables[i].name),
        ca[i],
    ensures
        plan_warns_name(cable_steps_upto(t, sel, ca, wd, k), t.cables[i].name),
    decreases k,
{
    let n = t.cables[i].name;
    let p = cable_steps_upto(t, sel, ca, wd, k);
    let pre = cable_steps_upto(t, sel, ca, wd, k - 1);
    let step = cable_step(t, sel, ca, wd, k - 1);
    if i == k - 1 {
        assert(step[0] == (StartStepV::AlreadyRunning { name: n }));
        assert(p[pre.len() as int] == step[0]);
    } else {
        lemma_cb_part_warns(t, sel, ca, wd, k - 1, i);
        let w = choose|x: int|
            0 <= x < pre.len() && pre[x] == (StartStepV::AlreadyRunning { name: n });
        assert(p[w] == pre[w]);
    }
}

/// Starting is idempotent on a running device: when the switch at
/// position `i` is selected and its liveness flag is set, the start plan
/// carries its already-running warning and no start step at all for its
/// name — the device is never started twice.
pub proof fn lemma_start_idempotent_switch(
    t: TopologyV,
    sel: Seq<Seq<char>>,
    sa: Seq<bool>,
    na: Seq<bool>,
    ca: Seq<bool>,
    wd: Seq<char>,
    starter: Seq<char>,
    contents: Seq<char>,
    inline: bool,
    i: int,
)
    requires
        names_unique(t),
        0 <= i < t.switches.len(),
        selected(sel, t.switches[i].name),
        sa[i],
    ensures
        plan_warns_name(
            start_plan_spec(t, sel, sa, na, ca, wd, starter, contents, inline),
            t.switches[i].name,
        ),
        !plan_starts_name(
            start_plan_spec(t, sel, sa, na, ca, wd, starter, contents, inline),
            t.switches[i].name,
        ),
{
    let n = t.switches[i].name;
    let full = start_plan_spec(t, sel, sa, na, ca, wd, starter, contents, inline);
    let a = switch_steps_upto(t, sel, sa, wd, t.switches.len() as int);
    let w = seq![StartStepV::WriteStarter { path: starter, contents: contents }];
    let b = ns_steps_upto(t, sel, na, wd, starter, inline, t.namespaces.len() as int);
    let c = cable_steps_upto(t, sel, ca, wd, t.cables.len() as int);

    lemma_sw_part_warns(t, sel, sa, wd, t.switches.len() as int, i);
    let x = choose|x: int| 0 <= x < a.len() && a[x] == (StartStepV::AlreadyRunning { name: n });
    assert(full[x] == a[x]);

    assert(forall|j: int| 0 <= j < t.switches.len() && t.switches[j].name == n ==> sa[j]);
    lemma_sw_part_no_start(t, sel, sa, wd, t.switches.len() as int, n);
    assert(forall|j: int| 0 <= j < t.namespaces.len() ==> t.namespaces[j].name != n);
    lemma_ns_part_no_start(t, sel, na, wd, starter, inline, t.namespaces.len() as int, n);
    assert(forall|j: int| 0 <= j < t.cables.len() ==> t.cables[j].name != n);
    lemma_cb_part_no_start(t, sel, ca, wd, t.cables.len() as int, n);
    assert forall|k: int|
        0 <= k < full.len() implies !(#[trigger] full[k] matches StartStepV::Start { name, .. }
        && name == n) by {
        if k < a.len() {
            assert(full[k] == a[k]);
        } else if k < a.len() + 1 {
            assert(full[k] == w[0]);
        } else if k < a.len() + 1 + b.len() {
            assert(full[k] == b[k - a.len() - 1]);
        } else {
            assert(full[k] == c[k - a.len() - 1 - b.len()]);
        }
    }
}

/// The same idempotence for a running namespace.
pub proof fn lemma_start_idempotent_namespace(
    t: TopologyV,
    sel: Seq<Seq<char>>,
    sa: Seq<bool>,
    na: Seq<bool>,
    ca: Seq<bool>,
    wd: Seq<char>,
    starter: Seq<char>,
    contents: Seq<char>,
    inline: bool,
    i: int,
)
    requires
        names_unique(t),
        0 <= i < t.namespaces.len(),
        selected(sel, t.namespaces[i].name),
        na[i],
    ensures
        plan_warns_name(
            start_plan_spec(t, sel, sa, na, ca, wd, starter, contents, inline),
            t.namespaces[i].name,
        ),
        !plan_starts_name(
            start_plan_spec(t, sel, sa, na, ca, wd, starter, contents, inline),
            t.namespaces[i].name,
        ),
{
    let n = t.namespaces[i].name;
    let full = start_plan_spec(t, sel, sa, na, ca, wd, starter, contents, inline);
    let a = switch_steps_upto(t, sel, sa, wd, t.switches.len() as int);
    let w = seq![StartStepV::WriteStarter { path: starter, contents: contents }];
    let b = ns_steps_upto(t, sel, na, wd, starter, inline, t.namespaces.len() as int);
    let c = cable_steps_upto(t, sel, ca, wd, t.cables.len() as int);

    lemma_ns_part_warns(t, sel, na, wd, starter, inline, t.namespaces.len() as int, i);
    let x = choose|x: int| 0 <= x < b.len() && b[x] == (StartStepV::AlreadyRunning { name: n });
    assert(full[a.len() + 1 + x] == b[x]);

    assert(forall|j: int| 0 <= j < t.switches.len() ==> t.switches[j].name != n);
    lemma_sw_part_no_start(t, sel, sa, wd, t.switches.len() as int, n);
    assert(forall|j: int| 0 <= j < t.namespaces.len() && t.namespaces[j].name == n ==> na[j]);
    lemma_ns_part_no_start(t, sel, na, wd, starter, inline, t.namespaces.len() as int, n);
    assert(forall|j: int| 0 <= j < t.cables.len() ==> t.cables[j].name != n);
    lemma_cb_part_no_start(t, sel, ca, wd, t.cables.len() as int, n);
    assert forall|k: int|
        0 <= k < full.len() implies !(#[trigger] full[k] matches StartStepV::Start { name, .. }
        && name == n) by {
        if k < a.len() {
            assert(full[k] == a[k]);
        } else if k < a.len() + 1 {
            assert(full[k] == w[0]);
        } else if k < a.len() + 1 + b.len() {
            assert(full[k] == b[k - a.len() - 1]);
        } else {
            assert(full[k] == c[k - a.len() - 1 - b.len()]);
        }
    }
}

/// The same idempotence for a running cable.
pub proof fn lemma_start_idempotent_cable(
    t: TopologyV,
    sel: Seq<Seq<char>>,
    sa: Seq<bool>,
    na: Seq<bool>,
    ca: Seq<bool>,
    wd: Seq<char>,
    starter: Seq<char>,
    contents: Seq<char>,
    inline: bool,
    i: int,
)
    requires
        names_unique(t),
        0 <= i < t.cables.len(),
        selected(sel, t.cables[i].name),
        ca[i],
    ensures
        plan_warns_name(
            start_plan_spec(t, sel, sa, na, ca, wd, starter, contents, inline),
            t.cables[i].name,
        ),
        !plan_starts_name(
            start_plan_spec(t, sel, sa, na, ca, wd, starter, contents, inline),
            t.cables[i].name,
        ),
{
    let n = t.cables[i].name;
    let full = start_plan_spec(t, sel, sa, na, ca, wd, starter, contents, inline);
    let a = switch_steps_upto(t, sel, sa, wd, t.switches.len() as int);
    let w = seq![StartStepV::WriteStarter { path: starter, contents: contents }];
    let b = ns_steps_upto(t, sel, na, wd, starter, inline, t.namespaces.len() as int);
    let c = cable_steps_upto(t, sel, ca, wd, t.cables.len() as int);

    lemma_cb_part_warns(t, sel, ca, wd, t.cables.len() as int, i);
    let x = choose|x: int| 0 <= x < c.len() && c[x] == (StartStepV::AlreadyRunning { name: n });
    assert(full[a.len() + 1 + b.len() + x] == c[x]);

    assert(forall|j: int| 0 <= j < t.switches.len() ==> t.switches[j].name != n);
    lemma_sw_part_no_start(t, sel, sa, wd, t.switches.len() as int, n);
    assert(forall|j: int| 0 <= j < t.namespaces.len() ==> t.namespaces[j].name != n);
    lemma_ns_part_no_start(t, sel, na, wd, starter, inline, t.namespaces.len() as int, n);
    assert(forall|j: int| 0 <= j < t.cables.len() && t.cables[j].name == n ==> ca[j]);
    lemma_cb_part_no_start(t, sel, ca, wd, t.cables.len() as int, n);
    assert forall|k: int|
        0 <= k < full.len() implies !(#[trigger] full[k] matches StartStepV::Start { name, .. }
        && name == n) by {
        if k < a.len() {
            assert(full[k] == a[k]);
        } else if k < a.len() + 1 {
            assert(full[k] == w[0]);
        } else if k < a.len() + 1 + b.len() {
            assert(full[k] == b[k - a.len() - 1]);
        } else {
            assert(full[k] == c[k - a.len() - 1 - b.len()]);
        }
    }
}

/// Append one step to a plan, tracked at the level of ghost steps.
fn push_arg_step(v: &mut Vec<StartStep>, s: StartStep)
    ensures
        final(v).deep_view() == old(v).deep_view().push(s@),
{
    v.push(s);
    proof {
        assert(v.deep_view() =~= old(v).deep_view().push(s@));
    }
}

/// Ghost image of a [`StopTarget`].
pub ghost struct StopTargetV {
    pub name: Seq<char>,
    pub pid_path: Seq<char>,
}

/// One device a stop pass should probe and signal: its name and the pid
/// file its liveness and pid come from.
#[derive(Debug, Clone)]
pub struct StopTarget {
    pub name: String,
    pub pid_path: String,
}

impl View for StopTarget {
    type V = StopTargetV;

    open spec fn view(&self) -> StopTargetV {
        StopTargetV { name: self.name@, pid_path: self.pid_path@ }
    }
}

impl DeepView for StopTarget {
    type V = StopTargetV;

    open spec fn deep_view(&self) -> StopTargetV {
        self.view()
    }
}

/// Append one stop target, tracked at the level of ghost targets.
fn push_stop(v: &mut Vec<StopTarget>, s: StopTarget)
    ensures
        final(v).deep_view() == old(v).deep_view().push(s@),
{
    v.push(s);
    proof {
        assert(v.deep_view() =~= old(v).deep_view().push(s@));
    }
}

/// The stop targets among the first `i` switches.
pub open spec fn sw_stops_upto(t: TopologyV, sel: Seq<Seq<char>>, wd: Seq<char>, i: int) -> Seq<
    StopTargetV,
>
    decreases i,
{
    if i <= 0 {
        Seq::<StopTargetV>::empty()
    } else {
        sw_stops_upto(t, sel, wd, i - 1) + (if selected(sel, t.switches[i - 1].name) {
            seq![
                StopTargetV {
                    name: t.switches[i - 1].name,
                    pid_path: joined(joined(wd, t.switches[i - 1].name), "pid"@),
                },
            ]
        } else {
            Seq::<StopTargetV>::empty()
        })
    }
}

/// The stop targets among the first `i` namespaces.
pub open spec fn ns_stops_upto(t: TopologyV, sel: Seq<Seq<char>>, wd: Seq<char>, i: int) -> Seq<
    StopTargetV,
>
    decreases i,
{
    if i <= 0 {
        Seq::<StopTargetV>::empty()
    } else {
        ns_stops_upto(t, sel, wd, i - 1) + (if selected(sel, t.namespaces[i - 1].name) {
            seq![
                StopTargetV {
                    name: t.namespaces[i - 1].name,
                    pid_path: joined(joined(wd, t.namespaces[i - 1].name), "pid"@),
                },
            ]
        } else {
            Seq::<StopTargetV>::empty()
        })
    }
}

/// The stop targets among the first `i` cables.
pub open spec fn cb_stops_upto(t: TopologyV, sel: Seq<Seq<char>>, wd: Seq<char>, i: int) -> Seq<
    StopTargetV,
>
    decreases i,
{
    if i <= 0 {
        Seq::<StopTargetV>::empty()
    } else {
        cb_stops_upto(t, sel, wd, i - 1) + (if selected(sel, t.cables[i - 1].name) {
            seq![
                StopTargetV {
                    name: t.cables[i - 1].name,
                    pid_path: joined(joined(wd, t.cables[i - 1].name), "pid"@),
                },
            ]
        } else {
            Seq::<StopTargetV>::empty()
        })
    }
}

/// The devices a stop pass visits, in kind order — switches, namespaces,
/// cables — restricted to the selection.  The runner probes each pid
/// file and, where the process answers, signals it to terminate;
/// best-effort, with no escalation.
pub fn stop_targets(t: &Topology, working_dir: &str, devices: Option<Vec<String>>) -> (r: Vec<
    StopTarget,
>)
    ensures
        r.deep_view() == sw_stops_upto(t@, selection_of(devices), working_dir@,
            t@.switches.len() as int) + ns_stops_upto(t@, selection_of(devices), working_dir@,
            t@.namespaces.len() as int) + cb_stops_upto(t@, selection_of(devices), working_dir@,
            t@.cables.len() as int),
{
    let empty_sel: Vec<String> = Vec::new();
    let sel: &Vec<String> = match &devices {
        Some(d) => d,
        None => &empty_sel,
    };
    proof {
        assert(sel.deep_view() =~= selection_of(devices));
    }
    let ghost selv = sel.deep_view();
    let ghost wd = working_dir@;

    let mut out: Vec<StopTarget> = Vec::new();
    proof {
        assert(out.deep_view() =~= sw_stops_upto(t@, selv, wd, 0));
    }
    let m = t.switches.len();
    let mut i: usize = 0;
    while i < m
        invariant
            m == t.switches.len(),
            0 <= i <= m,
            selv == sel.deep_view(),
            selv == selection_of(devices),
            wd == working_dir@,
            out.deep_view() == sw_stops_upto(t@, selv, wd, i as int),
        decreases m - i,
    {
        let s = &t.switches[i];
        if is_selected(sel, s.name.as_str()) {
            let tgt = StopTarget { name: s.name.clone(), pid_path: s.pid_path(working_dir) };
            push_stop(&mut out, tgt);
        }
        proof {
            assert(out.deep_view() =~= sw_stops_upto(t@, selv, wd, i + 1));
        }
        i = i + 1;
    }
    let ghost part1 = out.deep_view();

    let m = t.namespaces.len();
    let mut i: usize = 0;
    while i < m
        invariant
            m == t.namespaces.len(),
            0 <= i <= m,
            selv == sel.deep_view(),
            selv == selection_of(devices),
            wd == working_dir@,
            part1 == sw_stops_upto(t@, selv, wd, t@.switches.len() as int),
            out.deep_view() == part1 + ns_stops_upto(t@, selv, wd, i as int),
        decreases m - i,
    {
        let n = &t.namespaces[i];
        if is_selected(sel, n.name.as_str()) {
            let tgt = StopTarget { name: n.name.clone(), pid_path: n.pid_path(working_dir) };
            push_stop(&mut out, tgt);
        }
        proof {
            assert(out.deep_view() =~= part1 + ns_stops_upto(t@, selv, wd, i + 1));
        }
        i = i + 1;
    }
    let ghost part2 = out.deep_view();

    let m = t.cables.len();
    let mut i: usize = 0;
    while i < m
        invariant
            m == t.cables.len(),
            0 <= i <= m,
            selv == sel.deep_view(),
            selv == selection_of(devices),
            wd == working_dir@,
            part2 == sw_stops_upto(t@, selv, wd, t@.switches.len() as int) + ns_stops_upto(
                t@,
                selv,
                wd,
                t@.namespaces.len() as int,
            ),
            out.deep_view() == part2 + cb_stops_upto(t@, selv, wd, i as int),
        decreases m - i,
    {
        let c = &t.cables[i];
        if is_selected(sel, c.name.as_str()) {
            let tgt = StopTarget { name: c.name.clone(), pid_path: c.pid_path(working_dir) };
            push_stop(&mut out, tgt);
        }
        proof {
            assert(out.deep_view() =~= part2 + cb_stops_upto(t@, selv, wd, i + 1));
        }
        i = i + 1;
    }
    out
}

/// The pid file that decides the named device's liveness, found across
/// all kinds; fails when no device has the name.
pub fn device_pid_path(t: &Topology, working_dir: &str, device: &str) -> (r: Result<
    String,
    PlanError,
>)
    ensures
        match r {
            Ok(p) => name_used_spec(t@, device@) && p@ == joined(
                joined(working_dir@, device@),
                "pid"@,
            ),
            Err(e) => e == PlanError::DeviceNotFound && !name_used_spec(t@, device@),
        },
{
    if t.is_name_used(device) {
        let b = join_path(working_dir, device);
        Ok(join_path(b.as_str(), "pid"))
    } else {
        Err(PlanError::DeviceNotFound)
    }
}

/// The command and arguments that attach an interactive shell to the
/// named device, given the device's probed liveness and pid: the
/// management terminal for a switch or a filtering cable, the namespace
/// entry for a namespace.  The device must exist and answer its probe; a
/// plain cable cannot be attached.
pub fn attach_plan(t: &Topology, working_dir: &str, device: &str, alive: bool, pid: u32) -> (r:
    Result<(String, Vec<String>), PlanError>)
    ensures
        ({
            let tv = t@;
            let n = device@;
            let wd = working_dir@;
            match r {
                Err(e) => {
                    if !name_used_spec(tv, n) {
                        e == PlanError::DeviceNotFound
                    } else if !(switch_named(tv, n) || namespace_named(tv, n) || cable_named(
                        tv,
                        n,
                    )) {
                        e == PlanError::DeviceNotFound
                    } else if !alive {
                        e == PlanError::DeviceNotAlive
                    } else {
                        e == PlanError::NotAttachable && !switch_named(tv, n)
                            && !namespace_named(tv, n) && (exists|i: int|
                            #![auto]
                            0 <= i < tv.cables.len() && tv.cables[i].name == n
                                && !tv.cables[i].wirefilter)
                    }
                },
                Ok(ca) => alive && {
                    if switch_named(tv, n) {
                        ca.0@ == "vdeterm"@ && ca.1.deep_view() == seq![
                            joined(joined(wd, n), "mgmt"@),
                        ]
                    } else if namespace_named(tv, n) {
                        ca.0@ == "nsenter"@ && ca.1.deep_view() == seq![
                            "-t"@,
                            dec_of(pid as nat),
                            "--preserve-credentials"@,
                            "-U"@,
                            "-u"@,
                            "-n"@,
                            "--keep-caps"@,
                        ]
                    } else {
                        cable_named(tv, n) && ca.0@ == "vdeterm"@ && ca.1.deep_view() == seq![
                            joined(joined(wd, n), "mgmt"@),
                        ] && (exists|i: int|
                            #![auto]
                            0 <= i < tv.cables.len() && tv.cables[i].name == n
                                && tv.cables[i].wirefilter)
                    }
                },
            }
        }),
{
    if let Some(i) = t.switch_index(device) {
        if !alive {
            return Err(PlanError::DeviceNotAlive);
        }
        let sw = &t.switches[i];
        return Ok((sw.attach_command(), sw.attach_args(working_dir, pid)));
    }
    if let Some(i) = t.namespace_index(device) {
        if !alive {
            return Err(PlanError::DeviceNotAlive);
        }
        let n = &t.namespaces[i];
        return Ok((n.attach_command(), n.attach_args(working_dir, pid)));
    }
    if let Some(i) = t.cable_index(device) {
        if !alive {
            return Err(PlanError::DeviceNotAlive);
        }
        let c = &t.cables[i];
        let cmd = match c.attach_command() {
            Ok(cmd) => cmd,
            Err(_) => {
                proof {
                    let ghost w = i as int;
                    assert(0 <= w < t@.cables.len() && t@.cables[w].name == device@
                        && !t@.cables[w].wirefilter);
                }
                return Err(PlanError::NotAttachable);
            },
        };
        let args = match c.attach_args(working_dir) {
            Ok(a) => a,
            Err(_) => {
                return Err(PlanError::NotAttachable);
            },
        };
        proof {
            let ghost w = i as int;
            assert(0 <= w < t@.cables.len() && t@.cables[w].name == device@
                && t@.cables[w].wirefilter);
        }
        return Ok((cmd, args));
    }
    Err(PlanError::DeviceNotFound)
}

/// The command and arguments that run `command` inside the named device,
/// given its probed liveness and pid: the management-command runner for
/// a switch or filtering cable, the namespace entry for a namespace.
/// The given command vector is drained into the result.
pub fn exec_plan(
    t: &Topology,
    working_dir: &str,
    device: &str,
    alive: bool,
    pid: u32,
    command: &mut Vec<String>,
) -> (r: Result<(String, Vec<String>), PlanError>)
    ensures
        ({
            let tv = t@;
            let n = device@;
            let wd = working_dir@;
            match r {
                Err(e) => {
                    if !(switch_named(tv, n) || namespace_named(tv, n) || cable_named(tv, n)) {
                        e == PlanError::DeviceNotFound
                    } else if !alive {
                        e == PlanError::DeviceNotAlive
                    } else {
                        e == PlanError::NotAttachable && !switch_named(tv, n)
                            && !namespace_named(tv, n) && (exists|i: int|
                            #![auto]
                            0 <= i < tv.cables.len() && tv.cables[i].name == n
                                && !tv.cables[i].wirefilter)
                    }
                },
                Ok(ca) => alive && {
                    if switch_named(tv, n) {
                        ca.0@ == "vdecmd"@ && ca.1.deep_view() == seq![
                            "-s"@,
                            joined(joined(wd, n), "mgmt"@),
                        ] + old(command).deep_view() && final(command)@.len() == 0
                    } else if namespace_named(tv, n) {
                        ca.0@ == "nsenter"@ && ca.1.deep_view() == seq![
                            "-t"@,
                            dec_of(pid as nat),
                            "--preserve-credentials"@,
                            "-U"@,
                            "-u"@,
                            "-n"@,
                            "--keep-caps"@,
                        ] + old(command).deep_view() && final(command)@.len() == 0
                    } else {
                        cable_named(tv, n) && ca.0@ == "vdecmd"@ && ca.1.deep_view() == seq![
                            "-s"@,
                            joined(joined(wd, n), "mgmt"@),
                        ] + old(command).deep_view() && final(command)@.len() == 0
                    }
                },
            }
        }),
{
    if let Some(i) = t.switch_index(device) {
        if !alive {
            return Err(PlanError::DeviceNotAlive);
        }
        let sw = &t.switches[i];
        return Ok((sw.exec_command_command(), sw.exec_command_args(working_dir, command)));
    }
    if let Some(i) = t.namespace_index(device) {
        if !alive {
            return Err(PlanError::DeviceNotAlive);
        }
        let n = &t.namespaces[i];
        return Ok((n.exec_command_command(), n.exec_command_args(working_dir, pid, command)));
    }
    if let Some(i) = t.cable_index(device) {
        if !alive {
            return Err(PlanError::DeviceNotAlive);
        }
        let c = &t.cables[i];
        let cmd = match c.exec_command_command() {
            Ok(cmd) => cmd,
            Err(_) => {
                proof {
                    let ghost w = i as int;
                    assert(0 <= w < t@.cables.len() && t@.cables[w].name == device@
                        && !t@.cables[w].wirefilter);
                }
                return Err(PlanError::NotAttachable);
            },
        };
        let args = match c.exec_command_args(working_dir, command) {
            Ok(a) => a,
            Err(_) => {
                return Err(PlanError::NotAttachable);
            },
        };
        return Ok((cmd, args));
    }
    Err(PlanError::DeviceNotFound)
}

/// Decide a create or import against an existing topology: refuse when
/// one exists and `force` was not given; otherwise say whether the old
/// topology must be stopped and cleared first.
pub fn create_decision(already_exists: bool, force: bool) -> (r: Result<bool, PlanError>)
    ensures
        match r {
            Ok(clear_first) => (already_exists ==> force) && clear_first == already_exists,
            Err(e) => e == PlanError::TopologyAlreadyExists && already_exists && !force,
        },
{
    if already_exists {
        if !force {
            return Err(PlanError::TopologyAlreadyExists);
        }
        return Ok(true);
    }
    Ok(false)
}

/// Whether `c` counts as surrounding whitespace in a pid file.
pub open spec fn is_space(c: char) -> bool {
    c == ' ' || c == '\n' || c == '\t' || c == '\r'
}

/// The content of a pid file with surrounding whitespace removed.
pub open spec fn trimmed(s: Seq<char>) -> Seq<char>
    decreases s.len(),
{
    if s.len() == 0 {
        s
    } else if is_space(s[0]) {
        trimmed(s.subrange(1, s.len() as int))
    } else if is_space(s.last()) {
        trimmed(s.subrange(0, s.len() - 1))
    } else {
        s
    }
}

/// Read a pid file's text as a process id: the digits between optional
/// surrounding whitespace, small enough for a `u32`.
pub fn parse_pid(s: &str) -> (r: Option<u32>)
    ensures
        match r {
            Some(v) => crate::strutil::is_dec_seq(trimmed(s@)) && crate::strutil::dec_val(
                trimmed(s@),
            ) == v as nat,
            None => !(crate::strutil::is_dec_seq(trimmed(s@)) && crate::strutil::dec_val(
                trimmed(s@),
            ) <= u32::MAX),
        },
    decreases s@.len(),
{
    let n = s.unicode_len();
    if n == 0 {
        return None;
    }
    if is_space_exec(s.get_char(0)) {
        return parse_pid(s.substring_char(1, n));
    }
    if is_space_exec(s.get_char(n - 1)) {
        return parse_pid(s.substring_char(0, n - 1));
    }
    match crate::strutil::parse_u64(s) {
        Some(v) => {
            if v <= 0xFFFF_FFFF {
                Some(v as u32)
            } else {
                None
            }
        },
        None => None,
    }
}

fn is_space_exec(c: char) -> (r: bool)
    ensures
        r == is_space(c),
{
    c == ' ' || c == '\n' || c == '\t' || c == '\r'
}

// ---------------------------------------------------------------------
// The status report.
// ---------------------------------------------------------------------
/// Whether the status filter admits a device: no filter admits all, a
/// filter admits exactly its members.
pub open spec fn filter_admits(d: Option<Vec<String>>, name: Seq<char>) -> bool {
    match d {
        None => true,
        Some(v) => exists|k: int| 0 <= k < v.deep_view().len() && v.deep_view()[k] == name,
    }
}

/// `alive` or `dead`.
pub open spec fn alive_str(b: bool) -> Seq<char> {
    if b {
        "alive"@
    } else {
        "dead"@
    }
}

/// `true` or `false`.
pub open spec fn bool_str(b: bool) -> Seq<char> {
    if b {
        "true"@
    } else {
        "false"@
    }
}

/// The interface detail block of one interface.
pub open spec fn iface_line(f: NSInterfaceV) -> Seq<char> {
    "\tinterface: "@ + f.name + "\n\tip: "@ + (match f.ip {
        Some(v) => v,
        None => "None"@,
    })
}

/// The interface detail blocks of the first `k` interfaces.
pub open spec fn iface_lines_upto(ifs: Seq<NSInterfaceV>, k: int) -> Seq<Seq<char>>
    decreases k,
{
    if k <= 0 {
        Seq::<Seq<char>>::empty()
    } else {
        iface_lines_upto(ifs, k - 1).push(iface_line(ifs[k - 1]))
    }
}

/// The indented configuration lines of the first `k` raw lines.
pub open spec fn config_lines_upto(ls: Seq<Seq<char>>, k: int) -> Seq<Seq<char>>
    decreases k,
{
    if k <= 0 {
        Seq::<Seq<char>>::empty()
    } else {
        config_lines_upto(ls, k - 1).push("\t  "@ + ls[k - 1])
    }
}

/// The report lines of one namespace.
pub open spec fn ns_report(n: NamespaceV, alive: bool, verbose: u8) -> Seq<Seq<char>> {
    seq!["- "@ + n.name + " "@ + alive_str(alive)] + (if verbose > 0 {
        iface_lines_upto(n.interfaces, n.interfaces.len() as int)
    } else {
        Seq::<Seq<char>>::empty()
    })
}

/// The report lines of one switch.
pub open spec fn sw_report(s: SwitchV, alive: bool, verbose: u8) -> Seq<Seq<char>> {
    seq!["- "@ + s.name + " "@ + alive_str(alive)] + (if verbose > 0 {
        seq!["\tports: "@ + dec_of(s.ports as nat) + "\n\thub: "@ + bool_str(s.hub)]
    } else {
        Seq::<Seq<char>>::empty()
    }) + (if verbose > 1 {
        seq!["\tconfig:"@] + config_lines_upto(s.config, s.config.len() as int)
    } else {
        Seq::<Seq<char>>::empty()
    })
}

/// One cable end in the report: name, port selector if any, transport.
pub open spec fn ep_report(e: crate::cable::EndpointV) -> Seq<char> {
    e.name + " "@ + (match e.port {
        Some(p) => p,
        None => ""@,
    }) + " "@ + (if e.protocol is VDE {
        "VDE"@
    } else {
        "PTP"@
    })
}

/// The report lines of one cable.
pub open spec fn cb_report(c: CableV, alive: bool, verbose: u8) -> Seq<Seq<char>> {
    seq!["- "@ + c.name + " "@ + alive_str(alive)] + (if verbose > 0 {
        seq![
            "\tendpoint_a: "@ + ep_report(c.a) + "\n\tendpoint_b: "@ + ep_report(c.b)
                + "\n\twirefilter: "@ + bool_str(c.wirefilter),
        ]
    } else {
        Seq::<Seq<char>>::empty()
    }) + (if verbose > 1 {
        seq!["\tconfig:"@] + config_lines_upto(c.config, c.config.len() as int)
    } else {
        Seq::<Seq<char>>::empty()
    })
}

/// The namespace section of the report, over the first `i` namespaces.
pub open spec fn ns_section_upto(
    t: TopologyV,
    d: Option<Vec<String>>,
    na: Seq<bool>,
    verbose: u8,
    i: int,
) -> Seq<Seq<char>>
    decreases i,
{
    if i <= 0 {
        Seq::<Seq<char>>::empty()
    } else {
        ns_section_upto(t, d, na, verbose, i - 1) + (if filter_admits(d, t.namespaces[i - 1].name) {
            ns_report(t.namespaces[i - 1], na[i - 1], verbose)
        } else {
            Seq::<Seq<char>>::empty()
        })
    }
}

/// The switch section of the report, over the first `i` switches.
pub open spec fn sw_section_upto(
    t: TopologyV,
    d: Option<Vec<String>>,
    sa: Seq<bool>,
    verbose: u8,
    i: int,
) -> Seq<Seq<char>>
    decreases i,
{
    if i <= 0 {
        Seq::<Seq<char>>::empty()
    } else {
        sw_section_upto(t, d, sa, verbose, i - 1) + (if filter_admits(d, t.switches[i - 1].name) {
            sw_report(t.switches[i - 1], sa[i - 1], verbose)
        } else {
            Seq::<Seq<char>>::empty()
        })
    }
}

/// The cable section of the report, over the first `i` cables.
pub open spec fn cb_section_upto(
    t: TopologyV,
    d: Option<Vec<String>>,
    ca: Seq<bool>,
    verbose: u8,
    i: int,
) -> Seq<Seq<char>>
    decreases i,
{
    if i <= 0 {
        Seq::<Seq<char>>::empty()
    } else {
        cb_section_upto(t, d, ca, verbose, i - 1) + (if filter_admits(d, t.cables[i - 1].name) {
            cb_report(t.cables[i - 1], ca[i - 1], verbose)
        } else {
            Seq::<Seq<char>>::empty()
        })
    }
}

/// The whole report: a title, then the namespace, switch and cable
/// sections, each under its heading, filtered by the selection, with
/// liveness per device and details growing with the verbosity level.
pub open spec fn status_report_spec(
    t: TopologyV,
    d: Option<Vec<String>>,
    na: Seq<bool>,
    sa: Seq<bool>,
    ca: Seq<bool>,
    verbose: u8,
) -> Seq<Seq<char>> {
    seq!["Topology status"@, "Namespaces:"@] + ns_section_upto(t, d, na, verbose,
        t.namespaces.len() as int) + seq!["\nSwitches:"@] + sw_section_upto(t, d, sa, verbose,
        t.switches.len() as int) + seq!["\nCables:"@] + cb_section_upto(t, d, ca, verbose,
        t.cables.len() as int)
}

fn filter_check(d: &Option<Vec<String>>, name: &str) -> (r: bool)
    ensures
        r == filter_admits(*d, name@),
{
    match d {
        None => true,
        Some(v) => {
            let n = v.len();
            let mut k: usize = 0;
            while k < n
                invariant
                    n == v@.len(),
                    0 <= k <= n,
                    d is Some && d->0 == *v,
                    forall|j: int| 0 <= j < k ==> v.deep_view()[j] != name@,
                decreases n - k,
            {
                if str_eq(v[k].as_str(), name) {
                    proof {
                        assert(v.deep_view()[k as int] == name@);
                        assert(d is Some && d->0 == *v);
                        assert(exists|j: int|
                            0 <= j < v.deep_view().len() && v.deep_view()[j] == name@);
                    }
                    return true;
                }
                k = k + 1;
            }
            false
        },
    }
}

fn head_line(name: &str, alive: bool) -> (r: String)
    ensures
        r@ == "- "@ + name@ + " "@ + alive_str(alive),
{
    let mut l = String::from_str("- ");
    l.append(name);
    l.append(" ");
    if alive {
        l.append("alive");
    } else {
        l.append("dead");
    }
    proof {
        reveal_strlit("- ");
        reveal_strlit(" ");
        reveal_strlit("alive");
        reveal_strlit("dead");
        assert(l@ =~= "- "@ + name@ + " "@ + alive_str(alive));
    }
    l
}

/// Build the status report; see [`status_report_spec`].  The caller
/// probes each device's pid file and passes the liveness flags, in the
/// report's kind order.
#[verifier::rlimit(100)]
#[verifier::spinoff_prover]
pub fn status_report(
    t: &Topology,
    devices: &Option<Vec<String>>,
    verbose: u8,
    ns_alive: &Vec<bool>,
    sw_alive: &Vec<bool>,
    cb_alive: &Vec<bool>,
) -> (r: Vec<String>)
    requires
        ns_alive@.len() == t@.namespaces.len(),
        sw_alive@.len() == t@.switches.len(),
        cb_alive@.len() == t@.cables.len(),
    ensures
        r.deep_view() == status_report_spec(t@, *devices, ns_alive@, sw_alive@, cb_alive@,
            verbose),
{
    let mut out: Vec<String> = Vec::new();
    push_arg(&mut out, String::from_str("Topology status"));
    push_arg(&mut out, String::from_str("Namespaces:"));
    proof {
        assert(out.deep_view() =~= seq!["Topology status"@, "Namespaces:"@] + ns_section_upto(
            t@,
            *devices,
            ns_alive@,
            verbose,
            0,
        ));
    }
    let ghost h0 = seq!["Topology status"@, "Namespaces:"@];

    let m = t.namespaces.len();
    let mut i: usize = 0;
    while i < m
        invariant
            m == t.namespaces.len(),
            0 <= i <= m,
            ns_alive@.len() == t@.namespaces.len(),
            h0 == seq!["Topology status"@, "Namespaces:"@],
            out.deep_view() == h0 + ns_section_upto(t@, *devices, ns_alive@, verbose, i as int),
        decreases m - i,
    {
        let n = &t.namespaces[i];
        if filter_check(devices, n.name.as_str()) {
            push_arg(&mut out, head_line(n.name.as_str(), ns_alive[i]));
            if verbose > 0 {
                let ghost base = out.deep_view();
                let nf = n.interfaces.len();
                let mut k: usize = 0;
                proof {
                    assert(base + iface_lines_upto(n@.interfaces, 0) =~= base);
                }
                while k < nf
                    invariant
                        nf == n.interfaces.len(),
                        0 <= k <= nf,
                        out.deep_view() == base + iface_lines_upto(n@.interfaces, k as int),
                    decreases nf - k,
                {
                    let f = &n.interfaces[k];
                    let mut l = String::from_str("\tinterface: ");
                    l.append(f.name.as_str());
                    l.append("\n\tip: ");
                    match &f.ip {
                        Some(v) => l.append(v.as_str()),
                        None => l.append("None"),
                    }
                    proof {
                        reveal_strlit("\tinterface: ");
                        reveal_strlit("\n\tip: ");
                        reveal_strlit("None");
                        assert(l@ =~= iface_line(n@.interfaces[k as int]));
                    }
                    push_arg(&mut out, l);
                    proof {
                        assert(out.deep_view() =~= base + iface_lines_upto(n@.interfaces, k
                            + 1));
                    }
                    k = k + 1;
                }
                proof {
                    assert(out.deep_view() =~= h0 + ns_section_upto(t@, *devices, ns_alive@,
                        verbose, i as int) + ns_report(t@.namespaces[i as int],
                        ns_alive@[i as int], verbose));
                }
            } else {
                proof {
                    assert(out.deep_view() =~= h0 + ns_section_upto(t@, *devices, ns_alive@,
                        verbose, i as int) + ns_report(t@.namespaces[i as int],
                        ns_alive@[i as int], verbose));
                }
            }
        }
        proof {
            assert(out.deep_view() =~= h0 + ns_section_upto(t@, *devices, ns_alive@, verbose, i
                + 1));
        }
        i = i + 1;
    }
    push_arg(&mut out, String::from_str("\nSwitches:"));
    let ghost h1 = out.deep_view();
    proof {
        reveal_strlit("\nSwitches:");
        assert(h1 =~= h0 + ns_section_upto(t@, *devices, ns_alive@, verbose,
            t@.namespaces.len() as int) + seq!["\nSwitches:"@]);
    }

    let m = t.switches.len();
    let mut i: usize = 0;
    while i < m
        invariant
            m == t.switches.len(),
            0 <= i <= m,
            sw_alive@.len() == t@.switches.len(),
            h1 == seq!["Topology status"@, "Namespaces:"@] + ns_section_upto(t@, *devices,
                ns_alive@, verbose, t@.namespaces.len() as int) + seq!["\nSwitches:"@],
            out.deep_view() == h1 + sw_section_upto(t@, *devices, sw_alive@, verbose, i as int),
        decreases m - i,
    {
        let s = &t.switches[i];
        if filter_check(devices, s.name.as_str()) {
            push_arg(&mut out, head_line(s.name.as_str(), sw_alive[i]));
            if verbose > 0 {
                let mut l = String::from_str("\tports: ");
                l.append(u64_to_dec(s.ports as u64).as_str());
                l.append("\n\thub: ");
                if s.hub {
                    l.append("true");
                } else {
                    l.append("false");
                }
                proof {
                    reveal_strlit("\tports: ");
                    reveal_strlit("\n\thub: ");
                    reveal_strlit("true");
                    reveal_strlit("false");
                    assert(l@ =~= "\tports: "@ + dec_of(t@.switches[i as int].ports as nat)
                        + "\n\thub: "@ + bool_str(t@.switches[i as int].hub));
                }
                push_arg(&mut out, l);
            }
            if verbose > 1 {
                push_arg(&mut out, String::from_str("\tconfig:"));
                proof {
                    reveal_strlit("\tconfig:");
                }
                let ghost base = out.deep_view();
                let nc = s.config.len();
                let mut k: usize = 0;
                proof {
                    assert(base + config_lines_upto(s@.config, 0) =~= base);
                }
                while k < nc
                    invariant
                        nc == s.config.len(),
                        0 <= k <= nc,
                        out.deep_view() == base + config_lines_upto(s@.config, k as int),
                    decreases nc - k,
                {
                    let mut l = String::from_str("\t  ");
                    l.append(s.config[k].as_str());
                    proof {
                        reveal_strlit("\t  ");
                        assert(l@ =~= "\t  "@ + s@.config[k as int]);
                    }
                    push_arg(&mut out, l);
                    proof {
                        assert(out.deep_view() =~= base + config_lines_upto(s@.config, k + 1));
                    }
                    k = k + 1;
                }
            }
            proof {
                assert(out.deep_view() =~= h1 + sw_section_upto(t@, *devices, sw_alive@,
                    verbose, i as int) + sw_report(t@.switches[i as int], sw_alive@[i as int],
                    verbose));
            }
        }
        proof {
            assert(out.deep_view() =~= h1 + sw_section_upto(t@, *devices, sw_alive@, verbose, i
                + 1));
        }
        i = i + 1;
    }
    push_arg(&mut out, String::from_str("\nCables:"));
    let ghost h2 = out.deep_view();
    proof {
        reveal_strlit("\nCables:");
        assert(h2 =~= h1 + sw_section_upto(t@, *devices, sw_alive@, verbose,
            t@.switches.len() as int) + seq!["\nCables:"@]);
    }

    let m = t.cables.len();
    let mut i: usize = 0;
    while i < m
        invariant
            m == t.cables.len(),
            0 <= i <= m,
            cb_alive@.len() == t@.cables.len(),
            h2 == seq!["Topology status"@, "Namespaces:"@] + ns_section_upto(t@, *devices,
                ns_alive@, verbose, t@.namespaces.len() as int) + seq!["\nSwitches:"@]
                + sw_section_upto(t@, *devices, sw_alive@, verbose, t@.switches.len() as int)
                + seq!["\nCables:"@],
            out.deep_view() == h2 + cb_section_upto(t@, *devices, cb_alive@, verbose, i as int),
        decreases m - i,
    {
        let c = &t.cables[i];
        if filter_check(devices, c.name.as_str()) {
            push_arg(&mut out, head_line(c.name.as_str(), cb_alive[i]));
            if verbose > 0 {
                let mut l = String::from_str("\tendpoint_a: ");
                l.append(c.a.name.as_str());
                l.append(" ");
                match &c.a.port {
                    Some(p) => l.append(p.as_str()),
                    None => (),
                }
                l.append(" ");
                l.append(c.a.protocol.label().as_str());
                l.append("\n\tendpoint_b: ");
                l.append(c.b.name.as_str());
                l.append(" ");
                match &c.b.port {
                    Some(p) => l.append(p.as_str()),
                    None => (),
                }
                l.append(" ");
                l.append(c.b.protocol.label().as_str());
                l.append("\n\twirefilter: ");
                if c.wirefilter {
                    l.append("true");
                } else {
                    l.append("false");
                }
                proof {
                    reveal_strlit("\tendpoint_a: ");
                    reveal_strlit("\n\tendpoint_b: ");
                    reveal_strlit("\n\twirefilter: ");
                    reveal_strlit(" ");
                    reveal_strlit("");
                    reveal_strlit("true");
                    reveal_strlit("false");
                    assert(l@ =~= "\tendpoint_a: "@ + ep_report(t@.cables[i as int].a)
                        + "\n\tendpoint_b: "@ + ep_report(t@.cables[i as int].b)
                        + "\n\twirefilter: "@ + bool_str(t@.cables[i as int].wirefilter));
                }
                push_arg(&mut out, l);
            }
            if verbose > 1 {
                push_arg(&mut out, String::from_str("\tconfig:"));
                proof {
                    reveal_strlit("\tconfig:");
                }
                let ghost base = out.deep_view();
                let nc = c.config.len();
                let mut k: usize = 0;
                proof {
                    assert(base + config_lines_upto(c@.config, 0) =~= base);
                }
                while k < nc
                    invariant
                        nc == c.config.len(),
                        0 <= k <= nc,
                        out.deep_view() == base + config_lines_upto(c@.config, k as int),
                    decreases nc - k,
                {
                    let mut l = String::from_str("\t  ");
                    l.append(c.config[k].as_str());
                    proof {
                        reveal_strlit("\t  ");
                        assert(l@ =~= "\t  "@ + c@.config[k as int]);
                    }
                    push_arg(&mut out, l);
                    proof {
                        assert(out.deep_view() =~= base + config_lines_upto(c@.config, k + 1));
                    }
                    k = k + 1;
                }
            }
            proof {
                assert(out.deep_view() =~= h2 + cb_section_upto(t@, *devices, cb_alive@,
                    verbose, i as int) + cb_report(t@.cables[i as int], cb_alive@[i as int],
                    verbose));
            }
        }
        proof {
            assert(out.deep_view() =~= h2 + cb_section_upto(t@, *devices, cb_alive@, verbose, i
                + 1));
        }
        i = i + 1;
    }
    proof {
        assert(out.deep_view() =~= status_report_spec(t@, *devices, ns_alive@, sw_alive@,
            cb_alive@, verbose));
    }
    out
}

} // verus!