//! A virtual switch: a multiplexing network device reachable through a
//! filesystem socket, with a fixed port capacity and an optional hub
//! (broadcast) mode.

use vstd::prelude::*;
use crate::strutil::{dec_of, joined, join_path, u64_to_dec};

verus! {

/// Port capacity used when none is configured.
pub const DEFAULT_PORTS: u32 = 32;

/// Ghost image of a [`Switch`]: the same fields over sequences.
pub ghost struct SwitchV {
    pub name: Seq<char>,
    pub config: Seq<Seq<char>>,
    pub ports: u32,
    pub hub: bool,
}

/// A declared switch device.
#[derive(Debug, Clone)]
pub struct Switch {
    /// The name; unique across the whole topology.
    pub name: String,
    /// Configuration lines written to the switch's config file.
    pub config: Vec<String>,
    /// Port capacity.
    pub ports: u32,
    /// Whether the switch broadcasts every frame instead of learning.
    pub hub: bool,
}

impl View for Switch {
    type V = SwitchV;

    open spec fn view(&self) -> SwitchV {
        SwitchV {
            name: self.name@,
            config: self.config.deep_view(),
            ports: self.ports,
            hub: self.hub,
        }
    }
}

impl DeepView for Switch {
    type V = SwitchV;

    open spec fn deep_view(&self) -> SwitchV {
        self.view()
    }
}

/// The argument vector that starts a switch process: pid file, management
/// and data sockets, config file, port count, daemon mode, and the hub flag
/// when set.
pub open spec fn switch_exec_args(s: SwitchV, base: Seq<char>) -> Seq<Seq<char>> {
    let bp = joined(base, s.name);
    let v = seq![
        "--pidfile"@,
        joined(bp, "pid"@),
        "--mgmt"@,
        joined(bp, "mgmt"@),
        "--sock"@,
        joined(bp, "sock"@),
        "--rcfile"@,
        joined(bp, "config"@),
        "--numports"@,
        dec_of(s.ports as nat),
        "--daemon"@,
    ];
    if s.hub {
        v.push("--hub"@)
    } else {
        v
    }
}

impl Switch {
    /// A switch with the default port count, not a hub, and no
    /// configuration lines.
    pub fn new(name: String) -> (r: Switch)
        ensures
            r@ == (SwitchV {
                name: name@,
                config: Seq::<Seq<char>>::empty(),
                ports: DEFAULT_PORTS,
                hub: false,
            }),
    {
        let r = Switch { name, config: Vec::new(), ports: DEFAULT_PORTS, hub: false };
        proof {
            assert(r@.config =~= Seq::<Seq<char>>::empty());
        }
        r
    }

    pub fn get_name(&self) -> (r: &str)
        ensures
            r@ == self@.name,
    {
        self.name.as_str()
    }

    pub fn get_ports(&self) -> (r: u32)
        ensures
            r == self@.ports,
    {
        self.ports
    }

    pub fn is_hub(&self) -> (r: bool)
        ensures
            r == self@.hub,
    {
        self.hub
    }

    /// Append one configuration line.
    pub fn add_config(&mut self, config: String)
        ensures
            final(self)@ == (SwitchV { config: old(self)@.config.push(config@), ..old(self)@ }),
    {
        self.config.push(config);
        proof {
            assert(self@.config =~= old(self)@.config.push(config@));
        }
    }

    /// Set the port capacity; zero selects the default.
    pub fn set_ports(&mut self, ports: u32)
        ensures
            final(self)@ == (SwitchV {
                ports: if ports == 0 {
                    DEFAULT_PORTS
                } else {
                    ports
                },
                ..old(self)@
            }),
    {
        if ports == 0 {
            self.ports = DEFAULT_PORTS;
            return ;
        }
        self.ports = ports;
    }

    pub fn set_hub(&mut self, hub: bool)
        ensures
            final(self)@ == (SwitchV { hub: hub, ..old(self)@ }),
    {
        self.hub = hub;
    }

    pub fn get_config(&self) -> (r: &Vec<String>)
        ensures
            r.deep_view() == self@.config,
    {
        &self.config
    }

    /// Whether any configuration lines must be written out before start.
    pub fn needs_config(&self) -> (r: bool)
        ensures
            r == (self@.config.len() != 0),
    {
        !self.config.is_empty()
    }

    /// The directory that holds every file of this switch, under `base`.
    pub fn base_path(&self, base: &str) -> (r: String)
        ensures
            r@ == joined(base@, self@.name),
    {
        join_path(base, self.name.as_str())
    }

    /// The pid file of the switch process, under `base`.
    pub fn pid_path(&self, base: &str) -> (r: String)
        ensures
            r@ == joined(joined(base@, self@.name), "pid"@),
    {
        let b = self.base_path(base);
        join_path(b.as_str(), "pid")
    }

    /// The management socket of the switch, under `base`.
    pub fn mgmt_path(&self, base: &str) -> (r: String)
        ensures
            r@ == joined(joined(base@, self@.name), "mgmt"@),
    {
        let b = self.base_path(base);
        join_path(b.as_str(), "mgmt")
    }

    /// The data socket of the switch, under `base`.
    pub fn sock_path(&self, base: &str) -> (r: String)
        ensures
            r@ == joined(joined(base@, self@.name), "sock"@),
    {
        let b = self.base_path(base);
        join_path(b.as_str(), "sock")
    }

    /// The config file written for the switch, under `base`.
    pub fn config_path(&self, base: &str) -> (r: String)
        ensures
            r@ == joined(joined(base@, self@.name), "config"@),
    {
        let b = self.base_path(base);
        join_path(b.as_str(), "config")
    }

    /// The program that runs a switch.
    pub fn exec_command(&self) -> (r: String)
        ensures
            r@ == "vde_switch"@,
    {
        String::from_str("vde_switch")
    }

    /// The argument vector that starts this switch under `base`.
    pub fn exec_args(&self, base: &str) -> (r: Vec<String>)
        ensures
            r.deep_view() == switch_exec_args(self@, base@),
    {
        let pid_p = self.pid_path(base);
        let mgmt_p = self.mgmt_path(base);
        let sock_p = self.sock_path(base);
        let conf_p = self.config_path(base);

        let mut v: Vec<String> = Vec::new();
        v.push(String::from_str("--pidfile"));
        v.push(pid_p);
        v.push(String::from_str("--mgmt"));
        v.push(mgmt_p);
        v.push(String::from_str("--sock"));
        v.push(sock_p);
        v.push(String::from_str("--rcfile"));
        v.push(conf_p);
        v.push(String::from_str("--numports"));
        v.push(u64_to_dec(self.ports as u64));
        v.push(String::from_str("--daemon"));

        if self.hub {
            v.push(String::from_str("--hub"));
        }
        proof {
            assert(v.deep_view() =~= switch_exec_args(self@, base@));
        }
        v
    }

    /// The program that attaches an interactive management shell.
    pub fn attach_command(&self) -> (r: String)
        ensures
            r@ == "vdeterm"@,
    {
        String::from_str("vdeterm")
    }

    /// The arguments for the attach command: the management socket alone.
    pub fn attach_args(&self, base: &str, _pid: u32) -> (r: Vec<String>)
        ensures
            r.deep_view() == seq![joined(joined(base@, self@.name), "mgmt"@)],
    {
        let sock_p = self.mgmt_path(base);
        let mut v: Vec<String> = Vec::new();
        v.push(sock_p);
        proof {
            assert(v.deep_view() =~= seq![joined(joined(base@, self@.name), "mgmt"@)]);
        }
        v
    }

    /// The program that runs a single management command against a running
    /// switch; distinct from [`Self::exec_command`], which starts it.
    pub fn exec_command_command(&self) -> (r: String)
        ensures
            r@ == "vdecmd"@,
    {
        String::from_str("vdecmd")
    }

    /// The arguments that run `command` against the management socket.  The
    /// given command vector is drained into the result.
    pub fn exec_command_args(&self, base: &str, command: &mut Vec<String>) -> (r: Vec<String>)
        ensures
            r.deep_view() == seq!["-s"@, joined(joined(base@, self@.name), "mgmt"@)] + old(
                command,
            ).deep_view(),
            final(command)@.len() == 0,
    {
        let mut args: Vec<String> = Vec::new();
        args.push(String::from_str("-s"));
        args.push(self.mgmt_path(base));
        args.append(command);
        proof {
            assert(args.deep_view() =~= seq!["-s"@, joined(joined(base@, self@.name), "mgmt"@)]
                + old(command).deep_view());
        }
        args
    }
}

} // verus!
