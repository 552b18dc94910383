//! An isolated network execution context with its own named interfaces,
//! started through an external namespace-entry program and configured from
//! inside by a short sequence of shell commands.

use vstd::prelude::*;
use vstd::string::StringExecFns;
use crate::errors::DeviceError;
use crate::strutil::{dec_of, joined, join_path, push_arg, str_eq, u64_to_dec};

verus! {

/// Ghost image of an [`NSInterface`].
pub ghost struct NSInterfaceV {
    pub name: Seq<char>,
    pub ip: Option<Seq<char>>,
    pub gateway: Option<Seq<char>>,
}

/// A namespace-scoped network attachment point with an optional address in
/// CIDR form and an optional default-route gateway.
#[derive(Debug, Clone)]
pub struct NSInterface {
    pub name: String,
    pub ip: Option<String>,
    pub gateway: Option<String>,
}

impl View for NSInterface {
    type V = NSInterfaceV;

    open spec fn view(&self) -> NSInterfaceV {
        NSInterfaceV { name: self.name@, ip: self.ip.deep_view(), gateway: self.gateway.deep_view() }
    }
}

/// Ghost image of a [`Namespace`].
pub ghost struct NamespaceV {
    pub name: Seq<char>,
    pub interfaces: Seq<NSInterfaceV>,
    pub config: Seq<Seq<char>>,
}

/// A declared namespace device.
#[derive(Debug, Clone)]
pub struct Namespace {
    pub name: String,
    pub interfaces: Vec<NSInterface>,
    pub config: Vec<String>,
}

impl View for Namespace {
    type V = NamespaceV;

    open spec fn view(&self) -> NamespaceV {
        NamespaceV {
            name: self.name@,
            interfaces: self.interfaces.deep_view(),
            config: self.config.deep_view(),
        }
    }
}

impl DeepView for NSInterface {
    type V = NSInterfaceV;

    open spec fn deep_view(&self) -> NSInterfaceV {
        self.view()
    }
}

impl DeepView for Namespace {
    type V = NamespaceV;

    open spec fn deep_view(&self) -> NamespaceV {
        self.view()
    }
}

/// The commands issued inside the namespace for its interface at position
/// `idx`: rename the raw transport device, assign the address if one is
/// declared, bring the interface up, and install the default route if a
/// gateway is declared.
pub open spec fn iface_config_lines(i: NSInterfaceV, idx: nat) -> Seq<Seq<char>> {
    let rename = seq!["ip link set vde"@ + dec_of(idx) + " name "@ + i.name];
    let addr = match i.ip {
        Some(ip) => seq!["ip addr add "@ + ip + " dev "@ + i.name],
        None => Seq::<Seq<char>>::empty(),
    };
    let up = seq!["ip link set "@ + i.name + " up"@];
    let route = match i.gateway {
        Some(gw) => seq!["ip route add default via "@ + gw + " dev "@ + i.name],
        None => Seq::<Seq<char>>::empty(),
    };
    rename + addr + up + route
}

/// The configuration commands for the first `k` interfaces, in declared
/// order.
pub open spec fn iface_config_upto(ifs: Seq<NSInterfaceV>, k: int) -> Seq<Seq<char>>
    decreases k,
{
    if k <= 0 {
        Seq::<Seq<char>>::empty()
    } else {
        iface_config_upto(ifs, k - 1) + iface_config_lines(ifs[k - 1], (k - 1) as nat)
    }
}

/// The point-to-point transport arguments for the first `k` interfaces of
/// `n`, in declared order.
pub open spec fn ptp_args_upto(n: NamespaceV, base: Seq<char>, k: int) -> Seq<Seq<char>>
    decreases k,
{
    if k <= 0 {
        Seq::<Seq<char>>::empty()
    } else {
        ptp_args_upto(n, base, k - 1).push(
            "ptp://"@ + joined(joined(base, n.name), n.interfaces[k - 1].name),
        )
    }
}

/// The argument vector that starts a namespace: its hostname, one
/// point-to-point transport per interface, then the starter script with the
/// pid file and config file it is to use.
pub open spec fn ns_exec_args(n: NamespaceV, base: Seq<char>, starter: Seq<char>) -> Seq<
    Seq<char>,
> {
    let head = seq!["--hostname"@, n.name];
    let mid = if n.interfaces.len() > 0 {
        seq!["--multi"@] + ptp_args_upto(n, base, n.interfaces.len() as int) + seq!["--"@]
    } else {
        seq!["-"@]
    };
    head + mid + seq![
        starter,
        joined(joined(base, n.name), "pid"@),
        joined(joined(base, n.name), "config"@),
    ]
}

impl Namespace {
    /// A namespace with no interfaces and no configuration commands.
    pub fn new(name: String) -> (r: Namespace)
        ensures
            r@ == (NamespaceV {
                name: name@,
                interfaces: Seq::<NSInterfaceV>::empty(),
                config: Seq::<Seq<char>>::empty(),
            }),
    {
        let r = Namespace { name, interfaces: Vec::new(), config: Vec::new() };
        proof {
            assert(r@.interfaces =~= Seq::<NSInterfaceV>::empty());
            assert(r@.config =~= Seq::<Seq<char>>::empty());
        }
        r
    }

    pub fn get_name(&self) -> (r: &String)
        ensures
            r@ == self@.name,
    {
        &self.name
    }

    pub fn get_interfaces(&self) -> (r: &Vec<NSInterface>)
        ensures
            r.deep_view() == self@.interfaces,
    {
        &self.interfaces
    }

    /// Append one interface; order is kept.
    pub fn add_interface(&mut self, interface: NSInterface)
        ensures
            final(self)@ == (NamespaceV {
                interfaces: old(self)@.interfaces.push(interface@),
                ..old(self)@
            }),
    {
        self.interfaces.push(interface);
        proof {
            assert(self@.interfaces =~= old(self)@.interfaces.push(interface@));
        }
    }

    /// The configuration commands every namespace gets regardless of its
    /// interfaces: bring the loopback device up.
    pub fn default_confing() -> (r: Vec<String>)
        ensures
            r.deep_view() == seq!["ip link set lo up\n"@],
    {
        let mut v: Vec<String> = Vec::new();
        v.push(String::from_str("ip link set lo up\n"));
        proof {
            assert(v.deep_view() =~= seq!["ip link set lo up\n"@]);
        }
        v
    }

    /// Append one configuration command.
    pub fn add_config(&mut self, config: String)
        ensures
            final(self)@ == (NamespaceV { config: old(self)@.config.push(config@), ..old(self)@ }),
    {
        self.config.push(config);
        proof {
            assert(self@.config =~= old(self)@.config.push(config@));
        }
    }

    /// Whether any configuration commands must be written out before start.
    pub fn needs_config(&self) -> (r: bool)
        ensures
            r == (self@.config.len() != 0),
    {
        !self.config.is_empty()
    }

    pub fn get_config(&self) -> (r: &Vec<String>)
        ensures
            r.deep_view() == self@.config,
    {
        &self.config
    }

    /// The per-interface configuration commands, in declared interface
    /// order.
    pub fn config_for_interfaces(&self) -> (r: Vec<String>)
        ensures
            r.deep_view() == iface_config_upto(self@.interfaces, self@.interfaces.len() as int),
    {
        let mut v: Vec<String> = Vec::new();
        let mut i: usize = 0;
        let n = self.interfaces.len();
        proof {
            assert(v.deep_view() =~= iface_config_upto(self@.interfaces, 0));
        }
        while i < n
            invariant
                n == self.interfaces.len(),
                0 <= i <= n,
                self@.interfaces.len() == n,
                v.deep_view() == iface_config_upto(self@.interfaces, i as int),
            decreases n - i,
        {
            let iface = &self.interfaces[i];
            let ghost iv = self@.interfaces[i as int];

            let mut rename = String::from_str("ip link set vde");
            rename.append(u64_to_dec(i as u64).as_str());
            rename.append(" name ");
            rename.append(iface.name.as_str());
            v.push(rename);

            if let Some(ip) = &iface.ip {
                let mut addr = String::from_str("ip addr add ");
                addr.append(ip.as_str());
                addr.append(" dev ");
                addr.append(iface.name.as_str());
                v.push(addr);
            }

            let mut up = String::from_str("ip link set ");
            up.append(iface.name.as_str());
            up.append(" up");
            v.push(up);

            if let Some(gw) = &iface.gateway {
                let mut route = String::from_str("ip route add default via ");
                route.append(gw.as_str());
                route.append(" dev ");
                route.append(iface.name.as_str());
                v.push(route);
            }

            proof {
                assert(v.deep_view() =~= iface_config_upto(self@.interfaces, i as int)
                    + iface_config_lines(iv, i as nat));
            }
            i = i + 1;
        }
        v
    }

    /// The directory that holds every file of this namespace, under `base`.
    pub fn base_path(&self, base: &str) -> (r: String)
        ensures
            r@ == joined(base@, self@.name),
    {
        join_path(base, self.name.as_str())
    }

    /// The pid file of the namespace, under `base`; the starter script
    /// writes it from inside the namespace.
    pub fn pid_path(&self, base: &str) -> (r: String)
        ensures
            r@ == joined(joined(base@, self@.name), "pid"@),
    {
        let b = self.base_path(base);
        join_path(b.as_str(), "pid")
    }

    /// The config file written for the namespace, under `base`.
    pub fn config_path(&self, base: &str) -> (r: String)
        ensures
            r@ == joined(joined(base@, self@.name), "config"@),
    {
        let b = self.base_path(base);
        join_path(b.as_str(), "config")
    }

    /// The program that starts a namespace.
    pub fn exec_command(&self) -> (r: String)
        ensures
            r@ == "vdens"@,
    {
        String::from_str("vdens")
    }

    /// The point-to-point transport path of the named interface, under
    /// `base`; an error if no interface of that name is declared.
    pub fn conn_path(&self, base: &str, interface: &str) -> (r: Result<String, DeviceError>)
        ensures
            match r {
                Ok(p) => (exists|j: int|
                    0 <= j < self@.interfaces.len() && self@.interfaces[j].name == interface@)
                    && p@ == joined(joined(base@, self@.name), interface@),
                Err(e) => e == DeviceError::NoSuchInterface && (forall|j: int|
                    0 <= j < self@.interfaces.len() ==> self@.interfaces[j].name != interface@),
            },
    {
        let n = self.interfaces.len();
        let mut i: usize = 0;
        while i < n
            invariant
                n == self.interfaces.len(),
                0 <= i <= n,
                forall|j: int| 0 <= j < i ==> self@.interfaces[j].name != interface@,
            decreases n - i,
        {
            let iface = &self.interfaces[i];
            if str_eq(iface.name.as_str(), interface) {
                proof {
                    assert(self@.interfaces[i as int].name == interface@);
                }
                let b = self.base_path(base);
                return Ok(join_path(b.as_str(), interface));
            }
            i = i + 1;
        }
        Err(DeviceError::NoSuchInterface)
    }

    /// The argument vector that starts this namespace under `base`, handing
    /// control to the starter script at `starter`.
    pub fn exec_args(&self, base: &str, starter: &str) -> (r: Vec<String>)
        ensures
            r.deep_view() == ns_exec_args(self@, base@, starter@),
    {
        let mut args: Vec<String> = Vec::new();
        args.push(String::from_str("--hostname"));
        args.push(self.name.clone());

        if !self.interfaces.is_empty() {
            args.push(String::from_str("--multi"));
            let b = self.base_path(base);
            let n = self.interfaces.len();
            let mut i: usize = 0;
            while i < n
                invariant
                    n == self.interfaces.len(),
                    0 <= i <= n,
                    self@.interfaces.len() == n,
                    b@ == joined(base@, self@.name),
                    args.deep_view() == seq!["--hostname"@, self@.name, "--multi"@]
                        + ptp_args_upto(self@, base@, i as int),
                decreases n - i,
            {
                let p = join_path(b.as_str(), self.interfaces[i].name.as_str());
                let mut arg = String::from_str("ptp://");
                arg.append(p.as_str());
                proof {
                    assert(arg@ == "ptp://"@ + joined(joined(base@, self@.name),
                        self@.interfaces[i as int].name));
                }
                let ghost prev_vec = args@;
                let ghost pre = args.deep_view();
                args.push(arg);
                proof {
                    let ghost target = seq!["--hostname"@, self@.name, "--multi"@]
                        + ptp_args_upto(self@, base@, i + 1);
                    assert(ptp_args_upto(self@, base@, i + 1) == ptp_args_upto(
                        self@,
                        base@,
                        i as int,
                    ).push(arg@));
                    assert(pre.len() == prev_vec.len());
                    assert(args@ == prev_vec.push(arg));
                    assert(args.deep_view().len() == args@.len());
                    assert(target.len() == pre.len() + 1);
                    assert(args.deep_view().len() == target.len());
                    assert forall|k: int| 0 <= k < target.len() implies args.deep_view()[k]
                        == target[k] by {
                        assert(args.deep_view()[k] == args@[k].deep_view());
                        if k < target.len() - 1 {
                            assert(args@[k] == prev_vec[k]);
                            assert(pre[k] == prev_vec[k].deep_view());
                            assert(pre[k] == (seq!["--hostname"@, self@.name, "--multi"@]
                                + ptp_args_upto(self@, base@, i as int))[k]);
                        } else {
                            assert(args@[k] == arg);
                        }
                    }
                    assert(args.deep_view() =~= target);
                }
                i = i + 1;
            }
            push_arg(&mut args, String::from_str("--"));
        } else {
            // With no interfaces a lone `-` keeps the starter command
            // working.
            push_arg(&mut args, String::from_str("-"));
        }

        push_arg(&mut args, String::from_str(starter));
        push_arg(&mut args, self.pid_path(base));
        push_arg(&mut args, self.config_path(base));
        proof {
            assert(args.deep_view() =~= ns_exec_args(self@, base@, starter@));
        }
        args
    }

    /// The program that attaches to a running namespace by pid.
    pub fn attach_command(&self) -> (r: String)
        ensures
            r@ == "nsenter"@,
    {
        String::from_str("nsenter")
    }

    /// The arguments that enter the namespace of process `pid`, preserving
    /// credentials, unsharing the user and network context and keeping
    /// capabilities.
    pub fn attach_args(&self, _base: &str, pid: u32) -> (r: Vec<String>)
        ensures
            r.deep_view() == seq![
                "-t"@,
                dec_of(pid as nat),
                "--preserve-credentials"@,
                "-U"@,
                "-u"@,
                "-n"@,
                "--keep-caps"@,
            ],
    {
        let mut v: Vec<String> = Vec::new();
        v.push(String::from_str("-t"));
        v.push(u64_to_dec(pid as u64));
        v.push(String::from_str("--preserve-credentials"));
        v.push(String::from_str("-U"));
        v.push(String::from_str("-u"));
        v.push(String::from_str("-n"));
        v.push(String::from_str("--keep-caps"));
        proof {
            assert(v.deep_view() =~= seq![
                "-t"@,
                dec_of(pid as nat),
                "--preserve-credentials"@,
                "-U"@,
                "-u"@,
                "-n"@,
                "--keep-caps"@,
            ]);
        }
        v
    }

    /// The program that runs a command inside a running namespace; the same
    /// entry program the attach path uses.
    pub fn exec_command_command(&self) -> (r: String)
        ensures
            r@ == "nsenter"@,
    {
        self.attach_command()
    }

    /// The arguments that run `command` inside the namespace of process
    /// `pid`.  The given command vector is drained into the result.
    pub fn exec_command_args(&self, _base: &str, pid: u32, command: &mut Vec<String>) -> (r: Vec<
        String,
    >)
        ensures
            r.deep_view() == seq![
                "-t"@,
                dec_of(pid as nat),
                "--preserve-credentials"@,
                "-U"@,
                "-u"@,
                "-n"@,
                "--keep-caps"@,
            ] + old(command).deep_view(),
            final(command)@.len() == 0,
    {
        let mut args = self.attach_args(_base, pid);
        args.append(command);
        proof {
            assert(args.deep_view() =~= seq![
                "-t"@,
                dec_of(pid as nat),
                "--preserve-credentials"@,
                "-U"@,
                "-u"@,
                "-n"@,
                "--keep-caps"@,
            ] + old(command).deep_view());
        }
        args
    }

    /// The starter script written once per start batch: it records its own
    /// process id in the pid file it is given, runs the namespace's
    /// configuration commands, then hands over to an interactive shell.
    pub fn get_starter_script() -> (r: &'static str)
        ensures
            r@ == starter_script(),
            r@.len() > 0,
    {
        let s = "#!/bin/sh\necho $$ > \"$1\"\nif [ -e \"$2\" ]; then\n  sh \"$2\"\nfi\nexec \"${SHELL:-/bin/sh}\"\n";
        proof {
            reveal_strlit(
                "#!/bin/sh\necho $$ > \"$1\"\nif [ -e \"$2\" ]; then\n  sh \"$2\"\nfi\nexec \"${SHELL:-/bin/sh}\"\n",
            );
        }
        s
    }
}

/// The text of the starter script.
pub open spec fn starter_script() -> Seq<char> {
    "#!/bin/sh\necho $$ > \"$1\"\nif [ -e \"$2\" ]; then\n  sh \"$2\"\nfi\nexec \"${SHELL:-/bin/sh}\"\n"@
}

impl NSInterface {
    pub fn new(name: String, ip: Option<String>, gateway: Option<String>) -> (r: NSInterface)
        ensures
            r@ == (NSInterfaceV { name: name@, ip: ip.deep_view(), gateway: gateway.deep_view() }),
    {
        NSInterface { name, ip, gateway }
    }

    pub fn get_name(&self) -> (r: &String)
        ensures
            r@ == self@.name,
    {
        &self.name
    }

    pub fn get_ip(&self) -> (r: &Option<String>)
        ensures
            r.deep_view() == self@.ip,
    {
        &self.ip
    }

    pub fn get_gateway(&self) -> (r: &Option<String>)
        ensures
            r.deep_view() == self@.gateway,
    {
        &self.gateway
    }
}

} // verus!
