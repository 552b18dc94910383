//! A cable: a point-to-point or filtered relay between two endpoints.  A
//! filtering ("wirefilter") cable interposes a packet-manipulation process
//! with its own management channel; a plain cable is a bare relay.

use vstd::prelude::*;
use vstd::string::StringExecFns;
use crate::errors::DeviceError;
use crate::strutil::{joined, join_path, push_arg};

verus! {

/// The transport used to attach a cable end to a device: a switch's
/// multiplexing socket, or the dedicated point-to-point transport of a
/// namespace interface.
#[derive(Debug, Clone, Copy, PartialEq, Eq, Structural)]
pub enum VdeConnProtocols {
    VDE,
    PTP,
}

impl VdeConnProtocols {
    /// The protocol's name, for reports.
    pub fn label(&self) -> (r: String)
        ensures
            r@ == (if self is VDE {
                "VDE"@
            } else {
                "PTP"@
            }),
    {
        match self {
            VdeConnProtocols::VDE => String::from_str("VDE"),
            VdeConnProtocols::PTP => String::from_str("PTP"),
        }
    }
}

/// Ghost image of an [`Endpoint`].
pub ghost struct EndpointV {
    pub name: Seq<char>,
    pub port: Option<Seq<char>>,
    pub protocol: VdeConnProtocols,
}

/// One end of a cable: a device reference in resolved filesystem-path
/// form, an optional port or interface selector, and the transport kind.
#[derive(Debug, Clone)]
pub struct Endpoint {
    pub name: String,
    pub port: Option<String>,
    pub protocol: VdeConnProtocols,
}

impl View for Endpoint {
    type V = EndpointV;

    open spec fn view(&self) -> EndpointV {
        EndpointV { name: self.name@, port: self.port.deep_view(), protocol: self.protocol }
    }
}

impl Endpoint {
    pub fn new(name: String, port: Option<String>, protocol: VdeConnProtocols) -> (r: Endpoint)
        ensures
            r@ == (EndpointV { name: name@, port: port.deep_view(), protocol: protocol }),
    {
        Endpoint { name, port, protocol }
    }

    pub fn get_name(&self) -> (r: &String)
        ensures
            r@ == self@.name,
    {
        &self.name
    }

    pub fn get_port(&self) -> (r: Option<&String>)
        ensures
            r.deep_view() == self@.port,
    {
        self.port.as_ref()
    }

    pub fn get_protocol(&self) -> (r: &VdeConnProtocols)
        ensures
            r == self@.protocol,
    {
        &self.protocol
    }
}

/// Ghost image of a [`Cable`].
pub ghost struct CableV {
    pub name: Seq<char>,
    pub a: EndpointV,
    pub b: EndpointV,
    pub wirefilter: bool,
    pub config: Seq<Seq<char>>,
}

/// A declared cable device.
#[derive(Debug, Clone)]
pub struct Cable {
    pub name: String,
    pub a: Endpoint,
    pub b: Endpoint,
    pub wirefilter: bool,
    pub config: Vec<String>,
}

impl View for Cable {
    type V = CableV;

    open spec fn view(&self) -> CableV {
        CableV {
            name: self.name@,
            a: self.a@,
            b: self.b@,
            wirefilter: self.wirefilter,
            config: self.config.deep_view(),
        }
    }
}

impl DeepView for Cable {
    type V = CableV;

    open spec fn deep_view(&self) -> CableV {
        self.view()
    }
}

/// The plug argument for one cable end: the endpoint path under `base`,
/// tagged with its transport, with a `[port]` selector when the endpoint is
/// a switch socket with a chosen port.
pub open spec fn plug_of(e: EndpointV, base: Seq<char>) -> Seq<char> {
    let p = joined(base, e.name);
    let tagged = if e.protocol is VDE {
        "vde://"@ + p
    } else {
        "ptp://"@ + p
    };
    match e.port {
        Some(port) => if e.protocol is VDE {
            tagged + "["@ + port + "]"@
        } else {
            tagged
        },
        None => tagged,
    }
}

/// The argument vector that starts a cable process: for a filtering cable,
/// a daemonized pipe of two plugs around a wirefilter with its management
/// socket and filter config; for a plain cable, the two plugs and a
/// daemonized relay.
pub open spec fn cable_exec_args(c: CableV, base: Seq<char>) -> Seq<Seq<char>> {
    let pa = plug_of(c.a, base);
    let pb = plug_of(c.b, base);
    let bp = joined(base, c.name);
    if c.wirefilter {
        seq![
            "--daemon"@,
            "--pidfile"@,
            joined(bp, "pid"@),
            "vde_plug"@,
            pa,
            "="@,
            "wirefilter"@,
            "--mgmt"@,
            joined(bp, "mgmt"@),
            "--rcfile"@,
            joined(bp, "config"@),
            "="@,
            "vde_plug"@,
            pb,
        ]
    } else {
        seq![pa, pb, "--pidfile"@, joined(bp, "pid"@), "--descr"@, c.name, "--daemon"@]
    }
}

impl Cable {
    /// A cable between the two given resolved endpoints, with no filter
    /// configuration lines.
    pub fn new(
        name: String,
        a: String,
        port_a: Option<String>,
        protocol_a: VdeConnProtocols,
        b: String,
        port_b: Option<String>,
        protocol_b: VdeConnProtocols,
        wirefilter: Option<bool>,
    ) -> (r: Cable)
        ensures
            r@ == (CableV {
                name: name@,
                a: EndpointV { name: a@, port: port_a.deep_view(), protocol: protocol_a },
                b: EndpointV { name: b@, port: port_b.deep_view(), protocol: protocol_b },
                wirefilter: wirefilter == Some(true),
                config: Seq::<Seq<char>>::empty(),
            }),
    {
        let wf = match wirefilter {
            Some(w) => w,
            None => false,
        };
        let r = Cable {
            name,
            a: Endpoint::new(a, port_a, protocol_a),
            b: Endpoint::new(b, port_b, protocol_b),
            wirefilter: wf,
            config: Vec::new(),
        };
        proof {
            assert(r@.config =~= Seq::<Seq<char>>::empty());
        }
        r
    }

    pub fn get_name(&self) -> (r: &String)
        ensures
            r@ == self@.name,
    {
        &self.name
    }

    pub fn has_wirefilter(&self) -> (r: bool)
        ensures
            r == self@.wirefilter,
    {
        self.wirefilter
    }

    /// Append one filter-configuration line.
    pub fn add_config(&mut self, config: String)
        ensures
            final(self)@ == (CableV { config: old(self)@.config.push(config@), ..old(self)@ }),
    {
        self.config.push(config);
        proof {
            assert(self@.config =~= old(self)@.config.push(config@));
        }
    }

    pub fn get_config(&self) -> (r: &Vec<String>)
        ensures
            r.deep_view() == self@.config,
    {
        &self.config
    }

    pub fn get_a(&self) -> (r: &Endpoint)
        ensures
            r@ == self@.a,
    {
        &self.a
    }

    pub fn get_b(&self) -> (r: &Endpoint)
        ensures
            r@ == self@.b,
    {
        &self.b
    }

    /// Whether any filter-configuration lines must be written out before
    /// start.
    pub fn needs_config(&self) -> (r: bool)
        ensures
            r == (self@.config.len() != 0),
    {
        !self.config.is_empty()
    }

    /// The directory that holds every file of this cable, under `base`.
    pub fn base_path(&self, base: &str) -> (r: String)
        ensures
            r@ == joined(base@, self@.name),
    {
        join_path(base, self.name.as_str())
    }

    /// The pid file of the cable process, under `base`.
    pub fn pid_path(&self, base: &str) -> (r: String)
        ensures
            r@ == joined(joined(base@, self@.name), "pid"@),
    {
        let b = self.base_path(base);
        join_path(b.as_str(), "pid")
    }

    /// The management socket of the filtering process, under `base`; an
    /// error for a plain cable, which has none.
    pub fn mgmt_path(&self, base: &str) -> (r: Result<String, DeviceError>)
        ensures
            match r {
                Ok(p) => self@.wirefilter && p@ == joined(joined(base@, self@.name), "mgmt"@),
                Err(e) => !self@.wirefilter && e == DeviceError::NotWirefilter,
            },
    {
        if !self.wirefilter {
            return Err(DeviceError::NotWirefilter);
        }
        let b = self.base_path(base);
        Ok(join_path(b.as_str(), "mgmt"))
    }

    /// The filter-config file written for the cable, under `base`.
    pub fn config_path(&self, base: &str) -> (r: String)
        ensures
            r@ == joined(joined(base@, self@.name), "config"@),
    {
        let b = self.base_path(base);
        join_path(b.as_str(), "config")
    }

    /// The program that starts the cable: a pipe runner for a filtering
    /// cable, a plain relay otherwise.
    pub fn exec_command(&self) -> (r: String)
        ensures
            r@ == (if self@.wirefilter {
                "dpipe"@
            } else {
                "vde_plug"@
            }),
    {
        if self.wirefilter {
            String::from_str("dpipe")
        } else {
            String::from_str("vde_plug")
        }
    }

    fn plug_arg(e: &Endpoint, base: &str) -> (r: String)
        ensures
            r@ == plug_of(e@, base@),
    {
        let p = join_path(base, e.name.as_str());
        let mut tagged = match e.protocol {
            VdeConnProtocols::VDE => String::from_str("vde://"),
            VdeConnProtocols::PTP => String::from_str("ptp://"),
        };
        tagged.append(p.as_str());
        if let Some(port) = &e.port {
            let is_vde = match e.protocol {
                VdeConnProtocols::VDE => true,
                VdeConnProtocols::PTP => false,
            };
            if is_vde {
                tagged.append("[");
                tagged.append(port.as_str());
                tagged.append("]");
                proof {
                    reveal_strlit("[");
                    reveal_strlit("]");
                    assert("["@ =~= seq!['[']);
                    assert("]"@ =~= seq![']']);
                }
            }
        }
        tagged
    }

    /// The argument vector that starts this cable under `base`.
    pub fn exec_args(&self, base: &str) -> (r: Vec<String>)
        ensures
            r.deep_view() == cable_exec_args(self@, base@),
    {
        let pa = Self::plug_arg(&self.a, base);
        let pb = Self::plug_arg(&self.b, base);
        let pid_p = self.pid_path(base);

        let mut v: Vec<String> = Vec::new();
        if self.wirefilter {
            let mgmt_p = match self.mgmt_path(base) {
                Ok(p) => p,
                Err(_) => {
                    // Unreachable: a wirefilter cable always has a
                    // management path.
                    String::new()
                },
            };
            let conf_p = self.config_path(base);
            push_arg(&mut v, String::from_str("--daemon"));
            push_arg(&mut v, String::from_str("--pidfile"));
            push_arg(&mut v, pid_p);
            push_arg(&mut v, String::from_str("vde_plug"));
            push_arg(&mut v, pa);
            push_arg(&mut v, String::from_str("="));
            push_arg(&mut v, String::from_str("wirefilter"));
            push_arg(&mut v, String::from_str("--mgmt"));
            push_arg(&mut v, mgmt_p);
            push_arg(&mut v, String::from_str("--rcfile"));
            push_arg(&mut v, conf_p);
            push_arg(&mut v, String::from_str("="));
            push_arg(&mut v, String::from_str("vde_plug"));
            push_arg(&mut v, pb);
        } else {
            push_arg(&mut v, pa);
            push_arg(&mut v, pb);
            push_arg(&mut v, String::from_str("--pidfile"));
            push_arg(&mut v, pid_p);
            push_arg(&mut v, String::from_str("--descr"));
            push_arg(&mut v, self.name.clone());
            push_arg(&mut v, String::from_str("--daemon"));
        }
        proof {
            assert(v.deep_view() =~= cable_exec_args(self@, base@));
        }
        v
    }

    /// The program that attaches an interactive management shell; only a
    /// filtering cable can be attached.
    pub fn attach_command(&self) -> (r: Result<String, DeviceError>)
        ensures
            match r {
                Ok(c) => self@.wirefilter && c@ == "vdeterm"@,
                Err(e) => !self@.wirefilter && e == DeviceError::NotWirefilter,
            },
    {
        if self.wirefilter {
            Ok(String::from_str("vdeterm"))
        } else {
            Err(DeviceError::NotWirefilter)
        }
    }

    /// The arguments for the attach command: the management socket alone.
    pub fn attach_args(&self, base: &str) -> (r: Result<Vec<String>, DeviceError>)
        ensures
            match r {
                Ok(v) => self@.wirefilter && v.deep_view() == seq![
                    joined(joined(base@, self@.name), "mgmt"@),
                ],
                Err(e) => !self@.wirefilter && e == DeviceError::NotWirefilter,
            },
    {
        if self.wirefilter {
            let socke_p = match self.mgmt_path(base) {
                Ok(p) => p,
                Err(_) => String::new(),
            };
            let mut v: Vec<String> = Vec::new();
            push_arg(&mut v, socke_p);
            proof {
                assert(v.deep_view() =~= seq![joined(joined(base@, self@.name), "mgmt"@)]);
            }
            Ok(v)
        } else {
            Err(DeviceError::NotWirefilter)
        }
    }

    /// The program that runs a single management command against the
    /// filtering process; distinct from [`Self::exec_command`], which
    /// starts the cable.
    pub fn exec_command_command(&self) -> (r: Result<String, DeviceError>)
        ensures
            match r {
                Ok(c) => self@.wirefilter && c@ == "vdecmd"@,
                Err(e) => !self@.wirefilter && e == DeviceError::NotWirefilter,
            },
    {
        if self.wirefilter {
            Ok(String::from_str("vdecmd"))
        } else {
            Err(DeviceError::NotWirefilter)
        }
    }

    /// The arguments that run `command` against the management socket; the
    /// given command vector is drained into the result.
    pub fn exec_command_args(&self, base: &str, command: &mut Vec<String>) -> (r: Result<
        Vec<String>,
        DeviceError,
    >)
        ensures
            match r {
                Ok(v) => self@.wirefilter && v.deep_view() == seq![
                    "-s"@,
                    joined(joined(base@, self@.name), "mgmt"@),
                ] + old(command).deep_view() && final(command)@.len() == 0,
                Err(e) => !self@.wirefilter && e == DeviceError::NotWirefilter && *final(command)
                    == *old(command),
            },
    {
        if !self.wirefilter {
            return Err(DeviceError::NotWirefilter);
        }

        let mgmt_p = match self.mgmt_path(base) {
            Ok(p) => p,
            Err(_) => String::new(),
        };
        let mut args: Vec<String> = Vec::new();
        push_arg(&mut args, String::from_str("-s"));
        push_arg(&mut args, mgmt_p);
        let ghost pre_vec = args;
        let ghost cmd_vec = *command;
        args.append(command);
        proof {
            crate::strutil::lemma_append_deep_view(args, pre_vec, cmd_vec);
            assert(pre_vec.deep_view() =~= seq![
                "-s"@,
                joined(joined(base@, self@.name), "mgmt"@),
            ]);
        }
        Ok(args)
    }
}

} // verus!
