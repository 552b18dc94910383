//! A connection: an older cable form whose two ends are plain endpoint
//! paths with optional numeric ports, relayed directly or through a
//! wirefilter process.

use vstd::prelude::*;
use vstd::string::StringExecFns;
use crate::errors::DeviceError;
use crate::strutil::{dec_of, joined, join_path, lemma_append_deep_view, push_arg, u64_to_dec};

verus! {

/// Ghost image of a [`Connection`].
pub ghost struct ConnectionV {
    pub name: Seq<char>,
    pub a: Seq<char>,
    pub port_a: Option<u32>,
    pub b: Seq<char>,
    pub port_b: Option<u32>,
    pub wirefilter: bool,
    pub config: Seq<Seq<char>>,
}

/// A declared connection device.
#[derive(Debug, Clone)]
pub struct Connection {
    pub name: String,
    pub a: String,
    pub port_a: Option<u32>,
    pub b: String,
    pub port_b: Option<u32>,
    pub wirefilter: bool,
    pub config: Vec<String>,
}

impl View for Connection {
    type V = ConnectionV;

    open spec fn view(&self) -> ConnectionV {
        ConnectionV {
            name: self.name@,
            a: self.a@,
            port_a: self.port_a,
            b: self.b@,
            port_b: self.port_b,
            wirefilter: self.wirefilter,
            config: self.config.deep_view(),
        }
    }
}

impl DeepView for Connection {
    type V = ConnectionV;

    open spec fn deep_view(&self) -> ConnectionV {
        self.view()
    }
}

/// One side's plug path: the endpoint under `base`, with a `[port]`
/// selector when a port is chosen.
pub open spec fn conn_side(base: Seq<char>, name: Seq<char>, port: Option<u32>) -> Seq<char> {
    let p = joined(base, name);
    match port {
        Some(pt) => p + "["@ + dec_of(pt as nat) + "]"@,
        None => p,
    }
}

/// The argument vector that starts a connection process: for a wirefilter
/// connection, the paired plug with management socket and filter config,
/// daemonized; for a plain one, the two plugs and a daemonized relay.
pub open spec fn conn_exec_args(c: ConnectionV, base: Seq<char>) -> Seq<Seq<char>> {
    let pa = conn_side(base, c.a, c.port_a);
    let pb = conn_side(base, c.b, c.port_b);
    let bp = joined(base, c.name);
    if c.wirefilter {
        seq![
            "--vde-plug"@,
            pa + ":"@ + pb,
            "--pidfile"@,
            joined(bp, "pid"@),
            "--mgmt"@,
            joined(bp, "mgmt"@),
            "--rcfile"@,
            joined(bp, "config"@),
            "--daemon"@,
        ]
    } else {
        seq![pa, pb, "--pidfile"@, joined(bp, "pid"@), "--descr"@, c.name, "--daemon"@]
    }
}

impl Connection {
    /// A connection between the two given endpoints, with no filter
    /// configuration lines.
    pub fn new(
        name: String,
        a: String,
        port_a: Option<u32>,
        b: String,
        port_b: Option<u32>,
        wirefilter: Option<bool>,
    ) -> (r: Connection)
        ensures
            r@ == (ConnectionV {
                name: name@,
                a: a@,
                port_a: port_a,
                b: b@,
                port_b: port_b,
                wirefilter: wirefilter == Some(true),
                config: Seq::<Seq<char>>::empty(),
            }),
    {
        let wf = match wirefilter {
            Some(w) => w,
            None => false,
        };
        let r = Connection { name, a, port_a, b, port_b, wirefilter: wf, config: Vec::new() };
        proof {
            assert(r@.config =~= Seq::<Seq<char>>::empty());
        }
        r
    }

    pub fn get_name(&self) -> (r: &String)
        ensures
            r@ == self@.name,
    {
        &self.name
    }

    /// Append one filter-configuration line.
    pub fn add_config(&mut self, config: String)
        ensures
            final(self)@ == (ConnectionV { config: old(self)@.config.push(config@), ..old(self)@ }),
    {
        self.config.push(config);
        proof {
            assert(self@.config =~= old(self)@.config.push(config@));
        }
    }

    pub fn get_config(&self) -> (r: &Vec<String>)
        ensures
            r.deep_view() == self@.config,
    {
        &self.config
    }

    pub fn get_a(&self) -> (r: &String)
        ensures
            r@ == self@.a,
    {
        &self.a
    }

    pub fn get_b(&self) -> (r: &String)
        ensures
            r@ == self@.b,
    {
        &self.b
    }

    /// Whether any filter-configuration lines must be written out before
    /// start.
    pub fn needs_config(&self) -> (r: bool)
        ensures
            r == (self@.config.len() != 0),
    {
        !self.config.is_empty()
    }

    /// The directory that holds every file of this connection, under
    /// `base`.
    pub fn base_path(&self, base: &str) -> (r: String)
        ensures
            r@ == joined(base@, self@.name),
    {
        join_path(base, self.name.as_str())
    }

    /// The pid file of the connection process, under `base`.
    pub fn pid_path(&self, base: &str) -> (r: String)
        ensures
            r@ == joined(joined(base@, self@.name), "pid"@),
    {
        let b = self.base_path(base);
        join_path(b.as_str(), "pid")
    }

    /// The management socket of the wirefilter process, under `base`; an
    /// error for a plain connection, which has none.
    pub fn mgmt_path(&self, base: &str) -> (r: Result<String, DeviceError>)
        ensures
            match r {
                Ok(p) => self@.wirefilter && p@ == joined(joined(base@, self@.name), "mgmt"@),
                Err(e) => !self@.wirefilter && e == DeviceError::NotWirefilter,
            },
    {
        if !self.wirefilter {
            return Err(DeviceError::NotWirefilter);
        }
        let b = self.base_path(base);
        Ok(join_path(b.as_str(), "mgmt"))
    }

    /// The filter-config file written for the connection, under `base`.
    pub fn config_path(&self, base: &str) -> (r: String)
        ensures
            r@ == joined(joined(base@, self@.name), "config"@),
    {
        let b = self.base_path(base);
        join_path(b.as_str(), "config")
    }

    /// The program that starts the connection.
    pub fn exec_command(&self) -> (r: String)
        ensures
            r@ == (if self@.wirefilter {
                "wirefilter"@
            } else {
                "vde_plug"@
            }),
    {
        if self.wirefilter {
            String::from_str("wirefilter")
        } else {
            String::from_str("vde_plug")
        }
    }

    fn side_arg(base: &str, name: &str, port: Option<u32>) -> (r: String)
        ensures
            r@ == conn_side(base@, name@, port),
    {
        let mut p = join_path(base, name);
        if let Some(pt) = port {
            p.append("[");
            p.append(u64_to_dec(pt as u64).as_str());
            p.append("]");
            proof {
                reveal_strlit("[");
                reveal_strlit("]");
            }
        }
        p
    }

    /// The argument vector that starts this connection under `base`.
    pub fn exec_args(&self, base: &str) -> (r: Vec<String>)
        ensures
            r.deep_view() == conn_exec_args(self@, base@),
    {
        let pa = Self::side_arg(base, self.a.as_str(), self.port_a);
        let pb = Self::side_arg(base, self.b.as_str(), self.port_b);
        let pid_p = self.pid_path(base);

        let mut v: Vec<String> = Vec::new();
        if self.wirefilter {
            let mgmt_p = match self.mgmt_path(base) {
                Ok(p) => p,
                Err(_) => String::new(),
            };
            let conf_p = self.config_path(base);
            let mut pair = pa;
            pair.append(":");
            pair.append(pb.as_str());
            proof {
                reveal_strlit(":");
            }
            push_arg(&mut v, String::from_str("--vde-plug"));
            push_arg(&mut v, pair);
            push_arg(&mut v, String::from_str("--pidfile"));
            push_arg(&mut v, pid_p);
            push_arg(&mut v, String::from_str("--mgmt"));
            push_arg(&mut v, mgmt_p);
            push_arg(&mut v, String::from_str("--rcfile"));
            push_arg(&mut v, conf_p);
            push_arg(&mut v, String::from_str("--daemon"));
        } else {
            push_arg(&mut v, pa);
            push_arg(&mut v, pb);
            push_arg(&mut v, String::from_str("--pidfile"));
            push_arg(&mut v, pid_p);
            push_arg(&mut v, String::from_str("--descr"));
            push_arg(&mut v, self.name.clone());
            push_arg(&mut v, String::from_str("--daemon"));
        }
        proof {
            assert(v.deep_view() =~= conn_exec_args(self@, base@));
        }
        v
    }

    /// The program that attaches an interactive management shell; only a
    /// wirefilter connection can be attached.
    pub fn attach_command(&self) -> (r: Result<String, DeviceError>)
        ensures
            match r {
                Ok(c) => self@.wirefilter && c@ == "vdeterm"@,
                Err(e) => !self@.wirefilter && e == DeviceError::NotWirefilter,
            },
    {
        if self.wirefilter {
            Ok(String::from_str("vdeterm"))
        } else {
            Err(DeviceError::NotWirefilter)
        }
    }

    /// The arguments for the attach command: the management socket alone.
    pub fn attach_args(&self, base: &str) -> (r: Result<Vec<String>, DeviceError>)
        ensures
            match r {
                Ok(v) => self@.wirefilter && v.deep_view() == seq![
                    joined(joined(base@, self@.name), "mgmt"@),
                ],
                Err(e) => !self@.wirefilter && e == DeviceError::NotWirefilter,
            },
    {
        if self.wirefilter {
            let socke_p = match self.mgmt_path(base) {
                Ok(p) => p,
                Err(_) => String::new(),
            };
            let mut v: Vec<String> = Vec::new();
            push_arg(&mut v, socke_p);
            proof {
                assert(v.deep_view() =~= seq![joined(joined(base@, self@.name), "mgmt"@)]);
            }
            Ok(v)
        } else {
            Err(DeviceError::NotWirefilter)
        }
    }

    /// The program that runs a single management command against the
    /// wirefilter process; distinct from [`Self::exec_command`], which
    /// starts the connection.
    pub fn exec_command_command(&self) -> (r: Result<String, DeviceError>)
        ensures
            match r {
                Ok(c) => self@.wirefilter && c@ == "vdecmd"@,
                Err(e) => !self@.wirefilter && e == DeviceError::NotWirefilter,
            },
    {
        if self.wirefilter {
            Ok(String::from_str("vdecmd"))
        } else {
            Err(DeviceError::NotWirefilter)
        }
    }

    /// The arguments that run `command` against the management socket; the
    /// given command vector is drained into the result.
    pub fn exec_command_args(&self, base: &str, command: &mut Vec<String>) -> (r: Result<
        Vec<String>,
        DeviceError,
    >)
        ensures
            match r {
                Ok(v) => self@.wirefilter && v.deep_view() == seq![
                    "-s"@,
                    joined(joined(base@, self@.name), "mgmt"@),
                ] + old(command).deep_view() && final(command)@.len() == 0,
                Err(e) => !self@.wirefilter && e == DeviceError::NotWirefilter && *final(command)
                    == *old(command),
            },
    {
        if !self.wirefilter {
            return Err(DeviceError::NotWirefilter);
        }

        let mgmt_p = match self.mgmt_path(base) {
            Ok(p) => p,
            Err(_) => String::new(),
        };
        let mut args: Vec<String> = Vec::new();
        push_arg(&mut args, String::from_str("-s"));
        push_arg(&mut args, mgmt_p);
        let ghost pre_vec = args;
        let ghost cmd_vec = *command;
        args.append(command);
        proof {
            lemma_append_deep_view(args, pre_vec, cmd_vec);
            assert(pre_vec.deep_view() =~= seq![
                "-s"@,
                joined(joined(base@, self@.name), "mgmt"@),
            ]);
        }
        Ok(args)
    }
}

} // verus!
