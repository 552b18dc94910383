//! A NAT-exit device: a point-to-point plug relayed into a user-mode NAT
//! backend, giving a topology a way out to the host network.

use vstd::prelude::*;
use vstd::string::StringExecFns;
use crate::strutil::{joined, join_path, push_arg};

verus! {

/// Ghost image of a [`Slirp`].
pub ghost struct SlirpV {
    pub name: Seq<char>,
}

/// A declared NAT-exit device.
#[derive(Debug, Clone)]
pub struct Slirp {
    pub name: String,
}

impl View for Slirp {
    type V = SlirpV;

    open spec fn view(&self) -> SlirpV {
        SlirpV { name: self.name@ }
    }
}

impl DeepView for Slirp {
    type V = SlirpV;

    open spec fn deep_view(&self) -> SlirpV {
        self.view()
    }
}

/// The argument vector that starts a NAT-exit device: its pid file, its
/// point-to-point transport, and the NAT backend.
pub open spec fn slirp_exec_args(s: SlirpV, base: Seq<char>) -> Seq<Seq<char>> {
    seq![
        "--pidfile"@,
        joined(joined(base, s.name), "pid"@),
        "ptp://"@ + seq!['/'] + joined(joined(base, s.name), s.name),
        "slirp://"@,
    ]
}

impl Slirp {
    pub fn new(name: String) -> (r: Slirp)
        ensures
            r@ == (SlirpV { name: name@ }),
    {
        Slirp { name }
    }

    pub fn get_name(&self) -> (r: &String)
        ensures
            r@ == self@.name,
    {
        &self.name
    }

    /// The directory that holds every file of this device, under `base`.
    pub fn base_path(&self, base: &str) -> (r: String)
        ensures
            r@ == joined(base@, self@.name),
    {
        join_path(base, self.name.as_str())
    }

    /// The pid file of the relay process, under `base`.
    pub fn pid_path(&self, base: &str) -> (r: String)
        ensures
            r@ == joined(joined(base@, self@.name), "pid"@),
    {
        let b = self.base_path(base);
        join_path(b.as_str(), "pid")
    }

    /// The program that starts the NAT-exit relay.
    pub fn exec_command(&self) -> (r: String)
        ensures
            r@ == "vde_plug"@,
    {
        String::from_str("vde_plug")
    }

    /// The argument vector that starts this device under `base`.
    pub fn exec_args(&self, base: &str) -> (r: Vec<String>)
        ensures
            r.deep_view() == slirp_exec_args(self@, base@),
    {
        let mut plug = String::from_str("ptp://");
        plug.append("/");
        let bp = self.base_path(base);
        plug.append(bp.as_str());
        plug.append("/");
        plug.append(self.name.as_str());
        proof {
            reveal_strlit("/");
            assert(plug@ =~= "ptp://"@ + seq!['/'] + joined(joined(base@, self@.name),
                self@.name));
        }

        let mut v: Vec<String> = Vec::new();
        push_arg(&mut v, String::from_str("--pidfile"));
        push_arg(&mut v, self.pid_path(base));
        push_arg(&mut v, plug);
        push_arg(&mut v, String::from_str("slirp://"));
        proof {
            assert(v.deep_view() =~= slirp_exec_args(self@, base@));
        }
        v
    }

    /// The transport path a cable plugs into, under `base`.
    pub fn conn_path(&self, base: &str) -> (r: Result<String, crate::errors::DeviceError>)
        ensures
            match r {
                Ok(p) => p@ == joined(joined(base@, self@.name), self@.name),
                Err(_) => false,
            },
    {
        let b = self.base_path(base);
        Ok(join_path(b.as_str(), self.name.as_str()))
    }
}

} // verus!
