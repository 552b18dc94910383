//! An overlay-mesh device: a point-to-point plug relayed into a
//! multicast overlay, optionally bound to a chosen address and port.

use vstd::prelude::*;
use vstd::string::StringExecFns;
use crate::strutil::{dec_of, joined, join_path, push_arg, u64_to_dec};

verus! {

/// Ghost image of a [`VXVDE`].
pub ghost struct VXVDEV {
    pub name: Seq<char>,
    pub addr: Option<Seq<char>>,
    pub port: Option<u16>,
}

/// A declared overlay-mesh device.
#[derive(Debug, Clone)]
pub struct VXVDE {
    pub name: String,
    pub addr: Option<String>,
    pub port: Option<u16>,
}

impl View for VXVDE {
    type V = VXVDEV;

    open spec fn view(&self) -> VXVDEV {
        VXVDEV { name: self.name@, addr: self.addr.deep_view(), port: self.port }
    }
}

impl DeepView for VXVDE {
    type V = VXVDEV;

    open spec fn deep_view(&self) -> VXVDEV {
        self.view()
    }
}

/// The overlay URL of the device: the overlay scheme, then the address if
/// one is set, then the port selector if one is set.
pub open spec fn vxvde_url(v: VXVDEV) -> Seq<char> {
    let withaddr = match v.addr {
        Some(a) => "vxvde://"@ + a,
        None => "vxvde://"@,
    };
    match v.port {
        Some(p) => withaddr + "/port="@ + dec_of(p as nat),
        None => withaddr,
    }
}

/// The argument vector that starts an overlay-mesh device: its pid file,
/// its point-to-point transport, and the overlay URL.
pub open spec fn vxvde_exec_args(v: VXVDEV, base: Seq<char>) -> Seq<Seq<char>> {
    seq![
        "--pidfile"@,
        joined(joined(base, v.name), "pid"@),
        "ptp://"@ + seq!['/'] + joined(joined(base, v.name), v.name),
        vxvde_url(v),
    ]
}

impl VXVDE {
    /// An overlay device with no chosen address or port.
    pub fn new(name: String) -> (r: VXVDE)
        ensures
            r@ == (VXVDEV { name: name@, addr: None, port: None }),
    {
        VXVDE { name, addr: None, port: None }
    }

    pub fn get_name(&self) -> (r: &String)
        ensures
            r@ == self@.name,
    {
        &self.name
    }

    pub fn set_addr(&mut self, addr: String)
        ensures
            final(self)@ == (VXVDEV { addr: Some(addr@), ..old(self)@ }),
    {
        self.addr = Some(addr);
    }

    pub fn get_addr(&self) -> (r: Option<&String>)
        ensures
            r.deep_view() == self@.addr,
    {
        self.addr.as_ref()
    }

    pub fn set_port(&mut self, port: u16)
        ensures
            final(self)@ == (VXVDEV { port: Some(port), ..old(self)@ }),
    {
        self.port = Some(port);
    }

    pub fn get_port(&self) -> (r: Option<u16>)
        ensures
            r == self@.port,
    {
        self.port
    }

    /// The directory that holds every file of this device, under `base`.
    pub fn base_path(&self, base: &str) -> (r: String)
        ensures
            r@ == joined(base@, self@.name),
    {
        join_path(base, self.name.as_str())
    }

    /// The pid file of the relay process, under `base`.
    pub fn pid_path(&self, base: &str) -> (r: String)
        ensures
            r@ == joined(joined(base@, self@.name), "pid"@),
    {
        let b = self.base_path(base);
        join_path(b.as_str(), "pid")
    }

    /// The program that starts the overlay relay.
    pub fn exec_command(&self) -> (r: String)
        ensures
            r@ == "vde_plug"@,
    {
        String::from_str("vde_plug")
    }

    /// The argument vector that starts this device under `base`.
    pub fn exec_args(&self, base: &str) -> (r: Vec<String>)
        ensures
            r.deep_view() == vxvde_exec_args(self@, base@),
    {
        let mut vxconn = String::from_str("vxvde://");
        if let Some(a) = &self.addr {
            vxconn.append(a.as_str());
        }
        if let Some(p) = self.port {
            vxconn.append("/port=");
            vxconn.append(u64_to_dec(p as u64).as_str());
        }
        proof {
            reveal_strlit("/port=");
            assert(vxconn@ =~= vxvde_url(self@));
        }

        let mut plug = String::from_str("ptp://");
        plug.append("/");
        let bp = self.base_path(base);
        plug.append(bp.as_str());
        plug.append("/");
        plug.append(self.name.as_str());
        proof {
            reveal_strlit("/");
            assert(plug@ =~= "ptp://"@ + seq!['/'] + joined(joined(base@, self@.name),
                self@.name));
        }

        let mut v: Vec<String> = Vec::new();
        push_arg(&mut v, String::from_str("--pidfile"));
        push_arg(&mut v, self.pid_path(base));
        push_arg(&mut v, plug);
        push_arg(&mut v, vxconn);
        proof {
            assert(v.deep_view() =~= vxvde_exec_args(self@, base@));
        }
        v
    }

    /// The transport path a cable plugs into, under `base`.
    pub fn conn_path(&self, base: &str) -> (r: Result<String, crate::errors::DeviceError>)
        ensures
            match r {
                Ok(p) => p@ == joined(joined(base@, self@.name), self@.name),
                Err(_) => false,
            },
    {
        let b = self.base_path(base);
        Ok(join_path(b.as_str(), self.name.as_str()))
    }
}

} // verus!
