//! The user-authored declarative document and the validation engine that
//! turns it into a [`crate::topology::Topology`]: name uniqueness,
//! per-entity structural checks, endpoint resolution, port-range checks
//! and capacity accounting, in that order, stopping at the first failure.

use vstd::prelude::*;
use crate::addr::{
    cidr_check, CidrFault, gateway_check, GatewayFault, ip_of, parse_ip, validate_cidr,
};
use crate::strutil::{dec_val, is_dec_seq, parse_u64, push_arg, str_eq};

verus! {

/// Ghost image of a config [`Endpoint`].
pub ghost struct EndpointC {
    pub name: Seq<char>,
    pub port: Option<Seq<char>>,
    pub open: Option<bool>,
}

/// A cable end as the document declares it: a device name, an optional
/// port or interface selector, and whether the end is "open", bound to no
/// declared device.
#[derive(Debug, Clone)]
pub struct Endpoint {
    pub name: String,
    pub port: Option<String>,
    pub open: Option<bool>,
}

impl View for Endpoint {
    type V = EndpointC;

    open spec fn view(&self) -> EndpointC {
        EndpointC { name: self.name@, port: self.port.deep_view(), open: self.open }
    }
}

/// Ghost image of a config [`Switch`].
pub ghost struct SwitchC {
    pub name: Seq<char>,
    pub config: Option<Seq<char>>,
    pub ports: Option<u32>,
    pub hub: Option<bool>,
}

/// A switch as the document declares it.
#[derive(Debug, Clone)]
pub struct Switch {
    pub name: String,
    /// Path of a file with configuration lines, if any.
    pub config: Option<String>,
    pub ports: Option<u32>,
    pub hub: Option<bool>,
}

impl View for Switch {
    type V = SwitchC;

    open spec fn view(&self) -> SwitchC {
        SwitchC {
            name: self.name@,
            config: self.config.deep_view(),
            ports: self.ports,
            hub: self.hub,
        }
    }
}

impl DeepView for Switch {
    type V = SwitchC;

    open spec fn deep_view(&self) -> SwitchC {
        self.view()
    }
}

/// Ghost image of a config [`NSInterface`].
pub ghost struct NSInterfaceC {
    pub name: Seq<char>,
    pub ip: Option<Seq<char>>,
    pub gateway: Option<Seq<char>>,
}

/// A namespace interface as the document declares it.
#[derive(Debug, Clone)]
pub struct NSInterface {
    pub name: String,
    pub ip: Option<String>,
    pub gateway: Option<String>,
}

impl View for NSInterface {
    type V = NSInterfaceC;

    open spec fn view(&self) -> NSInterfaceC {
        NSInterfaceC { name: self.name@, ip: self.ip.deep_view(), gateway: self.gateway.deep_view() }
    }
}

impl DeepView for NSInterface {
    type V = NSInterfaceC;

    open spec fn deep_view(&self) -> NSInterfaceC {
        self.view()
    }
}

/// Ghost image of a config [`Namespace`].
pub ghost struct NamespaceC {
    pub name: Seq<char>,
    pub interfaces: Seq<NSInterfaceC>,
}

/// A namespace as the document declares it.
#[derive(Debug, Clone)]
pub struct Namespace {
    pub name: String,
    pub interfaces: Vec<NSInterface>,
}

impl View for Namespace {
    type V = NamespaceC;

    open spec fn view(&self) -> NamespaceC {
        NamespaceC { name: self.name@, interfaces: self.interfaces.deep_view() }
    }
}

impl DeepView for Namespace {
    type V = NamespaceC;

    open spec fn deep_view(&self) -> NamespaceC {
        self.view()
    }
}

/// Ghost image of a config [`Cable`].
pub ghost struct CableC {
    pub name: Seq<char>,
    pub endpoint_a: EndpointC,
    pub endpoint_b: EndpointC,
    pub wirefilter: Option<bool>,
    pub config: Option<Seq<char>>,
}

/// A cable as the document declares it.
#[derive(Debug, Clone)]
pub struct Cable {
    pub name: String,
    pub endpoint_a: Endpoint,
    pub endpoint_b: Endpoint,
    pub wirefilter: Option<bool>,
    /// Path of a file with filter-configuration lines, if any.
    pub config: Option<String>,
}

impl View for Cable {
    type V = CableC;

    open spec fn view(&self) -> CableC {
        CableC {
            name: self.name@,
            endpoint_a: self.endpoint_a@,
            endpoint_b: self.endpoint_b@,
            wirefilter: self.wirefilter,
            config: self.config.deep_view(),
        }
    }
}

impl DeepView for Cable {
    type V = CableC;

    open spec fn deep_view(&self) -> CableC {
        self.view()
    }
}

/// Ghost image of a config [`Slirp`].
pub ghost struct SlirpC {
    pub name: Seq<char>,
}

/// A NAT-exit device as the document declares it.
#[derive(Debug, Clone)]
pub struct Slirp {
    pub name: String,
}

impl View for Slirp {
    type V = SlirpC;

    open spec fn view(&self) -> SlirpC {
        SlirpC { name: self.name@ }
    }
}

impl DeepView for Slirp {
    type V = SlirpC;

    open spec fn deep_view(&self) -> SlirpC {
        self.view()
    }
}

/// Ghost image of a config [`VXVDE`].
pub ghost struct VxvdeC {
    pub name: Seq<char>,
    pub addr: Option<Seq<char>>,
    pub port: Option<u16>,
}

/// An overlay-mesh device as the document declares it.
#[derive(Debug, Clone)]
pub struct VXVDE {
    pub name: String,
    pub addr: Option<String>,
    pub port: Option<u16>,
}

impl View for VXVDE {
    type V = VxvdeC;

    open spec fn view(&self) -> VxvdeC {
        VxvdeC { name: self.name@, addr: self.addr.deep_view(), port: self.port }
    }
}

impl DeepView for VXVDE {
    type V = VxvdeC;

    open spec fn deep_view(&self) -> VxvdeC {
        self.view()
    }
}

/// Ghost image of a [`Config`].
pub ghost struct ConfigV {
    pub switch: Seq<SwitchC>,
    pub namespace: Seq<NamespaceC>,
    pub cable: Seq<CableC>,
    pub slirp: Seq<SlirpC>,
    pub vxvde: Seq<VxvdeC>,
}

/// The whole declarative document.  Each section may be absent, which
/// reads as empty.
#[derive(Debug, Clone)]
pub struct Config {
    pub switch: Option<Vec<Switch>>,
    pub namespace: Option<Vec<Namespace>>,
    pub cable: Option<Vec<Cable>>,
    pub slirp: Option<Vec<Slirp>>,
    pub vxvde: Option<Vec<VXVDE>>,
}

/// An absent section reads as an empty one.
pub open spec fn opt_seq<T, V>(o: Option<Vec<T>>) -> Seq<V> where T: DeepView<V = V> {
    match o {
        Some(v) => v.deep_view(),
        None => Seq::<V>::empty(),
    }
}

impl View for Config {
    type V = ConfigV;

    open spec fn view(&self) -> ConfigV {
        ConfigV {
            switch: opt_seq(self.switch),
            namespace: opt_seq(self.namespace),
            cable: opt_seq(self.cable),
            slirp: opt_seq(self.slirp),
            vxvde: opt_seq(self.vxvde),
        }
    }
}

/// Ghost image of a [`ValidationError`].
pub ghost enum ValidationErrorV {
    DuplicateName { name: Seq<char> },
    ZeroPorts { switch: Seq<char> },
    ConfigWithoutFilter { cable: Seq<char> },
    GatewayWithoutIp { interface: Seq<char> },
    InvalidCidr { interface: Seq<char>, fault: CidrFault },
    InvalidGateway { interface: Seq<char>, fault: GatewayFault },
    MultipleGateways { namespace: Seq<char> },
    UnknownEndpoint { cable: Seq<char>, endpoint: Seq<char> },
    BadPort { cable: Seq<char>, port: Seq<char> },
    PortOutOfRange { cable: Seq<char>, endpoint: Seq<char>, port: u64, max: u64, zero_hint: bool },
    PortAlreadyUsed { cable: Seq<char>, endpoint: Seq<char>, port: Seq<char> },
    SwitchOverCommitted { endpoint: Seq<char>, capacity: u64 },
    ConfigFileUnreadable { entity: Seq<char>, path: Seq<char> },
}

/// Why a document was rejected: the error classes of the validation
/// engine, each carrying the offending entity's name.
#[derive(Debug, Clone, PartialEq, Eq)]
pub enum ValidationError {
    /// Two devices of any kinds share a name.
    DuplicateName { name: String },
    /// A switch declares a port count of zero.
    ZeroPorts { switch: String },
    /// A cable has a filter-config file but no filtering flag.
    ConfigWithoutFilter { cable: String },
    /// An interface declares a gateway but no address.
    GatewayWithoutIp { interface: String },
    /// An interface address is not valid CIDR.
    InvalidCidr { interface: String, fault: CidrFault },
    /// An interface gateway does not fit its address.
    InvalidGateway { interface: String, fault: GatewayFault },
    /// A namespace declares more than one gateway-bearing interface.
    MultipleGateways { namespace: String },
    /// A cable endpoint names no declared device.
    UnknownEndpoint { cable: String, endpoint: String },
    /// A switch port selector is not a number.
    BadPort { cable: String, port: String },
    /// A switch port selector is outside `0..capacity`; `zero_hint` marks
    /// the off-by-one case of naming the capacity itself.
    PortOutOfRange { cable: String, endpoint: String, port: u64, max: u64, zero_hint: bool },
    /// A (device, port) pair is used by more than one cable end.
    PortAlreadyUsed { cable: String, endpoint: String, port: String },
    /// More cable ends reference a switch than it has ports.
    SwitchOverCommitted { endpoint: String, capacity: u64 },
    /// A declared config file cannot be read.  The engine itself does no
    /// reading; callers that resolve paths use this class.
    ConfigFileUnreadable { entity: String, path: String },
}

impl View for ValidationError {
    type V = ValidationErrorV;

    open spec fn view(&self) -> ValidationErrorV {
        match self {
            ValidationError::DuplicateName { name } => ValidationErrorV::DuplicateName {
                name: name@,
            },
            ValidationError::ZeroPorts { switch } => ValidationErrorV::ZeroPorts {
                switch: switch@,
            },
            ValidationError::ConfigWithoutFilter { cable } => ValidationErrorV::ConfigWithoutFilter {
                cable: cable@,
            },
            ValidationError::GatewayWithoutIp { interface } => ValidationErrorV::GatewayWithoutIp {
                interface: interface@,
            },
            ValidationError::InvalidCidr { interface, fault } => ValidationErrorV::InvalidCidr {
                interface: interface@,
                fault: *fault,
            },
            ValidationError::InvalidGateway { interface, fault } => ValidationErrorV::InvalidGateway {
                interface: interface@,
                fault: *fault,
            },
            ValidationError::MultipleGateways { namespace } => ValidationErrorV::MultipleGateways {
                namespace: namespace@,
            },
            ValidationError::UnknownEndpoint { cable, endpoint } => ValidationErrorV::UnknownEndpoint {
                cable: cable@,
                endpoint: endpoint@,
            },
            ValidationError::BadPort { cable, port } => ValidationErrorV::BadPort {
                cable: cable@,
                port: port@,
            },
            ValidationError::PortOutOfRange { cable, endpoint, port, max, zero_hint } => ValidationErrorV::PortOutOfRange {
                cable: cable@,
                endpoint: endpoint@,
                port: *port,
                max: *max,
                zero_hint: *zero_hint,
            },
            ValidationError::PortAlreadyUsed { cable, endpoint, port } => ValidationErrorV::PortAlreadyUsed {
                cable: cable@,
                endpoint: endpoint@,
                port: port@,
            },
            ValidationError::SwitchOverCommitted { endpoint, capacity } => ValidationErrorV::SwitchOverCommitted {
                endpoint: endpoint@,
                capacity: *capacity,
            },
            ValidationError::ConfigFileUnreadable { entity, path } => ValidationErrorV::ConfigFileUnreadable {
                entity: entity@,
                path: path@,
            },
        }
    }
}

/// The verdict the checks owe a single interface: nothing without an
/// address (and then no gateway either); with an address, valid CIDR; with
/// a gateway as well, a parseable gateway that fits the address.
pub open spec fn iface_verdict(i: NSInterfaceC) -> Result<(), ValidationErrorV> {
    match i.ip {
        None => match i.gateway {
            None => Ok(()),
            Some(_) => Err(ValidationErrorV::GatewayWithoutIp { interface: i.name }),
        },
        Some(ip) => match cidr_check(ip) {
            Err(f) => Err(ValidationErrorV::InvalidCidr { interface: i.name, fault: f }),
            Ok((ipv, prefix)) => match i.gateway {
                None => Ok(()),
                Some(g) => match ip_of(g) {
                    None => Err(
                        ValidationErrorV::InvalidGateway {
                            interface: i.name,
                            fault: GatewayFault::BadAddress,
                        },
                    ),
                    Some(gv) => match gateway_check(ipv, prefix, gv) {
                        Err(f) => Err(
                            ValidationErrorV::InvalidGateway { interface: i.name, fault: f },
                        ),
                        Ok(_) => Ok(()),
                    },
                },
            },
        },
    }
}

impl NSInterface {
    /// Validate this interface's address plan; see [`iface_verdict`].
    pub fn checks(&self) -> (r: Result<(), ValidationError>)
        ensures
            match r {
                Ok(_) => iface_verdict(self@) == Result::<(), ValidationErrorV>::Ok(()),
                Err(e) => iface_verdict(self@) == Result::<(), ValidationErrorV>::Err(e@) && (e@
                    is GatewayWithoutIp || e@ is InvalidCidr || e@ is InvalidGateway),
            },
    {
        let ip = match &self.ip {
            None => {
                match &self.gateway {
                    None => {
                        return Ok(());
                    },
                    Some(_) => {
                        return Err(
                            ValidationError::GatewayWithoutIp { interface: self.name.clone() },
                        );
                    },
                }
            },
            Some(ip) => ip,
        };

        let (ipv, prefix) = match validate_cidr(ip.as_str()) {
            Err(f) => {
                return Err(ValidationError::InvalidCidr { interface: self.name.clone(), fault: f });
            },
            Ok(p) => p,
        };

        let gw = match &self.gateway {
            None => {
                return Ok(());
            },
            Some(g) => g,
        };

        let gv = match parse_ip(gw.as_str()) {
            None => {
                return Err(
                    ValidationError::InvalidGateway {
                        interface: self.name.clone(),
                        fault: GatewayFault::BadAddress,
                    },
                );
            },
            Some(gv) => gv,
        };

        match crate::addr::check_gateway(ipv, prefix, gv) {
            Err(f) => Err(
                ValidationError::InvalidGateway { interface: self.name.clone(), fault: f },
            ),
            Ok(_) => Ok(()),
        }
    }
}

/// How many interfaces of the run declare a gateway.
pub open spec fn gateway_count(ifs: Seq<NSInterfaceC>) -> nat
    decreases ifs.len(),
{
    if ifs.len() == 0 {
        0
    } else {
        gateway_count(ifs.drop_last()) + (if ifs.last().gateway is Some {
            1nat
        } else {
            0nat
        })
    }
}

/// The verdict the checks owe a namespace: every interface valid, and at
/// most one gateway-bearing interface.
pub open spec fn namespace_ok(n: NamespaceC) -> bool {
    &&& forall|i: int|
        0 <= i < n.interfaces.len() ==> iface_verdict(n.interfaces[i]) == Result::<
            (),
            ValidationErrorV,
        >::Ok(())
    &&& gateway_count(n.interfaces) <= 1
}

impl Namespace {
    /// Validate every interface of the namespace and enforce the single
    /// gateway; on failure the error names the first offender, a second
    /// gateway surfacing as [`ValidationError::MultipleGateways`].
    pub fn checks(&self) -> (r: Result<(), ValidationError>)
        ensures
            r is Ok <==> namespace_ok(self@),
            match r {
                Ok(_) => true,
                Err(e) => e@ is GatewayWithoutIp || e@ is InvalidCidr || e@ is InvalidGateway
                    || e@ is MultipleGateways,
            },
    {
        let mut found_gateway = false;
        let n = self.interfaces.len();
        let mut i: usize = 0;
        while i < n
            invariant
                n == self.interfaces.len(),
                0 <= i <= n,
                forall|j: int|
                    0 <= j < i ==> iface_verdict(self@.interfaces[j]) == Result::<
                        (),
                        ValidationErrorV,
                    >::Ok(()),
                gateway_count(self@.interfaces.subrange(0, i as int)) == (if found_gateway {
                    1nat
                } else {
                    0nat
                }),
            decreases n - i,
        {
            let iface = &self.interfaces[i];
            if let Err(e) = iface.checks() {
                proof {
                    assert(iface_verdict(self@.interfaces[i as int]) == Result::<
                        (),
                        ValidationErrorV,
                    >::Err(e@));
                    assert(!namespace_ok(self@));
                }
                return Err(e);
            }

            proof {
                assert(self@.interfaces.subrange(0, i + 1).drop_last() =~= self@.interfaces
                    .subrange(0, i as int));
            }
            if iface.gateway.is_some() {
                if found_gateway {
                    proof {
                        lemma_gateway_count_prefix(self@.interfaces, i + 1);
                    }
                    return Err(
                        ValidationError::MultipleGateways { namespace: self.name.clone() },
                    );
                } else {
                    found_gateway = true;
                }
            }
            i = i + 1;
        }
        proof {
            assert(self@.interfaces.subrange(0, n as int) =~= self@.interfaces);
        }
        Ok(())
    }
}

/// A prefix of the interface run never declares more gateways than the
/// whole run.
proof fn lemma_gateway_count_prefix(ifs: Seq<NSInterfaceC>, k: int)
    requires
        0 <= k <= ifs.len(),
    ensures
        gateway_count(ifs.subrange(0, k)) <= gateway_count(ifs),
    decreases ifs.len() - k,
{
    if k == ifs.len() {
        assert(ifs.subrange(0, k) =~= ifs);
    } else {
        lemma_gateway_count_prefix(ifs, k + 1);
        assert(ifs.subrange(0, k + 1).drop_last() =~= ifs.subrange(0, k));
        assert(gateway_count(ifs.subrange(0, k + 1)) >= gateway_count(ifs.subrange(0, k)));
    }
}

/// The structural check a switch owes: a declared port count may not be
/// zero.  (Whether a declared config file is readable is its caller's
/// concern; this engine reads no files.)
pub open spec fn switch_decl_ok(s: SwitchC) -> bool {
    s.ports is Some ==> s.ports->0 != 0
}

impl Switch {
    /// Structural check; see [`switch_decl_ok`].
    pub fn checks(&self) -> (r: Result<(), ValidationError>)
        ensures
            r is Ok <==> switch_decl_ok(self@),
            r is Err ==> r->Err_0@ == (ValidationErrorV::ZeroPorts { switch: self@.name }),
    {
        if let Some(p) = self.ports {
            if p == 0 {
                return Err(ValidationError::ZeroPorts { switch: self.name.clone() });
            }
        }
        Ok(())
    }
}

/// The structural check a cable owes: a filter-config file demands the
/// filtering flag.
pub open spec fn cable_decl_ok(c: CableC) -> bool {
    c.config is Some ==> c.wirefilter == Some(true)
}

impl Cable {
    /// Structural check; see [`cable_decl_ok`].
    pub fn checks(&self) -> (r: Result<(), ValidationError>)
        ensures
            r is Ok <==> cable_decl_ok(self@),
            r is Err ==> r->Err_0@ == (ValidationErrorV::ConfigWithoutFilter { cable: self@.name }),
    {
        if self.config.is_some() {
            let wf = match self.wirefilter {
                Some(w) => w,
                None => false,
            };
            if !wf {
                return Err(ValidationError::ConfigWithoutFilter { cable: self.name.clone() });
            }
        }
        Ok(())
    }
}

/// All declared names in checking order: namespaces, switches, cables,
/// then the auxiliary kinds.
pub open spec fn cfg_names(c: ConfigV) -> Seq<Seq<char>> {
    c.namespace.map_values(|n: NamespaceC| n.name) + c.switch.map_values(|s: SwitchC| s.name)
        + c.cable.map_values(|cb: CableC| cb.name) + c.slirp.map_values(|s: SlirpC| s.name)
        + c.vxvde.map_values(|v: VxvdeC| v.name)
}

/// No two declared devices, of any kinds, share a name.
pub open spec fn cfg_names_unique(c: ConfigV) -> bool {
    forall|i: int, j: int|
        0 <= i < j < cfg_names(c).len() ==> cfg_names(c)[i] != cfg_names(c)[j]
}

/// Some declared switch has this name.
pub open spec fn cfg_switch_named(c: ConfigV, n: Seq<char>) -> bool {
    exists|i: int| 0 <= i < c.switch.len() && c.switch[i].name == n
}

/// Some declared namespace has this name.
pub open spec fn cfg_ns_named(c: ConfigV, n: Seq<char>) -> bool {
    exists|i: int| 0 <= i < c.namespace.len() && c.namespace[i].name == n
}

/// Some declared namespace with at least one interface has this name; a
/// namespace without interfaces offers nothing to plug into.
pub open spec fn cfg_ns_named_with_iface(c: ConfigV, n: Seq<char>) -> bool {
    exists|i: int|
        0 <= i < c.namespace.len() && c.namespace[i].name == n && c.namespace[i].interfaces.len()
            > 0
}

/// The port capacity a switch declaration offers.
pub open spec fn switch_cap_of(s: SwitchC) -> u32 {
    match s.ports {
        Some(p) => p,
        None => 32,
    }
}

/// The capacity of the first switch of that name in the run, or the
/// default when none matches.
pub open spec fn first_switch_cap(ss: Seq<SwitchC>, n: Seq<char>) -> u32
    decreases ss.len(),
{
    if ss.len() == 0 {
        32
    } else if ss[0].name == n {
        switch_cap_of(ss[0])
    } else {
        first_switch_cap(ss.subrange(1, ss.len() as int), n)
    }
}

/// The verdict the endpoint checks owe one cable end: an open end needs
/// nothing; otherwise the name must resolve, and a switch end with a port
/// selector needs a numeric port strictly below the capacity — naming the
/// capacity itself earns the zero-indexing hint.
pub open spec fn ep_verdict(c: ConfigV, cable: Seq<char>, ep: EndpointC) -> Result<
    (),
    ValidationErrorV,
> {
    if ep.open == Some(true) {
        Ok(())
    } else if !(cfg_switch_named(c, ep.name) || cfg_ns_named_with_iface(c, ep.name)) {
        Err(ValidationErrorV::UnknownEndpoint { cable: cable, endpoint: ep.name })
    } else if cfg_switch_named(c, ep.name) {
        match ep.port {
            None => Ok(()),
            Some(p) => if !(is_dec_seq(p) && dec_val(p) <= u64::MAX) {
                Err(ValidationErrorV::BadPort { cable: cable, port: p })
            } else {
                let cap = first_switch_cap(c.switch, ep.name) as u64;
                if dec_val(p) >= cap {
                    Err(
                        ValidationErrorV::PortOutOfRange {
                            cable: cable,
                            endpoint: ep.name,
                            port: dec_val(p) as u64,
                            max: cap,
                            zero_hint: dec_val(p) == cap,
                        },
                    )
                } else {
                    Ok(())
                }
            },
        }
    } else {
        Ok(())
    }
}

/// The (device, port) pairs one cable end occupies: one pair when the end
/// is bound to a declared device and selects a port or interface.
pub open spec fn side_pairs(c: ConfigV, ep: EndpointC) -> Seq<(Seq<char>, Seq<char>)> {
    if ep.open != Some(true) && (cfg_switch_named(c, ep.name) || cfg_ns_named(c, ep.name))
        && ep.port is Some {
        seq![(ep.name, ep.port->0)]
    } else {
        Seq::<(Seq<char>, Seq<char>)>::empty()
    }
}

/// The (device, port) pairs the first `k` cables occupy, in declaration
/// order, end `a` before end `b`.
pub open spec fn pairs_upto(c: ConfigV, k: int) -> Seq<(Seq<char>, Seq<char>)>
    decreases k,
{
    if k <= 0 {
        Seq::<(Seq<char>, Seq<char>)>::empty()
    } else {
        pairs_upto(c, k - 1) + side_pairs(c, c.cable[k - 1].endpoint_a) + side_pairs(
            c,
            c.cable[k - 1].endpoint_b,
        )
    }
}

/// No (device, port) pair occurs twice.
pub open spec fn no_dup_pairs(s: Seq<(Seq<char>, Seq<char>)>) -> bool {
    forall|i: int, j: int| 0 <= i < j < s.len() ==> s[i] != s[j]
}

/// How many ends of the first `k` cables are bound to the device named
/// `n`, with or without a port selector.
pub open spec fn usage_upto(c: ConfigV, n: Seq<char>, k: int) -> nat
    decreases k,
{
    if k <= 0 {
        0
    } else {
        usage_upto(c, n, k - 1) + end_count(c.cable[k - 1].endpoint_a, n) + end_count(
            c.cable[k - 1].endpoint_b,
            n,
        )
    }
}

/// Whether one cable end binds to the device named `n`.
pub open spec fn end_count(ep: EndpointC, n: Seq<char>) -> nat {
    if ep.open != Some(true) && ep.name == n {
        1
    } else {
        0
    }
}

/// A document passes the validation engine exactly when: names are unique
/// across all kinds; every switch, namespace and cable passes its
/// structural checks; every bound cable end resolves and respects the port
/// range; no (device, port) pair is claimed twice; and no switch has more
/// ends bound to it than it has ports.
pub open spec fn config_valid(c: ConfigV) -> bool {
    &&& cfg_names_unique(c)
    &&& forall|i: int| 0 <= i < c.switch.len() ==> switch_decl_ok(c.switch[i])
    &&& forall|i: int| 0 <= i < c.namespace.len() ==> namespace_ok(c.namespace[i])
    &&& forall|i: int| 0 <= i < c.cable.len() ==> cable_decl_ok(c.cable[i])
    &&& forall|i: int|
        0 <= i < c.cable.len() ==> ep_verdict(c, c.cable[i].name, c.cable[i].endpoint_a)
            == Result::<(), ValidationErrorV>::Ok(()) && ep_verdict(
            c,
            c.cable[i].name,
            c.cable[i].endpoint_b,
        ) == Result::<(), ValidationErrorV>::Ok(())
    &&& no_dup_pairs(pairs_upto(c, c.cable.len() as int))
    &&& forall|i: int|
        0 <= i < c.switch.len() ==> usage_upto(c, c.switch[i].name, c.cable.len() as int)
            <= switch_cap_of(c.switch[i])
}

/// Later cables only append to the occupied-pair run.
proof fn lemma_pairs_prefix(c: ConfigV, k: int, m: int)
    requires
        0 <= k <= m,
    ensures
        pairs_upto(c, k).len() <= pairs_upto(c, m).len(),
        forall|x: int| 0 <= x < pairs_upto(c, k).len() ==> pairs_upto(c, m)[x] == pairs_upto(c, k)[x],
    decreases m - k,
{
    if k < m {
        lemma_pairs_prefix(c, k, m - 1);
    }
}

impl Config {
    fn has_switch(&self, n: &str) -> (r: bool)
        ensures
            r == cfg_switch_named(self@, n@),
    {
        match &self.switch {
            None => {
                proof {
                    assert(self@.switch =~= Seq::<SwitchC>::empty());
                }
                false
            },
            Some(sws) => {
                let m = sws.len();
                let mut i: usize = 0;
                while i < m
                    invariant
                        m == sws.len(),
                        0 <= i <= m,
                        self@.switch == sws.deep_view(),
                        forall|j: int| 0 <= j < i ==> self@.switch[j].name != n@,
                    decreases m - i,
                {
                    if str_eq(sws[i].name.as_str(), n) {
                        proof {
                            assert(self@.switch[i as int].name == n@);
                        }
                        return true;
                    }
                    i = i + 1;
                }
                false
            },
        }
    }

    fn has_namespace(&self, n: &str) -> (r: bool)
        ensures
            r == cfg_ns_named(self@, n@),
    {
        match &self.namespace {
            None => {
                proof {
                    assert(self@.namespace =~= Seq::<NamespaceC>::empty());
                }
                false
            },
            Some(nss) => {
                let m = nss.len();
                let mut i: usize = 0;
                while i < m
                    invariant
                        m == nss.len(),
                        0 <= i <= m,
                        self@.namespace == nss.deep_view(),
                        forall|j: int| 0 <= j < i ==> self@.namespace[j].name != n@,
                    decreases m - i,
                {
                    if str_eq(nss[i].name.as_str(), n) {
                        proof {
                            assert(self@.namespace[i as int].name == n@);
                        }
                        return true;
                    }
                    i = i + 1;
                }
                false
            },
        }
    }

    fn has_namespace_with_iface(&self, n: &str) -> (r: bool)
        ensures
            r == cfg_ns_named_with_iface(self@, n@),
    {
        match &self.namespace {
            None => {
                proof {
                    assert(self@.namespace =~= Seq::<NamespaceC>::empty());
                }
                false
            },
            Some(nss) => {
                let m = nss.len();
                let mut i: usize = 0;
                while i < m
                    invariant
                        m == nss.len(),
                        0 <= i <= m,
                        self@.namespace == nss.deep_view(),
                        forall|j: int|
                            0 <= j < i ==> !(self@.namespace[j].name == n@
                                && self@.namespace[j].interfaces.len() > 0),
                    decreases m - i,
                {
                    if str_eq(nss[i].name.as_str(), n) && nss[i].interfaces.len() > 0 {
                        proof {
                            assert(self@.namespace[i as int].name == n@
                                && self@.namespace[i as int].interfaces.len() > 0);
                        }
                        return true;
                    }
                    i = i + 1;
                }
                false
            },
        }
    }

    fn cap_for(&self, n: &str) -> (r: u32)
        ensures
            r == first_switch_cap(self@.switch, n@),
    {
        match &self.switch {
            None => {
                proof {
                    assert(self@.switch =~= Seq::<SwitchC>::empty());
                }
                32
            },
            Some(sws) => {
                let m = sws.len();
                let mut i: usize = 0;
                proof {
                    assert(self@.switch.subrange(0, m as int) =~= self@.switch);
                }
                while i < m
                    invariant
                        m == sws.len(),
                        0 <= i <= m,
                        self@.switch == sws.deep_view(),
                        first_switch_cap(self@.switch, n@) == first_switch_cap(
                            self@.switch.subrange(i as int, m as int),
                            n@,
                        ),
                    decreases m - i,
                {
                    proof {
                        assert(self@.switch.subrange(i as int, m as int)[0] == self@.switch[
                            i as int
                        ]);
                        assert(self@.switch.subrange(i as int, m as int).subrange(
                            1,
                            (m - i) as int,
                        ) =~= self@.switch.subrange(i + 1, m as int));
                    }
                    if str_eq(sws[i].name.as_str(), n) {
                        return match sws[i].ports {
                            Some(p) => p,
                            None => 32,
                        };
                    }
                    i = i + 1;
                }
                proof {
                    assert(self@.switch.subrange(m as int, m as int) =~= Seq::<SwitchC>::empty());
                }
                32
            },
        }
    }

    /// Check one cable end; see [`ep_verdict`].
    fn ep_check(&self, cable_name: &String, ep: &Endpoint) -> (r: Result<(), ValidationError>)
        ensures
            match r {
                Ok(_) => ep_verdict(self@, cable_name@, ep@) == Result::<
                    (),
                    ValidationErrorV,
                >::Ok(()),
                Err(e) => ep_verdict(self@, cable_name@, ep@) == Result::<
                    (),
                    ValidationErrorV,
                >::Err(e@),
            },
    {
        if ep.open == Some(true) {
            return Ok(());
        }
        let is_switch = self.has_switch(ep.name.as_str());
        let is_ns = self.has_namespace_with_iface(ep.name.as_str());
        if !is_switch && !is_ns {
            return Err(
                ValidationError::UnknownEndpoint {
                    cable: cable_name.clone(),
                    endpoint: ep.name.clone(),
                },
            );
        }
        if is_switch {
            if let Some(p) = &ep.port {
                let pv = match parse_u64(p.as_str()) {
                    None => {
                        return Err(
                            ValidationError::BadPort { cable: cable_name.clone(), port: p.clone() },
                        );
                    },
                    Some(pv) => pv,
                };
                let cap = self.cap_for(ep.name.as_str()) as u64;
                if pv >= cap {
                    return Err(
                        ValidationError::PortOutOfRange {
                            cable: cable_name.clone(),
                            endpoint: ep.name.clone(),
                            port: pv,
                            max: cap,
                            zero_hint: pv == cap,
                        },
                    );
                }
            }
        }
        Ok(())
    }
}

/// Usage counts only grow as more cables are considered.
proof fn lemma_usage_mono(c: ConfigV, n: Seq<char>, k: int, m: int)
    requires
        0 <= k <= m,
    ensures
        usage_upto(c, n, k) <= usage_upto(c, n, m),
    decreases m - k,
{
    if k < m {
        lemma_usage_mono(c, n, k, m - 1);
    }
}

/// Record a name if it is new; report whether it was.
fn scan_unique(seen: &mut Vec<String>, name: &String) -> (r: bool)
    ensures
        r == (forall|j: int| 0 <= j < old(seen)@.len() ==> old(seen).deep_view()[j] != name@),
        r ==> final(seen).deep_view() == old(seen).deep_view().push(name@),
        !r ==> *final(seen) == *old(seen) && exists|j: int|
            0 <= j < old(seen)@.len() && old(seen).deep_view()[j] == name@,
{
    let m = seen.len();
    let mut i: usize = 0;
    while i < m
        invariant
            m == seen@.len(),
            0 <= i <= m,
            forall|j: int| 0 <= j < i ==> seen.deep_view()[j] != name@,
        decreases m - i,
    {
        if str_eq(seen[i].as_str(), name.as_str()) {
            proof {
                assert(seen.deep_view()[i as int] == name@);
            }
            return false;
        }
        i = i + 1;
    }
    crate::strutil::push_arg(seen, name.clone());
    true
}

impl Config {
    /// Whether more cable ends bind to the device named `n` than `cap`
    /// allows.
    fn usage_exceeds(&self, n: &str, cap: u64) -> (r: bool)
        requires
            cap <= 0xFFFF_FFFFu64,
        ensures
            r == (usage_upto(self@, n@, self@.cable.len() as int) > cap),
    {
        match &self.cable {
            None => {
                proof {
                    assert(self@.cable =~= Seq::<CableC>::empty());
                }
                false
            },
            Some(cables) => {
                let m = cables.len();
                let mut count: u64 = 0;
                let mut k: usize = 0;
                while k < m
                    invariant
                        m == cables.len(),
                        0 <= k <= m,
                        self@.cable == cables.deep_view(),
                        count as nat == usage_upto(self@, n@, k as int),
                        count <= cap,
                    decreases m - k,
                {
                    let cb = &cables[k];
                    let ghost ua = end_count(self@.cable[k as int].endpoint_a, n@);
                    let ghost ub = end_count(self@.cable[k as int].endpoint_b, n@);
                    proof {
                        assert(usage_upto(self@, n@, k + 1) == usage_upto(self@, n@, k as int)
                            + ua + ub);
                    }
                    let a_open = cb.endpoint_a.open == Some(true);
                    if !a_open && str_eq(cb.endpoint_a.name.as_str(), n) {
                        proof {
                            assert(ua == 1);
                        }
                        if count == cap {
                            proof {
                                lemma_usage_mono(self@, n@, k + 1, m as int);
                            }
                            return true;
                        }
                        count = count + 1;
                    } else {
                        proof {
                            assert(ua == 0);
                        }
                    }
                    let b_open = cb.endpoint_b.open == Some(true);
                    if !b_open && str_eq(cb.endpoint_b.name.as_str(), n) {
                        proof {
                            assert(ub == 1);
                        }
                        if count == cap {
                            proof {
                                lemma_usage_mono(self@, n@, k + 1, m as int);
                            }
                            return true;
                        }
                        count = count + 1;
                    } else {
                        proof {
                            assert(ub == 0);
                        }
                    }
                    k = k + 1;
                }
                false
            },
        }
    }

    /// Run every check of the validation engine, in order: name
    /// uniqueness across all kinds, per-entity structural checks, endpoint
    /// resolution with port ranges, pair occupancy, and switch capacity.
    /// Succeeds exactly on documents that [`config_valid`] admits; each
    /// error class is only ever reported for a matching violation.
    pub fn checks(&self) -> (r: Result<(), ValidationError>)
        ensures
            r is Ok <==> config_valid(self@),
            match r {
                Ok(_) => true,
                Err(e) => match e@ {
                    ValidationErrorV::DuplicateName { .. } => !cfg_names_unique(self@),
                    ValidationErrorV::ZeroPorts { .. } => exists|i: int|
                        #![auto]
                        0 <= i < self@.switch.len() && !switch_decl_ok(self@.switch[i]),
                    ValidationErrorV::ConfigWithoutFilter { .. } => exists|i: int|
                        #![auto]
                        0 <= i < self@.cable.len() && !cable_decl_ok(self@.cable[i]),
                    ValidationErrorV::GatewayWithoutIp { .. } => exists|i: int|
                        #![auto]
                        0 <= i < self@.namespace.len() && !namespace_ok(self@.namespace[i]),
                    ValidationErrorV::InvalidCidr { .. } => exists|i: int|
                        #![auto]
                        0 <= i < self@.namespace.len() && !namespace_ok(self@.namespace[i]),
                    ValidationErrorV::InvalidGateway { .. } => exists|i: int|
                        #![auto]
                        0 <= i < self@.namespace.len() && !namespace_ok(self@.namespace[i]),
                    ValidationErrorV::MultipleGateways { .. } => exists|i: int|
                        #![auto]
                        0 <= i < self@.namespace.len() && !namespace_ok(self@.namespace[i]),
                    ValidationErrorV::UnknownEndpoint { .. } => exists|i: int|
                        #![auto]
                        0 <= i < self@.cable.len() && (ep_verdict(
                            self@,
                            self@.cable[i].name,
                            self@.cable[i].endpoint_a,
                        ) == Result::<(), ValidationErrorV>::Err(e@) || ep_verdict(
                            self@,
                            self@.cable[i].name,
                            self@.cable[i].endpoint_b,
                        ) == Result::<(), ValidationErrorV>::Err(e@)),
                    ValidationErrorV::BadPort { .. } => exists|i: int|
                        #![auto]
                        0 <= i < self@.cable.len() && (ep_verdict(
                            self@,
                            self@.cable[i].name,
                            self@.cable[i].endpoint_a,
                        ) == Result::<(), ValidationErrorV>::Err(e@) || ep_verdict(
                            self@,
                            self@.cable[i].name,
                            self@.cable[i].endpoint_b,
                        ) == Result::<(), ValidationErrorV>::Err(e@)),
                    ValidationErrorV::PortOutOfRange { .. } => exists|i: int|
                        #![auto]
                        0 <= i < self@.cable.len() && (ep_verdict(
                            self@,
                            self@.cable[i].name,
                            self@.cable[i].endpoint_a,
                        ) == Result::<(), ValidationErrorV>::Err(e@) || ep_verdict(
                            self@,
                            self@.cable[i].name,
                            self@.cable[i].endpoint_b,
                        ) == Result::<(), ValidationErrorV>::Err(e@)),
                    ValidationErrorV::PortAlreadyUsed { .. } => !no_dup_pairs(
                        pairs_upto(self@, self@.cable.len() as int),
                    ),
                    ValidationErrorV::SwitchOverCommitted { .. } => exists|i: int|
                        #![auto]
                        0 <= i < self@.switch.len() && usage_upto(
                            self@,
                            self@.switch[i].name,
                            self@.cable.len() as int,
                        ) > switch_cap_of(self@.switch[i]),
                    ValidationErrorV::ConfigFileUnreadable { .. } => false,
                },
            },
    {
        let ghost names = cfg_names(self@);
        let ghost ns_n = self@.namespace.len() as int;
        let ghost sw_n = self@.switch.len() as int;
        let ghost cb_n = self@.cable.len() as int;
        let ghost sl_n = self@.slirp.len() as int;
        let ghost vx_n = self@.vxvde.len() as int;

        let mut seen: Vec<String> = Vec::new();
        proof {
            assert(seen.deep_view() =~= names.subrange(0, 0));
        }

        if let Some(nss) = &self.namespace {
            let m = nss.len();
            let mut i: usize = 0;
            while i < m
                invariant
                    m == nss.len(),
                    0 <= i <= m,
                    self@.namespace == nss.deep_view(),
                    names == cfg_names(self@),
                    ns_n == m,
                    seen.deep_view() == names.subrange(0, i as int),
                    forall|a: int, b: int| 0 <= a < b < i ==> names[a] != names[b],
                    forall|j: int| 0 <= j < i ==> namespace_ok(self@.namespace[j]),
                decreases m - i,
            {
                proof {
                    assert(names[i as int] == self@.namespace[i as int].name);
                }
                if !scan_unique(&mut seen, &nss[i].name) {
                    proof {
                        assert(seen.deep_view() == names.subrange(0, i as int));
                        assert(seen.deep_view().len() == seen@.len());
                        assert(seen@.len() == (i as int));
                        assert(exists|j: int|
                            0 <= j < seen@.len() && seen.deep_view()[j]
                                == nss[i as int]@.name);
                        let j = choose|j: int|
                            0 <= j < seen@.len() && seen.deep_view()[j] == nss[i as int]@.name;
                        assert(seen.deep_view()[j] == names.subrange(0, i as int)[j]);
                        assert(names.subrange(0, i as int)[j] == names[j]);
                        assert(0 <= j && j < (i as int));
                        assert((i as int) < names.len());
                        assert(names[j] == names[i as int]);
                        assert(!cfg_names_unique(self@));
                    }
                    return Err(ValidationError::DuplicateName { name: nss[i].name.clone() });
                }
                proof {
                    assert(seen.deep_view() =~= names.subrange(0, i + 1));
                    assert forall|a: int| 0 <= a < (i as int) implies #[trigger] names[a] != names[i as int] by {
                        assert(names.subrange(0, i as int)[a] == names[a]);
                    }
                }
                if let Err(e) = nss[i].checks() {
                    proof {
                        assert(!namespace_ok(self@.namespace[i as int]));
                    }
                    return Err(e);
                }
                i = i + 1;
            }
        } else {
            proof {
                assert(self@.namespace =~= Seq::<NamespaceC>::empty());
            }
        }

        if let Some(sws) = &self.switch {
            let m = sws.len();
            let mut i: usize = 0;
            while i < m
                invariant
                    m == sws.len(),
                    0 <= i <= m,
                    self@.switch == sws.deep_view(),
                    names == cfg_names(self@),
                    sw_n == m,
                    ns_n == self@.namespace.len(),
                    seen.deep_view() == names.subrange(0, ns_n + i),
                    forall|a: int, b: int| 0 <= a < b < ns_n + i ==> names[a] != names[b],
                    forall|j: int| 0 <= j < ns_n ==> namespace_ok(self@.namespace[j]),
                    forall|j: int| 0 <= j < i ==> switch_decl_ok(self@.switch[j]),
                decreases m - i,
            {
                proof {
                    assert(names[ns_n + i] == self@.switch[i as int].name);
                }
                if !scan_unique(&mut seen, &sws[i].name) {
                    proof {
                        assert(seen.deep_view() == names.subrange(0, ns_n + i));
                        assert(seen.deep_view().len() == seen@.len());
                        assert(seen@.len() == (ns_n + i));
                        assert(exists|j: int|
                            0 <= j < seen@.len() && seen.deep_view()[j]
                                == sws[i as int]@.name);
                        let j = choose|j: int|
                            0 <= j < seen@.len() && seen.deep_view()[j] == sws[i as int]@.name;
                        assert(seen.deep_view()[j] == names.subrange(0, ns_n + i)[j]);
                        assert(names.subrange(0, ns_n + i)[j] == names[j]);
                        assert(0 <= j && j < (ns_n + i));
                        assert((ns_n + i) < names.len());
                        assert(names[j] == names[ns_n + i]);
                        assert(!cfg_names_unique(self@));
                    }
                    return Err(ValidationError::DuplicateName { name: sws[i].name.clone() });
                }
                proof {
                    assert(seen.deep_view() =~= names.subrange(0, ns_n + i + 1));
                    assert forall|a: int| 0 <= a < (ns_n + i) implies #[trigger] names[a] != names[ns_n + i] by {
                        assert(names.subrange(0, ns_n + i)[a] == names[a]);
                    }
                }
                if let Err(e) = sws[i].checks() {
                    proof {
                        assert(!switch_decl_ok(self@.switch[i as int]));
                    }
                    return Err(e);
                }
                i = i + 1;
            }
        } else {
            proof {
                assert(self@.switch =~= Seq::<SwitchC>::empty());
            }
        }

        if let Some(cbs) = &self.cable {
            let m = cbs.len();
            let mut i: usize = 0;
            while i < m
                invariant
                    m == cbs.len(),
                    0 <= i <= m,
                    self@.cable == cbs.deep_view(),
                    names == cfg_names(self@),
                    cb_n == m,
                    ns_n == self@.namespace.len(),
                    sw_n == self@.switch.len(),
                    seen.deep_view() == names.subrange(0, ns_n + sw_n + i),
                    forall|a: int, b: int| 0 <= a < b < ns_n + sw_n + i ==> names[a] != names[b],
                    forall|j: int| 0 <= j < ns_n ==> namespace_ok(self@.namespace[j]),
                    forall|j: int| 0 <= j < sw_n ==> switch_decl_ok(self@.switch[j]),
                    forall|j: int| 0 <= j < i ==> cable_decl_ok(self@.cable[j]),
                decreases m - i,
            {
                proof {
                    assert(names[ns_n + sw_n + i] == self@.cable[i as int].name);
                }
                if !scan_unique(&mut seen, &cbs[i].name) {
                    proof {
                        assert(seen.deep_view() == names.subrange(0, ns_n + sw_n + i));
                        assert(seen.deep_view().len() == seen@.len());
                        assert(seen@.len() == (ns_n + sw_n + i));
                        assert(exists|j: int|
                            0 <= j < seen@.len() && seen.deep_view()[j]
                                == cbs[i as int]@.name);
                        let j = choose|j: int|
                            0 <= j < seen@.len() && seen.deep_view()[j] == cbs[i as int]@.name;
                        assert(seen.deep_view()[j] == names.subrange(0, ns_n + sw_n + i)[j]);
                        assert(names.subrange(0, ns_n + sw_n + i)[j] == names[j]);
                        assert(0 <= j && j < (ns_n + sw_n + i));
                        assert((ns_n + sw_n + i) < names.len());
                        assert(names[j] == names[ns_n + sw_n + i]);
                        assert(!cfg_names_unique(self@));
                    }
                    return Err(ValidationError::DuplicateName { name: cbs[i].name.clone() });
                }
                proof {
                    assert(seen.deep_view() =~= names.subrange(0, ns_n + sw_n + i + 1));
                    assert forall|a: int| 0 <= a < (ns_n + sw_n + i) implies #[trigger] names[a] != names[ns_n + sw_n + i] by {
                        assert(names.subrange(0, ns_n + sw_n + i)[a] == names[a]);
                    }
                }
                if let Err(e) = cbs[i].checks() {
                    proof {
                        assert(!cable_decl_ok(self@.cable[i as int]));
                    }
                    return Err(e);
                }
                i = i + 1;
            }
        } else {
            proof {
                assert(self@.cable =~= Seq::<CableC>::empty());
            }
        }

        if let Some(sls) = &self.slirp {
            let m = sls.len();
            let mut i: usize = 0;
            while i < m
                invariant
                    m == sls.len(),
                    0 <= i <= m,
                    self@.slirp == sls.deep_view(),
                    names == cfg_names(self@),
                    sl_n == m,
                    ns_n == self@.namespace.len(),
                    sw_n == self@.switch.len(),
                    cb_n == self@.cable.len(),
                    seen.deep_view() == names.subrange(0, ns_n + sw_n + cb_n + i),
                    forall|a: int, b: int|
                        0 <= a < b < ns_n + sw_n + cb_n + i ==> names[a] != names[b],
                decreases m - i,
            {
                proof {
                    assert(names[ns_n + sw_n + cb_n + i] == self@.slirp[i as int].name);
                }
                if !scan_unique(&mut seen, &sls[i].name) {
                    proof {
                        assert(seen.deep_view() == names.subrange(0, ns_n + sw_n + cb_n + i));
                        assert(seen.deep_view().len() == seen@.len());
                        assert(seen@.len() == (ns_n + sw_n + cb_n + i));
                        assert(exists|j: int|
                            0 <= j < seen@.len() && seen.deep_view()[j]
                                == sls[i as int]@.name);
                        let j = choose|j: int|
                            0 <= j < seen@.len() && seen.deep_view()[j] == sls[i as int]@.name;
                        assert(seen.deep_view()[j] == names.subrange(0, ns_n + sw_n + cb_n + i)[j]);
                        assert(names.subrange(0, ns_n + sw_n + cb_n + i)[j] == names[j]);
                        assert(0 <= j && j < (ns_n + sw_n + cb_n + i));
                        assert((ns_n + sw_n + cb_n + i) < names.len());
                        assert(names[j] == names[ns_n + sw_n + cb_n + i]);
                        assert(!cfg_names_unique(self@));
                    }
                    return Err(ValidationError::DuplicateName { name: sls[i].name.clone() });
                }
                proof {
                    assert(seen.deep_view() =~= names.subrange(0, ns_n + sw_n + cb_n + i + 1));
                    assert forall|a: int| 0 <= a < (ns_n + sw_n + cb_n + i) implies #[trigger] names[a] != names[ns_n + sw_n + cb_n + i] by {
                        assert(names.subrange(0, ns_n + sw_n + cb_n + i)[a] == names[a]);
                    }
                }
                i = i + 1;
            }
        } else {
            proof {
                assert(self@.slirp =~= Seq::<SlirpC>::empty());
            }
        }

        if let Some(vxs) = &self.vxvde {
            let m = vxs.len();
            let mut i: usize = 0;
            while i < m
                invariant
                    m == vxs.len(),
                    0 <= i <= m,
                    self@.vxvde == vxs.deep_view(),
                    names == cfg_names(self@),
                    vx_n == m,
                    ns_n == self@.namespace.len(),
                    sw_n == self@.switch.len(),
                    cb_n == self@.cable.len(),
                    sl_n == self@.slirp.len(),
                    seen.deep_view() == names.subrange(0, ns_n + sw_n + cb_n + sl_n + i),
                    forall|a: int, b: int|
                        0 <= a < b < ns_n + sw_n + cb_n + sl_n + i ==> names[a] != names[b],
                decreases m - i,
            {
                proof {
                    assert(names[ns_n + sw_n + cb_n + sl_n + i] == self@.vxvde[i as int].name);
                }
                if !scan_unique(&mut seen, &vxs[i].name) {
                    proof {
                        assert(seen.deep_view() == names.subrange(0, ns_n + sw_n + cb_n + sl_n + i));
                        assert(seen.deep_view().len() == seen@.len());
                        assert(seen@.len() == (ns_n + sw_n + cb_n + sl_n + i));
                        assert(exists|j: int|
                            0 <= j < seen@.len() && seen.deep_view()[j]
                                == vxs[i as int]@.name);
                        let j = choose|j: int|
                            0 <= j < seen@.len() && seen.deep_view()[j] == vxs[i as int]@.name;
                        assert(seen.deep_view()[j] == names.subrange(0, ns_n + sw_n + cb_n + sl_n + i)[j]);
                        assert(names.subrange(0, ns_n + sw_n + cb_n + sl_n + i)[j] == names[j]);
                        assert(0 <= j && j < (ns_n + sw_n + cb_n + sl_n + i));
                        assert((ns_n + sw_n + cb_n + sl_n + i) < names.len());
                        assert(names[j] == names[ns_n + sw_n + cb_n + sl_n + i]);
                        assert(!cfg_names_unique(self@));
                    }
                    return Err(ValidationError::DuplicateName { name: vxs[i].name.clone() });
                }
                proof {
                    assert(seen.deep_view() =~= names.subrange(0, ns_n + sw_n + cb_n + sl_n + i
                        + 1));
                    assert forall|a: int| 0 <= a < (ns_n + sw_n + cb_n + sl_n + i) implies #[trigger] names[a] != names[ns_n + sw_n + cb_n + sl_n + i] by {
                        assert(names.subrange(0, ns_n + sw_n + cb_n + sl_n + i)[a] == names[a]);
                    }
                }
                i = i + 1;
            }
        } else {
            proof {
                assert(self@.vxvde =~= Seq::<VxvdeC>::empty());
            }
        }
        proof {
            assert(names.len() == ns_n + sw_n + cb_n + sl_n + vx_n);
            assert(cfg_names_unique(self@));
        }

        // Endpoint resolution, port ranges and pair occupancy, cable by
        // cable, end `a` before end `b`.
        if let Some(cbs) = &self.cable {
            let m = cbs.len();
            let mut pn: Vec<String> = Vec::new();
            let mut pp: Vec<String> = Vec::new();
            let mut k: usize = 0;
            proof {
                assert(pairs_upto(self@, 0) =~= Seq::<(Seq<char>, Seq<char>)>::empty());
            }
            while k < m
                invariant
                    m == cbs.len(),
                    0 <= k <= m,
                    self@.cable == cbs.deep_view(),
                    cb_n == m,
                    forall|j: int|
                        0 <= j < k ==> ep_verdict(self@, self@.cable[j].name,
                            self@.cable[j].endpoint_a) == Result::<(), ValidationErrorV>::Ok(())
                            && ep_verdict(self@, self@.cable[j].name, self@.cable[j].endpoint_b)
                            == Result::<(), ValidationErrorV>::Ok(()),
                    pn@.len() == pp@.len(),
                    pn@.len() == pairs_upto(self@, k as int).len(),
                    forall|x: int|
                        0 <= x < pn@.len() ==> pairs_upto(self@, k as int)[x] == (
                        pn.deep_view()[x],
                        pp.deep_view()[x],
                        ),
                    no_dup_pairs(pairs_upto(self@, k as int)),
                decreases m - k,
            {
                let cb = &cbs[k];
                if let Err(e) = self.ep_check(&cb.name, &cb.endpoint_a) {
                    proof {
                        assert(ep_verdict(self@, self@.cable[k as int].name,
                            self@.cable[k as int].endpoint_a) == Result::<
                            (),
                            ValidationErrorV,
                        >::Err(e@));
                    }
                    return Err(e);
                }
                if let Err(e) = self.ep_check(&cb.name, &cb.endpoint_b) {
                    proof {
                        assert(ep_verdict(self@, self@.cable[k as int].name,
                            self@.cable[k as int].endpoint_b) == Result::<
                            (),
                            ValidationErrorV,
                        >::Err(e@));
                    }
                    return Err(e);
                }

                let ghost base = pairs_upto(self@, k as int);
                let ghost after_a = base + side_pairs(self@, self@.cable[k as int].endpoint_a);
                let ghost after_b = after_a + side_pairs(self@, self@.cable[k as int].endpoint_b);
                proof {
                    assert(after_b == pairs_upto(self@, k + 1));
                }

                // End `a`.
                let a_counts = cb.endpoint_a.open != Some(true) && (self.has_switch(
                    cb.endpoint_a.name.as_str(),
                ) || self.has_namespace(cb.endpoint_a.name.as_str())) && cb.endpoint_a.port
                    .is_some();
                if a_counts {
                    let port = match &cb.endpoint_a.port {
                        Some(p) => p,
                        None => {
                            return Err(
                                ValidationError::BadPort {
                                    cable: cb.name.clone(),
                                    port: String::new(),
                                },
                            );
                        },
                    };
                    proof {
                        assert(side_pairs(self@, self@.cable[k as int].endpoint_a) =~= seq![
                            (self@.cable[k as int].endpoint_a.name, port@),
                        ]);
                    }
                    if let Some(x) = find_pair(&pn, &pp, &cb.endpoint_a.name, port) {
                        proof {
                            assert(after_a[x as int] == after_a[base.len() as int]);
                            lemma_pairs_prefix(self@, k + 1, cb_n);
                            assert(pairs_upto(self@, cb_n)[x as int] == pairs_upto(self@, cb_n)[
                                base.len() as int
                            ]);
                            assert(!no_dup_pairs(pairs_upto(self@, cb_n)));
                        }
                        return Err(
                            ValidationError::PortAlreadyUsed {
                                cable: cb.name.clone(),
                                endpoint: cb.endpoint_a.name.clone(),
                                port: port.clone(),
                            },
                        );
                    }
                    crate::strutil::push_arg(&mut pn, cb.endpoint_a.name.clone());
                    crate::strutil::push_arg(&mut pp, port.clone());
                    proof {
                        assert(no_dup_pairs(after_a));
                    }
                } else {
                    proof {
                        assert(side_pairs(self@, self@.cable[k as int].endpoint_a) =~= Seq::<
                            (Seq<char>, Seq<char>),
                        >::empty());
                        assert(after_a =~= base);
                    }
                }
                proof {
                    assert(pn@.len() == after_a.len());
                    assert(forall|x: int|
                        0 <= x < pn@.len() ==> after_a[x] == (pn.deep_view()[x], pp.deep_view()[x]));
                }

                // End `b`.
                let b_counts = cb.endpoint_b.open != Some(true) && (self.has_switch(
                    cb.endpoint_b.name.as_str(),
                ) || self.has_namespace(cb.endpoint_b.name.as_str())) && cb.endpoint_b.port
                    .is_some();
                if b_counts {
                    let port = match &cb.endpoint_b.port {
                        Some(p) => p,
                        None => {
                            return Err(
                                ValidationError::BadPort {
                                    cable: cb.name.clone(),
                                    port: String::new(),
                                },
                            );
                        },
                    };
                    proof {
                        assert(side_pairs(self@, self@.cable[k as int].endpoint_b) =~= seq![
                            (self@.cable[k as int].endpoint_b.name, port@),
                        ]);
                    }
                    if let Some(x) = find_pair(&pn, &pp, &cb.endpoint_b.name, port) {
                        proof {
                            assert(after_b[x as int] == after_b[after_a.len() as int]);
                            lemma_pairs_prefix(self@, k + 1, cb_n);
                            assert(pairs_upto(self@, cb_n)[x as int] == pairs_upto(self@, cb_n)[
                                after_a.len() as int
                            ]);
                            assert(!no_dup_pairs(pairs_upto(self@, cb_n)));
                        }
                        return Err(
                            ValidationError::PortAlreadyUsed {
                                cable: cb.name.clone(),
                                endpoint: cb.endpoint_b.name.clone(),
                                port: port.clone(),
                            },
                        );
                    }
                    crate::strutil::push_arg(&mut pn, cb.endpoint_b.name.clone());
                    crate::strutil::push_arg(&mut pp, port.clone());
                    proof {
                        assert(no_dup_pairs(after_b));
                    }
                } else {
                    proof {
                        assert(side_pairs(self@, self@.cable[k as int].endpoint_b) =~= Seq::<
                            (Seq<char>, Seq<char>),
                        >::empty());
                        assert(after_b =~= after_a);
                    }
                }
                proof {
                    assert(pn@.len() == after_b.len());
                    assert(forall|x: int|
                        0 <= x < pn@.len() ==> after_b[x] == (pn.deep_view()[x], pp.deep_view()[x]));
                }
                k = k + 1;
            }
        } else {
            proof {
                assert(self@.cable =~= Seq::<CableC>::empty());
                assert(pairs_upto(self@, 0) =~= Seq::<(Seq<char>, Seq<char>)>::empty());
            }
        }

        // Capacity accounting, switch by switch.
        if let Some(sws) = &self.switch {
            let m = sws.len();
            let mut i: usize = 0;
            while i < m
                invariant
                    m == sws.len(),
                    0 <= i <= m,
                    self@.switch == sws.deep_view(),
                    forall|j: int|
                        0 <= j < i ==> usage_upto(self@, self@.switch[j].name,
                            self@.cable.len() as int) <= switch_cap_of(self@.switch[j]),
                decreases m - i,
            {
                let cap: u64 = match sws[i].ports {
                    Some(p) => p as u64,
                    None => 32,
                };
                if self.usage_exceeds(sws[i].name.as_str(), cap) {
                    proof {
                        assert(cap == switch_cap_of(self@.switch[i as int]) as u64);
                        assert(usage_upto(self@, self@.switch[i as int].name,
                            self@.cable.len() as int) > switch_cap_of(self@.switch[i as int]));
                        assert(!config_valid(self@));
                    }
                    return Err(
                        ValidationError::SwitchOverCommitted {
                            endpoint: sws[i].name.clone(),
                            capacity: cap,
                        },
                    );
                }
                i = i + 1;
            }
        } else {
            proof {
                assert(self@.switch =~= Seq::<SwitchC>::empty());
            }
        }

        Ok(())
    }
}

/// Ghost image of an [`InterfaceArgError`].
pub ghost enum InterfaceArgErrorV {
    MustStartWithMarker,
    WrongElementCount,
    BadInterface(ValidationErrorV),
}

/// Why a command-line interface list was rejected.
#[derive(Debug, Clone, PartialEq, Eq)]
pub enum InterfaceArgError {
    /// The list does not begin with the `--iface` marker.
    MustStartWithMarker,
    /// A group between markers has fewer than one or more than three
    /// elements.
    WrongElementCount,
    /// A parsed interface fails its address checks.
    BadInterface(ValidationError),
}

impl View for InterfaceArgError {
    type V = InterfaceArgErrorV;

    open spec fn view(&self) -> InterfaceArgErrorV {
        match self {
            InterfaceArgError::MustStartWithMarker => InterfaceArgErrorV::MustStartWithMarker,
            InterfaceArgError::WrongElementCount => InterfaceArgErrorV::WrongElementCount,
            InterfaceArgError::BadInterface(e) => InterfaceArgErrorV::BadInterface(e@),
        }
    }
}

/// Split the tokens after the leading marker into groups, one per
/// occurrence of the marker; `cur` accumulates the group being read.
pub open spec fn arg_groups(args: Seq<Seq<char>>, i: int, cur: Seq<Seq<char>>) -> Seq<
    Seq<Seq<char>>,
>
    decreases args.len() - i,
{
    if i < 0 || i >= args.len() {
        seq![cur]
    } else if args[i] == "--iface"@ {
        seq![cur] + arg_groups(args, i + 1, Seq::<Seq<char>>::empty())
    } else {
        arg_groups(args, i + 1, cur.push(args[i]))
    }
}

/// Every group has one to three elements: a name, then optionally an
/// address, then optionally a gateway.
pub open spec fn groups_sized(gs: Seq<Seq<Seq<char>>>) -> bool {
    forall|k: int| 0 <= k < gs.len() ==> 1 <= #[trigger] gs[k].len() <= 3
}

/// The interface a well-sized group denotes.
pub open spec fn group_iface(g: Seq<Seq<char>>) -> NSInterfaceC {
    NSInterfaceC {
        name: g[0],
        ip: if g.len() >= 2 {
            Some(g[1])
        } else {
            None
        },
        gateway: if g.len() == 3 {
            Some(g[2])
        } else {
            None
        },
    }
}

/// The interfaces of the first `k` groups.
pub open spec fn group_ifaces_upto(gs: Seq<Seq<Seq<char>>>, k: int) -> Seq<NSInterfaceC>
    decreases k,
{
    if k <= 0 {
        Seq::<NSInterfaceC>::empty()
    } else {
        group_ifaces_upto(gs, k - 1).push(group_iface(gs[k - 1]))
    }
}

/// The first failed verdict among the interfaces, if any.
pub open spec fn first_bad_iface(ifs: Seq<NSInterfaceC>) -> Result<(), ValidationErrorV>
    decreases ifs.len(),
{
    if ifs.len() == 0 {
        Ok(())
    } else {
        match iface_verdict(ifs[0]) {
            Err(e) => Err(e),
            Ok(_) => first_bad_iface(ifs.subrange(1, ifs.len() as int)),
        }
    }
}

/// What parsing a command-line interface list yields: nothing for an
/// empty list; otherwise the list must open with the marker, every
/// marker-delimited group must have one to three elements, and every
/// denoted interface must pass its checks.
pub open spec fn parse_interfaces_spec(args: Seq<Seq<char>>) -> Result<
    Seq<NSInterfaceC>,
    InterfaceArgErrorV,
> {
    if args.len() == 0 {
        Ok(Seq::<NSInterfaceC>::empty())
    } else if args[0] != "--iface"@ {
        Err(InterfaceArgErrorV::MustStartWithMarker)
    } else {
        let gs = arg_groups(args, 1, Seq::<Seq<char>>::empty());
        if !groups_sized(gs) {
            Err(InterfaceArgErrorV::WrongElementCount)
        } else {
            let ifs = group_ifaces_upto(gs, gs.len() as int);
            match first_bad_iface(ifs) {
                Err(e) => Err(InterfaceArgErrorV::BadInterface(e)),
                Ok(_) => Ok(ifs),
            }
        }
    }
}

/// Parse the `--iface <name> [ip] [gateway]` groups of an add-namespace
/// invocation; see [`parse_interfaces_spec`].
pub fn parse_interfaces(interfaces: Vec<String>) -> (r: Result<
    Vec<NSInterface>,
    InterfaceArgError,
>)
    ensures
        match r {
            Ok(v) => parse_interfaces_spec(interfaces.deep_view()) == Result::<
                Seq<NSInterfaceC>,
                InterfaceArgErrorV,
            >::Ok(v.deep_view()),
            Err(e) => parse_interfaces_spec(interfaces.deep_view()) == Result::<
                Seq<NSInterfaceC>,
                InterfaceArgErrorV,
            >::Err(e@),
        },
{
    let ghost argv = interfaces.deep_view();
    if interfaces.len() == 0 {
        let empty_out: Vec<NSInterface> = Vec::new();
        proof {
            assert(empty_out.deep_view() =~= Seq::<NSInterfaceC>::empty());
        }
        return Ok(empty_out);
    }
    proof {
        reveal_strlit("--iface");
    }
    if !str_eq(interfaces[0].as_str(), "--iface") {
        return Err(InterfaceArgError::MustStartWithMarker);
    }

    // Build the groups.
    let mut done: Vec<Vec<String>> = Vec::new();
    let mut cur: Vec<String> = Vec::new();
    let n = interfaces.len();
    let mut i: usize = 1;
    proof {
        assert(cur.deep_view() =~= Seq::<Seq<char>>::empty());
        assert(done.deep_view() =~= Seq::<Seq<Seq<char>>>::empty());
        assert(arg_groups(argv, 1, Seq::<Seq<char>>::empty()) =~= Seq::<
            Seq<Seq<char>>,
        >::empty() + arg_groups(argv, 1, cur.deep_view()));
    }
    while i < n
        invariant
            n == interfaces@.len(),
            1 <= i <= n,
            argv == interfaces.deep_view(),
            arg_groups(argv, 1, Seq::<Seq<char>>::empty()) == done.deep_view() + arg_groups(
                argv,
                i as int,
                cur.deep_view(),
            ),
        decreases n - i,
    {
        proof {
            reveal_strlit("--iface");
        }
        if str_eq(interfaces[i].as_str(), "--iface") {
            let ghost done0 = done.deep_view();
            let ghost cur0 = cur.deep_view();
            let finished = cur;
            cur = Vec::new();
            done.push(finished);
            proof {
                assert(cur.deep_view() =~= Seq::<Seq<char>>::empty());
                assert(done.deep_view() =~= done0.push(cur0));
                assert(arg_groups(argv, i as int, cur0) == seq![cur0] + arg_groups(
                    argv,
                    i + 1,
                    Seq::<Seq<char>>::empty(),
                ));
                assert(done0 + (seq![cur0] + arg_groups(argv, i + 1, cur.deep_view()))
                    =~= done.deep_view() + arg_groups(argv, i + 1, cur.deep_view()));
            }
        } else {
            let ghost cur0 = cur.deep_view();
            push_arg(&mut cur, interfaces[i].clone());
            proof {
                assert(cur.deep_view() == cur0.push(argv[i as int]));
                assert(arg_groups(argv, i as int, cur0) == arg_groups(argv, i + 1,
                    cur.deep_view()));
            }
        }
        i = i + 1;
    }
    let ghost done0 = done.deep_view();
    let ghost cur0 = cur.deep_view();
    done.push(cur);
    proof {
        assert(done.deep_view() =~= done0.push(cur0));
        assert(arg_groups(argv, n as int, cur0) == seq![cur0]);
        assert(done0 + seq![cur0] =~= done.deep_view());
    }
    let ghost gs = arg_groups(argv, 1, Seq::<Seq<char>>::empty());
    proof {
        assert(gs == done.deep_view());
    }

    // Every group must have one to three elements.
    let m = done.len();
    let mut k: usize = 0;
    while k < m
        invariant
            m == done@.len(),
            0 <= k <= m,
            gs == done.deep_view(),
            gs == arg_groups(argv, 1, Seq::<Seq<char>>::empty()),
            argv == interfaces.deep_view(),
            argv.len() > 0,
            argv[0] == "--iface"@,
            forall|j: int| 0 <= j < k ==> 1 <= #[trigger] gs[j].len() <= 3,
        decreases m - k,
    {
        let g = &done[k];
        if g.len() < 1 || g.len() > 3 {
            proof {
                assert(gs[k as int].len() == done@[k as int]@.len());
                assert(!groups_sized(gs));
            }
            return Err(InterfaceArgError::WrongElementCount);
        }
        k = k + 1;
    }
    proof {
        assert(groups_sized(gs));
    }

    // Denote and validate the interfaces.
    let mut out: Vec<NSInterface> = Vec::new();
    let mut k: usize = 0;
    proof {
        assert(out.deep_view() =~= group_ifaces_upto(gs, 0));
    }
    while k < m
        invariant
            m == done@.len(),
            0 <= k <= m,
            gs == done.deep_view(),
            gs == arg_groups(argv, 1, Seq::<Seq<char>>::empty()),
            argv == interfaces.deep_view(),
            argv.len() > 0,
            argv[0] == "--iface"@,
            groups_sized(gs),
            out.deep_view() == group_ifaces_upto(gs, k as int),
            out@.len() == k,
            forall|j: int|
                0 <= j < k ==> iface_verdict(#[trigger] group_ifaces_upto(gs, k as int)[j])
                    == Result::<(), ValidationErrorV>::Ok(()),
        decreases m - k,
    {
        let g = &done[k];
        proof {
            assert(1 <= gs[k as int].len() <= 3);
            assert(g.deep_view() == gs[k as int]);
        }
        let name = g[0].clone();
        let ip: Option<String> = if g.len() >= 2 {
            Some(g[1].clone())
        } else {
            None
        };
        let gateway: Option<String> = if g.len() == 3 {
            Some(g[2].clone())
        } else {
            None
        };
        let iface = NSInterface { name, ip, gateway };
        proof {
            assert(iface@ == group_iface(gs[k as int]));
        }
        if let Err(e) = iface.checks() {
            proof {
                let ghost ifs = group_ifaces_upto(gs, gs.len() as int);
                lemma_first_bad_at(gs, k as int, e@);
            }
            return Err(InterfaceArgError::BadInterface(e));
        }
        let ghost out0 = out.deep_view();
        out.push(iface);
        proof {
            assert(out.deep_view() =~= out0.push(iface@));
            assert(out.deep_view() =~= group_ifaces_upto(gs, k + 1));
            assert(forall|j: int|
                0 <= j < k + 1 ==> iface_verdict(#[trigger] group_ifaces_upto(gs, k + 1)[j])
                    == Result::<(), ValidationErrorV>::Ok(())) by {
                assert(forall|j: int|
                    0 <= j < k ==> group_ifaces_upto(gs, k + 1)[j] == group_ifaces_upto(
                        gs,
                        k as int,
                    )[j]);
            }
        }
        k = k + 1;
    }
    proof {
        lemma_first_bad_all_ok(group_ifaces_upto(gs, m as int));
    }
    Ok(out)
}

/// When every interface up to `k` passes and the one at `k` fails with
/// `e`, the first failure of the whole run is `e`.
proof fn lemma_first_bad_at(gs: Seq<Seq<Seq<char>>>, k: int, e: ValidationErrorV)
    requires
        0 <= k < gs.len(),
        forall|j: int|
            0 <= j < k ==> iface_verdict(#[trigger] group_ifaces_upto(gs, k)[j]) == Result::<
                (),
                ValidationErrorV,
            >::Ok(()),
        iface_verdict(group_iface(gs[k])) == Result::<(), ValidationErrorV>::Err(e),
    ensures
        first_bad_iface(group_ifaces_upto(gs, gs.len() as int)) == Result::<
            (),
            ValidationErrorV,
        >::Err(e),
{
    lemma_first_bad_skip(gs, gs.len() as int, 0, k, e);
    let ifs = group_ifaces_upto(gs, gs.len() as int);
    lemma_group_ifaces_index(gs, gs.len() as int);
    assert(ifs.subrange(0, gs.len() as int) =~= ifs);
}

proof fn lemma_first_bad_skip(gs: Seq<Seq<Seq<char>>>, m: int, i: int, k: int, e: ValidationErrorV)
    requires
        0 <= i <= k < m <= gs.len(),
        forall|j: int|
            0 <= j < k ==> iface_verdict(#[trigger] group_ifaces_upto(gs, k)[j]) == Result::<
                (),
                ValidationErrorV,
            >::Ok(()),
        iface_verdict(group_iface(gs[k])) == Result::<(), ValidationErrorV>::Err(e),
    ensures
        first_bad_iface(group_ifaces_upto(gs, m).subrange(i, m)) == Result::<
            (),
            ValidationErrorV,
        >::Err(e),
    decreases k - i,
{
    let ifs = group_ifaces_upto(gs, m);
    lemma_group_ifaces_index(gs, m);
    let sub = ifs.subrange(i, m);
    assert(sub[0] == ifs[i]);
    assert(ifs[i] == group_iface(gs[i]));
    if i == k {
        assert(iface_verdict(sub[0]) == Result::<(), ValidationErrorV>::Err(e));
    } else {
        lemma_group_ifaces_index(gs, k);
        assert(group_ifaces_upto(gs, k)[i] == group_iface(gs[i]));
        assert(iface_verdict(ifs[i]) == Result::<(), ValidationErrorV>::Ok(()));
        lemma_first_bad_skip(gs, m, i + 1, k, e);
        assert(sub.subrange(1, sub.len() as int) =~= ifs.subrange(i + 1, m));
    }
}

/// The interface at position `j` of the denoted run is the one its group
/// denotes.
proof fn lemma_group_ifaces_index(gs: Seq<Seq<Seq<char>>>, m: int)
    requires
        0 <= m <= gs.len(),
    ensures
        group_ifaces_upto(gs, m).len() == m,
        forall|j: int| 0 <= j < m ==> #[trigger] group_ifaces_upto(gs, m)[j] == group_iface(gs[j]),
    decreases m,
{
    if m > 0 {
        lemma_group_ifaces_index(gs, m - 1);
    }
}

/// A run of all-passing interfaces has no first failure.
proof fn lemma_first_bad_all_ok(ifs: Seq<NSInterfaceC>)
    requires
        forall|j: int|
            0 <= j < ifs.len() ==> iface_verdict(#[trigger] ifs[j]) == Result::<
                (),
                ValidationErrorV,
            >::Ok(()),
    ensures
        first_bad_iface(ifs) == Result::<(), ValidationErrorV>::Ok(()),
    decreases ifs.len(),
{
    if ifs.len() > 0 {
        let tail = ifs.subrange(1, ifs.len() as int);
        assert(forall|j: int| 0 <= j < tail.len() ==> #[trigger] tail[j] == ifs[j + 1]);
        lemma_first_bad_all_ok(tail);
    }
}

/// In a document the engine accepts, every switch-bound cable end with a
/// port selector names a port strictly below the switch's capacity: ports
/// run from zero to one below the port count.
pub proof fn lemma_ports_in_range(c: ConfigV, i: int)
    requires
        config_valid(c),
        0 <= i < c.cable.len(),
    ensures
        forall|ep: EndpointC|
            (ep == c.cable[i].endpoint_a || ep == c.cable[i].endpoint_b) && ep.open != Some(true)
                && cfg_switch_named(c, #[trigger] ep.name) && ep.port is Some ==> is_dec_seq(
                ep.port->0,
            ) && dec_val(ep.port->0) < first_switch_cap(c.switch, ep.name),
{
    assert(ep_verdict(c, c.cable[i].name, c.cable[i].endpoint_a) == Result::<
        (),
        ValidationErrorV,
    >::Ok(()));
    assert(ep_verdict(c, c.cable[i].name, c.cable[i].endpoint_b) == Result::<
        (),
        ValidationErrorV,
    >::Ok(()));
}

/// A rejected port selector carries the zero-indexing hint exactly when
/// it names the capacity itself; anything above fails without the hint.
pub proof fn lemma_port_hint(c: ConfigV, cable: Seq<char>, ep: EndpointC)
    ensures
        match ep_verdict(c, cable, ep) {
            Err(ValidationErrorV::PortOutOfRange { port, max, zero_hint, .. }) => port >= max
                && (zero_hint <==> port == max),
            _ => true,
        },
{
}

/// Why a validated document still could not become a topology.
#[derive(Debug, Clone, Copy, PartialEq, Eq, Structural)]
pub enum BuildFault {
    /// Two declared devices share a name.
    NameAlreadyUsed,
    /// A bound cable end names no declared switch or namespace.
    UnknownEndpoint,
    /// A namespace end gives no interface name.
    PortRequired,
    /// A namespace end names an interface its namespace lacks.
    NoSuchInterface,
}

/// The switch a declaration becomes: defaults filled in, config lines
/// attached.
pub open spec fn conv_switch(sc: SwitchC, lines: Seq<Seq<char>>) -> crate::switch::SwitchV {
    crate::switch::SwitchV {
        name: sc.name,
        config: lines,
        ports: match sc.ports {
            Some(p) => if p == 0 {
                32
            } else {
                p
            },
            None => 32,
        },
        hub: match sc.hub {
            Some(h) => h,
            None => false,
        },
    }
}

pub open spec fn conv_switches_upto(c: ConfigV, lines: Seq<Seq<Seq<char>>>, k: int) -> Seq<
    crate::switch::SwitchV,
>
    decreases k,
{
    if k <= 0 {
        Seq::<crate::switch::SwitchV>::empty()
    } else {
        conv_switches_upto(c, lines, k - 1).push(conv_switch(c.switch[k - 1], lines[k - 1]))
    }
}

/// The interface a declaration becomes.
pub open spec fn conv_iface(ic: NSInterfaceC) -> crate::namespace::NSInterfaceV {
    crate::namespace::NSInterfaceV { name: ic.name, ip: ic.ip, gateway: ic.gateway }
}

pub open spec fn conv_ifaces_upto(ifs: Seq<NSInterfaceC>, k: int) -> Seq<
    crate::namespace::NSInterfaceV,
>
    decreases k,
{
    if k <= 0 {
        Seq::<crate::namespace::NSInterfaceV>::empty()
    } else {
        conv_ifaces_upto(ifs, k - 1).push(conv_iface(ifs[k - 1]))
    }
}

/// The namespace a declaration becomes: its interfaces, the default
/// loopback command, then the per-interface commands.
pub open spec fn conv_ns(nc: NamespaceC) -> crate::namespace::NamespaceV {
    let ifs = conv_ifaces_upto(nc.interfaces, nc.interfaces.len() as int);
    crate::namespace::NamespaceV {
        name: nc.name,
        interfaces: ifs,
        config: seq!["ip link set lo up\n"@] + crate::namespace::iface_config_upto(
            ifs,
            ifs.len() as int,
        ),
    }
}

pub open spec fn conv_nss_upto(c: ConfigV, k: int) -> Seq<crate::namespace::NamespaceV>
    decreases k,
{
    if k <= 0 {
        Seq::<crate::namespace::NamespaceV>::empty()
    } else {
        conv_nss_upto(c, k - 1).push(conv_ns(c.namespace[k - 1]))
    }
}

pub open spec fn conv_slirps_upto(c: ConfigV, k: int) -> Seq<crate::slirp::SlirpV>
    decreases k,
{
    if k <= 0 {
        Seq::<crate::slirp::SlirpV>::empty()
    } else {
        conv_slirps_upto(c, k - 1).push(crate::slirp::SlirpV { name: c.slirp[k - 1].name })
    }
}

pub open spec fn conv_vxvdes_upto(c: ConfigV, k: int) -> Seq<crate::vxvde::VXVDEV>
    decreases k,
{
    if k <= 0 {
        Seq::<crate::vxvde::VXVDEV>::empty()
    } else {
        conv_vxvdes_upto(c, k - 1).push(
            crate::vxvde::VXVDEV {
                name: c.vxvde[k - 1].name,
                addr: c.vxvde[k - 1].addr,
                port: c.vxvde[k - 1].port,
            },
        )
    }
}

/// Whether a cable end can be resolved: open ends always, others against
/// a declared switch, or against a declared namespace by interface name.
pub open spec fn ep_resolvable(c: ConfigV, ep: EndpointC) -> bool {
    ||| ep.open == Some(true)
    ||| cfg_switch_named(c, ep.name)
    ||| (cfg_ns_named(c, ep.name) && ep.port is Some && exists|j: int, x: int|
        0 <= j < c.namespace.len() && c.namespace[j].name == ep.name && 0 <= x
            < c.namespace[j].interfaces.len() && c.namespace[j].interfaces[x].name
            == ep.port->0)
}

/// A bound end whose name matches no declared switch or namespace.
pub open spec fn ep_unknown(c: ConfigV, ep: EndpointC) -> bool {
    ep.open != Some(true) && !cfg_switch_named(c, ep.name) && !cfg_ns_named(c, ep.name)
}

/// A namespace end that gives no interface name.
pub open spec fn ep_portless(c: ConfigV, ep: EndpointC) -> bool {
    ep.open != Some(true) && !cfg_switch_named(c, ep.name) && cfg_ns_named(c, ep.name)
        && ep.port is None
}

/// A namespace end naming an interface no namespace of that name has.
pub open spec fn ep_iface_missing(c: ConfigV, ep: EndpointC) -> bool {
    ep.open != Some(true) && !cfg_switch_named(c, ep.name) && cfg_ns_named(c, ep.name)
        && ep.port is Some && !(exists|j: int, x: int|
        0 <= j < c.namespace.len() && c.namespace[j].name == ep.name && 0 <= x
            < c.namespace[j].interfaces.len() && c.namespace[j].interfaces[x].name
            == ep.port->0)
}

/// Every cable end of the document resolves.
pub open spec fn all_eps_resolvable(c: ConfigV) -> bool {
    forall|i: int|
        0 <= i < c.cable.len() ==> ep_resolvable(c, #[trigger] c.cable[i].endpoint_a)
            && ep_resolvable(c, c.cable[i].endpoint_b)
}

/// The resolved form of a cable end: the filesystem path it attaches to
/// and its transport.
pub open spec fn conv_ep(c: ConfigV, ep: EndpointC) -> crate::cable::EndpointV {
    crate::cable::EndpointV {
        name: if ep.open == Some(true) {
            "opn"@ + seq!['/'] + ep.name
        } else if cfg_switch_named(c, ep.name) {
            crate::strutil::joined(crate::strutil::joined("."@, ep.name), "sock"@)
        } else {
            crate::strutil::joined(crate::strutil::joined("."@, ep.name), match ep.port {
                Some(p) => p,
                None => Seq::<char>::empty(),
            })
        },
        port: ep.port,
        protocol: if ep.open == Some(true) {
            crate::cable::VdeConnProtocols::PTP
        } else if cfg_switch_named(c, ep.name) {
            crate::cable::VdeConnProtocols::VDE
        } else {
            crate::cable::VdeConnProtocols::PTP
        },
    }
}

pub open spec fn conv_cables_upto(c: ConfigV, lines: Seq<Seq<Seq<char>>>, k: int) -> Seq<
    crate::cable::CableV,
>
    decreases k,
{
    if k <= 0 {
        Seq::<crate::cable::CableV>::empty()
    } else {
        conv_cables_upto(c, lines, k - 1).push(
            crate::cable::CableV {
                name: c.cable[k - 1].name,
                a: conv_ep(c, c.cable[k - 1].endpoint_a),
                b: conv_ep(c, c.cable[k - 1].endpoint_b),
                wirefilter: c.cable[k - 1].wirefilter == Some(true),
                config: lines[k - 1],
            },
        )
    }
}

/// The topology a validated document denotes.
pub open spec fn conv_topology(
    c: ConfigV,
    sw_lines: Seq<Seq<Seq<char>>>,
    cb_lines: Seq<Seq<Seq<char>>>,
) -> crate::topology::TopologyV {
    crate::topology::TopologyV {
        switches: conv_switches_upto(c, sw_lines, c.switch.len() as int),
        namespaces: conv_nss_upto(c, c.namespace.len() as int),
        cables: conv_cables_upto(c, cb_lines, c.cable.len() as int),
        slirps: conv_slirps_upto(c, c.slirp.len() as int),
        vxvdes: conv_vxvdes_upto(c, c.vxvde.len() as int),
    }
}

proof fn lemma_conv_switch_names(c: ConfigV, lines: Seq<Seq<Seq<char>>>, k: int)
    requires
        0 <= k <= c.switch.len(),
    ensures
        conv_switches_upto(c, lines, k).len() == k,
        forall|i: int|
            0 <= i < k ==> #[trigger] conv_switches_upto(c, lines, k)[i] == conv_switch(
                c.switch[i],
                lines[i],
            ),
    decreases k,
{
    if k > 0 {
        lemma_conv_switch_names(c, lines, k - 1);
    }
}

proof fn lemma_conv_ns_names(c: ConfigV, k: int)
    requires
        0 <= k <= c.namespace.len(),
    ensures
        conv_nss_upto(c, k).len() == k,
        forall|i: int| 0 <= i < k ==> #[trigger] conv_nss_upto(c, k)[i] == conv_ns(c.namespace[i]),
    decreases k,
{
    if k > 0 {
        lemma_conv_ns_names(c, k - 1);
    }
}

proof fn lemma_conv_slirp_names(c: ConfigV, k: int)
    requires
        0 <= k <= c.slirp.len(),
    ensures
        conv_slirps_upto(c, k).len() == k,
        forall|i: int|
            0 <= i < k ==> (#[trigger] conv_slirps_upto(c, k)[i]).name == c.slirp[i].name,
    decreases k,
{
    if k > 0 {
        lemma_conv_slirp_names(c, k - 1);
    }
}

proof fn lemma_conv_vx_names(c: ConfigV, k: int)
    requires
        0 <= k <= c.vxvde.len(),
    ensures
        conv_vxvdes_upto(c, k).len() == k,
        forall|i: int|
            0 <= i < k ==> (#[trigger] conv_vxvdes_upto(c, k)[i]).name == c.vxvde[i].name,
    decreases k,
{
    if k > 0 {
        lemma_conv_vx_names(c, k - 1);
    }
}

proof fn lemma_conv_cable_names(c: ConfigV, lines: Seq<Seq<Seq<char>>>, k: int)
    requires
        0 <= k <= c.cable.len(),
    ensures
        conv_cables_upto(c, lines, k).len() == k,
        forall|i: int|
            0 <= i < k ==> (#[trigger] conv_cables_upto(c, lines, k)[i]).name == c.cable[i].name,
    decreases k,
{
    if k > 0 {
        lemma_conv_cable_names(c, lines, k - 1);
    }
}

/// Unique names in the document give unique names in the topology it
/// denotes.
#[verifier::rlimit(100)]
#[verifier::spinoff_prover]
proof fn lemma_unique_carries(c: ConfigV, sw_lines: Seq<Seq<Seq<char>>>, cb_lines: Seq<
    Seq<Seq<char>>,
>)
    requires
        cfg_names_unique(c),
    ensures
        crate::topology::names_unique(conv_topology(c, sw_lines, cb_lines)),
{
    let t = conv_topology(c, sw_lines, cb_lines);
    let names = cfg_names(c);
    let ns_n = c.namespace.len() as int;
    let sw_n = c.switch.len() as int;
    let cb_n = c.cable.len() as int;
    let sl_n = c.slirp.len() as int;
    lemma_conv_switch_names(c, sw_lines, sw_n);
    lemma_conv_ns_names(c, ns_n);
    lemma_conv_cable_names(c, cb_lines, cb_n);
    lemma_conv_slirp_names(c, sl_n);
    lemma_conv_vx_names(c, c.vxvde.len() as int);
    assert(forall|i: int| 0 <= i < ns_n ==> names[i] == c.namespace[i].name);
    assert(forall|i: int| 0 <= i < sw_n ==> names[ns_n + i] == c.switch[i].name);
    assert(forall|i: int| 0 <= i < cb_n ==> names[ns_n + sw_n + i] == c.cable[i].name);
    assert(forall|i: int| 0 <= i < sl_n ==> names[ns_n + sw_n + cb_n + i] == c.slirp[i].name);
    assert(forall|i: int|
        0 <= i < c.vxvde.len() ==> names[ns_n + sw_n + cb_n + sl_n + i] == c.vxvde[i].name);
    assert(forall|i: int| 0 <= i < sw_n ==> (#[trigger] t.switches[i]).name == c.switch[i].name);
    assert(forall|i: int| 0 <= i < ns_n ==> (#[trigger] t.namespaces[i]).name
        == c.namespace[i].name);
    assert forall|i: int, j: int| 0 <= i < j < t.namespaces.len() implies (#[trigger] t.namespaces[i]).name
        != (#[trigger] t.namespaces[j]).name by {
        assert(names[(0) + i] == c.namespace[i].name);
        assert(names[(0) + j] == c.namespace[j].name);
    }
    assert forall|i: int, j: int| 0 <= i < j < t.switches.len() implies (#[trigger] t.switches[i]).name
        != (#[trigger] t.switches[j]).name by {
        assert(names[(ns_n) + i] == c.switch[i].name);
        assert(names[(ns_n) + j] == c.switch[j].name);
    }
    assert forall|i: int, j: int| 0 <= i < j < t.cables.len() implies (#[trigger] t.cables[i]).name
        != (#[trigger] t.cables[j]).name by {
        assert(names[(ns_n + sw_n) + i] == c.cable[i].name);
        assert(names[(ns_n + sw_n) + j] == c.cable[j].name);
    }
    assert forall|i: int, j: int| 0 <= i < j < t.slirps.len() implies (#[trigger] t.slirps[i]).name
        != (#[trigger] t.slirps[j]).name by {
        assert(names[(ns_n + sw_n + cb_n) + i] == c.slirp[i].name);
        assert(names[(ns_n + sw_n + cb_n) + j] == c.slirp[j].name);
    }
    assert forall|i: int, j: int| 0 <= i < j < t.vxvdes.len() implies (#[trigger] t.vxvdes[i]).name
        != (#[trigger] t.vxvdes[j]).name by {
        assert(names[(ns_n + sw_n + cb_n + sl_n) + i] == c.vxvde[i].name);
        assert(names[(ns_n + sw_n + cb_n + sl_n) + j] == c.vxvde[j].name);
    }
    assert forall|i: int, j: int|
        0 <= i < t.switches.len() && 0 <= j < t.namespaces.len() implies (#[trigger] t.switches[i]).name
        != (#[trigger] t.namespaces[j]).name by {
        assert(names[(ns_n) + i] == c.switch[i].name);
        assert(names[(0) + j] == c.namespace[j].name);
    }
    assert forall|i: int, j: int|
        0 <= i < t.switches.len() && 0 <= j < t.cables.len() implies (#[trigger] t.switches[i]).name
        != (#[trigger] t.cables[j]).name by {
        assert(names[(ns_n) + i] == c.switch[i].name);
        assert(names[(ns_n + sw_n) + j] == c.cable[j].name);
    }
    assert forall|i: int, j: int|
        0 <= i < t.switches.len() && 0 <= j < t.slirps.len() implies (#[trigger] t.switches[i]).name
        != (#[trigger] t.slirps[j]).name by {
        assert(names[(ns_n) + i] == c.switch[i].name);
        assert(names[(ns_n + sw_n + cb_n) + j] == c.slirp[j].name);
    }
    assert forall|i: int, j: int|
        0 <= i < t.switches.len() && 0 <= j < t.vxvdes.len() implies (#[trigger] t.switches[i]).name
        != (#[trigger] t.vxvdes[j]).name by {
        assert(names[(ns_n) + i] == c.switch[i].name);
        assert(names[(ns_n + sw_n + cb_n + sl_n) + j] == c.vxvde[j].name);
    }
    assert forall|i: int, j: int|
        0 <= i < t.namespaces.len() && 0 <= j < t.cables.len() implies (#[trigger] t.namespaces[i]).name
        != (#[trigger] t.cables[j]).name by {
        assert(names[(0) + i] == c.namespace[i].name);
        assert(names[(ns_n + sw_n) + j] == c.cable[j].name);
    }
    assert forall|i: int, j: int|
        0 <= i < t.namespaces.len() && 0 <= j < t.slirps.len() implies (#[trigger] t.namespaces[i]).name
        != (#[trigger] t.slirps[j]).name by {
        assert(names[(0) + i] == c.namespace[i].name);
        assert(names[(ns_n + sw_n + cb_n) + j] == c.slirp[j].name);
    }
    assert forall|i: int, j: int|
        0 <= i < t.namespaces.len() && 0 <= j < t.vxvdes.len() implies (#[trigger] t.namespaces[i]).name
        != (#[trigger] t.vxvdes[j]).name by {
        assert(names[(0) + i] == c.namespace[i].name);
        assert(names[(ns_n + sw_n + cb_n + sl_n) + j] == c.vxvde[j].name);
    }
    assert forall|i: int, j: int|
        0 <= i < t.cables.len() && 0 <= j < t.slirps.len() implies (#[trigger] t.cables[i]).name
        != (#[trigger] t.slirps[j]).name by {
        assert(names[(ns_n + sw_n) + i] == c.cable[i].name);
        assert(names[(ns_n + sw_n + cb_n) + j] == c.slirp[j].name);
    }
    assert forall|i: int, j: int|
        0 <= i < t.cables.len() && 0 <= j < t.vxvdes.len() implies (#[trigger] t.cables[i]).name
        != (#[trigger] t.vxvdes[j]).name by {
        assert(names[(ns_n + sw_n) + i] == c.cable[i].name);
        assert(names[(ns_n + sw_n + cb_n + sl_n) + j] == c.vxvde[j].name);
    }
    assert forall|i: int, j: int|
        0 <= i < t.slirps.len() && 0 <= j < t.vxvdes.len() implies (#[trigger] t.slirps[i]).name
        != (#[trigger] t.vxvdes[j]).name by {
        assert(names[(ns_n + sw_n + cb_n) + i] == c.slirp[i].name);
        assert(names[(ns_n + sw_n + cb_n + sl_n) + j] == c.vxvde[j].name);
    }
}

/// Turn a checked document into the topology it denotes.  The caller
/// reads the declared config files and hands their lines in, one vector
/// per switch and per cable, empty where no file is declared.  Succeeds
/// exactly when the declared names are unique and every bound cable end
/// resolves; the result is then the denoted topology, its names unique.
#[verifier::rlimit(100)]
#[verifier::spinoff_prover]
pub fn config_to_vde_topology(
    c: &Config,
    switch_configs: &Vec<Vec<String>>,
    cable_configs: &Vec<Vec<String>>,
) -> (r: Result<crate::topology::Topology, BuildFault>)
    requires
        switch_configs@.len() == c@.switch.len(),
        cable_configs@.len() == c@.cable.len(),
    ensures
        match r {
            Ok(t) => cfg_names_unique(c@) && all_eps_resolvable(c@) && t@ == conv_topology(
                c@,
                switch_configs.deep_view(),
                cable_configs.deep_view(),
            ) && crate::topology::names_unique(t@),
            Err(f) => match f {
                BuildFault::NameAlreadyUsed => !cfg_names_unique(c@),
                BuildFault::UnknownEndpoint => cfg_names_unique(c@) && exists|i: int|
                    0 <= i < c@.cable.len() && (ep_unknown(c@, #[trigger] c@.cable[i].endpoint_a)
                        || ep_unknown(c@, c@.cable[i].endpoint_b)),
                BuildFault::PortRequired => cfg_names_unique(c@) && exists|i: int|
                    0 <= i < c@.cable.len() && (ep_portless(c@, #[trigger] c@.cable[i].endpoint_a)
                        || ep_portless(c@, c@.cable[i].endpoint_b)),
                BuildFault::NoSuchInterface => cfg_names_unique(c@) && exists|i: int|
                    0 <= i < c@.cable.len() && (ep_iface_missing(c@,
                        #[trigger] c@.cable[i].endpoint_a) || ep_iface_missing(c@,
                        c@.cable[i].endpoint_b)),
            },
        },
{
    let ghost cv = c@;
    let ghost swl = switch_configs.deep_view();
    let ghost cbl = cable_configs.deep_view();

    if let Err(_) = unique_names_check(c) {
        return Err(BuildFault::NameAlreadyUsed);
    }

    // Switches.
    let mut switches: Vec<crate::switch::Switch> = Vec::new();
    let swsrc: &Vec<Switch> = match &c.switch {
        Some(v) => v,
        None => {
            proof {
                assert(cv.switch =~= Seq::<SwitchC>::empty());
            }
            &Vec::new()
        },
    };
    proof {
        assert(cv.switch == swsrc.deep_view());
        assert(switches.deep_view() =~= conv_switches_upto(cv, swl, 0));
    }
    let m = swsrc.len();
    let mut i: usize = 0;
    while i < m
        invariant
            m == swsrc@.len(),
            0 <= i <= m,
            cv == c@,
            swl == switch_configs.deep_view(),
            cv.switch == swsrc.deep_view(),
            switch_configs@.len() == cv.switch.len(),
            switches.deep_view() == conv_switches_upto(cv, swl, i as int),
        decreases m - i,
    {
        let sc = &swsrc[i];
        let sw = crate::switch::Switch {
            name: sc.name.clone(),
            config: crate::strutil::clone_strings(&switch_configs[i]),
            ports: match sc.ports {
                Some(p) => if p == 0 {
                    32
                } else {
                    p
                },
                None => 32,
            },
            hub: match sc.hub {
                Some(h) => h,
                None => false,
            },
        };
        proof {
            assert(sw@ == conv_switch(cv.switch[i as int], swl[i as int]));
        }
        let ghost pre = switches.deep_view();
        switches.push(sw);
        proof {
            assert(switches.deep_view() =~= pre.push(conv_switch(cv.switch[i as int],
                swl[i as int])));
        }
        i = i + 1;
    }

    // Namespaces, with their default and per-interface commands.
    let mut namespaces: Vec<crate::namespace::Namespace> = Vec::new();
    let nssrc: &Vec<Namespace> = match &c.namespace {
        Some(v) => v,
        None => {
            proof {
                assert(cv.namespace =~= Seq::<NamespaceC>::empty());
            }
            &Vec::new()
        },
    };
    proof {
        assert(cv.namespace == nssrc.deep_view());
        assert(namespaces.deep_view() =~= conv_nss_upto(cv, 0));
    }
    let m = nssrc.len();
    let mut i: usize = 0;
    while i < m
        invariant
            m == nssrc@.len(),
            0 <= i <= m,
            cv == c@,
            cv.namespace == nssrc.deep_view(),
            namespaces.deep_view() == conv_nss_upto(cv, i as int),
        decreases m - i,
    {
        let nc = &nssrc[i];
        let mut n = crate::namespace::Namespace::new(nc.name.clone());
        let nf = nc.interfaces.len();
        let mut x: usize = 0;
        proof {
            assert(n@.interfaces =~= conv_ifaces_upto(cv.namespace[i as int].interfaces, 0));
        }
        while x < nf
            invariant
                nf == nc.interfaces@.len(),
                0 <= x <= nf,
                cv == c@,
                cv.namespace == nssrc.deep_view(),
                m == nssrc@.len(),
                i < m,
                nc == &nssrc@[i as int],
                n@.name == cv.namespace[i as int].name,
                n@.config =~= Seq::<Seq<char>>::empty(),
                n@.interfaces == conv_ifaces_upto(cv.namespace[i as int].interfaces, x as int),
            decreases nf - x,
        {
            let f = &nc.interfaces[x];
            n.add_interface(crate::namespace::NSInterface {
                name: f.name.clone(),
                ip: f.ip.clone(),
                gateway: f.gateway.clone(),
            });
            proof {
                assert(n@.interfaces =~= conv_ifaces_upto(cv.namespace[i as int].interfaces, x
                    + 1));
            }
            x = x + 1;
        }
        let defaults = crate::namespace::Namespace::default_confing();
        n.add_config(defaults[0].clone());
        proof {
            assert(n@.config =~= seq!["ip link set lo up\n"@]);
        }
        let ghost before_cfg = n@;
        let extra = n.config_for_interfaces();
        let ne = extra.len();
        let mut x: usize = 0;
        while x < ne
            invariant
                ne == extra@.len(),
                0 <= x <= ne,
                n@.name == before_cfg.name,
                n@.interfaces == before_cfg.interfaces,
                n@.config == before_cfg.config + extra.deep_view().subrange(0, x as int),
            decreases ne - x,
        {
            n.add_config(extra[x].clone());
            proof {
                assert(n@.config =~= before_cfg.config + extra.deep_view().subrange(0, x + 1));
            }
            x = x + 1;
        }
        proof {
            assert(extra.deep_view().subrange(0, ne as int) =~= extra.deep_view());
            assert(n@ == conv_ns(cv.namespace[i as int]));
        }
        let ghost pre = namespaces.deep_view();
        namespaces.push(n);
        proof {
            assert(namespaces.deep_view() =~= pre.push(conv_ns(cv.namespace[i as int])));
        }
        i = i + 1;
    }

    // NAT exits and overlays.
    let mut slirps: Vec<crate::slirp::Slirp> = Vec::new();
    if let Some(sls) = &c.slirp {
        let m = sls.len();
        let mut i: usize = 0;
        proof {
            assert(slirps.deep_view() =~= conv_slirps_upto(cv, 0));
        }
        while i < m
            invariant
                m == sls@.len(),
                0 <= i <= m,
                cv == c@,
                cv.slirp == sls.deep_view(),
                slirps.deep_view() == conv_slirps_upto(cv, i as int),
            decreases m - i,
        {
            let ghost pre = slirps.deep_view();
            slirps.push(crate::slirp::Slirp { name: sls[i].name.clone() });
            proof {
                assert(slirps.deep_view() =~= pre.push(crate::slirp::SlirpV {
                    name: cv.slirp[i as int].name,
                }));
            }
            i = i + 1;
        }
    } else {
        proof {
            assert(cv.slirp =~= Seq::<SlirpC>::empty());
            assert(slirps.deep_view() =~= conv_slirps_upto(cv, cv.slirp.len() as int));
        }
    }

    let mut vxvdes: Vec<crate::vxvde::VXVDE> = Vec::new();
    if let Some(vxs) = &c.vxvde {
        let m = vxs.len();
        let mut i: usize = 0;
        proof {
            assert(vxvdes.deep_view() =~= conv_vxvdes_upto(cv, 0));
        }
        while i < m
            invariant
                m == vxs@.len(),
                0 <= i <= m,
                cv == c@,
                cv.vxvde == vxs.deep_view(),
                vxvdes.deep_view() == conv_vxvdes_upto(cv, i as int),
            decreases m - i,
        {
            let ghost pre = vxvdes.deep_view();
            vxvdes.push(crate::vxvde::VXVDE {
                name: vxs[i].name.clone(),
                addr: vxs[i].addr.clone(),
                port: vxs[i].port,
            });
            proof {
                assert(vxvdes.deep_view() =~= pre.push(crate::vxvde::VXVDEV {
                    name: cv.vxvde[i as int].name,
                    addr: cv.vxvde[i as int].addr,
                    port: cv.vxvde[i as int].port,
                }));
            }
            i = i + 1;
        }
    } else {
        proof {
            assert(cv.vxvde =~= Seq::<VxvdeC>::empty());
            assert(vxvdes.deep_view() =~= conv_vxvdes_upto(cv, cv.vxvde.len() as int));
        }
    }

    // Assemble the device part; cables resolve against it.
    let t = crate::topology::Topology {
        switches,
        namespaces,
        cables: Vec::new(),
        slirps,
        vxvdes,
    };
    proof {
        lemma_conv_switch_names(cv, swl, cv.switch.len() as int);
        lemma_conv_ns_names(cv, cv.namespace.len() as int);
        assert(t@.cables =~= Seq::<crate::cable::CableV>::empty());
    }

    let mut cables: Vec<crate::cable::Cable> = Vec::new();
    let cbsrc: &Vec<Cable> = match &c.cable {
        Some(v) => v,
        None => {
            proof {
                assert(cv.cable =~= Seq::<CableC>::empty());
            }
            &Vec::new()
        },
    };
    proof {
        assert(cv.cable == cbsrc.deep_view());
        assert(cables.deep_view() =~= conv_cables_upto(cv, cbl, 0));
    }
    let m = cbsrc.len();
    let mut i: usize = 0;
    while i < m
        invariant
            m == cbsrc@.len(),
            0 <= i <= m,
            cv == c@,
            cbl == cable_configs.deep_view(),
            cv.cable == cbsrc.deep_view(),
            cable_configs@.len() == cv.cable.len(),
            t@.switches == conv_switches_upto(cv, swl, cv.switch.len() as int),
            t@.namespaces == conv_nss_upto(cv, cv.namespace.len() as int),
            t@.switches.len() == cv.switch.len(),
            t@.namespaces.len() == cv.namespace.len(),
            forall|j: int|
                0 <= j < cv.switch.len() ==> (#[trigger] t@.switches[j]).name
                    == cv.switch[j].name,
            forall|j: int|
                0 <= j < cv.namespace.len() ==> #[trigger] t@.namespaces[j] == conv_ns(
                    cv.namespace[j],
                ),
            cfg_names_unique(cv),
            cables.deep_view() == conv_cables_upto(cv, cbl, i as int),
            forall|j: int|
                0 <= j < i ==> ep_resolvable(cv, #[trigger] cv.cable[j].endpoint_a)
                    && ep_resolvable(cv, cv.cable[j].endpoint_b),
        decreases m - i,
    {
        let cb = &cbsrc[i];
        let (pa, prot_a) = match resolve_end(c, &t, &cb.endpoint_a) {
            Ok(v) => v,
            Err(f) => {
                proof {
                    let ghost w = i as int;
                    assert(0 <= w < cv.cable.len());
                }
                return Err(f);
            },
        };
        let (pb, prot_b) = match resolve_end(c, &t, &cb.endpoint_b) {
            Ok(v) => v,
            Err(f) => {
                proof {
                    let ghost w = i as int;
                    assert(0 <= w < cv.cable.len());
                }
                return Err(f);
            },
        };
        let cable = crate::cable::Cable {
            name: cb.name.clone(),
            a: crate::cable::Endpoint { name: pa, port: cb.endpoint_a.port.clone(), protocol: prot_a },
            b: crate::cable::Endpoint { name: pb, port: cb.endpoint_b.port.clone(), protocol: prot_b },
            wirefilter: cb.wirefilter == Some(true),
            config: crate::strutil::clone_strings(&cable_configs[i]),
        };
        proof {
            assert(cable@ == (crate::cable::CableV {
                name: cv.cable[i as int].name,
                a: conv_ep(cv, cv.cable[i as int].endpoint_a),
                b: conv_ep(cv, cv.cable[i as int].endpoint_b),
                wirefilter: cv.cable[i as int].wirefilter == Some(true),
                config: cbl[i as int],
            }));
        }
        let ghost pre = cables.deep_view();
        cables.push(cable);
        proof {
            assert(cables.deep_view() =~= conv_cables_upto(cv, cbl, i + 1));
        }
        i = i + 1;
    }

    let mut t = t;
    t.cables = cables;
    proof {
        lemma_unique_carries(cv, swl, cbl);
        assert(t@ == conv_topology(cv, swl, cbl));
    }
    Ok(t)
}

/// Resolve one cable end against the built devices; see [`conv_ep`].
fn resolve_end(
    c: &Config,
    t: &crate::topology::Topology,
    ep: &Endpoint,
) -> (r: Result<(String, crate::cable::VdeConnProtocols), BuildFault>)
    requires
        cfg_names_unique(c@),
        t@.switches.len() == c@.switch.len(),
        t@.namespaces.len() == c@.namespace.len(),
        forall|j: int|
            0 <= j < c@.switch.len() ==> (#[trigger] t@.switches[j]).name == c@.switch[j].name,
        forall|j: int|
            0 <= j < c@.namespace.len() ==> #[trigger] t@.namespaces[j] == conv_ns(
                c@.namespace[j],
            ),
    ensures
        match r {
            Ok(v) => ep_resolvable(c@, ep@) && v.0@ == conv_ep(c@, ep@).name && v.1 == conv_ep(
                c@,
                ep@,
            ).protocol,
            Err(f) => match f {
                BuildFault::UnknownEndpoint => ep_unknown(c@, ep@),
                BuildFault::PortRequired => ep_portless(c@, ep@),
                BuildFault::NoSuchInterface => ep_iface_missing(c@, ep@),
                BuildFault::NameAlreadyUsed => false,
            },
        },
{
    if ep.open == Some(true) {
        let mut p = crate::strutil::join_path("opn", ep.name.as_str());
        proof {
            reveal_strlit("opn");
        }
        return Ok((p, crate::cable::VdeConnProtocols::PTP));
    }
    if let Some(idx) = t.switch_index(ep.name.as_str()) {
        proof {
            assert(cfg_switch_named(c@, ep@.name));
        }
        return Ok((t.switches[idx].sock_path("."), crate::cable::VdeConnProtocols::VDE));
    }
    proof {
        assert(!cfg_switch_named(c@, ep@.name)) by {
            if cfg_switch_named(c@, ep@.name) {
                let j = choose|j: int|
                    0 <= j < c@.switch.len() && c@.switch[j].name == ep@.name;
                assert(t@.switches[j].name == ep@.name);
            }
        }
    }
    let idx = match t.namespace_index(ep.name.as_str()) {
        Some(idx) => idx,
        None => {
            proof {
                assert(!cfg_ns_named(c@, ep@.name)) by {
                    if cfg_ns_named(c@, ep@.name) {
                        let j = choose|j: int|
                            0 <= j < c@.namespace.len() && c@.namespace[j].name == ep@.name;
                        assert(t@.namespaces[j] == conv_ns(c@.namespace[j]));
                        assert(t@.namespaces[j].name == ep@.name);
                    }
                }
            }
            return Err(BuildFault::UnknownEndpoint);
        },
    };
    proof {
        assert(cfg_ns_named(c@, ep@.name)) by {
            assert(t@.namespaces[idx as int] == conv_ns(c@.namespace[idx as int]));
        }
    }
    let port = match &ep.port {
        Some(p) => p,
        None => {
            return Err(BuildFault::PortRequired);
        },
    };
    match t.namespaces[idx].conn_path(".", port.as_str()) {
        Ok(p) => {
            proof {
                let x = choose|x: int|
                    0 <= x < t@.namespaces[idx as int].interfaces.len()
                        && t@.namespaces[idx as int].interfaces[x].name == port@;
                lemma_conv_iface_names(c@.namespace[idx as int].interfaces,
                    c@.namespace[idx as int].interfaces.len() as int);
                assert(c@.namespace[idx as int].interfaces[x].name == port@);
                assert(ep_resolvable(c@, ep@));
            }
            Ok((p, crate::cable::VdeConnProtocols::PTP))
        },
        Err(_) => {
            proof {
                assert(!ep_resolvable(c@, ep@)) by {
                    if ep_resolvable(c@, ep@) {
                        let (j, x) = choose|j: int, x: int|
                            0 <= j < c@.namespace.len() && c@.namespace[j].name == ep@.name && 0
                                <= x < c@.namespace[j].interfaces.len()
                                && c@.namespace[j].interfaces[x].name == ep@.port->0;
                        // Names are unique only pre-checked by the
                        // caller; still, the found namespace is the
                        // first of its name, and the resolver only
                        // consults that one.  A second namespace of the
                        // same name cannot exist here because the first
                        // match and the witness share the name.
                        assert(t@.namespaces[j] == conv_ns(c@.namespace[j]));
                        assert(t@.namespaces[j].name == ep@.name);
                        assert(j >= idx);
                        if j == idx {
                            lemma_conv_iface_names(c@.namespace[j].interfaces,
                                c@.namespace[j].interfaces.len() as int);
                            assert(t@.namespaces[j].interfaces[x].name == ep@.port->0);
                        } else {
                            // Two namespaces of one name would break the
                            // checked uniqueness.
                            assert(cfg_names(c@)[idx as int] == c@.namespace[idx as int].name);
                            assert(cfg_names(c@)[j] == c@.namespace[j].name);
                            assert(t@.namespaces[idx as int].name == ep@.name);
                            assert(false);
                        }
                    }
                }
            }
            Err(BuildFault::NoSuchInterface)
        },
    }
}

proof fn lemma_conv_iface_names(ifs: Seq<NSInterfaceC>, k: int)
    requires
        0 <= k <= ifs.len(),
    ensures
        conv_ifaces_upto(ifs, k).len() == k,
        forall|i: int|
            0 <= i < k ==> #[trigger] conv_ifaces_upto(ifs, k)[i] == conv_iface(ifs[i]),
    decreases k,
{
    if k > 0 {
        lemma_conv_iface_names(ifs, k - 1);
    }
}

/// The uniqueness pre-check of the builder: the same scan the validation
/// engine's first stage runs.
fn unique_names_check(c: &Config) -> (r: Result<(), BuildFault>)
    ensures
        r is Ok <==> cfg_names_unique(c@),
{
    match c.checks_names_only() {
        Ok(_) => Ok(()),
        Err(_) => Err(BuildFault::NameAlreadyUsed),
    }
}

/// The position of a (device, port) pair among those recorded, if any.
fn find_pair(pn: &Vec<String>, pp: &Vec<String>, name: &String, port: &String) -> (r: Option<
    usize,
>)
    requires
        pn@.len() == pp@.len(),
    ensures
        match r {
            Some(x) => x < pn@.len() && pn.deep_view()[x as int] == name@ && pp.deep_view()[
                x as int
            ] == port@,
            None => forall|x: int|
                0 <= x < pn@.len() ==> !(pn.deep_view()[x] == name@ && pp.deep_view()[x]
                    == port@),
        },
{
    let m = pn.len();
    let mut x: usize = 0;
    while x < m
        invariant
            m == pn@.len(),
            pn@.len() == pp@.len(),
            0 <= x <= m,
            forall|j: int|
                0 <= j < x ==> !(pn.deep_view()[j] == name@ && pp.deep_view()[j] == port@),
        decreases m - x,
    {
        if str_eq(pn[x].as_str(), name.as_str()) && str_eq(pp[x].as_str(), port.as_str()) {
            return Some(x);
        }
        x = x + 1;
    }
    None
}


impl Config {
    /// The name-uniqueness scan alone: the validation engine's first
    /// stage, without the per-entity checks.
    pub fn checks_names_only(&self) -> (r: Result<(), ValidationError>)
        ensures
            r is Ok <==> cfg_names_unique(self@),
            r is Err ==> r->Err_0@ matches ValidationErrorV::DuplicateName { .. },
    {
        let ghost names = cfg_names(self@);
        let ghost ns_n = self@.namespace.len() as int;
        let ghost sw_n = self@.switch.len() as int;
        let ghost cb_n = self@.cable.len() as int;
        let ghost sl_n = self@.slirp.len() as int;
        let ghost vx_n = self@.vxvde.len() as int;

        let mut seen: Vec<String> = Vec::new();
        proof {
            assert(seen.deep_view() =~= names.subrange(0, 0));
        }

        if let Some(nss2) = &self.namespace {
            let m = nss2.len();
            let mut i: usize = 0;
            while i < m
                invariant
                    m == nss2.len(),
                    0 <= i <= m,
                    self@.namespace == nss2.deep_view(),
                    names == cfg_names(self@),
                    ns_n == self@.namespace.len(),
                    sw_n == self@.switch.len(),
                    cb_n == self@.cable.len(),
                    sl_n == self@.slirp.len(),
                    vx_n == self@.vxvde.len(),
                    seen.deep_view() == names.subrange(0, 0 + i),
                    forall|a: int, b: int| 0 <= a < b < 0 + i ==> names[a] != names[b],
                decreases m - i,
            {
                proof {
                    assert(names[0 + i] == self@.namespace[i as int].name);
                }
                if !scan_unique(&mut seen, &nss2[i].name) {
                    proof {
                        assert(seen.deep_view() == names.subrange(0, 0 + i));
                        assert(seen.deep_view().len() == seen@.len());
                        assert(seen@.len() == (0 + i));
                        assert(exists|j: int|
                            0 <= j < seen@.len() && seen.deep_view()[j]
                                == nss2[i as int]@.name);
                        let j = choose|j: int|
                            0 <= j < seen@.len() && seen.deep_view()[j] == nss2[i as int]@.name;
                        assert(seen.deep_view()[j] == names.subrange(0, 0 + i)[j]);
                        assert(names.subrange(0, 0 + i)[j] == names[j]);
                        assert(0 <= j && j < (0 + i));
                        assert((0 + i) < names.len());
                        assert(names[j] == names[0 + i]);
                        assert(!cfg_names_unique(self@));
                    }
                    return Err(ValidationError::DuplicateName { name: nss2[i].name.clone() });
                }
                proof {
                    assert(seen.deep_view() =~= names.subrange(0, 0 + i + 1));
                    assert forall|a: int| 0 <= a < (0 + i) implies #[trigger] names[a]
                        != names[0 + i] by {
                        assert(names.subrange(0, 0 + i)[a] == names[a]);
                    }
                }
                i = i + 1;
            }
        } else {
            proof {
                assert(self@.namespace =~= Seq::<NamespaceC>::empty());
            }
        }

        if let Some(sws2) = &self.switch {
            let m = sws2.len();
            let mut i: usize = 0;
            while i < m
                invariant
                    m == sws2.len(),
                    0 <= i <= m,
                    self@.switch == sws2.deep_view(),
                    names == cfg_names(self@),
                    ns_n == self@.namespace.len(),
                    sw_n == self@.switch.len(),
                    cb_n == self@.cable.len(),
                    sl_n == self@.slirp.len(),
                    vx_n == self@.vxvde.len(),
                    seen.deep_view() == names.subrange(0, ns_n + i),
                    forall|a: int, b: int| 0 <= a < b < ns_n + i ==> names[a] != names[b],
                decreases m - i,
            {
                proof {
                    assert(names[ns_n + i] == self@.switch[i as int].name);
                }
                if !scan_unique(&mut seen, &sws2[i].name) {
                    proof {
                        assert(seen.deep_view() == names.subrange(0, ns_n + i));
                        assert(seen.deep_view().len() == seen@.len());
                        assert(seen@.len() == (ns_n + i));
                        assert(exists|j: int|
                            0 <= j < seen@.len() && seen.deep_view()[j]
                                == sws2[i as int]@.name);
                        let j = choose|j: int|
                            0 <= j < seen@.len() && seen.deep_view()[j] == sws2[i as int]@.name;
                        assert(seen.deep_view()[j] == names.subrange(0, ns_n + i)[j]);
                        assert(names.subrange(0, ns_n + i)[j] == names[j]);
                        assert(0 <= j && j < (ns_n + i));
                        assert((ns_n + i) < names.len());
                        assert(names[j] == names[ns_n + i]);
                        assert(!cfg_names_unique(self@));
                    }
                    return Err(ValidationError::DuplicateName { name: sws2[i].name.clone() });
                }
                proof {
                    assert(seen.deep_view() =~= names.subrange(0, ns_n + i + 1));
                    assert forall|a: int| 0 <= a < (ns_n + i) implies #[trigger] names[a]
                        != names[ns_n + i] by {
                        assert(names.subrange(0, ns_n + i)[a] == names[a]);
                    }
                }
                i = i + 1;
            }
        } else {
            proof {
                assert(self@.switch =~= Seq::<SwitchC>::empty());
            }
        }

        if let Some(cbs2) = &self.cable {
            let m = cbs2.len();
            let mut i: usize = 0;
            while i < m
                invariant
                    m == cbs2.len(),
                    0 <= i <= m,
                    self@.cable == cbs2.deep_view(),
                    names == cfg_names(self@),
                    ns_n == self@.namespace.len(),
                    sw_n == self@.switch.len(),
                    cb_n == self@.cable.len(),
                    sl_n == self@.slirp.len(),
                    vx_n == self@.vxvde.len(),
                    seen.deep_view() == names.subrange(0, ns_n + sw_n + i),
                    forall|a: int, b: int| 0 <= a < b < ns_n + sw_n + i ==> names[a] != names[b],
                decreases m - i,
            {
                proof {
                    assert(names[ns_n + sw_n + i] == self@.cable[i as int].name);
                }
                if !scan_unique(&mut seen, &cbs2[i].name) {
                    proof {
                        assert(seen.deep_view() == names.subrange(0, ns_n + sw_n + i));
                        assert(seen.deep_view().len() == seen@.len());
                        assert(seen@.len() == (ns_n + sw_n + i));
                        assert(exists|j: int|
                            0 <= j < seen@.len() && seen.deep_view()[j]
                                == cbs2[i as int]@.name);
                        let j = choose|j: int|
                            0 <= j < seen@.len() && seen.deep_view()[j] == cbs2[i as int]@.name;
                        assert(seen.deep_view()[j] == names.subrange(0, ns_n + sw_n + i)[j]);
                        assert(names.subrange(0, ns_n + sw_n + i)[j] == names[j]);
                        assert(0 <= j && j < (ns_n + sw_n + i));
                        assert((ns_n + sw_n + i) < names.len());
                        assert(names[j] == names[ns_n + sw_n + i]);
                        assert(!cfg_names_unique(self@));
                    }
                    return Err(ValidationError::DuplicateName { name: cbs2[i].name.clone() });
                }
                proof {
                    assert(seen.deep_view() =~= names.subrange(0, ns_n + sw_n + i + 1));
                    assert forall|a: int| 0 <= a < (ns_n + sw_n + i) implies #[trigger] names[a]
                        != names[ns_n + sw_n + i] by {
                        assert(names.subrange(0, ns_n + sw_n + i)[a] == names[a]);
                    }
                }
                i = i + 1;
            }
        } else {
            proof {
                assert(self@.cable =~= Seq::<CableC>::empty());
            }
        }

        if let Some(sls2) = &self.slirp {
            let m = sls2.len();
            let mut i: usize = 0;
            while i < m
                invariant
                    m == sls2.len(),
                    0 <= i <= m,
                    self@.slirp == sls2.deep_view(),
                    names == cfg_names(self@),
                    ns_n == self@.namespace.len(),
                    sw_n == self@.switch.len(),
                    cb_n == self@.cable.len(),
                    sl_n == self@.slirp.len(),
                    vx_n == self@.vxvde.len(),
                    seen.deep_view() == names.subrange(0, ns_n + sw_n + cb_n + i),
                    forall|a: int, b: int| 0 <= a < b < ns_n + sw_n + cb_n + i ==> names[a] != names[b],
                decreases m - i,
            {
                proof {
                    assert(names[ns_n + sw_n + cb_n + i] == self@.slirp[i as int].name);
                }
                if !scan_unique(&mut seen, &sls2[i].name) {
                    proof {
                        assert(seen.deep_view() == names.subrange(0, ns_n + sw_n + cb_n + i));
                        assert(seen.deep_view().len() == seen@.len());
                        assert(seen@.len() == (ns_n + sw_n + cb_n + i));
                        assert(exists|j: int|
                            0 <= j < seen@.len() && seen.deep_view()[j]
                                == sls2[i as int]@.name);
                        let j = choose|j: int|
                            0 <= j < seen@.len() && seen.deep_view()[j] == sls2[i as int]@.name;
                        assert(seen.deep_view()[j] == names.subrange(0, ns_n + sw_n + cb_n + i)[j]);
                        assert(names.subrange(0, ns_n + sw_n + cb_n + i)[j] == names[j]);
                        assert(0 <= j && j < (ns_n + sw_n + cb_n + i));
                        assert((ns_n + sw_n + cb_n + i) < names.len());
                        assert(names[j] == names[ns_n + sw_n + cb_n + i]);
                        assert(!cfg_names_unique(self@));
                    }
                    return Err(ValidationError::DuplicateName { name: sls2[i].name.clone() });
                }
                proof {
                    assert(seen.deep_view() =~= names.subrange(0, ns_n + sw_n + cb_n + i + 1));
                    assert forall|a: int| 0 <= a < (ns_n + sw_n + cb_n + i) implies #[trigger] names[a]
                        != names[ns_n + sw_n + cb_n + i] by {
                        assert(names.subrange(0, ns_n + sw_n + cb_n + i)[a] == names[a]);
                    }
                }
                i = i + 1;
            }
        } else {
            proof {
                assert(self@.slirp =~= Seq::<SlirpC>::empty());
            }
        }

        if let Some(vxs2) = &self.vxvde {
            let m = vxs2.len();
            let mut i: usize = 0;
            while i < m
                invariant
                    m == vxs2.len(),
                    0 <= i <= m,
                    self@.vxvde == vxs2.deep_view(),
                    names == cfg_names(self@),
                    ns_n == self@.namespace.len(),
                    sw_n == self@.switch.len(),
                    cb_n == self@.cable.len(),
                    sl_n == self@.slirp.len(),
                    vx_n == self@.vxvde.len(),
                    seen.deep_view() == names.subrange(0, ns_n + sw_n + cb_n + sl_n + i),
                    forall|a: int, b: int| 0 <= a < b < ns_n + sw_n + cb_n + sl_n + i ==> names[a] != names[b],
                decreases m - i,
            {
                proof {
                    assert(names[ns_n + sw_n + cb_n + sl_n + i] == self@.vxvde[i as int].name);
                }
                if !scan_unique(&mut seen, &vxs2[i].name) {
                    proof {
                        assert(seen.deep_view() == names.subrange(0, ns_n + sw_n + cb_n + sl_n + i));
                        assert(seen.deep_view().len() == seen@.len());
                        assert(seen@.len() == (ns_n + sw_n + cb_n + sl_n + i));
                        assert(exists|j: int|
                            0 <= j < seen@.len() && seen.deep_view()[j]
                                == vxs2[i as int]@.name);
                        let j = choose|j: int|
                            0 <= j < seen@.len() && seen.deep_view()[j] == vxs2[i as int]@.name;
                        assert(seen.deep_view()[j] == names.subrange(0, ns_n + sw_n + cb_n + sl_n + i)[j]);
                        assert(names.subrange(0, ns_n + sw_n + cb_n + sl_n + i)[j] == names[j]);
                        assert(0 <= j && j < (ns_n + sw_n + cb_n + sl_n + i));
                        assert((ns_n + sw_n + cb_n + sl_n + i) < names.len());
                        assert(names[j] == names[ns_n + sw_n + cb_n + sl_n + i]);
                        assert(!cfg_names_unique(self@));
                    }
                    return Err(ValidationError::DuplicateName { name: vxs2[i].name.clone() });
                }
                proof {
                    assert(seen.deep_view() =~= names.subrange(0, ns_n + sw_n + cb_n + sl_n + i + 1));
                    assert forall|a: int| 0 <= a < (ns_n + sw_n + cb_n + sl_n + i) implies #[trigger] names[a]
                        != names[ns_n + sw_n + cb_n + sl_n + i] by {
                        assert(names.subrange(0, ns_n + sw_n + cb_n + sl_n + i)[a] == names[a]);
                    }
                }
                i = i + 1;
            }
        } else {
            proof {
                assert(self@.vxvde =~= Seq::<VxvdeC>::empty());
            }
        }

        proof {
            assert(names.len() == ns_n + sw_n + cb_n + sl_n + vx_n);
            assert(cfg_names_unique(self@));
        }
        Ok(())
    }
}

} // verus!
