//! The topology aggregate: every declared device of every kind, under one
//! shared namespace of names.  The aggregate owns the cross-device
//! invariants: names are unique across all kinds, and a device still
//! referenced by a cable cannot be removed.

use vstd::prelude::*;
use crate::cable::{Cable, CableV, VdeConnProtocols};
use crate::errors::{DeviceError, TopologyError};
use crate::namespace::{Namespace, NamespaceV};
use crate::slirp::{Slirp, SlirpV};
use crate::strutil::{
    has_path_segment, joined, join_path, lemma_remove_deep_view, seg_matches, str_eq,
};
use crate::switch::{Switch, SwitchV};
use crate::vxvde::{VXVDE, VXVDEV};

verus! {

/// Ghost image of a [`Topology`].
pub ghost struct TopologyV {
    pub switches: Seq<SwitchV>,
    pub namespaces: Seq<NamespaceV>,
    pub cables: Seq<CableV>,
    pub slirps: Seq<SlirpV>,
    pub vxvdes: Seq<VXVDEV>,
}

/// Every device needed to realise a virtual network, grouped by kind.
/// The whole aggregate is persisted to a single document between
/// invocations; the codec module round-trips it losslessly.
#[derive(Debug, Clone)]
pub struct Topology {
    pub switches: Vec<Switch>,
    pub namespaces: Vec<Namespace>,
    pub cables: Vec<Cable>,
    pub slirps: Vec<Slirp>,
    pub vxvdes: Vec<VXVDE>,
}

impl View for Topology {
    type V = TopologyV;

    open spec fn view(&self) -> TopologyV {
        TopologyV {
            switches: self.switches.deep_view(),
            namespaces: self.namespaces.deep_view(),
            cables: self.cables.deep_view(),
            slirps: self.slirps.deep_view(),
            vxvdes: self.vxvdes.deep_view(),
        }
    }
}

/// Some switch of `t` is named `n`.
pub open spec fn switch_named(t: TopologyV, n: Seq<char>) -> bool {
    exists|i: int| 0 <= i < t.switches.len() && t.switches[i].name == n
}

/// Some namespace of `t` is named `n`.
pub open spec fn namespace_named(t: TopologyV, n: Seq<char>) -> bool {
    exists|i: int| 0 <= i < t.namespaces.len() && t.namespaces[i].name == n
}

/// Some cable of `t` is named `n`.
pub open spec fn cable_named(t: TopologyV, n: Seq<char>) -> bool {
    exists|i: int| 0 <= i < t.cables.len() && t.cables[i].name == n
}

/// Some NAT-exit device of `t` is named `n`.
pub open spec fn slirp_named(t: TopologyV, n: Seq<char>) -> bool {
    exists|i: int| 0 <= i < t.slirps.len() && t.slirps[i].name == n
}

/// Some overlay device of `t` is named `n`.
pub open spec fn vxvde_named(t: TopologyV, n: Seq<char>) -> bool {
    exists|i: int| 0 <= i < t.vxvdes.len() && t.vxvdes[i].name == n
}

/// Some device of `t`, of any kind, is named `n`.
pub open spec fn name_used_spec(t: TopologyV, n: Seq<char>) -> bool {
    switch_named(t, n) || namespace_named(t, n) || cable_named(t, n) || slirp_named(t, n)
        || vxvde_named(t, n)
}

/// Device names are unique across all kinds combined: no two devices,
/// whatever their kinds, share a name.
pub open spec fn names_unique(t: TopologyV) -> bool {
    &&& forall|i: int, j: int|
        0 <= i < j < t.switches.len() ==> t.switches[i].name != t.switches[j].name
    &&& forall|i: int, j: int|
        0 <= i < j < t.namespaces.len() ==> t.namespaces[i].name != t.namespaces[j].name
    &&& forall|i: int, j: int| 0 <= i < j < t.cables.len() ==> t.cables[i].name != t.cables[j].name
    &&& forall|i: int, j: int| 0 <= i < j < t.slirps.len() ==> t.slirps[i].name != t.slirps[j].name
    &&& forall|i: int, j: int| 0 <= i < j < t.vxvdes.len() ==> t.vxvdes[i].name != t.vxvdes[j].name
    &&& forall|i: int, j: int|
        0 <= i < t.switches.len() && 0 <= j < t.namespaces.len() ==> t.switches[i].name
            != t.namespaces[j].name
    &&& forall|i: int, j: int|
        0 <= i < t.switches.len() && 0 <= j < t.cables.len() ==> t.switches[i].name
            != t.cables[j].name
    &&& forall|i: int, j: int|
        0 <= i < t.switches.len() && 0 <= j < t.slirps.len() ==> t.switches[i].name
            != t.slirps[j].name
    &&& forall|i: int, j: int|
        0 <= i < t.switches.len() && 0 <= j < t.vxvdes.len() ==> t.switches[i].name
            != t.vxvdes[j].name
    &&& forall|i: int, j: int|
        0 <= i < t.namespaces.len() && 0 <= j < t.cables.len() ==> t.namespaces[i].name
            != t.cables[j].name
    &&& forall|i: int, j: int|
        0 <= i < t.namespaces.len() && 0 <= j < t.slirps.len() ==> t.namespaces[i].name
            != t.slirps[j].name
    &&& forall|i: int, j: int|
        0 <= i < t.namespaces.len() && 0 <= j < t.vxvdes.len() ==> t.namespaces[i].name
            != t.vxvdes[j].name
    &&& forall|i: int, j: int|
        0 <= i < t.cables.len() && 0 <= j < t.slirps.len() ==> t.cables[i].name
            != t.slirps[j].name
    &&& forall|i: int, j: int|
        0 <= i < t.cables.len() && 0 <= j < t.vxvdes.len() ==> t.cables[i].name
            != t.vxvdes[j].name
    &&& forall|i: int, j: int|
        0 <= i < t.slirps.len() && 0 <= j < t.vxvdes.len() ==> t.slirps[i].name
            != t.vxvdes[j].name
}

/// Some cable endpoint of `t` still references the device named `n`.
/// Endpoint references are held in resolved filesystem-path form, so the
/// match looks for `n` as a whole path segment.
pub open spec fn device_in_use(t: TopologyV, n: Seq<char>) -> bool {
    exists|i: int|
        0 <= i < t.cables.len() && (seg_matches(t.cables[i].a.name, n) || seg_matches(
            t.cables[i].b.name,
            n,
        ))
}

impl Topology {
    /// The empty topology; trivially has unique names.
    pub fn new() -> (r: Topology)
        ensures
            r@ == (TopologyV {
                switches: Seq::<SwitchV>::empty(),
                namespaces: Seq::<NamespaceV>::empty(),
                cables: Seq::<CableV>::empty(),
                slirps: Seq::<SlirpV>::empty(),
                vxvdes: Seq::<VXVDEV>::empty(),
            }),
            names_unique(r@),
    {
        let r = Topology {
            switches: Vec::new(),
            namespaces: Vec::new(),
            cables: Vec::new(),
            slirps: Vec::new(),
            vxvdes: Vec::new(),
        };
        proof {
            assert(r@.switches =~= Seq::<SwitchV>::empty());
            assert(r@.namespaces =~= Seq::<NamespaceV>::empty());
            assert(r@.cables =~= Seq::<CableV>::empty());
            assert(r@.slirps =~= Seq::<SlirpV>::empty());
            assert(r@.vxvdes =~= Seq::<VXVDEV>::empty());
        }
        r
    }

    /// The position of the first switch named `name`, if any.
    pub(crate) fn switch_index(&self, name: &str) -> (r: Option<usize>)
        ensures
            match r {
                Some(i) => i < self@.switches.len() && self@.switches[i as int].name == name@ && (
                forall|j: int| 0 <= j < i ==> self@.switches[j].name != name@),
                None => !switch_named(self@, name@),
            },
    {
        let n = self.switches.len();
        let mut i: usize = 0;
        while i < n
            invariant
                n == self.switches.len(),
                0 <= i <= n,
                forall|j: int| 0 <= j < i ==> self@.switches[j].name != name@,
            decreases n - i,
        {
            if str_eq(self.switches[i].name.as_str(), name) {
                return Some(i);
            }
            i = i + 1;
        }
        None
    }

    /// The position of the first namespace named `name`, if any.
    pub(crate) fn namespace_index(&self, name: &str) -> (r: Option<usize>)
        ensures
            match r {
                Some(i) => i < self@.namespaces.len() && self@.namespaces[i as int].name == name@
                    && (forall|j: int| 0 <= j < i ==> self@.namespaces[j].name != name@),
                None => !namespace_named(self@, name@),
            },
    {
        let n = self.namespaces.len();
        let mut i: usize = 0;
        while i < n
            invariant
                n == self.namespaces.len(),
                0 <= i <= n,
                forall|j: int| 0 <= j < i ==> self@.namespaces[j].name != name@,
            decreases n - i,
        {
            if str_eq(self.namespaces[i].name.as_str(), name) {
                return Some(i);
            }
            i = i + 1;
        }
        None
    }

    /// The position of the first cable named `name`, if any.
    pub(crate) fn cable_index(&self, name: &str) -> (r: Option<usize>)
        ensures
            match r {
                Some(i) => i < self@.cables.len() && self@.cables[i as int].name == name@ && (
                forall|j: int| 0 <= j < i ==> self@.cables[j].name != name@),
                None => !cable_named(self@, name@),
            },
    {
        let n = self.cables.len();
        let mut i: usize = 0;
        while i < n
            invariant
                n == self.cables.len(),
                0 <= i <= n,
                forall|j: int| 0 <= j < i ==> self@.cables[j].name != name@,
            decreases n - i,
        {
            if str_eq(self.cables[i].name.as_str(), name) {
                return Some(i);
            }
            i = i + 1;
        }
        None
    }

    /// The position of the first NAT-exit device named `name`, if any.
    pub(crate) fn slirp_index(&self, name: &str) -> (r: Option<usize>)
        ensures
            match r {
                Some(i) => i < self@.slirps.len() && self@.slirps[i as int].name == name@ && (
                forall|j: int| 0 <= j < i ==> self@.slirps[j].name != name@),
                None => !slirp_named(self@, name@),
            },
    {
        let n = self.slirps.len();
        let mut i: usize = 0;
        while i < n
            invariant
                n == self.slirps.len(),
                0 <= i <= n,
                forall|j: int| 0 <= j < i ==> self@.slirps[j].name != name@,
            decreases n - i,
        {
            if str_eq(self.slirps[i].name.as_str(), name) {
                return Some(i);
            }
            i = i + 1;
        }
        None
    }

    /// The position of the first overlay device named `name`, if any.
    pub(crate) fn vxvde_index(&self, name: &str) -> (r: Option<usize>)
        ensures
            match r {
                Some(i) => i < self@.vxvdes.len() && self@.vxvdes[i as int].name == name@ && (
                forall|j: int| 0 <= j < i ==> self@.vxvdes[j].name != name@),
                None => !vxvde_named(self@, name@),
            },
    {
        let n = self.vxvdes.len();
        let mut i: usize = 0;
        while i < n
            invariant
                n == self.vxvdes.len(),
                0 <= i <= n,
                forall|j: int| 0 <= j < i ==> self@.vxvdes[j].name != name@,
            decreases n - i,
        {
            if str_eq(self.vxvdes[i].name.as_str(), name) {
                return Some(i);
            }
            i = i + 1;
        }
        None
    }

    /// Whether any device of any kind is named `name`.
    pub fn is_name_used(&self, name: &str) -> (r: bool)
        ensures
            r == name_used_spec(self@, name@),
    {
        if let Some(_) = self.switch_index(name) {
            return true;
        }
        if let Some(_) = self.namespace_index(name) {
            return true;
        }
        if let Some(_) = self.cable_index(name) {
            return true;
        }
        if let Some(_) = self.slirp_index(name) {
            return true;
        }
        if let Some(_) = self.vxvde_index(name) {
            return true;
        }
        false
    }

    /// Add a switch; fails without changing anything when any device
    /// already has its name.  Name uniqueness is preserved.
    pub fn add_switch(&mut self, sw: Switch) -> (r: Result<(), TopologyError>)
        ensures
            match r {
                Ok(_) => !name_used_spec(old(self)@, sw@.name) && final(self)@ == (TopologyV {
                    switches: old(self)@.switches.push(sw@),
                    ..old(self)@
                }),
                Err(e) => e == TopologyError::NameAlreadyUsed && name_used_spec(old(self)@, sw@.name)
                    && *final(self) == *old(self),
            },
            names_unique(old(self)@) ==> names_unique(final(self)@),
    {
        if self.is_name_used(sw.name.as_str()) {
            return Err(TopologyError::NameAlreadyUsed);
        }
        self.switches.push(sw);
        proof {
            assert(self@.switches =~= old(self)@.switches.push(sw@));
            assert(self@.namespaces =~= old(self)@.namespaces);
            assert(self@.cables =~= old(self)@.cables);
            assert(self@.slirps =~= old(self)@.slirps);
            assert(self@.vxvdes =~= old(self)@.vxvdes);
        }
        Ok(())
    }

    /// Add a namespace; fails without changing anything when any device
    /// already has its name.  Name uniqueness is preserved.
    pub fn add_namespace(&mut self, ns: Namespace) -> (r: Result<(), TopologyError>)
        ensures
            match r {
                Ok(_) => !name_used_spec(old(self)@, ns@.name) && final(self)@ == (TopologyV {
                    namespaces: old(self)@.namespaces.push(ns@),
                    ..old(self)@
                }),
                Err(e) => e == TopologyError::NameAlreadyUsed && name_used_spec(old(self)@, ns@.name)
                    && *final(self) == *old(self),
            },
            names_unique(old(self)@) ==> names_unique(final(self)@),
    {
        if self.is_name_used(ns.name.as_str()) {
            return Err(TopologyError::NameAlreadyUsed);
        }
        self.namespaces.push(ns);
        proof {
            assert(self@.namespaces =~= old(self)@.namespaces.push(ns@));
            assert(self@.switches =~= old(self)@.switches);
            assert(self@.cables =~= old(self)@.cables);
            assert(self@.slirps =~= old(self)@.slirps);
            assert(self@.vxvdes =~= old(self)@.vxvdes);
        }
        Ok(())
    }

    /// Add a cable; fails without changing anything when any device
    /// already has its name.  Name uniqueness is preserved.
    pub fn add_cable(&mut self, c: Cable) -> (r: Result<(), TopologyError>)
        ensures
            match r {
                Ok(_) => !name_used_spec(old(self)@, c@.name) && final(self)@ == (TopologyV {
                    cables: old(self)@.cables.push(c@),
                    ..old(self)@
                }),
                Err(e) => e == TopologyError::NameAlreadyUsed && name_used_spec(old(self)@, c@.name)
                    && *final(self) == *old(self),
            },
            names_unique(old(self)@) ==> names_unique(final(self)@),
    {
        if self.is_name_used(c.name.as_str()) {
            return Err(TopologyError::NameAlreadyUsed);
        }
        self.cables.push(c);
        proof {
            assert(self@.cables =~= old(self)@.cables.push(c@));
            assert(self@.switches =~= old(self)@.switches);
            assert(self@.namespaces =~= old(self)@.namespaces);
            assert(self@.slirps =~= old(self)@.slirps);
            assert(self@.vxvdes =~= old(self)@.vxvdes);
        }
        Ok(())
    }

    /// Add a NAT-exit device; fails without changing anything when any
    /// device already has its name.  Name uniqueness is preserved.
    pub fn add_slirp(&mut self, s: Slirp) -> (r: Result<(), TopologyError>)
        ensures
            match r {
                Ok(_) => !name_used_spec(old(self)@, s@.name) && final(self)@ == (TopologyV {
                    slirps: old(self)@.slirps.push(s@),
                    ..old(self)@
                }),
                Err(e) => e == TopologyError::NameAlreadyUsed && name_used_spec(old(self)@, s@.name)
                    && *final(self) == *old(self),
            },
            names_unique(old(self)@) ==> names_unique(final(self)@),
    {
        if self.is_name_used(s.name.as_str()) {
            return Err(TopologyError::NameAlreadyUsed);
        }
        self.slirps.push(s);
        proof {
            assert(self@.slirps =~= old(self)@.slirps.push(s@));
            assert(self@.switches =~= old(self)@.switches);
            assert(self@.namespaces =~= old(self)@.namespaces);
            assert(self@.cables =~= old(self)@.cables);
            assert(self@.vxvdes =~= old(self)@.vxvdes);
        }
        Ok(())
    }

    /// Add an overlay device; fails without changing anything when any
    /// device already has its name.  Name uniqueness is preserved.
    pub fn add_vxvde(&mut self, v: VXVDE) -> (r: Result<(), TopologyError>)
        ensures
            match r {
                Ok(_) => !name_used_spec(old(self)@, v@.name) && final(self)@ == (TopologyV {
                    vxvdes: old(self)@.vxvdes.push(v@),
                    ..old(self)@
                }),
                Err(e) => e == TopologyError::NameAlreadyUsed && name_used_spec(old(self)@, v@.name)
                    && *final(self) == *old(self),
            },
            names_unique(old(self)@) ==> names_unique(final(self)@),
    {
        if self.is_name_used(v.name.as_str()) {
            return Err(TopologyError::NameAlreadyUsed);
        }
        self.vxvdes.push(v);
        proof {
            assert(self@.vxvdes =~= old(self)@.vxvdes.push(v@));
            assert(self@.switches =~= old(self)@.switches);
            assert(self@.namespaces =~= old(self)@.namespaces);
            assert(self@.cables =~= old(self)@.cables);
            assert(self@.slirps =~= old(self)@.slirps);
        }
        Ok(())
    }

    /// Fail when some cable endpoint still references the device named
    /// `name`; removal must not orphan a cable.
    pub fn check_dependecy(&self, name: &String) -> (r: Result<(), TopologyError>)
        ensures
            match r {
                Ok(_) => !device_in_use(self@, name@),
                Err(e) => e == TopologyError::DeviceInUse && device_in_use(self@, name@),
            },
    {
        let n = self.cables.len();
        let mut i: usize = 0;
        while i < n
            invariant
                n == self.cables.len(),
                0 <= i <= n,
                forall|j: int|
                    0 <= j < i ==> !seg_matches(self@.cables[j].a.name, name@) && !seg_matches(
                        self@.cables[j].b.name,
                        name@,
                    ),
            decreases n - i,
        {
            let c = &self.cables[i];
            let eqa = has_path_segment(c.a.name.as_str(), name.as_str());
            let eqb = has_path_segment(c.b.name.as_str(), name.as_str());
            if eqa || eqb {
                proof {
                    let ghost w = i as int;
                    assert(0 <= w < self@.cables.len() && (seg_matches(
                        self@.cables[w].a.name,
                        name@,
                    ) || seg_matches(self@.cables[w].b.name, name@)));
                    assert(device_in_use(self@, name@));
                }
                return Err(TopologyError::DeviceInUse);
            }
            i = i + 1;
        }
        Ok(())
    }

    /// Remove the device named `name`.  Fails with [`TopologyError::DeviceInUse`]
    /// exactly when some cable endpoint still references that name; when no
    /// cable does, it removes exactly the first device of that name — a
    /// switch before a namespace before a cable before the auxiliary kinds
    /// — and nothing else, or changes nothing if no device has the name.
    /// Name uniqueness is preserved.
    pub fn remove_device(&mut self, name: &String) -> (r: Result<(), TopologyError>)
        ensures
            match r {
                Err(e) => e == TopologyError::DeviceInUse && device_in_use(old(self)@, name@)
                    && *final(self) == *old(self),
                Ok(_) => !device_in_use(old(self)@, name@) && {
                    if switch_named(old(self)@, name@) {
                        exists|i: int|
                            #![auto]
                            0 <= i < old(self)@.switches.len() && old(self)@.switches[i].name
                                == name@ && final(self)@ == (TopologyV {
                                switches: old(self)@.switches.remove(i),
                                ..old(self)@
                            })
                    } else if namespace_named(old(self)@, name@) {
                        exists|i: int|
                            #![auto]
                            0 <= i < old(self)@.namespaces.len() && old(self)@.namespaces[i].name
                                == name@ && final(self)@ == (TopologyV {
                                namespaces: old(self)@.namespaces.remove(i),
                                ..old(self)@
                            })
                    } else if cable_named(old(self)@, name@) {
                        exists|i: int|
                            #![auto]
                            0 <= i < old(self)@.cables.len() && old(self)@.cables[i].name == name@
                                && final(self)@ == (TopologyV {
                                cables: old(self)@.cables.remove(i),
                                ..old(self)@
                            })
                    } else if slirp_named(old(self)@, name@) {
                        exists|i: int|
                            #![auto]
                            0 <= i < old(self)@.slirps.len() && old(self)@.slirps[i].name == name@
                                && final(self)@ == (TopologyV {
                                slirps: old(self)@.slirps.remove(i),
                                ..old(self)@
                            })
                    } else if vxvde_named(old(self)@, name@) {
                        exists|i: int|
                            #![auto]
                            0 <= i < old(self)@.vxvdes.len() && old(self)@.vxvdes[i].name == name@
                                && final(self)@ == (TopologyV {
                                vxvdes: old(self)@.vxvdes.remove(i),
                                ..old(self)@
                            })
                    } else {
                        *final(self) == *old(self)
                    }
                },
            },
            names_unique(old(self)@) ==> names_unique(final(self)@),
    {
        if let Err(e) = self.check_dependecy(name) {
            return Err(e);
        }

        if let Some(pos) = self.switch_index(name.as_str()) {
            let ghost pre = self.switches;
            self.switches.remove(pos);
            proof {
                lemma_remove_deep_view(self.switches, pre, pos as int);
            }
            return Ok(());
        }

        if let Some(pos) = self.namespace_index(name.as_str()) {
            let ghost pre = self.namespaces;
            self.namespaces.remove(pos);
            proof {
                lemma_remove_deep_view(self.namespaces, pre, pos as int);
            }
            return Ok(());
        }

        if let Some(pos) = self.cable_index(name.as_str()) {
            let ghost pre = self.cables;
            self.cables.remove(pos);
            proof {
                lemma_remove_deep_view(self.cables, pre, pos as int);
            }
            return Ok(());
        }

        if let Some(pos) = self.slirp_index(name.as_str()) {
            let ghost pre = self.slirps;
            self.slirps.remove(pos);
            proof {
                lemma_remove_deep_view(self.slirps, pre, pos as int);
            }
            return Ok(());
        }

        if let Some(pos) = self.vxvde_index(name.as_str()) {
            let ghost pre = self.vxvdes;
            self.vxvdes.remove(pos);
            proof {
                lemma_remove_deep_view(self.vxvdes, pre, pos as int);
            }
            return Ok(());
        }

        Ok(())
    }

    pub fn get_switches(&self) -> (r: &Vec<Switch>)
        ensures
            r.deep_view() == self@.switches,
    {
        &self.switches
    }

    pub fn get_namespaces(&self) -> (r: &Vec<Namespace>)
        ensures
            r.deep_view() == self@.namespaces,
    {
        &self.namespaces
    }

    pub fn get_cables(&self) -> (r: &Vec<Cable>)
        ensures
            r.deep_view() == self@.cables,
    {
        &self.cables
    }

    pub fn get_slirps(&self) -> (r: &Vec<Slirp>)
        ensures
            r.deep_view() == self@.slirps,
    {
        &self.slirps
    }

    pub fn get_vxvdes(&self) -> (r: &Vec<VXVDE>)
        ensures
            r.deep_view() == self@.vxvdes,
    {
        &self.vxvdes
    }
}

/// The filesystem path a cable endpoint attaches to.  An "open" endpoint
/// is not bound to any declared device and lives under the open directory;
/// a switch endpoint is its data socket; a namespace endpoint is the
/// point-to-point transport of the named interface, so the interface name
/// must be given as the port.  The name must resolve to a declared switch
/// or namespace unless the endpoint is open.
pub fn find_endpoint_path(
    t: &Topology,
    name: &str,
    port: Option<&String>,
    open: Option<bool>,
) -> (r: Result<String, DeviceError>)
    requires
        open == Some(true) || switch_named(t@, name@) || namespace_named(t@, name@),
    ensures
        match r {
            Ok(p) => {
                if open == Some(true) {
                    p@ == "opn"@ + seq!['/'] + name@
                } else if switch_named(t@, name@) {
                    p@ == joined(joined("."@, name@), "sock"@)
                } else {
                    port is Some && p@ == joined(joined("."@, name@), port->0@)
                }
            },
            Err(e) => open != Some(true) && !switch_named(t@, name@) && (match port {
                None => e == DeviceError::PortRequired,
                Some(_) => e == DeviceError::NoSuchInterface,
            }),
        },
{
    if open == Some(true) {
        let mut p = String::from_str("opn");
        p.append("/");
        p.append(name);
        proof {
            reveal_strlit("/");
            assert(p@ =~= "opn"@ + seq!['/'] + name@);
        }
        return Ok(p);
    }

    if let Some(i) = t.switch_index(name) {
        return Ok(t.switches[i].sock_path("."));
    }

    // Namespace endpoints are addressed by interface name, so the port
    // must be given.
    let port = match port {
        Some(p) => p,
        None => {
            return Err(DeviceError::PortRequired);
        },
    };

    if let Some(i) = t.namespace_index(name) {
        return t.namespaces[i].conn_path(".", port.as_str());
    }

    // Unreachable under the requires clause: the name resolves to a
    // switch or a namespace.
    Err(DeviceError::NoSuchInterface)
}

/// The transport kind for a cable endpoint on the named device: the
/// multiplexing socket transport for a switch, the point-to-point
/// transport for a namespace.  The name must resolve to one of the two.
pub fn find_endpoint_protocol(t: &Topology, name: &str) -> (r: Result<
    VdeConnProtocols,
    DeviceError,
>)
    requires
        switch_named(t@, name@) || namespace_named(t@, name@),
    ensures
        match r {
            Ok(p) => if switch_named(t@, name@) {
                p == VdeConnProtocols::VDE
            } else {
                p == VdeConnProtocols::PTP
            },
            Err(_) => false,
        },
{
    if let Some(_) = t.switch_index(name) {
        return Ok(VdeConnProtocols::VDE);
    }
    Ok(VdeConnProtocols::PTP)
}

} // verus!
