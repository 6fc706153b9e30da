//! iOS device bookkeeping: the interfaces each known device is reachable over,
//! and the one connection per device that readings are polled from.
use vstd::prelude::*;

use crate::provider::InterfaceType;

verus! {

/// A device notification from the MobileDevice framework.
#[derive(Clone, Copy, Debug, PartialEq, Eq, Structural)]
pub enum Action {
    Attached,
    Detached,
    Notification,
    Paired,
}

/// A device notification as it arrives: the device handle, what the logic reads
/// of it, and what happened.
#[derive(Debug)]
pub struct DeviceMessage<D> {
    pub device: D,
    pub udid: String,
    pub interface: InterfaceType,
    pub action: Action,
}

/// A device event as shown to the user interface.
#[derive(Debug)]
pub struct DeviceEvent {
    pub udid: String,
    pub name: String,
    pub interface: InterfaceType,
    pub action: Action,
}

/// An incoming USB attach is preferred over an existing non-USB connection.
pub open spec fn spec_prefer_usb(existing: InterfaceType, incoming: InterfaceType) -> bool {
    incoming == InterfaceType::USB && existing != InterfaceType::USB
}

/// Whether a newly attached interface should replace the existing connection:
/// only a USB attach over a connection that is not USB.
pub fn prefer_usb(existing: InterfaceType, incoming: InterfaceType) -> (r: bool)
    ensures
        r == spec_prefer_usb(existing, incoming),
{
    matches!(incoming, InterfaceType::USB) && !matches!(existing, InterfaceType::USB)
}

/// The set of interfaces listed in a sequence.
pub open spec fn iface_set(s: Seq<InterfaceType>) -> Set<InterfaceType> {
    Set::new(|x: InterfaceType| s.contains(x))
}

/// No interface is listed twice.
pub open spec fn no_dups(s: Seq<InterfaceType>) -> bool {
    forall|i: int, j: int| 0 <= i < s.len() && 0 <= j < s.len() && i != j ==> s[i] != s[j]
}

fn contains_iface(v: &Vec<InterfaceType>, x: InterfaceType) -> (r: bool)
    ensures
        r == v@.contains(x),
{
    let mut i: usize = 0;
    while i < v.len()
        invariant
            0 <= i <= v@.len(),
            forall|j: int| 0 <= j < i ==> v@[j] != x,
        decreases v@.len() - i,
    {
        if v[i] == x {
            return true;
        }
        i = i + 1;
    }
    false
}

fn insert_iface(v: &mut Vec<InterfaceType>, x: InterfaceType)
    requires
        no_dups(old(v)@),
    ensures
        no_dups(final(v)@),
        iface_set(final(v)@) == iface_set(old(v)@).insert(x),
{
    let ghost old_v = v@;
    if !contains_iface(v, x) {
        v.push(x);
        assert(iface_set(v@) =~= iface_set(old_v).insert(x)) by {
            assert forall|y: InterfaceType| v@.contains(y) <==> (old_v.contains(y) || y == x) by {
                if old_v.contains(y) {
                    let k = choose|k: int| 0 <= k < old_v.len() && old_v[k] == y;
                    assert(v@[k] == y);
                }
                if y == x {
                    assert(v@[old_v.len() as int] == x);
                }
                if v@.contains(y) {
                    let k = choose|k: int| 0 <= k < v@.len() && v@[k] == y;
                    if k < old_v.len() {
                        assert(old_v[k] == y);
                    }
                }
            }
        }
    } else {
        assert(iface_set(v@) =~= iface_set(old_v).insert(x));
    }
}

fn remove_iface(v: &mut Vec<InterfaceType>, x: InterfaceType)
    requires
        no_dups(old(v)@),
    ensures
        no_dups(final(v)@),
        iface_set(final(v)@) == iface_set(old(v)@).remove(x),
{
    let ghost old_v = v@;
    let mut i: usize = 0;
    while i < v.len()
        invariant
            v@ == old_v,
            old_v == old(v)@,
            no_dups(old_v),
            0 <= i <= v@.len(),
            forall|j: int| 0 <= j < i ==> v@[j] != x,
        decreases v@.len() - i,
    {
        if v[i] == x {
            v.remove(i);
            assert(v@ == old_v.remove(i as int));
            assert(no_dups(v@)) by {
                assert forall|a: int, b: int| 0 <= a < v@.len() && 0 <= b < v@.len() && a != b implies v@[a]
                    != v@[b] by {
                    let a2 = if a < i { a } else { a + 1 };
                    let b2 = if b < i { b } else { b + 1 };
                    assert(v@[a] == old_v[a2]);
                    assert(v@[b] == old_v[b2]);
                }
            }
            assert(iface_set(v@) =~= iface_set(old_v).remove(x)) by {
                assert forall|y: InterfaceType| v@.contains(y) <==> (old_v.contains(y) && y != x) by {
                    if v@.contains(y) {
                        let k = choose|k: int| 0 <= k < v@.len() && v@[k] == y;
                        let k2 = if k < i { k } else { k + 1 };
                        assert(old_v[k2] == y);
                        assert(k2 != i);
                    }
                    if old_v.contains(y) && y != x {
                        let k = choose|k: int| 0 <= k < old_v.len() && old_v[k] == y;
                        assert(k != i);
                        if k < i {
                            assert(v@[k] == y);
                        } else {
                            assert(v@[k - 1] == y);
                        }
                    }
                }
            }
            assert(iface_set(v@) == iface_set(old_v).remove(x));
            return;
        }
        i = i + 1;
    }
    assert(!old_v.contains(x));
    assert(iface_set(v@) =~= iface_set(old_v).remove(x));
}

/// What is known of one device: its name and the interfaces it is reachable over.
#[derive(Debug)]
pub struct DeviceEntry {
    pub udid: String,
    pub name: String,
    pub interfaces: Vec<InterfaceType>,
}

/// The devices seen so far, by identifier. A device whose set of interfaces is
/// empty is offline; its entry stays so that its name can still be looked up.
#[derive(Debug)]
pub struct DeviceState {
    entries: Vec<DeviceEntry>,
}

impl DeviceState {
    /// No device is listed twice and no device lists an interface twice.
    pub closed spec fn wf(&self) -> bool {
        &&& forall|i: int, j: int|
            0 <= i < self.entries@.len() && 0 <= j < self.entries@.len() && i != j
                ==> #[trigger] self.entries@[i].udid@ != #[trigger] self.entries@[j].udid@
        &&& forall|i: int|
            0 <= i < self.entries@.len() ==> no_dups(#[trigger] self.entries@[i].interfaces@)
    }

    /// The device with this identifier has been seen.
    pub closed spec fn knows(&self, udid: Seq<char>) -> bool {
        exists|i: int| 0 <= i < self.entries@.len() && #[trigger] self.entries@[i].udid@ == udid
    }

    closed spec fn index_of(&self, udid: Seq<char>) -> int {
        choose|i: int| 0 <= i < self.entries@.len() && #[trigger] self.entries@[i].udid@ == udid
    }

    /// The name recorded for a known device.
    pub closed spec fn name_of(&self, udid: Seq<char>) -> Seq<char> {
        self.entries@[self.index_of(udid)].name@
    }

    /// The interfaces a device is reachable over (none for an unknown device).
    pub closed spec fn interfaces_of(&self, udid: Seq<char>) -> Set<InterfaceType> {
        if self.knows(udid) {
            iface_set(self.entries@[self.index_of(udid)].interfaces@)
        } else {
            Set::empty()
        }
    }

    proof fn lemma_at(&self, i: int)
        requires
            self.wf(),
            0 <= i < self.entries@.len(),
        ensures
            self.knows(self.entries@[i].udid@),
            self.index_of(self.entries@[i].udid@) == i,
            self.name_of(self.entries@[i].udid@) == self.entries@[i].name@,
            self.interfaces_of(self.entries@[i].udid@) == iface_set(self.entries@[i].interfaces@),
    {
        let u = self.entries@[i].udid@;
        assert(self.knows(u));
    }

    /// No device seen yet.
    pub fn new() -> (r: Self)
        ensures
            r.wf(),
            forall|u: Seq<char>| !(#[trigger] r.knows(u)),
    {
        DeviceState { entries: Vec::new() }
    }

    fn find(&self, udid: &String) -> (r: Option<usize>)
        ensures
            match r {
                Some(i) => i < self.entries@.len() && self.entries@[i as int].udid@ == udid@,
                None => !self.knows(udid@),
            },
    {
        let mut i: usize = 0;
        while i < self.entries.len()
            invariant
                0 <= i <= self.entries@.len(),
                forall|j: int| 0 <= j < i ==> #[trigger] self.entries@[j].udid@ != udid@,
            decreases self.entries@.len() - i,
        {
            if self.entries[i].udid.eq(udid) {
                return Some(i);
            }
            i = i + 1;
        }
        None
    }

    /// The recorded name of a device, if it has been seen.
    pub fn name(&self, udid: &String) -> (r: Option<String>)
        requires
            self.wf(),
        ensures
            r is Some <==> self.knows(udid@),
            r matches Some(n) ==> n@ == self.name_of(udid@),
    {
        match self.find(udid) {
            Some(i) => {
                proof {
                    self.lemma_at(i as int);
                }
                Some(self.entries[i].name.clone())
            },
            None => None,
        }
    }

    /// Whether a device is reachable over an interface.
    pub fn reachable_over(&self, udid: &String, interface: InterfaceType) -> (r: bool)
        requires
            self.wf(),
        ensures
            r == self.interfaces_of(udid@).contains(interface),
    {
        match self.find(udid) {
            Some(i) => {
                proof {
                    self.lemma_at(i as int);
                }
                contains_iface(&self.entries[i].interfaces, interface)
            },
            None => false,
        }
    }

    /// Records a device event. A device seen for the first time is added with the
    /// event's name and no interface; an attach adds the interface, a detach
    /// removes it (the device stays known), other actions change nothing.
    pub fn apply_event(&mut self, event: &DeviceEvent)
        requires
            old(self).wf(),
        ensures
            final(self).wf(),
            final(self).knows(event.udid@),
            final(self).name_of(event.udid@) == (if old(self).knows(event.udid@) {
                old(self).name_of(event.udid@)
            } else {
                event.name@
            }),
            final(self).interfaces_of(event.udid@) == (match event.action {
                Action::Attached => old(self).interfaces_of(event.udid@).insert(event.interface),
                Action::Detached => old(self).interfaces_of(event.udid@).remove(event.interface),
                _ => old(self).interfaces_of(event.udid@),
            }),
            forall|u: Seq<char>|
                u != event.udid@ ==> (#[trigger] final(self).knows(u) == old(self).knows(u)),
            forall|u: Seq<char>|
                u != event.udid@ && old(self).knows(u) ==> #[trigger] final(self).name_of(u)
                    == old(self).name_of(u) && final(self).interfaces_of(u) == old(self).interfaces_of(
                    u,
                ),
            applied(*old(self), *final(self), *event),
    {
        let ghost old_self = *self;
        let ghost key = event.udid@;
        let idx = match self.find(&event.udid) {
            Some(i) => {
                proof {
                    self.lemma_at(i as int);
                }
                i
            },
            None => {
                self.entries.push(
                    DeviceEntry {
                        udid: event.udid.clone(),
                        name: event.name.clone(),
                        interfaces: Vec::new(),
                    },
                );
                proof {
                    assert(iface_set(Seq::<InterfaceType>::empty()) =~= Set::<InterfaceType>::empty());
                    let n = old_self.entries@.len() as int;
                    assert(self.wf()) by {
                        assert forall|a: int, b: int|
                            0 <= a < self.entries@.len() && 0 <= b < self.entries@.len() && a != b
                                implies #[trigger] self.entries@[a].udid@ != #[trigger] self.entries@[b].udid@ by {
                            if a < n && b < n {
                                assert(self.entries@[a] == old_self.entries@[a]);
                                assert(self.entries@[b] == old_self.entries@[b]);
                            } else if a < n {
                                assert(self.entries@[a] == old_self.entries@[a]);
                                assert(self.entries@[b].udid@ == key);
                                assert(old_self.entries@[a].udid@ != key);
                            } else {
                                assert(self.entries@[a].udid@ == key);
                                assert(old_self.entries@[b].udid@ != key);
                                assert(self.entries@[b] == old_self.entries@[b]);
                            }
                        }
                        assert forall|a: int| 0 <= a < self.entries@.len() implies no_dups(
                            #[trigger] self.entries@[a].interfaces@,
                        ) by {
                            if a < n {
                                assert(self.entries@[a] == old_self.entries@[a]);
                            }
                        }
                    }
                    self.lemma_at(self.entries@.len() - 1);
                    assert forall|u: Seq<char>| u != key && old_self.knows(u) implies #[trigger] self.knows(u)
                        && self.name_of(u) == old_self.name_of(u) && self.interfaces_of(u)
                        == old_self.interfaces_of(u) by {
                        let j = old_self.index_of(u);
                        assert(self.entries@[j] == old_self.entries@[j]);
                        old_self.lemma_at(j);
                        self.lemma_at(j);
                    }
                    assert forall|u: Seq<char>| u != key && self.knows(u) implies old_self.knows(u) by {
                        let j = self.index_of(u);
                        assert(old_self.entries@[j] == self.entries@[j]);
                    }
                }
                self.entries.len() - 1
            },
        };
        let ghost mid = *self;
        proof {
            mid.lemma_at(idx as int);
        }
        let mut entry = self.entries.remove(idx);
        proof {
            assert(no_dups(entry.interfaces@));
        }
        match event.action {
            Action::Attached => insert_iface(&mut entry.interfaces, event.interface),
            Action::Detached => remove_iface(&mut entry.interfaces, event.interface),
            _ => {},
        }
        self.entries.insert(idx, entry);
        proof {
            assert(self.entries@ =~= mid.entries@.update(idx as int, self.entries@[idx as int]));
            assert(self.wf()) by {
                assert forall|a: int, b: int|
                    0 <= a < self.entries@.len() && 0 <= b < self.entries@.len() && a != b
                        implies #[trigger] self.entries@[a].udid@ != #[trigger] self.entries@[b].udid@ by {
                    assert(self.entries@[a].udid@ == mid.entries@[a].udid@);
                    assert(self.entries@[b].udid@ == mid.entries@[b].udid@);
                }
                assert forall|a: int| 0 <= a < self.entries@.len() implies no_dups(
                    #[trigger] self.entries@[a].interfaces@,
                ) by {
                    if a != idx {
                        assert(self.entries@[a] == mid.entries@[a]);
                    }
                }
            }
            self.lemma_at(idx as int);
            assert forall|u: Seq<char>| u != key implies (#[trigger] self.knows(u) == mid.knows(u)) by {
                if mid.knows(u) {
                    let j = mid.index_of(u);
                    assert(self.entries@[j].udid@ == u);
                }
                if self.knows(u) {
                    let j = self.index_of(u);
                    assert(mid.entries@[j].udid@ == u);
                }
            }
            assert forall|u: Seq<char>| u != key && mid.knows(u) implies #[trigger] self.name_of(u)
                == mid.name_of(u) && self.interfaces_of(u) == mid.interfaces_of(u) by {
                let j = mid.index_of(u);
                mid.lemma_at(j);
                assert(j != idx);
                self.lemma_at(j);
            }
        }
    }
}

/// A connection to a device over one interface.
#[derive(Debug)]
pub struct Connection<C> {
    pub udid: String,
    pub interface: InterfaceType,
    pub conn: C,
}

/// What to do with an attach notification.
#[derive(Clone, Copy, Debug, PartialEq, Eq, Structural)]
pub enum AttachDecision {
    /// The device has an empty identifier.
    Ignore,
    /// The device is already connected over this interface; the user interface
    /// is still told about the attach.
    KeepExisting,
    /// Prepare the device and open a connection over this interface.
    Connect,
}

/// The connections to iOS devices, at most one per device and interface. A
/// device attached over USB and Wi-Fi keeps both connections but is polled over
/// one only (USB first, then Wi-Fi, then any other), so that it does not feed readings twice; when the polled
/// connection goes, polling moves to the remaining one.
#[derive(Debug)]
pub struct ConnectionTable<C> {
    entries: Vec<Connection<C>>,
}

impl<C> ConnectionTable<C> {
    /// No device has two connections over one interface.
    pub closed spec fn wf(&self) -> bool {
        forall|i: int, j: int|
            0 <= i < self.entries@.len() && 0 <= j < self.entries@.len() && i != j ==> (
            #[trigger] self.entries@[i].udid@, self.entries@[i].interface) != (
            #[trigger] self.entries@[j].udid@, self.entries@[j].interface)
    }

    /// The device is connected over the interface.
    pub closed spec fn connected(&self, udid: Seq<char>, interface: InterfaceType) -> bool {
        exists|i: int|
            0 <= i < self.entries@.len() && #[trigger] self.entries@[i].udid@ == udid
                && self.entries@[i].interface == interface
    }

    closed spec fn index_of(&self, udid: Seq<char>, interface: InterfaceType) -> int {
        choose|i: int|
            0 <= i < self.entries@.len() && #[trigger] self.entries@[i].udid@ == udid
                && self.entries@[i].interface == interface
    }

    /// The connection to the device over the interface.
    pub closed spec fn conn_of(&self, udid: Seq<char>, interface: InterfaceType) -> C {
        self.entries@[self.index_of(udid, interface)].conn
    }

    /// The number of connections.
    pub closed spec fn count(&self) -> nat {
        self.entries@.len()
    }

    /// The device is connected over some interface.
    pub open spec fn reachable(&self, udid: Seq<char>) -> bool {
        exists|i: InterfaceType| #[trigger] self.connected(udid, i)
    }

    /// The interface the device is polled over: its connected interface of best rank.
    pub open spec fn polled_interface(&self, udid: Seq<char>) -> Option<InterfaceType> {
        if self.connected(udid, InterfaceType::USB) {
            Some(InterfaceType::USB)
        } else if self.connected(udid, InterfaceType::WiFi) {
            Some(InterfaceType::WiFi)
        } else if self.connected(udid, InterfaceType::Unknown) {
            Some(InterfaceType::Unknown)
        } else {
            None
        }
    }

    /// What an attach of `udid` over `interface` leads to. A device with no
    /// connection is connected; a USB attach always joins (and takes polling);
    /// a Wi-Fi attach joins a USB connection but not one over another interface;
    /// an attach over another interface never joins an existing connection.
    pub open spec fn spec_decide_attach(&self, udid: Seq<char>, interface: InterfaceType) -> AttachDecision {
        if udid.len() == 0 {
            AttachDecision::Ignore
        } else if self.connected(udid, interface) {
            AttachDecision::KeepExisting
        } else if !self.reachable(udid) {
            AttachDecision::Connect
        } else {
            match interface {
                InterfaceType::USB => AttachDecision::Connect,
                InterfaceType::WiFi => if self.connected(udid, InterfaceType::Unknown) {
                    AttachDecision::KeepExisting
                } else {
                    AttachDecision::Connect
                },
                InterfaceType::Unknown => AttachDecision::KeepExisting,
            }
        }
    }

    proof fn lemma_reachable(&self, udid: Seq<char>)
        ensures
            self.reachable(udid) <==> (self.connected(udid, InterfaceType::USB) || self.connected(
                udid,
                InterfaceType::WiFi,
            ) || self.connected(udid, InterfaceType::Unknown)),
    {
        if self.reachable(udid) {
            let x = choose|x: InterfaceType| #[trigger] self.connected(udid, x);
            match x {
                InterfaceType::USB => {},
                InterfaceType::WiFi => {},
                InterfaceType::Unknown => {},
            }
        }
    }

    proof fn lemma_at(&self, i: int)
        requires
            self.wf(),
            0 <= i < self.entries@.len(),
        ensures
            self.connected(self.entries@[i].udid@, self.entries@[i].interface),
            self.index_of(self.entries@[i].udid@, self.entries@[i].interface) == i,
            self.conn_of(self.entries@[i].udid@, self.entries@[i].interface) == self.entries@[i].conn,
    {
        assert(self.connected(self.entries@[i].udid@, self.entries@[i].interface));
        let j = self.index_of(self.entries@[i].udid@, self.entries@[i].interface);
        assert((self.entries@[j].udid@, self.entries@[j].interface) == (
        self.entries@[i].udid@, self.entries@[i].interface));
    }

    /// No connection yet.
    pub fn new() -> (r: Self)
        ensures
            r.wf(),
            r.count() == 0,
            forall|u: Seq<char>, i: InterfaceType| !(#[trigger] r.connected(u, i)),
    {
        ConnectionTable { entries: Vec::new() }
    }

    fn find(&self, udid: &String, interface: InterfaceType) -> (r: Option<usize>)
        ensures
            match r {
                Some(i) => i < self.entries@.len() && self.entries@[i as int].udid@ == udid@
                    && self.entries@[i as int].interface == interface,
                None => !self.connected(udid@, interface),
            },
    {
        let mut i: usize = 0;
        while i < self.entries.len()
            invariant
                0 <= i <= self.entries@.len(),
                forall|j: int|
                    0 <= j < i ==> !(#[trigger] self.entries@[j].udid@ == udid@
                        && self.entries@[j].interface == interface),
            decreases self.entries@.len() - i,
        {
            if self.entries[i].interface == interface && self.entries[i].udid.eq(udid) {
                return Some(i);
            }
            i = i + 1;
        }
        None
    }

    fn has(&self, udid: &String, interface: InterfaceType) -> (r: bool)
        ensures
            r == self.connected(udid@, interface),
    {
        self.find(udid, interface).is_some()
    }

    /// Decides on an attach notification: ignore a device without identifier,
    /// keep the connection the device already has over this interface, else
    /// connect over it (also when the device is connected over another one).
    pub fn decide_attach(&self, udid: &String, interface: InterfaceType) -> (r: AttachDecision)
        ensures
            r == self.spec_decide_attach(udid@, interface),
    {
        proof {
            self.lemma_reachable(udid@);
        }
        if udid.as_str().is_empty() {
            AttachDecision::Ignore
        } else if self.has(udid, interface) {
            AttachDecision::KeepExisting
        } else if !self.has(udid, InterfaceType::USB) && !self.has(udid, InterfaceType::WiFi)
            && !self.has(udid, InterfaceType::Unknown) {
            AttachDecision::Connect
        } else {
            match interface {
                InterfaceType::USB => AttachDecision::Connect,
                InterfaceType::WiFi => if self.has(udid, InterfaceType::Unknown) {
                    AttachDecision::KeepExisting
                } else {
                    AttachDecision::Connect
                },
                InterfaceType::Unknown => AttachDecision::KeepExisting,
            }
        }
    }

    /// The connection the device is polled over, if it is reachable.
    pub fn polled(&self, udid: &String) -> (r: Option<&Connection<C>>)
        requires
            self.wf(),
        ensures
            r is Some <==> self.polled_interface(udid@) is Some,
            r matches Some(c) ==> c.udid@ == udid@ && Some(c.interface) == self.polled_interface(
                udid@,
            ) && c.conn == self.conn_of(udid@, c.interface),
    {
        let found = match self.find(udid, InterfaceType::USB) {
            Some(i) => Some(i),
            None => match self.find(udid, InterfaceType::WiFi) {
                Some(i) => Some(i),
                None => self.find(udid, InterfaceType::Unknown),
            },
        };
        match found {
            Some(i) => {
                proof {
                    self.lemma_at(i as int);
                }
                Some(&self.entries[i])
            },
            None => None,
        }
    }

    /// The entry at `j` is the one its device is polled over.
    #[verifier::opaque]
    closed spec fn polled_at(&self, j: int) -> bool {
        self.polled_interface(self.entries@[j].udid@) == Some(self.entries@[j].interface)
    }

    /// Whether an entry is the one its device is polled over.
    fn is_polled(&self, i: usize) -> (r: bool)
        requires
            self.wf(),
            i < self.entries@.len(),
        ensures
            r == self.polled_at(i as int),
    {
        proof {
            self.lemma_at(i as int);
            reveal(ConnectionTable::polled_at);
        }
        let e = &self.entries[i];
        match e.interface {
            InterfaceType::USB => true,
            InterfaceType::WiFi => !self.has(&e.udid, InterfaceType::USB),
            InterfaceType::Unknown => !self.has(&e.udid, InterfaceType::USB) && !self.has(
                &e.udid,
                InterfaceType::WiFi,
            ),
        }
    }

    /// The connections to poll: one per reachable device, over its interface of
    /// best rank.
    pub fn poll_targets(&self) -> (r: Vec<&Connection<C>>)
        requires
            self.wf(),
        ensures
            forall|k: int|
                0 <= k < r@.len() ==> self.connected(#[trigger] r@[k].udid@, r@[k].interface)
                    && self.polled_interface(r@[k].udid@) == Some(r@[k].interface) && r@[k].conn
                    == self.conn_of(r@[k].udid@, r@[k].interface),
            forall|k: int, l: int|
                0 <= k < r@.len() && 0 <= l < r@.len() && k != l ==> #[trigger] r@[k].udid@
                    != #[trigger] r@[l].udid@,
            forall|u: Seq<char>|
                #[trigger] self.reachable(u) ==> exists|k: int| 0 <= k < r@.len() && r@[k].udid@ == u,
    {
        let mut r: Vec<&Connection<C>> = Vec::new();
        let ghost mut idxs: Seq<int> = Seq::empty();
        let mut i: usize = 0;
        while i < self.entries.len()
            invariant
                self.wf(),
                0 <= i <= self.entries@.len(),
                idxs.len() == r@.len(),
                forall|k: int|
                    0 <= k < idxs.len() ==> 0 <= #[trigger] idxs[k] < i && r@[k]
                        == self.entries@[idxs[k]] && self.polled_at(idxs[k]),
                forall|k: int, l: int| 0 <= k < l < idxs.len() ==> #[trigger] idxs[k] < #[trigger] idxs[l],
                forall|j: int|
                    0 <= j < i && #[trigger] self.polled_at(j) ==> exists|k: int|
                        0 <= k < idxs.len() && idxs[k] == j,
            decreases self.entries@.len() - i,
        {
            let ghost old_idxs = idxs;
            let ghost old_r = r@;
            let p = self.is_polled(i);
            if p {
                r.push(&self.entries[i]);
                proof {
                    idxs = idxs.push(i as int);
                }
            }
            proof {
                assert forall|k: int| 0 <= k < old_idxs.len() implies idxs[k] == old_idxs[k] && r@[k]
                    == old_r[k] by {}
                assert forall|j: int| 0 <= j < i + 1 && #[trigger] self.polled_at(j) implies exists|k: int|
                    0 <= k < idxs.len() && idxs[k] == j by {
                    if j < i {
                        let k = choose|k: int| 0 <= k < old_idxs.len() && old_idxs[k] == j;
                        assert(idxs[k] == j);
                    } else {
                        assert(idxs[idxs.len() - 1] == j);
                    }
                }
            }
            i = i + 1;
        }
        proof {
            reveal(ConnectionTable::polled_at);
            assert forall|k: int| 0 <= k < r@.len() implies self.connected(#[trigger] r@[k].udid@, r@[k].interface)
                && self.polled_interface(r@[k].udid@) == Some(r@[k].interface) && r@[k].conn
                == self.conn_of(r@[k].udid@, r@[k].interface) by {
                assert(self.polled_at(idxs[k]));
                self.lemma_at(idxs[k]);
            }
            assert forall|k: int, l: int|
                0 <= k < r@.len() && 0 <= l < r@.len() && k != l implies #[trigger] r@[k].udid@
                != #[trigger] r@[l].udid@ by {
                assert(self.polled_at(idxs[k]));
                assert(self.polled_at(idxs[l]));
                if r@[k].udid@ == r@[l].udid@ {
                    assert(r@[k].interface == r@[l].interface);
                    if k < l {
                        assert(idxs[k] < idxs[l]);
                    } else {
                        assert(idxs[l] < idxs[k]);
                    }
                }
            }
            assert forall|u: Seq<char>| #[trigger] self.reachable(u) implies exists|k: int|
                0 <= k < r@.len() && r@[k].udid@ == u by {
                assert(self.polled_interface(u) is Some) by {
                    let x = choose|x: InterfaceType| #[trigger] self.connected(u, x);
                    match x {
                        InterfaceType::USB => {},
                        InterfaceType::WiFi => {},
                        InterfaceType::Unknown => {},
                    }
                }
                let iface = self.polled_interface(u)->0;
                let j = self.index_of(u, iface);
                self.lemma_at(j);
                assert(self.polled_at(j));
                let k = choose|k: int| 0 <= k < idxs.len() && idxs[k] == j;
                assert(r@[k].udid@ == u);
            }
        }
        r
    }

    /// All connections, each with its device and interface.
    pub fn connections(&self) -> (r: &Vec<Connection<C>>)
        requires
            self.wf(),
        ensures
            r@.len() == self.count(),
            forall|k: int|
                0 <= k < r@.len() ==> self.connected(#[trigger] r@[k].udid@, r@[k].interface)
                    && r@[k].conn == self.conn_of(r@[k].udid@, r@[k].interface),
            forall|u: Seq<char>, i: InterfaceType|
                #[trigger] self.connected(u, i) ==> exists|k: int|
                    0 <= k < r@.len() && r@[k].udid@ == u && r@[k].interface == i,
    {
        proof {
            assert forall|u: Seq<char>, i: InterfaceType| #[trigger] self.connected(u, i) implies exists|k: int|
                0 <= k < self.entries@.len() && self.entries@[k].udid@ == u && self.entries@[k].interface == i by {
                let k = self.index_of(u, i);
                assert(self.entries@[k].udid@ == u);
            }
            assert forall|k: int| 0 <= k < self.entries@.len() implies self.connected(
                #[trigger] self.entries@[k].udid@,
                self.entries@[k].interface,
            ) && self.entries@[k].conn == self.conn_of(
                self.entries@[k].udid@,
                self.entries@[k].interface,
            ) by {
                self.lemma_at(k);
            }
        }
        &self.entries
    }

    /// Makes `conn` the device's connection over the interface, replacing and
    /// returning the previous one over that interface, if any; other connections
    /// are kept.
    fn insert_conn(&mut self, udid: String, interface: InterfaceType, conn: C) -> (replaced: Option<C>)
        requires
            old(self).wf(),
        ensures
            final(self).wf(),
            final(self).connected(udid@, interface),
            final(self).conn_of(udid@, interface) == conn,
            replaced is Some <==> old(self).connected(udid@, interface),
            replaced matches Some(c) ==> c == old(self).conn_of(udid@, interface),
            forall|u: Seq<char>, i: InterfaceType|
                (u, i) != (udid@, interface) ==> (#[trigger] final(self).connected(u, i) == old(self).connected(u, i)),
            forall|u: Seq<char>, i: InterfaceType|
                (u, i) != (udid@, interface) && old(self).connected(u, i) ==> #[trigger] final(self).conn_of(u, i) == old(self).conn_of(u, i),
            final(self).count() == old(self).count() + (if old(self).connected(udid@, interface) {
                0int
            } else {
                1int
            }),
    {
        let ghost old_self = *self;
        let ghost key = (udid@, interface);
        match self.find(&udid, interface) {
            Some(i) => {
                proof {
                    self.lemma_at(i as int);
                }
                let old_entry = self.entries.remove(i);
                self.entries.insert(i, Connection { udid, interface, conn });
                proof {
                    assert(self.entries@ =~= old_self.entries@.update(i as int, self.entries@[i as int]));
                    assert(self.wf());
                    self.lemma_at(i as int);
                    assert forall|u: Seq<char>, x: InterfaceType| (u, x) != key implies (
                    #[trigger] self.connected(u, x) == old_self.connected(u, x)) by {
                        if old_self.connected(u, x) {
                            let j = old_self.index_of(u, x);
                            assert(self.entries@[j].udid@ == u && self.entries@[j].interface == x);
                        }
                        if self.connected(u, x) {
                            let j = self.index_of(u, x);
                            assert(old_self.entries@[j].udid@ == u && old_self.entries@[j].interface == x);
                        }
                    }
                    assert forall|u: Seq<char>, x: InterfaceType|
                        (u, x) != key && old_self.connected(u, x) implies #[trigger] self.conn_of(u, x)
                        == old_self.conn_of(u, x) by {
                        let j = old_self.index_of(u, x);
                        old_self.lemma_at(j);
                        self.lemma_at(j);
                    }
                }
                Some(old_entry.conn)
            },
            None => {
                self.entries.push(Connection { udid, interface, conn });
                proof {
                    assert(self.wf());
                    self.lemma_at(self.entries@.len() - 1);
                    assert forall|u: Seq<char>, x: InterfaceType| (u, x) != key implies (
                    #[trigger] self.connected(u, x) == old_self.connected(u, x)) by {
                        if old_self.connected(u, x) {
                            let j = old_self.index_of(u, x);
                            assert(self.entries@[j].udid@ == u && self.entries@[j].interface == x);
                        }
                        if self.connected(u, x) {
                            let j = self.index_of(u, x);
                            assert(old_self.entries@[j].udid@ == u && old_self.entries@[j].interface == x);
                        }
                    }
                    assert forall|u: Seq<char>, x: InterfaceType|
                        (u, x) != key && old_self.connected(u, x) implies #[trigger] self.conn_of(u, x)
                        == old_self.conn_of(u, x) by {
                        let j = old_self.index_of(u, x);
                        old_self.lemma_at(j);
                        assert(self.entries@[j] == old_self.entries@[j]);
                        self.lemma_at(j);
                    }
                }
                None
            },
        }
    }

    /// Makes `conn` the device's connection over the interface. Returns the
    /// previous connection over that interface, if any, and, for a USB
    /// connection, the device's connection over another interface than USB and
    /// Wi-Fi, which the USB one takes over from and which is dropped. Every other
    /// connection is kept.
    pub fn connect(&mut self, udid: String, interface: InterfaceType, conn: C) -> (r: (Option<C>, Option<C>))
        requires
            old(self).wf(),
        ensures
            final(self).wf(),
            final(self).connected(udid@, interface),
            final(self).conn_of(udid@, interface) == conn,
            r.0 is Some <==> old(self).connected(udid@, interface),
            r.0 matches Some(c) ==> c == old(self).conn_of(udid@, interface),
            r.1 is Some <==> interface == InterfaceType::USB && old(self).connected(
                udid@,
                InterfaceType::Unknown,
            ),
            r.1 matches Some(c) ==> c == old(self).conn_of(udid@, InterfaceType::Unknown),
            interface == InterfaceType::USB ==> !final(self).connected(udid@, InterfaceType::Unknown),
            forall|u: Seq<char>, i: InterfaceType|
                (u, i) != (udid@, interface) && !(interface == InterfaceType::USB && (u, i) == (
                udid@,
                InterfaceType::Unknown,
            )) ==> (#[trigger] final(self).connected(u, i) == old(self).connected(u, i)),
            forall|u: Seq<char>, i: InterfaceType|
                (u, i) != (udid@, interface) && !(interface == InterfaceType::USB && (u, i) == (
                udid@,
                InterfaceType::Unknown,
            )) && old(self).connected(u, i) ==> #[trigger] final(self).conn_of(u, i) == old(
                self,
            ).conn_of(u, i),
    {
        let ghost old_self = *self;
        let dropped = if interface == InterfaceType::USB {
            self.detach(&udid, InterfaceType::Unknown)
        } else {
            None
        };
        let ghost mid = *self;
        let replaced = self.insert_conn(udid, interface, conn);
        proof {
            assert(mid.connected(udid@, interface) == old_self.connected(udid@, interface));
            if old_self.connected(udid@, interface) {
                assert(mid.conn_of(udid@, interface) == old_self.conn_of(udid@, interface));
            }
            if interface == InterfaceType::USB {
                assert(self.connected(udid@, InterfaceType::Unknown) == mid.connected(
                    udid@,
                    InterfaceType::Unknown,
                ));
            }
            assert forall|u: Seq<char>, i: InterfaceType|
                (u, i) != (udid@, interface) && !(interface == InterfaceType::USB && (u, i) == (
                udid@,
                InterfaceType::Unknown,
            )) implies (#[trigger] self.connected(u, i) == old_self.connected(u, i)) by {
                assert(self.connected(u, i) == mid.connected(u, i));
                assert(mid.connected(u, i) == old_self.connected(u, i));
            }
            assert forall|u: Seq<char>, i: InterfaceType|
                (u, i) != (udid@, interface) && !(interface == InterfaceType::USB && (u, i) == (
                udid@,
                InterfaceType::Unknown,
            )) && old_self.connected(u, i) implies #[trigger] self.conn_of(u, i) == old_self.conn_of(
                u,
                i,
            ) by {
                assert(mid.connected(u, i) == old_self.connected(u, i));
                assert(mid.conn_of(u, i) == old_self.conn_of(u, i));
                assert(self.conn_of(u, i) == mid.conn_of(u, i));
            }
        }
        (replaced, dropped)
    }

    /// Handles a detach notification: the device's connection over that
    /// interface, if any, is dropped and returned; its other connections stay.
    pub fn detach(&mut self, udid: &String, interface: InterfaceType) -> (removed: Option<C>)
        requires
            old(self).wf(),
        ensures
            final(self).wf(),
            !final(self).connected(udid@, interface),
            removed is Some <==> old(self).connected(udid@, interface),
            removed matches Some(c) ==> c == old(self).conn_of(udid@, interface),
            removed is None ==> *final(self) == *old(self),
            forall|u: Seq<char>, i: InterfaceType|
                (u, i) != (udid@, interface) ==> (#[trigger] final(self).connected(u, i) == old(self).connected(u, i)),
            forall|u: Seq<char>, i: InterfaceType|
                (u, i) != (udid@, interface) && old(self).connected(u, i) ==> #[trigger] final(self).conn_of(u, i) == old(self).conn_of(u, i),
            final(self).count() == old(self).count() - (if removed is Some {
                1int
            } else {
                0int
            }),
    {
        let ghost old_self = *self;
        let ghost key = (udid@, interface);
        match self.find(udid, interface) {
            Some(i) => {
                proof {
                    self.lemma_at(i as int);
                }
                let gone = self.entries.remove(i);
                proof {
                    assert(self.entries@ == old_self.entries@.remove(i as int));
                    assert(self.wf()) by {
                        assert forall|a: int, b: int|
                            0 <= a < self.entries@.len() && 0 <= b < self.entries@.len() && a != b implies (
                        #[trigger] self.entries@[a].udid@, self.entries@[a].interface) != (
                        #[trigger] self.entries@[b].udid@, self.entries@[b].interface) by {
                            let a2 = if a < i { a } else { a + 1 };
                            let b2 = if b < i { b } else { b + 1 };
                            assert(self.entries@[a] == old_self.entries@[a2]);
                            assert(self.entries@[b] == old_self.entries@[b2]);
                        }
                    }
                    assert(!self.connected(key.0, interface)) by {
                        if self.connected(key.0, interface) {
                            let j = self.index_of(key.0, interface);
                            let j2 = if j < i { j } else { j + 1 };
                            assert(old_self.entries@[j2].udid@ == key.0
                                && old_self.entries@[j2].interface == interface);
                            assert(j2 != i);
                        }
                    }
                    assert forall|u: Seq<char>, x: InterfaceType| (u, x) != key implies (
                    #[trigger] self.connected(u, x) == old_self.connected(u, x)) by {
                        if old_self.connected(u, x) {
                            let j = old_self.index_of(u, x);
                            assert(j != i);
                            let j2 = if j < i { j } else { j - 1 };
                            assert(self.entries@[j2].udid@ == u && self.entries@[j2].interface == x);
                        }
                        if self.connected(u, x) {
                            let j = self.index_of(u, x);
                            let j2 = if j < i { j } else { j + 1 };
                            assert(old_self.entries@[j2].udid@ == u && old_self.entries@[j2].interface == x);
                        }
                    }
                    assert forall|u: Seq<char>, x: InterfaceType|
                        (u, x) != key && old_self.connected(u, x) implies #[trigger] self.conn_of(u, x)
                        == old_self.conn_of(u, x) by {
                        let j = old_self.index_of(u, x);
                        old_self.lemma_at(j);
                        assert(j != i);
                        let j2 = if j < i { j } else { j - 1 };
                        assert(self.entries@[j2] == old_self.entries@[j]);
                        self.lemma_at(j2);
                    }
                }
                Some(gone.conn)
            },
            None => None,
        }
    }
}

/// Polling prefers USB: a device connected over USB is polled over USB.
pub proof fn law_usb_is_polled_first<C>(table: ConnectionTable<C>, udid: Seq<char>)
    requires
        table.connected(udid, InterfaceType::USB),
    ensures
        table.polled_interface(udid) == Some(InterfaceType::USB),
{
}

/// A reachable device is polled over one of its connections, and an
/// unreachable one is not polled.
pub proof fn law_reachable_is_polled<C>(table: ConnectionTable<C>, udid: Seq<char>)
    ensures
        table.reachable(udid) <==> table.polled_interface(udid) is Some,
        table.polled_interface(udid) matches Some(i) ==> table.connected(udid, i),
{
    if table.reachable(udid) {
        let x = choose|x: InterfaceType| #[trigger] table.connected(udid, x);
        match x {
            InterfaceType::USB => {},
            InterfaceType::WiFi => {},
            InterfaceType::Unknown => {},
        }
    }
    if table.polled_interface(udid) is Some {
        assert(table.connected(udid, table.polled_interface(udid)->0));
    }
}

/// When the USB connection goes and the device is still connected over Wi-Fi,
/// polling moves to Wi-Fi.
pub proof fn law_detach_falls_back_to_wifi<C>(
    before: ConnectionTable<C>,
    after: ConnectionTable<C>,
    udid: Seq<char>,
)
    requires
        before.polled_interface(udid) == Some(InterfaceType::USB),
        before.connected(udid, InterfaceType::WiFi),
        !after.connected(udid, InterfaceType::USB),
        forall|u: Seq<char>, i: InterfaceType|
            (u, i) != (udid, InterfaceType::USB) ==> (#[trigger] after.connected(u, i)
                == before.connected(u, i)),
    ensures
        after.polled_interface(udid) == Some(InterfaceType::WiFi),
{
    assert(after.connected(udid, InterfaceType::WiFi) == before.connected(udid, InterfaceType::WiFi));
}

/// An unconnected device is always connected, and a USB attach always joins.
pub proof fn law_new_device_and_usb_connect<C>(
    table: ConnectionTable<C>,
    udid: Seq<char>,
    interface: InterfaceType,
)
    requires
        udid.len() > 0,
        !table.connected(udid, interface),
        !table.reachable(udid) || interface == InterfaceType::USB,
    ensures
        table.spec_decide_attach(udid, interface) == AttachDecision::Connect,
{
}

/// Only USB and Wi-Fi connections are kept side by side: an attach over
/// another interface never joins an existing connection, and a Wi-Fi attach
/// never joins one over such an interface, as a single connection per device
/// would have it.
pub proof fn law_only_usb_and_wifi_join<C>(
    table: ConnectionTable<C>,
    udid: Seq<char>,
    interface: InterfaceType,
)
    requires
        table.reachable(udid),
        interface == InterfaceType::Unknown || (interface == InterfaceType::WiFi && table.connected(
            udid,
            InterfaceType::Unknown,
        )),
    ensures
        table.spec_decide_attach(udid, interface) != AttachDecision::Connect,
{
}

/// Preferring USB is asymmetric: of two interfaces, at most one is preferred
/// over the other, and none over itself.
pub proof fn law_prefer_usb_is_asymmetric(a: InterfaceType, b: InterfaceType)
    ensures
        !(spec_prefer_usb(a, b) && spec_prefer_usb(b, a)),
        !spec_prefer_usb(a, a),
{
}

/// The interfaces of a device after an event.
pub open spec fn interfaces_after(
    before: Set<InterfaceType>,
    action: Action,
    interface: InterfaceType,
) -> Set<InterfaceType> {
    match action {
        Action::Attached => before.insert(interface),
        Action::Detached => before.remove(interface),
        _ => before,
    }
}

/// `after` is `before` with the device event recorded (what
/// [`DeviceState::apply_event`] does).
pub open spec fn applied(before: DeviceState, after: DeviceState, event: DeviceEvent) -> bool {
    &&& after.wf()
    &&& after.knows(event.udid@)
    &&& after.name_of(event.udid@) == (if before.knows(event.udid@) {
        before.name_of(event.udid@)
    } else {
        event.name@
    })
    &&& after.interfaces_of(event.udid@) == interfaces_after(
        before.interfaces_of(event.udid@),
        event.action,
        event.interface,
    )
    &&& forall|u: Seq<char>| u != event.udid@ ==> (#[trigger] after.knows(u) == before.knows(u))
    &&& forall|u: Seq<char>|
        u != event.udid@ && before.knows(u) ==> #[trigger] after.name_of(u) == before.name_of(u)
            && after.interfaces_of(u) == before.interfaces_of(u)
}

/// A detach undoes an attach: recording an attach and then a detach of the same
/// device and interface leaves the device known under its first name, reachable
/// over what it had before except that interface, and every other device as it was.
pub proof fn law_detach_undoes_attach(
    s0: DeviceState,
    s1: DeviceState,
    s2: DeviceState,
    attach: DeviceEvent,
    detach: DeviceEvent,
)
    requires
        applied(s0, s1, attach),
        applied(s1, s2, detach),
        attach.action == Action::Attached,
        detach.action == Action::Detached,
        detach.udid@ == attach.udid@,
        detach.interface == attach.interface,
    ensures
        s2.knows(attach.udid@),
        s2.name_of(attach.udid@) == (if s0.knows(attach.udid@) {
            s0.name_of(attach.udid@)
        } else {
            attach.name@
        }),
        s2.interfaces_of(attach.udid@) == s0.interfaces_of(attach.udid@).remove(attach.interface),
        forall|u: Seq<char>| u != attach.udid@ ==> (#[trigger] s2.knows(u) == s0.knows(u)),
        forall|u: Seq<char>|
            u != attach.udid@ && s0.knows(u) ==> #[trigger] s2.name_of(u) == s0.name_of(u)
                && s2.interfaces_of(u) == s0.interfaces_of(u),
{
    let u = attach.udid@;
    let x = attach.interface;
    assert(s0.interfaces_of(u).insert(x).remove(x) =~= s0.interfaces_of(u).remove(x));
    assert forall|v: Seq<char>| v != u implies (#[trigger] s2.knows(v) == s0.knows(v)) by {
        assert(s2.knows(v) == s1.knows(v));
        assert(s1.knows(v) == s0.knows(v));
    }
    assert forall|v: Seq<char>| v != u && s0.knows(v) implies #[trigger] s2.name_of(v) == s0.name_of(v)
        && s2.interfaces_of(v) == s0.interfaces_of(v) by {
        assert(s1.knows(v) == s0.knows(v));
        assert(s1.name_of(v) == s0.name_of(v));
        assert(s2.name_of(v) == s1.name_of(v));
    }
}

} // verus!
