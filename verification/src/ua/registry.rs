//! The GB28181 device table: registrations, online status, heartbeats,
//! device information and catalogs, cascaded platforms and subscriptions.
//!
//! Each device id occurs at most once. The events that operations cause
//! are queued in order; the owner of the registry takes and delivers them.
use vstd::prelude::*;

use crate::clock::{elapsed_since, instant_now, Elapsed};
use crate::text::{copy_opt, copy_str, copy_string, opt_view};
use crate::ua::device_registry::{
    forest_count, tree_count, CascadingDirection, CascadingPlatformInfo, DeviceOnlineStatus,
    DeviceRegistryEvent, DeviceTree, DeviceTreeNode, SubscriptionStateInfo,
};

verus! {

// ---------------------------------------------------------------------------
// Records and their models
// ---------------------------------------------------------------------------

/// An entry of a device's catalog, as far as the registry reads it.
#[derive(Debug, Clone, PartialEq, Eq)]
pub struct CatalogItem {
    pub device_id: String,
    pub name: Option<String>,
    /// `ON`, `OFF`, or another status text of the catalog.
    pub status: Option<String>,
}

#[verifier::ext_equal]
pub struct SpecCatalogItem {
    pub device_id: Seq<char>,
    pub name: Option<Seq<char>>,
    pub status: Option<Seq<char>>,
}

impl View for CatalogItem {
    type V = SpecCatalogItem;

    open spec fn view(&self) -> SpecCatalogItem {
        SpecCatalogItem {
            device_id: self.device_id@,
            name: opt_view(self.name),
            status: opt_view(self.status),
        }
    }
}

#[verifier::ext_equal]
pub struct SpecPlatform {
    pub platform_id: Seq<char>,
    pub domain: Seq<char>,
    pub sip_ip: Seq<char>,
    pub sip_port: u16,
    pub direction: CascadingDirection,
    pub online: bool,
}

pub open spec fn platform_view(p: CascadingPlatformInfo) -> SpecPlatform {
    SpecPlatform {
        platform_id: p.platform_id@,
        domain: p.domain@,
        sip_ip: p.sip_ip@,
        sip_port: p.sip_port,
        direction: p.direction,
        online: p.online,
    }
}

#[verifier::ext_equal]
pub struct SpecSubscription {
    pub subscription_id: Seq<char>,
    pub event: Seq<char>,
    pub expires: u64,
    pub active: bool,
}

pub open spec fn subscription_view(s: SubscriptionStateInfo) -> SpecSubscription {
    SpecSubscription {
        subscription_id: s.subscription_id@,
        event: s.event@,
        expires: s.expires,
        active: s.active,
    }
}

/// A registered device (its GPS position is kept apart from the registry).
#[derive(Debug, Clone)]
pub struct RegisteredDevice {
    pub device_id: String,
    /// SIP contact address.
    pub contact: String,
    /// Address of the SIP server the device registered with.
    pub server_addr: String,
    pub status: DeviceOnlineStatus,
    pub registered_at: std::time::Instant,
    pub last_keepalive: std::time::Instant,
    /// Registration lifetime in seconds.
    pub expires: u64,
    pub call_id: String,
    pub name: Option<String>,
    pub manufacturer: Option<String>,
    pub model: Option<String>,
    pub ip_address: Option<String>,
    pub port: Option<u16>,
    pub sub_devices: Vec<CatalogItem>,
    pub cascading_platforms: Vec<CascadingPlatformInfo>,
    pub subscriptions: Vec<SubscriptionStateInfo>,
}

/// Model of a registered device; the clock readings are left out.
#[verifier::ext_equal]
pub struct SpecDevice {
    pub device_id: Seq<char>,
    pub contact: Seq<char>,
    pub server_addr: Seq<char>,
    pub status: DeviceOnlineStatus,
    pub expires: u64,
    pub call_id: Seq<char>,
    pub name: Option<Seq<char>>,
    pub manufacturer: Option<Seq<char>>,
    pub model: Option<Seq<char>>,
    pub ip_address: Option<Seq<char>>,
    pub port: Option<u16>,
    pub sub_devices: Seq<SpecCatalogItem>,
    pub platforms: Seq<SpecPlatform>,
    pub subscriptions: Seq<SpecSubscription>,
}

pub open spec fn catalog_view(v: Seq<CatalogItem>) -> Seq<SpecCatalogItem> {
    v.map_values(|c: CatalogItem| c@)
}

pub open spec fn platforms_view(v: Seq<CascadingPlatformInfo>) -> Seq<SpecPlatform> {
    v.map_values(|p: CascadingPlatformInfo| platform_view(p))
}

pub open spec fn subscriptions_view(v: Seq<SubscriptionStateInfo>) -> Seq<SpecSubscription> {
    v.map_values(|s: SubscriptionStateInfo| subscription_view(s))
}

impl View for RegisteredDevice {
    type V = SpecDevice;

    open spec fn view(&self) -> SpecDevice {
        SpecDevice {
            device_id: self.device_id@,
            contact: self.contact@,
            server_addr: self.server_addr@,
            status: self.status,
            expires: self.expires,
            call_id: self.call_id@,
            name: opt_view(self.name),
            manufacturer: opt_view(self.manufacturer),
            model: opt_view(self.model),
            ip_address: opt_view(self.ip_address),
            port: self.port,
            sub_devices: catalog_view(self.sub_devices@),
            platforms: platforms_view(self.cascading_platforms@),
            subscriptions: subscriptions_view(self.subscriptions@),
        }
    }
}

/// What a registry event says.
pub enum SpecEvent {
    DeviceOnline(Seq<char>),
    DeviceOffline(Seq<char>),
    DeviceRegistered(Seq<char>),
    DeviceUnregistered(Seq<char>),
    DeviceCatalogUpdated(Seq<char>, usize),
    DevicePositionUpdated(Seq<char>),
    CascadingPlatformRegistered(Seq<char>),
    CascadingPlatformUnregistered(Seq<char>),
}

impl View for DeviceRegistryEvent {
    type V = SpecEvent;

    open spec fn view(&self) -> SpecEvent {
        match self {
            DeviceRegistryEvent::DeviceOnline { device_id } => SpecEvent::DeviceOnline(device_id@),
            DeviceRegistryEvent::DeviceOffline { device_id } => SpecEvent::DeviceOffline(device_id@),
            DeviceRegistryEvent::DeviceRegistered { device_id } => SpecEvent::DeviceRegistered(
                device_id@,
            ),
            DeviceRegistryEvent::DeviceUnregistered { device_id } => SpecEvent::DeviceUnregistered(
                device_id@,
            ),
            DeviceRegistryEvent::DeviceCatalogUpdated { device_id, count } =>
                SpecEvent::DeviceCatalogUpdated(device_id@, *count),
            DeviceRegistryEvent::DevicePositionUpdated { device_id } =>
                SpecEvent::DevicePositionUpdated(device_id@),
            DeviceRegistryEvent::CascadingPlatformRegistered { platform_id } =>
                SpecEvent::CascadingPlatformRegistered(platform_id@),
            DeviceRegistryEvent::CascadingPlatformUnregistered { platform_id } =>
                SpecEvent::CascadingPlatformUnregistered(platform_id@),
        }
    }
}

pub open spec fn events_view(v: Seq<DeviceRegistryEvent>) -> Seq<SpecEvent> {
    v.map_values(|e: DeviceRegistryEvent| e@)
}

/// Seconds of a registration of `expires` seconds left once
/// `elapsed_secs` whole seconds have passed; 0 once it has run out.
pub open spec fn remaining_after(expires: u64, elapsed_secs: u64) -> u64 {
    if elapsed_secs < expires {
        (expires - elapsed_secs) as u64
    } else {
        0u64
    }
}

/// Whether a heartbeat `elapsed_secs` seconds old exceeds `timeout_secs`.
pub open spec fn keepalive_timed_out(elapsed_secs: u64, timeout_secs: u64) -> bool {
    elapsed_secs > timeout_secs
}

impl RegisteredDevice {
    /// Seconds of registration left once `elapsed_secs` whole seconds have
    /// passed since it was made; 0 once it has run out.
    pub fn remaining_expires_after(&self, elapsed_secs: u64) -> (r: u64)
        ensures
            r == remaining_after(self.expires, elapsed_secs),
    {
        self.expires.saturating_sub(elapsed_secs)
    }

    /// Seconds of registration left, by the monotonic clock; 0 once it has
    /// run out: `remaining_after` at the whole seconds the clock counts since
    /// the registration. Never more than the registered lifetime.
    pub fn remaining_expires(&self) -> (r: u64)
        ensures
            exists|e: Elapsed|
                e.from() == self.registered_at && r == #[trigger] remaining_after(
                    self.expires,
                    e.seconds(),
                ),
            r <= self.expires,
    {
        let e = elapsed_since(&self.registered_at);
        let r = self.remaining_expires_after(e.secs());
        assert(r == remaining_after(self.expires, e.seconds()));
        r
    }

    /// Whether the registration has run out once `elapsed_secs` whole
    /// seconds have passed since it was made.
    pub fn is_expired_after(&self, elapsed_secs: u64) -> (b: bool)
        ensures
            b == (elapsed_secs >= self.expires),
    {
        self.remaining_expires_after(elapsed_secs) == 0
    }

    /// Whether the registration has run out, by the monotonic clock: no
    /// seconds are left after the whole seconds the clock counts since the
    /// registration. A registration with lifetime 0 always has.
    pub fn is_expired(&self) -> (b: bool)
        ensures
            exists|e: Elapsed|
                e.from() == self.registered_at && b == (#[trigger] remaining_after(
                    self.expires,
                    e.seconds(),
                ) == 0),
            self.expires == 0 ==> b,
    {
        let r = self.remaining_expires();
        let b = r == 0;
        proof {
            let e = choose|e: Elapsed|
                e.from() == self.registered_at && r == #[trigger] remaining_after(
                    self.expires,
                    e.seconds(),
                );
            assert(b == (remaining_after(self.expires, e.seconds()) == 0));
        }
        b
    }

    /// Whether a device whose last heartbeat was `elapsed_secs` whole
    /// seconds ago has exceeded the heartbeat timeout `timeout_secs`.
    pub fn is_keepalive_timeout_after(&self, elapsed_secs: u64, timeout_secs: u64) -> (b: bool)
        ensures
            b == (elapsed_secs > timeout_secs),
    {
        elapsed_secs > timeout_secs
    }

    /// Whether more whole seconds than `timeout_secs` have passed since the
    /// last heartbeat, by the monotonic clock: `keepalive_timed_out` at the
    /// whole seconds the clock counts since then. A timeout of `u64::MAX`
    /// seconds is never exceeded.
    pub fn is_keepalive_timeout(&self, timeout_secs: u64) -> (b: bool)
        ensures
            exists|e: Elapsed|
                e.from() == self.last_keepalive && b == #[trigger] keepalive_timed_out(
                    e.seconds(),
                    timeout_secs,
                ),
            timeout_secs == u64::MAX ==> !b,
    {
        let e = elapsed_since(&self.last_keepalive);
        let b = self.is_keepalive_timeout_after(e.secs(), timeout_secs);
        assert(b == keepalive_timed_out(e.seconds(), timeout_secs));
        b
    }
}

// ---------------------------------------------------------------------------
// The registry
// ---------------------------------------------------------------------------

/// The registered devices, the heartbeat timeout and the events not yet
/// taken by the owner.
pub struct DeviceRegistry {
    devices: Vec<RegisteredDevice>,
    heartbeat_timeout: u64,
    events: Vec<DeviceRegistryEvent>,
}

pub struct SpecRegistry {
    pub devices: Seq<SpecDevice>,
    pub heartbeat_timeout: u64,
    /// Events caused and not yet taken, oldest first.
    pub events: Seq<SpecEvent>,
}

pub open spec fn devices_view(v: Seq<RegisteredDevice>) -> Seq<SpecDevice> {
    v.map_values(|d: RegisteredDevice| d@)
}

impl View for DeviceRegistry {
    type V = SpecRegistry;

    closed spec fn view(&self) -> SpecRegistry {
        SpecRegistry {
            devices: devices_view(self.devices@),
            heartbeat_timeout: self.heartbeat_timeout,
            events: events_view(self.events@),
        }
    }
}

/// No device id occurs twice.
pub open spec fn unique_ids(ds: Seq<SpecDevice>) -> bool {
    forall|i: int, j: int|
        0 <= i < ds.len() && 0 <= j < ds.len() && i != j ==> #[trigger] ds[i].device_id
            != #[trigger] ds[j].device_id
}

pub open spec fn has_device(ds: Seq<SpecDevice>, id: Seq<char>) -> bool {
    exists|i: int| 0 <= i < ds.len() && #[trigger] ds[i].device_id == id
}

/// Position of device `id` (meaningful when it is registered).
pub open spec fn device_index(ds: Seq<SpecDevice>, id: Seq<char>) -> int {
    choose|i: int| 0 <= i < ds.len() && #[trigger] ds[i].device_id == id
}

/// The device registered as `id`, if any.
pub open spec fn lookup(ds: Seq<SpecDevice>, id: Seq<char>) -> Option<SpecDevice> {
    if has_device(ds, id) {
        Some(ds[device_index(ds, id)])
    } else {
        None
    }
}

pub proof fn lemma_device_index(ds: Seq<SpecDevice>, id: Seq<char>, i: int)
    requires
        unique_ids(ds),
        0 <= i < ds.len(),
        ds[i].device_id == id,
    ensures
        has_device(ds, id),
        device_index(ds, id) == i,
{
    assert(has_device(ds, id));
    let k = device_index(ds, id);
    if k != i {
        assert(ds[k].device_id != ds[i].device_id);
    }
}

proof fn lemma_has_device_index(ds: Seq<SpecDevice>, id: Seq<char>)
    requires
        has_device(ds, id),
    ensures
        0 <= device_index(ds, id) < ds.len(),
        ds[device_index(ds, id)].device_id == id,
{
}

/// Replacing a device by one with the same id keeps the ids unique.
proof fn lemma_update_unique(ds: Seq<SpecDevice>, i: int, d: SpecDevice)
    requires
        unique_ids(ds),
        0 <= i < ds.len(),
        d.device_id == ds[i].device_id,
    ensures
        unique_ids(ds.update(i, d)),
{
    let u = ds.update(i, d);
    assert forall|a: int, b: int|
        0 <= a < u.len() && 0 <= b < u.len() && a != b implies #[trigger] u[a].device_id
        != #[trigger] u[b].device_id by {
        assert(ds[a].device_id != ds[b].device_id);
    }
}

/// A device just registered: online, no information, catalog,
/// platforms or subscriptions.
pub open spec fn fresh_device(
    id: Seq<char>,
    contact: Seq<char>,
    server_addr: Seq<char>,
    expires: u64,
    call_id: Seq<char>,
) -> SpecDevice {
    SpecDevice {
        device_id: id,
        contact,
        server_addr,
        status: DeviceOnlineStatus::Online,
        expires,
        call_id,
        name: None,
        manufacturer: None,
        model: None,
        ip_address: None,
        port: None,
        sub_devices: Seq::empty(),
        platforms: Seq::empty(),
        subscriptions: Seq::empty(),
    }
}

/// Appending a device with a new id keeps the ids unique.
proof fn lemma_push_unique(ds: Seq<SpecDevice>, d: SpecDevice)
    requires
        unique_ids(ds),
        !has_device(ds, d.device_id),
    ensures
        unique_ids(ds.push(d)),
        has_device(ds.push(d), d.device_id),
        device_index(ds.push(d), d.device_id) == ds.len(),
{
    let u = ds.push(d);
    assert forall|a: int, b: int|
        0 <= a < u.len() && 0 <= b < u.len() && a != b implies #[trigger] u[a].device_id
        != #[trigger] u[b].device_id by {
        if a < ds.len() && b < ds.len() {
            assert(ds[a].device_id != ds[b].device_id);
        } else if a < ds.len() {
            assert(ds[a].device_id != d.device_id);
        } else if b < ds.len() {
            assert(ds[b].device_id != d.device_id);
        }
    }
    lemma_device_index(u, d.device_id, ds.len() as int);
}

/// Removing a device keeps the ids unique, and its id is gone.
proof fn lemma_remove_unique(ds: Seq<SpecDevice>, i: int)
    requires
        unique_ids(ds),
        0 <= i < ds.len(),
    ensures
        unique_ids(ds.remove(i)),
        !has_device(ds.remove(i), ds[i].device_id),
{
    let u = ds.remove(i);
    assert forall|a: int, b: int|
        0 <= a < u.len() && 0 <= b < u.len() && a != b implies #[trigger] u[a].device_id
        != #[trigger] u[b].device_id by {
        let a2 = if a < i { a } else { a + 1 };
        let b2 = if b < i { b } else { b + 1 };
        assert(ds[a2].device_id != ds[b2].device_id);
    }
    if has_device(u, ds[i].device_id) {
        let k = device_index(u, ds[i].device_id);
        let k2 = if k < i { k } else { k + 1 };
        assert(ds[k2].device_id != ds[i].device_id);
    }
}

impl DeviceRegistry {
    /// Whether no device id occurs twice.
    pub closed spec fn wf(&self) -> bool {
        unique_ids(devices_view(self.devices@))
    }

    /// An empty registry whose devices go offline after `heartbeat_timeout`
    /// seconds without a heartbeat.
    pub fn new(heartbeat_timeout: u64) -> (r: DeviceRegistry)
        ensures
            r.wf(),
            r@.devices == Seq::<SpecDevice>::empty(),
            r@.heartbeat_timeout == heartbeat_timeout,
            r@.events == Seq::<SpecEvent>::empty(),
    {
        let r = DeviceRegistry { devices: Vec::new(), heartbeat_timeout, events: Vec::new() };
        assert(devices_view(r.devices@) =~= Seq::<SpecDevice>::empty());
        assert(events_view(r.events@) =~= Seq::<SpecEvent>::empty());
        r
    }

    /// Seconds without a heartbeat after which a device goes offline.
    pub fn heartbeat_timeout(&self) -> (t: u64)
        ensures
            t == self@.heartbeat_timeout,
    {
        self.heartbeat_timeout
    }

    pub fn set_heartbeat_timeout(&mut self, timeout: u64)
        ensures
            final(self)@ == (SpecRegistry { heartbeat_timeout: timeout, ..old(self)@ }),
            final(self).wf() == old(self).wf(),
    {
        self.heartbeat_timeout = timeout;
    }

    /// Takes the queued events, oldest first; the queue is left empty.
    pub fn take_events(&mut self) -> (events: Vec<DeviceRegistryEvent>)
        ensures
            events_view(events@) == old(self)@.events,
            final(self)@ == (SpecRegistry { events: Seq::empty(), ..old(self)@ }),
            final(self).wf() == old(self).wf(),
    {
        let mut taken: Vec<DeviceRegistryEvent> = Vec::new();
        std::mem::swap(&mut taken, &mut self.events);
        assert(events_view(self.events@) =~= Seq::<SpecEvent>::empty());
        taken
    }

    /// Queues an event.
    fn emit(&mut self, e: DeviceRegistryEvent)
        ensures
            final(self)@ == (SpecRegistry { events: old(self)@.events.push(e@), ..old(self)@ }),
            final(self).wf() == old(self).wf(),
            final(self).devices@ == old(self).devices@,
    {
        let ghost old_events = self.events@;
        self.events.push(e);
        assert(events_view(self.events@) =~= events_view(old_events).push(e@));
    }

    /// Position of device `id`.
    fn index_of(&self, id: &str) -> (r: Option<usize>)
        requires
            self.wf(),
        ensures
            match r {
                Some(i) => i < self@.devices.len() && self@.devices[i as int].device_id == id@
                    && has_device(self@.devices, id@) && device_index(self@.devices, id@) == i,
                None => !has_device(self@.devices, id@),
            },
    {
        let ghost ds = self@.devices;
        let idv = crate::text::chars_of(id);
        let mut i: usize = 0;
        while i < self.devices.len()
            invariant
                i <= self.devices@.len(),
                ds == devices_view(self.devices@),
                unique_ids(ds),
                idv@ == id@,
                forall|j: int| 0 <= j < i ==> (#[trigger] ds[j]).device_id != id@,
            decreases self.devices@.len() - i,
        {
            let d = crate::text::chars_of(self.devices[i].device_id.as_str());
            assert(ds[i as int] == self.devices@[i as int]@);
            if crate::text::vec_eq(&d, &idv) {
                proof {
                    lemma_device_index(ds, id@, i as int);
                }
                return Some(i);
            }
            i += 1;
        }
        None
    }

    /// Registers a device, or renews its registration: contact, server,
    /// lifetime and Call-ID are replaced, it is online, its registration
    /// time and last heartbeat are now. A new device is announced as
    /// registered and online; a known one that was offline as online.
    pub fn register_device(
        &mut self,
        device_id: &str,
        contact: &str,
        server_addr: &str,
        expires: u64,
        call_id: &str,
    )
        requires
            old(self).wf(),
        ensures
            final(self).wf(),
            final(self)@.heartbeat_timeout == old(self)@.heartbeat_timeout,
            final(self)@.devices == registered(
                old(self)@.devices,
                device_id@,
                contact@,
                server_addr@,
                expires,
                call_id@,
            ),
            ({
                let ds = old(self)@.devices;
                if has_device(ds, device_id@) {
                    let i = device_index(ds, device_id@);
                    &&& final(self)@.devices == ds.update(
                        i,
                        SpecDevice {
                            contact: contact@,
                            server_addr: server_addr@,
                            expires,
                            call_id: call_id@,
                            status: DeviceOnlineStatus::Online,
                            ..ds[i]
                        },
                    )
                    &&& final(self)@.events == if ds[i].status == DeviceOnlineStatus::Offline {
                        old(self)@.events.push(SpecEvent::DeviceOnline(device_id@))
                    } else {
                        old(self)@.events
                    }
                } else {
                    &&& final(self)@.devices == ds.push(
                        fresh_device(device_id@, contact@, server_addr@, expires, call_id@),
                    )
                    &&& final(self)@.events == old(self)@.events.push(
                        SpecEvent::DeviceRegistered(device_id@),
                    ).push(SpecEvent::DeviceOnline(device_id@))
                }
            }),
    {
        let ghost ds = old(self)@.devices;
        let now = instant_now();
        match self.index_of(device_id) {
            Some(i) => {
                let was_offline = self.devices[i].status == DeviceOnlineStatus::Offline;
                let ghost before = self.devices@;
                {
                    let d = &mut self.devices[i];
                    d.contact = copy_str(contact);
                    d.server_addr = copy_str(server_addr);
                    d.expires = expires;
                    d.call_id = copy_str(call_id);
                    d.registered_at = now;
                    d.last_keepalive = now;
                    d.status = DeviceOnlineStatus::Online;
                }
                proof {
                    let dv = self.devices@[i as int]@;
                    assert(self.devices@ == before.update(i as int, self.devices@[i as int]));
                    assert(devices_view(self.devices@) =~= ds.update(i as int, dv));
                    lemma_update_unique(ds, i as int, dv);
                }
                if was_offline {
                    self.emit(DeviceRegistryEvent::DeviceOnline { device_id: copy_str(device_id) });
                }
            },
            None => {
                let d = RegisteredDevice {
                    device_id: copy_str(device_id),
                    contact: copy_str(contact),
                    server_addr: copy_str(server_addr),
                    status: DeviceOnlineStatus::Online,
                    registered_at: now,
                    last_keepalive: now,
                    expires,
                    call_id: copy_str(call_id),
                    name: None,
                    manufacturer: None,
                    model: None,
                    ip_address: None,
                    port: None,
                    sub_devices: Vec::new(),
                    cascading_platforms: Vec::new(),
                    subscriptions: Vec::new(),
                };
                let ghost dv = d@;
                assert(dv =~= fresh_device(device_id@, contact@, server_addr@, expires, call_id@));
                self.devices.push(d);
                proof {
                    assert(devices_view(self.devices@) =~= ds.push(dv));
                    lemma_push_unique(ds, dv);
                }
                self.emit(DeviceRegistryEvent::DeviceRegistered { device_id: copy_str(device_id) });
                self.emit(DeviceRegistryEvent::DeviceOnline { device_id: copy_str(device_id) });
            },
        }
    }
}


/// Whether the device is online.
pub open spec fn is_online(d: SpecDevice) -> bool {
    d.status == DeviceOnlineStatus::Online
}

/// The online devices, in registry order.
pub open spec fn online_of(ds: Seq<SpecDevice>) -> Seq<SpecDevice> {
    ds.filter(|d: SpecDevice| is_online(d))
}

pub open spec fn refs_view(v: Seq<&RegisteredDevice>) -> Seq<SpecDevice> {
    v.map_values(|d: &RegisteredDevice| d@)
}

/// One more element of a prefix, filtered.
pub proof fn lemma_filter_take_step<A>(s: Seq<A>, p: spec_fn(A) -> bool, i: int)
    requires
        0 <= i < s.len(),
    ensures
        s.take(i + 1).filter(p) == if p(s[i]) {
            s.take(i).filter(p).push(s[i])
        } else {
            s.take(i).filter(p)
        },
{
    reveal(Seq::filter);
    assert(s.take(i + 1).drop_last() =~= s.take(i));
}

/// New information replaces the old where it is given.
pub open spec fn given_or<T>(old_value: Option<T>, new_value: Option<T>) -> Option<T> {
    if new_value is Some {
        new_value
    } else {
        old_value
    }
}

impl DeviceRegistry {
    /// Removes a device; announces it offline, then unregistered. `false`
    /// for an unknown device, which changes nothing.
    pub fn unregister_device(&mut self, device_id: &str) -> (found: bool)
        requires
            old(self).wf(),
        ensures
            final(self).wf(),
            final(self)@.heartbeat_timeout == old(self)@.heartbeat_timeout,
            found == has_device(old(self)@.devices, device_id@),
            final(self)@.devices == unregistered(old(self)@.devices, device_id@),
            found ==> final(self)@.devices == old(self)@.devices.remove(
                device_index(old(self)@.devices, device_id@),
            ) && final(self)@.events == old(self)@.events.push(
                SpecEvent::DeviceOffline(device_id@),
            ).push(SpecEvent::DeviceUnregistered(device_id@)),
            !found ==> final(self)@ == old(self)@,
            !has_device(final(self)@.devices, device_id@),
    {
        let ghost ds = old(self)@.devices;
        match self.index_of(device_id) {
            Some(i) => {
                let _removed = self.devices.remove(i);
                proof {
                    assert(devices_view(self.devices@) =~= ds.remove(i as int));
                    lemma_remove_unique(ds, i as int);
                }
                self.emit(DeviceRegistryEvent::DeviceOffline { device_id: copy_str(device_id) });
                self.emit(
                    DeviceRegistryEvent::DeviceUnregistered { device_id: copy_str(device_id) },
                );
                true
            },
            None => false,
        }
    }

    /// Records a heartbeat: the device is online and its last heartbeat is
    /// now; announced online if it was offline. `false` for an unknown
    /// device, which changes nothing.
    pub fn update_keepalive(&mut self, device_id: &str) -> (found: bool)
        requires
            old(self).wf(),
        ensures
            final(self).wf(),
            final(self)@.heartbeat_timeout == old(self)@.heartbeat_timeout,
            found == has_device(old(self)@.devices, device_id@),
            ({
                let ds = old(self)@.devices;
                let i = device_index(ds, device_id@);
                found ==> final(self)@.devices == ds.update(
                    i,
                    SpecDevice { status: DeviceOnlineStatus::Online, ..ds[i] },
                ) && final(self)@.events == if ds[i].status == DeviceOnlineStatus::Offline {
                    old(self)@.events.push(SpecEvent::DeviceOnline(device_id@))
                } else {
                    old(self)@.events
                }
            }),
            !found ==> final(self)@ == old(self)@,
    {
        let ghost ds = old(self)@.devices;
        match self.index_of(device_id) {
            Some(i) => {
                let now = instant_now();
                let was_offline = self.devices[i].status == DeviceOnlineStatus::Offline;
                {
                    let d = &mut self.devices[i];
                    d.last_keepalive = now;
                    d.status = DeviceOnlineStatus::Online;
                }
                proof {
                    let dv = self.devices@[i as int]@;
                    assert(devices_view(self.devices@) =~= ds.update(i as int, dv));
                    lemma_update_unique(ds, i as int, dv);
                }
                if was_offline {
                    self.emit(DeviceRegistryEvent::DeviceOnline { device_id: copy_str(device_id) });
                }
                true
            },
            None => false,
        }
    }

    /// Stores the device information of a DeviceInfo answer; each value
    /// given replaces the stored one, the others stay. `false` for an
    /// unknown device, which changes nothing.
    pub fn update_device_info(
        &mut self,
        device_id: &str,
        name: Option<String>,
        manufacturer: Option<String>,
        model: Option<String>,
        ip_address: Option<String>,
        port: Option<u16>,
    ) -> (found: bool)
        requires
            old(self).wf(),
        ensures
            final(self).wf(),
            found == has_device(old(self)@.devices, device_id@),
            ({
                let ds = old(self)@.devices;
                let i = device_index(ds, device_id@);
                found ==> final(self)@ == (SpecRegistry {
                    devices: ds.update(
                        i,
                        SpecDevice {
                            name: given_or(ds[i].name, opt_view(name)),
                            manufacturer: given_or(ds[i].manufacturer, opt_view(manufacturer)),
                            model: given_or(ds[i].model, opt_view(model)),
                            ip_address: given_or(ds[i].ip_address, opt_view(ip_address)),
                            port: given_or(ds[i].port, port),
                            ..ds[i]
                        },
                    ),
                    ..old(self)@
                })
            }),
            !found ==> final(self)@ == old(self)@,
    {
        let ghost ds = old(self)@.devices;
        match self.index_of(device_id) {
            Some(i) => {
                {
                    let d = &mut self.devices[i];
                    if let Some(v) = name {
                        d.name = Some(v);
                    }
                    if let Some(v) = manufacturer {
                        d.manufacturer = Some(v);
                    }
                    if let Some(v) = model {
                        d.model = Some(v);
                    }
                    if let Some(v) = ip_address {
                        d.ip_address = Some(v);
                    }
                    if let Some(v) = port {
                        d.port = Some(v);
                    }
                }
                proof {
                    let dv = self.devices@[i as int]@;
                    assert(devices_view(self.devices@) =~= ds.update(i as int, dv));
                    lemma_update_unique(ds, i as int, dv);
                }
                true
            },
            None => false,
        }
    }

    /// Replaces a device's catalog by the items of a Catalog answer and
    /// announces the new item count. `false` for an unknown device, which
    /// changes nothing.
    pub fn update_catalog(&mut self, device_id: &str, sub_devices: Vec<CatalogItem>) -> (found:
        bool)
        requires
            old(self).wf(),
        ensures
            final(self).wf(),
            final(self)@.heartbeat_timeout == old(self)@.heartbeat_timeout,
            found == has_device(old(self)@.devices, device_id@),
            ({
                let ds = old(self)@.devices;
                let i = device_index(ds, device_id@);
                found ==> final(self)@.devices == ds.update(
                    i,
                    SpecDevice { sub_devices: catalog_view(sub_devices@), ..ds[i] },
                ) && final(self)@.events == old(self)@.events.push(
                    SpecEvent::DeviceCatalogUpdated(device_id@, sub_devices@.len() as usize),
                )
            }),
            !found ==> final(self)@ == old(self)@,
    {
        let ghost ds = old(self)@.devices;
        let count = sub_devices.len();
        match self.index_of(device_id) {
            Some(i) => {
                {
                    let d = &mut self.devices[i];
                    d.sub_devices = sub_devices;
                }
                proof {
                    let dv = self.devices@[i as int]@;
                    assert(devices_view(self.devices@) =~= ds.update(i as int, dv));
                    lemma_update_unique(ds, i as int, dv);
                }
                self.emit(
                    DeviceRegistryEvent::DeviceCatalogUpdated {
                        device_id: copy_str(device_id),
                        count,
                    },
                );
                true
            },
            None => false,
        }
    }

    /// The device registered as `device_id`, if any.
    pub fn get_device(&self, device_id: &str) -> (r: Option<&RegisteredDevice>)
        requires
            self.wf(),
        ensures
            match r {
                Some(d) => lookup(self@.devices, device_id@) == Some(d@),
                None => lookup(self@.devices, device_id@) is None,
            },
    {
        match self.index_of(device_id) {
            Some(i) => {
                assert(self@.devices[i as int] == self.devices@[i as int]@);
                Some(&self.devices[i])
            },
            None => None,
        }
    }

    /// All devices, in registry order; the heartbeat instant of each is the
    /// one `keepalive_instants` gives.
    pub fn list_devices(&self) -> (r: Vec<&RegisteredDevice>)
        ensures
            refs_view(r@) == self@.devices,
            r@.len() == self.keepalive_instants().len(),
            forall|k: int|
                0 <= k < r@.len() ==> (#[trigger] r@[k]).last_keepalive
                    == self.keepalive_instants()[k],
    {
        let ghost ds = self@.devices;
        let mut r: Vec<&RegisteredDevice> = Vec::new();
        let mut i: usize = 0;
        while i < self.devices.len()
            invariant
                i <= self.devices@.len(),
                ds == devices_view(self.devices@),
                refs_view(r@) == ds.take(i as int),
                r@.len() == i,
                forall|k: int| 0 <= k < i ==> (#[trigger] r@[k]) == &self.devices@[k],
            decreases self.devices@.len() - i,
        {
            let ghost before = r@;
            assert(ds[i as int] == self.devices@[i as int]@);
            r.push(&self.devices[i]);
            assert(refs_view(r@) =~= refs_view(before).push(ds[i as int]));
            assert(ds.take(i + 1) =~= ds.take(i as int).push(ds[i as int]));
            i += 1;
        }
        assert(ds.take(ds.len() as int) =~= ds);
        assert forall|k: int| 0 <= k < r@.len() implies (#[trigger] r@[k]).last_keepalive
            == self.keepalive_instants()[k] by {
            assert(r@[k] == &self.devices@[k]);
        }
        r
    }

    /// The online devices, in registry order.
    pub fn list_online_devices(&self) -> (r: Vec<&RegisteredDevice>)
        ensures
            refs_view(r@) == online_of(self@.devices),
    {
        let ghost ds = self@.devices;
        let ghost p = |d: SpecDevice| is_online(d);
        let mut r: Vec<&RegisteredDevice> = Vec::new();
        let mut i: usize = 0;
        while i < self.devices.len()
            invariant
                i <= self.devices@.len(),
                ds == devices_view(self.devices@),
                p == (|d: SpecDevice| is_online(d)),
                refs_view(r@) == ds.take(i as int).filter(p),
            decreases self.devices@.len() - i,
        {
            proof {
                lemma_filter_take_step(ds, p, i as int);
            }
            assert(ds[i as int] == self.devices@[i as int]@);
            if self.devices[i].status == DeviceOnlineStatus::Online {
                let ghost before = r@;
                r.push(&self.devices[i]);
                assert(refs_view(r@) =~= refs_view(before).push(ds[i as int]));
            }
            i += 1;
        }
        assert(ds.take(ds.len() as int) =~= ds);
        r
    }

    /// Number of registered devices.
    pub fn device_count(&self) -> (n: usize)
        ensures
            n == self@.devices.len(),
    {
        self.devices.len()
    }

    /// Number of online devices.
    pub fn online_device_count(&self) -> (n: usize)
        ensures
            n == online_of(self@.devices).len(),
    {
        let ghost ds = self@.devices;
        let ghost p = |d: SpecDevice| is_online(d);
        let mut n: usize = 0;
        let mut i: usize = 0;
        while i < self.devices.len()
            invariant
                i <= self.devices@.len(),
                ds == devices_view(self.devices@),
                p == (|d: SpecDevice| is_online(d)),
                n == ds.take(i as int).filter(p).len(),
                n <= i,
            decreases self.devices@.len() - i,
        {
            proof {
                lemma_filter_take_step(ds, p, i as int);
            }
            assert(ds[i as int] == self.devices@[i as int]@);
            if self.devices[i].status == DeviceOnlineStatus::Online {
                n += 1;
            }
            i += 1;
        }
        assert(ds.take(ds.len() as int) =~= ds);
        n
    }
}


/// Whether a device is turned offline by a heartbeat check, given the
/// seconds since its last heartbeat: it is online and they exceed the
/// timeout.
pub open spec fn timed_out(d: SpecDevice, age_secs: u64, timeout: u64) -> bool {
    is_online(d) && age_secs > timeout
}

/// A device after a heartbeat check.
pub open spec fn heartbeat_step(d: SpecDevice, age_secs: u64, timeout: u64) -> SpecDevice {
    if timed_out(d, age_secs, timeout) {
        SpecDevice { status: DeviceOnlineStatus::Offline, ..d }
    } else {
        d
    }
}

/// The seconds each of `es` counts.
pub open spec fn elapsed_seconds(es: Seq<Elapsed>) -> Seq<u64> {
    es.map_values(|e: Elapsed| e.seconds())
}

/// The devices after a heartbeat check in which device `i` last sent a
/// heartbeat `ages[i]` seconds ago.
pub open spec fn heartbeat_result(ds: Seq<SpecDevice>, ages: Seq<u64>, timeout: u64) -> Seq<
    SpecDevice,
> {
    Seq::new(ds.len(), |k: int| heartbeat_step(ds[k], ages[k], timeout))
}

/// The offline announcements of a heartbeat check over the first `n`
/// devices, in registry order.
pub open spec fn offline_events(ds: Seq<SpecDevice>, ages: Seq<u64>, timeout: u64, n: nat) -> Seq<
    SpecEvent,
>
    decreases n,
{
    if n == 0 {
        Seq::empty()
    } else {
        let before = offline_events(ds, ages, timeout, (n - 1) as nat);
        if timed_out(ds[n - 1], ages[n - 1], timeout) {
            before.push(SpecEvent::DeviceOffline(ds[n - 1].device_id))
        } else {
            before
        }
    }
}

proof fn lemma_offline_events_len(ds: Seq<SpecDevice>, ages: Seq<u64>, timeout: u64, n: nat)
    ensures
        offline_events(ds, ages, timeout, n).len() <= n,
    decreases n,
{
    if n > 0 {
        lemma_offline_events_len(ds, ages, timeout, (n - 1) as nat);
    }
}

/// Devices with the same ids in the same places keep the ids unique.
proof fn lemma_same_ids(ds: Seq<SpecDevice>, es: Seq<SpecDevice>)
    requires
        unique_ids(ds),
        es.len() == ds.len(),
        forall|k: int| 0 <= k < ds.len() ==> (#[trigger] es[k]).device_id == ds[k].device_id,
    ensures
        unique_ids(es),
{
    assert forall|a: int, b: int|
        0 <= a < es.len() && 0 <= b < es.len() && a != b implies #[trigger] es[a].device_id
        != #[trigger] es[b].device_id by {
        assert(ds[a].device_id != ds[b].device_id);
    }
}

/// Status of a catalog item: `ON` online, `OFF` offline, anything else or
/// nothing unknown.
pub open spec fn catalog_status(s: Option<Seq<char>>) -> DeviceOnlineStatus {
    match s {
        Some(t) => if t == "ON"@ {
            DeviceOnlineStatus::Online
        } else if t == "OFF"@ {
            DeviceOnlineStatus::Offline
        } else {
            DeviceOnlineStatus::Unknown
        },
        None => DeviceOnlineStatus::Unknown,
    }
}

/// Whether tree node `n` is the leaf for catalog item `c`.
pub open spec fn is_item_node(n: DeviceTreeNode, c: SpecCatalogItem) -> bool {
    &&& n.device_id@ == c.device_id
    &&& opt_view(n.name) == c.name
    &&& n.status == catalog_status(c.status)
    &&& n.children@.len() == 0
}

/// Whether tree node `n` is the node for device `d`, its catalog below it.
pub open spec fn is_device_node(n: DeviceTreeNode, d: SpecDevice) -> bool {
    &&& n.device_id@ == d.device_id
    &&& opt_view(n.name) == d.name
    &&& n.status == d.status
    &&& n.children@.len() == d.sub_devices.len()
    &&& forall|j: int|
        0 <= j < d.sub_devices.len() ==> is_item_node(#[trigger] n.children@[j], d.sub_devices[j])
}

/// A copy of a catalog item.
pub fn clone_catalog_item(c: &CatalogItem) -> (r: CatalogItem)
    ensures
        r@ == c@,
{
    CatalogItem {
        device_id: copy_string(&c.device_id),
        name: copy_opt(&c.name),
        status: copy_opt(&c.status),
    }
}

/// The status a catalog item states.
fn catalog_status_of(s: &Option<String>) -> (st: DeviceOnlineStatus)
    ensures
        st == catalog_status(opt_view(*s)),
{
    match s {
        Some(t) => {
            let v = crate::text::chars_of(t.as_str());
            if crate::text::vec_eq_str(&v, "ON") {
                DeviceOnlineStatus::Online
            } else if crate::text::vec_eq_str(&v, "OFF") {
                DeviceOnlineStatus::Offline
            } else {
                DeviceOnlineStatus::Unknown
            }
        },
        None => DeviceOnlineStatus::Unknown,
    }
}

impl DeviceRegistry {
    /// A heartbeat check in which device `i` (in registry order) last sent
    /// a heartbeat `ages_secs[i]` seconds ago: each online device whose age
    /// exceeds the timeout goes offline and is announced offline, in
    /// order. Returns how many went offline.
    pub fn apply_heartbeat_check(&mut self, ages_secs: &Vec<u64>) -> (n: usize)
        requires
            old(self).wf(),
            ages_secs@.len() == old(self)@.devices.len(),
        ensures
            final(self).wf(),
            final(self)@.heartbeat_timeout == old(self)@.heartbeat_timeout,
            final(self)@.devices == heartbeat_result(
                old(self)@.devices,
                ages_secs@,
                old(self)@.heartbeat_timeout,
            ),
            final(self)@.events == old(self)@.events + offline_events(
                old(self)@.devices,
                ages_secs@,
                old(self)@.heartbeat_timeout,
                old(self)@.devices.len(),
            ),
            n == offline_events(
                old(self)@.devices,
                ages_secs@,
                old(self)@.heartbeat_timeout,
                old(self)@.devices.len(),
            ).len(),
    {
        let ghost ds = old(self)@.devices;
        let ghost ev0 = old(self)@.events;
        let ghost ages = ages_secs@;
        let timeout = self.heartbeat_timeout;
        let mut n: usize = 0;
        let mut i: usize = 0;
        while i < self.devices.len()
            invariant
                i <= self.devices@.len(),
                self.devices@.len() == ds.len(),
                ages == ages_secs@,
                ages.len() == ds.len(),
                timeout == self@.heartbeat_timeout,
                timeout == old(self)@.heartbeat_timeout,
                unique_ids(ds),
                forall|k: int|
                    0 <= k < ds.len() ==> #[trigger] devices_view(self.devices@)[k] == if k < i {
                        heartbeat_step(ds[k], ages[k], timeout)
                    } else {
                        ds[k]
                    },
                self@.events == ev0 + offline_events(ds, ages, timeout, i as nat),
                n == offline_events(ds, ages, timeout, i as nat).len(),
                n <= i,
            decreases self.devices@.len() - i,
        {
            proof {
                lemma_offline_events_len(ds, ages, timeout, (i + 1) as nat);
            }
            let ghost before = self.devices@;
            assert(devices_view(before)[i as int] == ds[i as int]);
            if self.devices[i].status == DeviceOnlineStatus::Online && ages_secs[i] > timeout {
                self.devices[i].status = DeviceOnlineStatus::Offline;
                proof {
                    assert(self.devices@ == before.update(i as int, self.devices@[i as int]));
                    assert forall|k: int| 0 <= k < ds.len() implies #[trigger] devices_view(
                        self.devices@,
                    )[k] == if k < i + 1 {
                        heartbeat_step(ds[k], ages[k], timeout)
                    } else {
                        ds[k]
                    } by {
                        if k != i {
                            assert(devices_view(self.devices@)[k] == devices_view(before)[k]);
                        }
                    }
                }
                let id = copy_string(&self.devices[i].device_id);
                self.emit(DeviceRegistryEvent::DeviceOffline { device_id: id });
                assert(self@.events =~= ev0 + offline_events(ds, ages, timeout, (i + 1) as nat));
                n += 1;
            } else {
                assert(offline_events(ds, ages, timeout, (i + 1) as nat) == offline_events(
                    ds,
                    ages,
                    timeout,
                    i as nat,
                ));
            }
            i += 1;
        }
        proof {
            assert(devices_view(self.devices@) =~= heartbeat_result(ds, ages, timeout));
            lemma_same_ids(ds, devices_view(self.devices@));
        }
        n
    }

    /// The instants of the devices' last heartbeats, in registry order.
    pub closed spec fn keepalive_instants(self) -> Seq<std::time::Instant> {
        self.devices@.map_values(|d: RegisteredDevice| d.last_keepalive)
    }

    /// Turns offline each online device whose last heartbeat is older than
    /// the heartbeat timeout, by the monotonic clock, and announces it
    /// offline. Returns how many went offline. The result is that of
    /// `apply_heartbeat_check` for the seconds the clock counts since each
    /// device's last heartbeat (`keepalive_instants`); how many seconds
    /// that is depends on the clock.
    pub fn check_heartbeat(&mut self) -> (n: usize)
        requires
            old(self).wf(),
        ensures
            final(self).wf(),
            final(self)@.heartbeat_timeout == old(self)@.heartbeat_timeout,
            exists|ages: Seq<Elapsed>|
                #![trigger heartbeat_result(old(self)@.devices, elapsed_seconds(ages), old(self)@.heartbeat_timeout)]
                {
                    &&& ages.len() == old(self)@.devices.len()
                    &&& forall|k: int|
                        0 <= k < ages.len() ==> (#[trigger] ages[k]).from()
                            == old(self).keepalive_instants()[k]
                    &&& final(self)@.devices == heartbeat_result(
                        old(self)@.devices,
                        elapsed_seconds(ages),
                        old(self)@.heartbeat_timeout,
                    )
                    &&& final(self)@.events == old(self)@.events + offline_events(
                        old(self)@.devices,
                        elapsed_seconds(ages),
                        old(self)@.heartbeat_timeout,
                        old(self)@.devices.len(),
                    )
                    &&& n == offline_events(
                        old(self)@.devices,
                        elapsed_seconds(ages),
                        old(self)@.heartbeat_timeout,
                        old(self)@.devices.len(),
                    ).len()
                },
    {
        let ghost kas = self.keepalive_instants();
        let mut ages: Vec<Elapsed> = Vec::new();
        let mut secs: Vec<u64> = Vec::new();
        let mut i: usize = 0;
        while i < self.devices.len()
            invariant
                i <= self.devices@.len(),
                kas == self.keepalive_instants(),
                kas.len() == self.devices@.len(),
                ages@.len() == i,
                forall|k: int| 0 <= k < i ==> (#[trigger] ages@[k]).from() == kas[k],
                secs@ == elapsed_seconds(ages@),
            decreases self.devices@.len() - i,
        {
            assert(kas[i as int] == self.devices@[i as int].last_keepalive);
            let age = elapsed_since(&self.devices[i].last_keepalive);
            let s = age.secs();
            let ghost before = ages@;
            ages.push(age);
            secs.push(s);
            assert(secs@ =~= elapsed_seconds(ages@));
            i += 1;
        }
        proof {
            assert(self@.devices.len() == self.devices@.len());
        }
        let ghost es = ages@;
        let n = self.apply_heartbeat_check(&secs);
        assert(heartbeat_result(old(self)@.devices, elapsed_seconds(es), old(self)@.heartbeat_timeout) == self@.devices);
        n
    }

    /// Records that device `device_id` reported a new position, and
    /// announces it. `false` for an unknown device, which changes nothing.
    /// The position itself is kept by the owner of the registry.
    pub fn mark_position_updated(&mut self, device_id: &str) -> (found: bool)
        requires
            old(self).wf(),
        ensures
            final(self).wf(),
            found == has_device(old(self)@.devices, device_id@),
            found ==> final(self)@ == (SpecRegistry {
                events: old(self)@.events.push(SpecEvent::DevicePositionUpdated(device_id@)),
                ..old(self)@
            }),
            !found ==> final(self)@ == old(self)@,
    {
        match self.index_of(device_id) {
            Some(_i) => {
                self.emit(
                    DeviceRegistryEvent::DevicePositionUpdated { device_id: copy_str(device_id) },
                );
                true
            },
            None => false,
        }
    }

    /// The device tree under root `root_id`: each device below the root,
    /// in registry order, with its catalog items below it.
    pub fn get_device_tree(&self, root_id: &str) -> (t: DeviceTree)
        ensures
            t.root.device_id@ == root_id@,
            t.root.name is None,
            t.root.status == DeviceOnlineStatus::Unknown,
            t.root.children@.len() == self@.devices.len(),
            forall|i: int|
                0 <= i < self@.devices.len() ==> is_device_node(
                    #[trigger] t.root.children@[i],
                    self@.devices[i],
                ),
    {
        let ghost ds = self@.devices;
        let mut tree = DeviceTree::new(root_id);
        let mut i: usize = 0;
        while i < self.devices.len()
            invariant
                i <= self.devices@.len(),
                ds == devices_view(self.devices@),
                tree.root.device_id@ == root_id@,
                tree.root.name is None,
                tree.root.status == DeviceOnlineStatus::Unknown,
                tree.root.children@.len() == i,
                forall|k: int| 0 <= k < i ==> is_device_node(#[trigger] tree.root.children@[k], ds[k]),
            decreases self.devices@.len() - i,
        {
            let d = &self.devices[i];
            assert(ds[i as int] == d@);
            let mut node = DeviceTreeNode {
                device_id: copy_string(&d.device_id),
                name: copy_opt(&d.name),
                status: d.status,
                children: Vec::new(),
            };
            let mut j: usize = 0;
            while j < d.sub_devices.len()
                invariant
                    j <= d.sub_devices@.len(),
                    d@ == ds[i as int],
                    node.device_id@ == d.device_id@,
                    opt_view(node.name) == opt_view(d.name),
                    node.status == d.status,
                    node.children@.len() == j,
                    forall|k: int|
                        0 <= k < j ==> is_item_node(
                            #[trigger] node.children@[k],
                            d@.sub_devices[k],
                        ),
                decreases d.sub_devices@.len() - j,
            {
                let sub = &d.sub_devices[j];
                assert(d@.sub_devices[j as int] == sub@);
                let sub_node = DeviceTreeNode {
                    device_id: copy_string(&sub.device_id),
                    name: copy_opt(&sub.name),
                    status: catalog_status_of(&sub.status),
                    children: Vec::new(),
                };
                node.children.push(sub_node);
                j += 1;
            }
            tree.root.children.push(node);
            i += 1;
        }
        tree
    }

    /// The catalog of device `device_id`; empty for an unknown device.
    pub fn get_sub_devices(&self, device_id: &str) -> (r: Vec<CatalogItem>)
        requires
            self.wf(),
        ensures
            catalog_view(r@) == match lookup(self@.devices, device_id@) {
                Some(d) => d.sub_devices,
                None => Seq::empty(),
            },
    {
        let mut r: Vec<CatalogItem> = Vec::new();
        match self.index_of(device_id) {
            Some(i) => {
                let d = &self.devices[i];
                assert(self@.devices[i as int] == d@);
                let mut j: usize = 0;
                while j < d.sub_devices.len()
                    invariant
                        j <= d.sub_devices@.len(),
                        catalog_view(r@) == d@.sub_devices.take(j as int),
                    decreases d.sub_devices@.len() - j,
                {
                    let ghost before = r@;
                    let c = clone_catalog_item(&d.sub_devices[j]);
                    assert(c@ == d@.sub_devices[j as int]);
                    r.push(c);
                    assert(catalog_view(r@) =~= catalog_view(before).push(c@));
                    assert(d@.sub_devices.take(j + 1) =~= d@.sub_devices.take(j as int).push(
                        d@.sub_devices[j as int],
                    ));
                    j += 1;
                }
                assert(d@.sub_devices.take(d@.sub_devices.len() as int) =~= d@.sub_devices);
            },
            None => {
                assert(catalog_view(r@) =~= Seq::<SpecCatalogItem>::empty());
            },
        }
        r
    }
}


/// Whether platform entry `p` is the one of platform `id` in direction `dir`.
pub open spec fn platform_matches(p: SpecPlatform, id: Seq<char>, dir: CascadingDirection) -> bool {
    p.platform_id == id && p.direction == dir
}

pub open spec fn has_platform(ps: Seq<SpecPlatform>, id: Seq<char>, dir: CascadingDirection) -> bool {
    exists|k: int| 0 <= k < ps.len() && #[trigger] platform_matches(ps[k], id, dir)
}

/// The first entry of platform `id` in direction `dir`.
pub open spec fn first_platform(ps: Seq<SpecPlatform>, id: Seq<char>, dir: CascadingDirection) -> int {
    choose|k: int|
        0 <= k < ps.len() && #[trigger] platform_matches(ps[k], id, dir) && forall|j: int|
            0 <= j < k ==> !#[trigger] platform_matches(ps[j], id, dir)
}

proof fn lemma_first_platform(ps: Seq<SpecPlatform>, id: Seq<char>, dir: CascadingDirection, k: int)
    requires
        0 <= k < ps.len(),
        platform_matches(ps[k], id, dir),
        forall|j: int| 0 <= j < k ==> !#[trigger] platform_matches(ps[j], id, dir),
    ensures
        has_platform(ps, id, dir),
        first_platform(ps, id, dir) == k,
{
    let f = first_platform(ps, id, dir);
    if f < k {
        assert(!platform_matches(ps[f], id, dir));
    } else if f > k {
        assert(!platform_matches(ps[k], id, dir));
    }
}

/// A platform entry just registered.
pub open spec fn new_platform(
    id: Seq<char>,
    domain: Seq<char>,
    sip_ip: Seq<char>,
    sip_port: u16,
    dir: CascadingDirection,
) -> SpecPlatform {
    SpecPlatform { platform_id: id, domain, sip_ip, sip_port, direction: dir, online: true }
}

/// `host:port`.
pub open spec fn host_port(sip_ip: Seq<char>, sip_port: u16) -> Seq<char> {
    sip_ip + ":"@ + crate::text::dec(sip_port as nat)
}

/// The device record created for a platform that registers first as a
/// cascaded platform: contact `sip:id@ip:port`, server `ip:port`, online,
/// an hour's lifetime, no Call-ID, and its one platform entry.
pub open spec fn platform_device(
    id: Seq<char>,
    domain: Seq<char>,
    sip_ip: Seq<char>,
    sip_port: u16,
    dir: CascadingDirection,
) -> SpecDevice {
    SpecDevice {
        device_id: id,
        contact: "sip:"@ + id + "@"@ + host_port(sip_ip, sip_port),
        server_addr: host_port(sip_ip, sip_port),
        status: DeviceOnlineStatus::Online,
        expires: 3600,
        call_id: Seq::empty(),
        name: None,
        manufacturer: None,
        model: None,
        ip_address: Some(sip_ip),
        port: Some(sip_port),
        sub_devices: Seq::empty(),
        platforms: seq![new_platform(id, domain, sip_ip, sip_port, dir)],
        subscriptions: Seq::empty(),
    }
}

/// Whether `ps` holds an entry of platform `id`, in either direction.
pub open spec fn has_platform_entry(ps: Seq<SpecPlatform>, id: Seq<char>) -> bool {
    exists|k: int| 0 <= k < ps.len() && #[trigger] ps[k].platform_id == id
}

/// The entries of `ps` that are not of platform `id`.
pub open spec fn platforms_without(ps: Seq<SpecPlatform>, id: Seq<char>) -> Seq<SpecPlatform> {
    ps.filter(|p: SpecPlatform| p.platform_id != id)
}

/// Whether a platform entry is listed among the online platforms in
/// direction `dir`.
pub open spec fn listed(p: SpecPlatform, dir: CascadingDirection) -> bool {
    p.direction == dir && p.online
}

/// The online platform entries in direction `dir` of all devices, device
/// by device in registry order.
pub open spec fn platforms_in(ds: Seq<SpecDevice>, dir: CascadingDirection) -> Seq<SpecPlatform>
    decreases ds.len(),
{
    if ds.len() == 0 {
        Seq::empty()
    } else {
        platforms_in(ds.drop_last(), dir) + ds.last().platforms.filter(
            |p: SpecPlatform| listed(p, dir),
        )
    }
}

pub open spec fn platform_refs_view(v: Seq<&CascadingPlatformInfo>) -> Seq<SpecPlatform> {
    v.map_values(|p: &CascadingPlatformInfo| platform_view(*p))
}

fn text_eq(a: &String, b: &str) -> (r: bool)
    ensures
        r == (a@ == b@),
{
    let v = crate::text::chars_of(a.as_str());
    let w = crate::text::chars_of(b);
    crate::text::vec_eq(&v, &w)
}

/// `sip:id@ip:port`.
fn platform_contact(id: &str, sip_ip: &str, sip_port: u16) -> (s: String)
    ensures
        s@ == "sip:"@ + id@ + "@"@ + host_port(sip_ip@, sip_port),
{
    let mut s = copy_str("sip:");
    crate::text::push_str(&mut s, id);
    crate::text::push_char(&mut s, '@');
    crate::text::push_str(&mut s, sip_ip);
    crate::text::push_char(&mut s, ':');
    crate::text::push_dec(&mut s, sip_port as u64);
    proof {
        reveal_strlit("sip:");
        reveal_strlit("@");
        reveal_strlit(":");
        assert(s@ =~= "sip:"@ + id@ + "@"@ + host_port(sip_ip@, sip_port));
    }
    s
}

/// `ip:port`.
fn platform_server(sip_ip: &str, sip_port: u16) -> (s: String)
    ensures
        s@ == host_port(sip_ip@, sip_port),
{
    let mut s = copy_str(sip_ip);
    crate::text::push_char(&mut s, ':');
    crate::text::push_dec(&mut s, sip_port as u64);
    proof {
        reveal_strlit(":");
        assert(s@ =~= host_port(sip_ip@, sip_port));
    }
    s
}

impl DeviceRegistry {
    /// Registers a cascaded platform and announces it. Where a device of
    /// that id is registered, its entry for the platform in that direction
    /// is renewed (domain, address, online, registered now), or a new entry
    /// is added; otherwise a device record is created for the platform
    /// (see `platform_device`). Always `true`.
    pub fn add_cascading_platform(
        &mut self,
        platform_id: &str,
        domain: &str,
        sip_ip: &str,
        sip_port: u16,
        direction: CascadingDirection,
    ) -> (ok: bool)
        requires
            old(self).wf(),
        ensures
            ok,
            final(self).wf(),
            final(self)@.heartbeat_timeout == old(self)@.heartbeat_timeout,
            final(self)@.events == old(self)@.events.push(
                SpecEvent::CascadingPlatformRegistered(platform_id@),
            ),
            ({
                let ds = old(self)@.devices;
                let id = platform_id@;
                if has_device(ds, id) {
                    let i = device_index(ds, id);
                    let ps = ds[i].platforms;
                    final(self)@.devices == ds.update(
                        i,
                        SpecDevice {
                            platforms: if has_platform(ps, id, direction) {
                                ps.update(
                                    first_platform(ps, id, direction),
                                    SpecPlatform {
                                        domain: domain@,
                                        sip_ip: sip_ip@,
                                        sip_port,
                                        online: true,
                                        ..ps[first_platform(ps, id, direction)]
                                    },
                                )
                            } else {
                                ps.push(new_platform(id, domain@, sip_ip@, sip_port, direction))
                            },
                            ..ds[i]
                        },
                    )
                } else {
                    final(self)@.devices == ds.push(
                        platform_device(id, domain@, sip_ip@, sip_port, direction),
                    )
                }
            }),
    {
        let ghost ds = old(self)@.devices;
        let now = instant_now();
        match self.index_of(platform_id) {
            Some(i) => {
                let ghost ps = ds[i as int].platforms;
                assert(ds[i as int] == self.devices@[i as int]@);
                let mut k: usize = 0;
                let mut found = false;
                while k < self.devices[i].cascading_platforms.len()
                    invariant_except_break
                        !found,
                    invariant
                        i < self.devices@.len(),
                        ps == platforms_view(self.devices@[i as int].cascading_platforms@),
                        k <= ps.len(),
                        forall|j: int| 0 <= j < k ==> !#[trigger] platform_matches(ps[j], platform_id@, direction),
                    ensures
                        found ==> k < ps.len() && platform_matches(ps[k as int], platform_id@, direction),
                        !found ==> k == ps.len(),
                    decreases ps.len() - k,
                {
                    let p = &self.devices[i].cascading_platforms[k];
                    assert(ps[k as int] == platform_view(*p));
                    if text_eq(&p.platform_id, platform_id) && p.direction == direction {
                        found = true;
                        break;
                    }
                    k += 1;
                }
                let ghost before = self.devices@;
                if found {
                    proof {
                        lemma_first_platform(ps, platform_id@, direction, k as int);
                    }
                    let p = &mut self.devices[i].cascading_platforms[k];
                    p.domain = copy_str(domain);
                    p.sip_ip = copy_str(sip_ip);
                    p.sip_port = sip_port;
                    p.online = true;
                    p.registered_at = now;
                } else {
                    let p = CascadingPlatformInfo {
                        platform_id: copy_str(platform_id),
                        domain: copy_str(domain),
                        sip_ip: copy_str(sip_ip),
                        sip_port,
                        direction,
                        registered_at: now,
                        online: true,
                    };
                    self.devices[i].cascading_platforms.push(p);
                    assert(!has_platform(ps, platform_id@, direction));
                }
                proof {
                    let dv = self.devices@[i as int]@;
                    assert(self.devices@ == before.update(i as int, self.devices@[i as int]));
                    assert(dv.platforms =~= if has_platform(ps, platform_id@, direction) {
                        ps.update(
                            first_platform(ps, platform_id@, direction),
                            SpecPlatform {
                                domain: domain@,
                                sip_ip: sip_ip@,
                                sip_port,
                                online: true,
                                ..ps[first_platform(ps, platform_id@, direction)]
                            },
                        )
                    } else {
                        ps.push(new_platform(platform_id@, domain@, sip_ip@, sip_port, direction))
                    });
                    assert(devices_view(self.devices@) =~= ds.update(i as int, dv));
                    lemma_update_unique(ds, i as int, dv);
                }
            },
            None => {
                let p = CascadingPlatformInfo {
                    platform_id: copy_str(platform_id),
                    domain: copy_str(domain),
                    sip_ip: copy_str(sip_ip),
                    sip_port,
                    direction,
                    registered_at: now,
                    online: true,
                };
                let mut platforms: Vec<CascadingPlatformInfo> = Vec::new();
                platforms.push(p);
                let d = RegisteredDevice {
                    device_id: copy_str(platform_id),
                    contact: platform_contact(platform_id, sip_ip, sip_port),
                    server_addr: platform_server(sip_ip, sip_port),
                    status: DeviceOnlineStatus::Online,
                    registered_at: now,
                    last_keepalive: now,
                    expires: 3600,
                    call_id: String::new(),
                    name: None,
                    manufacturer: None,
                    model: None,
                    ip_address: Some(copy_str(sip_ip)),
                    port: Some(sip_port),
                    sub_devices: Vec::new(),
                    cascading_platforms: platforms,
                    subscriptions: Vec::new(),
                };
                let ghost dv = d@;
                assert(dv =~= platform_device(platform_id@, domain@, sip_ip@, sip_port, direction));
                self.devices.push(d);
                proof {
                    assert(devices_view(self.devices@) =~= ds.push(dv));
                    lemma_push_unique(ds, dv);
                }
            },
        }
        self.emit(
            DeviceRegistryEvent::CascadingPlatformRegistered { platform_id: copy_str(platform_id) },
        );
        true
    }

    /// Drops every platform entry of `platform_id` from the device of that
    /// id, if it is registered, and announces the platform unregistered.
    /// `true` exactly when the device was registered and held an entry of
    /// that platform.
    pub fn remove_cascading_platform(&mut self, platform_id: &str) -> (ok: bool)
        requires
            old(self).wf(),
        ensures
            ok == ({
                let ds = old(self)@.devices;
                has_device(ds, platform_id@) && has_platform_entry(
                    ds[device_index(ds, platform_id@)].platforms,
                    platform_id@,
                )
            }),
            final(self).wf(),
            final(self)@.heartbeat_timeout == old(self)@.heartbeat_timeout,
            final(self)@.events == old(self)@.events.push(
                SpecEvent::CascadingPlatformUnregistered(platform_id@),
            ),
            ({
                let ds = old(self)@.devices;
                let i = device_index(ds, platform_id@);
                final(self)@.devices == if has_device(ds, platform_id@) {
                    ds.update(
                        i,
                        SpecDevice {
                            platforms: platforms_without(ds[i].platforms, platform_id@),
                            ..ds[i]
                        },
                    )
                } else {
                    ds
                }
            }),
    {
        let ghost ds = old(self)@.devices;
        let mut removed = false;
        match self.index_of(platform_id) {
            Some(i) => {
                let ghost orig = self.devices@[i as int].cascading_platforms@;
                let ghost pv = platforms_view(orig);
                assert(ds[i as int] == self.devices@[i as int]@);
                let ghost pred = |p: SpecPlatform| p.platform_id != platform_id@;
                let mut rest: Vec<CascadingPlatformInfo> = Vec::new();
                std::mem::swap(&mut rest, &mut self.devices[i].cascading_platforms);
                let mut kept: Vec<CascadingPlatformInfo> = Vec::new();
                let ghost mut n: int = 0;
                while rest.len() > 0
                    invariant
                        0 <= n <= orig.len(),
                        pv == platforms_view(orig),
                        rest@ == orig.skip(n),
                        platforms_view(kept@) == pv.take(n).filter(pred),
                        pred == (|p: SpecPlatform| p.platform_id != platform_id@),
                        removed == exists|k: int|
                            0 <= k < n && #[trigger] pv[k].platform_id == platform_id@,
                    decreases rest@.len(),
                {
                    proof {
                        lemma_filter_take_step(pv, pred, n);
                    }
                    let p = rest.remove(0);
                    assert(p == orig[n]);
                    assert(pv[n] == platform_view(p));
                    let ghost kv = platforms_view(kept@);
                    if text_eq(&p.platform_id, platform_id) {
                        removed = true;
                    } else {
                        kept.push(p);
                        assert(platforms_view(kept@) =~= kv.push(platform_view(p)));
                    }
                    proof {
                        assert(rest@ =~= orig.skip(n + 1));
                        n = n + 1;
                    }
                }
                proof {
                    assert(n == orig.len());
                    assert(platforms_view(orig).take(n) =~= platforms_view(orig));
                }
                self.devices[i].cascading_platforms = kept;
                proof {
                    let dv = self.devices@[i as int]@;
                    assert(dv.platforms == platforms_without(ds[i as int].platforms, platform_id@));
                    assert(devices_view(self.devices@) =~= ds.update(i as int, dv));
                    lemma_update_unique(ds, i as int, dv);
                }
            },
            None => {},
        }
        self.emit(
            DeviceRegistryEvent::CascadingPlatformUnregistered {
                platform_id: copy_str(platform_id),
            },
        );
        removed
    }

    /// The online platform entries in direction `dir`, device by device.
    fn list_platforms(&self, dir: CascadingDirection) -> (r: Vec<&CascadingPlatformInfo>)
        ensures
            platform_refs_view(r@) == platforms_in(self@.devices, dir),
    {
        let ghost ds = self@.devices;
        let ghost pred = |p: SpecPlatform| listed(p, dir);
        let mut r: Vec<&CascadingPlatformInfo> = Vec::new();
        let mut i: usize = 0;
        while i < self.devices.len()
            invariant
                i <= self.devices@.len(),
                ds == devices_view(self.devices@),
                pred == (|p: SpecPlatform| listed(p, dir)),
                platform_refs_view(r@) == platforms_in(ds.take(i as int), dir),
            decreases self.devices@.len() - i,
        {
            let d = &self.devices[i];
            assert(ds[i as int] == d@);
            let ghost ps = d@.platforms;
            let ghost base = platform_refs_view(r@);
            let mut j: usize = 0;
            while j < d.cascading_platforms.len()
                invariant
                    j <= d.cascading_platforms@.len(),
                    ps == platforms_view(d.cascading_platforms@),
                    pred == (|p: SpecPlatform| listed(p, dir)),
                    platform_refs_view(r@) == base + ps.take(j as int).filter(pred),
                decreases d.cascading_platforms@.len() - j,
            {
                proof {
                    lemma_filter_take_step(ps, pred, j as int);
                }
                let p = &d.cascading_platforms[j];
                assert(ps[j as int] == platform_view(*p));
                if p.direction == dir && p.online {
                    let ghost rv = platform_refs_view(r@);
                    r.push(p);
                    assert(platform_refs_view(r@) =~= rv.push(platform_view(*p)));
                    assert(base + ps.take(j + 1).filter(pred) =~= (base + ps.take(
                        j as int,
                    ).filter(pred)).push(ps[j as int]));
                }
                j += 1;
            }
            proof {
                assert(ps.take(ps.len() as int) =~= ps);
                let t = ds.take(i + 1);
                assert(t.drop_last() =~= ds.take(i as int));
                assert(t.last() == ds[i as int]);
            }
            i += 1;
        }
        assert(ds.take(ds.len() as int) =~= ds);
        r
    }

    /// The online lower platforms, device by device in registry order.
    pub fn list_downstream_platforms(&self) -> (r: Vec<&CascadingPlatformInfo>)
        ensures
            platform_refs_view(r@) == platforms_in(self@.devices, CascadingDirection::Downstream),
    {
        self.list_platforms(CascadingDirection::Downstream)
    }

    /// The online upper platforms, device by device in registry order.
    pub fn list_upstream_platforms(&self) -> (r: Vec<&CascadingPlatformInfo>)
        ensures
            platform_refs_view(r@) == platforms_in(self@.devices, CascadingDirection::Upstream),
    {
        self.list_platforms(CascadingDirection::Upstream)
    }
}


pub open spec fn has_subscription(ss: Seq<SpecSubscription>, sid: Seq<char>) -> bool {
    exists|k: int| 0 <= k < ss.len() && #[trigger] ss[k].subscription_id == sid
}

/// A subscription just added: active.
pub open spec fn new_subscription(sid: Seq<char>, event: Seq<char>, expires: u64) -> SpecSubscription {
    SpecSubscription { subscription_id: sid, event, expires, active: true }
}

/// The subscriptions of `ss` other than `sid`.
pub open spec fn subscriptions_without(ss: Seq<SpecSubscription>, sid: Seq<char>) -> Seq<
    SpecSubscription,
> {
    ss.filter(|s: SpecSubscription| s.subscription_id != sid)
}

/// Whether a subscription is active and, where an event package is given,
/// of that package up to ASCII case.
pub open spec fn selected(s: SpecSubscription, event: Option<Seq<char>>) -> bool {
    s.active && match event {
        Some(e) => crate::text::eq_ascii_ci(s.event, e),
        None => true,
    }
}

/// The selected subscriptions of device `id`, in the order they were
/// added; none for an unknown device.
pub open spec fn selected_subscriptions(
    ds: Seq<SpecDevice>,
    id: Seq<char>,
    event: Option<Seq<char>>,
) -> Seq<SpecSubscription> {
    match lookup(ds, id) {
        Some(d) => d.subscriptions.filter(|s: SpecSubscription| selected(s, event)),
        None => Seq::empty(),
    }
}

pub open spec fn subscription_refs_view(v: Seq<&SubscriptionStateInfo>) -> Seq<SpecSubscription> {
    v.map_values(|s: &SubscriptionStateInfo| subscription_view(*s))
}

impl DeviceRegistry {
    /// Adds an active subscription `subscription_id` to device
    /// `device_id`, created now, unless the device already holds one of
    /// that id. `false` for an unknown device. Nothing is announced.
    pub fn add_subscription(
        &mut self,
        device_id: &str,
        subscription_id: &str,
        event: &str,
        expires: u64,
    ) -> (found: bool)
        requires
            old(self).wf(),
        ensures
            final(self).wf(),
            found == has_device(old(self)@.devices, device_id@),
            final(self)@.devices == subscribed(
                old(self)@.devices,
                device_id@,
                subscription_id@,
                event@,
                expires,
            ),
            ({
                let ds = old(self)@.devices;
                let i = device_index(ds, device_id@);
                let ss = ds[i].subscriptions;
                if found && !has_subscription(ss, subscription_id@) {
                    final(self)@ == (SpecRegistry {
                        devices: ds.update(
                            i,
                            SpecDevice {
                                subscriptions: ss.push(
                                    new_subscription(subscription_id@, event@, expires),
                                ),
                                ..ds[i]
                            },
                        ),
                        ..old(self)@
                    })
                } else {
                    final(self)@ == old(self)@
                }
            }),
    {
        let ghost ds = old(self)@.devices;
        match self.index_of(device_id) {
            Some(i) => {
                let ghost ss = ds[i as int].subscriptions;
                assert(ds[i as int] == self.devices@[i as int]@);
                let mut k: usize = 0;
                while k < self.devices[i].subscriptions.len()
                    invariant
                        i < self.devices@.len(),
                        self@ == old(self)@,
                        self.wf(),
                        has_device(ds, device_id@),
                        i as int == device_index(ds, device_id@),
                        ds == old(self)@.devices,
                        ss == subscriptions_view(self.devices@[i as int].subscriptions@),
                        k <= ss.len(),
                        forall|j: int| 0 <= j < k ==> (#[trigger] ss[j]).subscription_id != subscription_id@,
                    decreases ss.len() - k,
                {
                    let s = &self.devices[i].subscriptions[k];
                    assert(ss[k as int] == subscription_view(*s));
                    if text_eq(&s.subscription_id, subscription_id) {
                        assert(ss[k as int].subscription_id == subscription_id@);
                        return true;
                    }
                    k += 1;
                }
                assert(!has_subscription(ss, subscription_id@));
                let ghost before = self.devices@;
                let s = SubscriptionStateInfo {
                    subscription_id: copy_str(subscription_id),
                    event: copy_str(event),
                    expires,
                    created_at: instant_now(),
                    active: true,
                };
                self.devices[i].subscriptions.push(s);
                proof {
                    let dv = self.devices@[i as int]@;
                    assert(self.devices@ == before.update(i as int, self.devices@[i as int]));
                    assert(dv.subscriptions =~= ss.push(
                        new_subscription(subscription_id@, event@, expires),
                    ));
                    assert(devices_view(self.devices@) =~= ds.update(i as int, dv));
                    lemma_update_unique(ds, i as int, dv);
                }
                true
            },
            None => false,
        }
    }

    /// Drops the subscriptions `subscription_id` of device `device_id`.
    /// `true` when one was dropped; `false` for an unknown device or
    /// subscription. Nothing is announced.
    pub fn remove_subscription(&mut self, device_id: &str, subscription_id: &str) -> (removed:
        bool)
        requires
            old(self).wf(),
        ensures
            final(self).wf(),
            ({
                let ds = old(self)@.devices;
                let i = device_index(ds, device_id@);
                &&& removed == (has_device(ds, device_id@) && has_subscription(
                    ds[i].subscriptions,
                    subscription_id@,
                ))
                &&& final(self)@ == if has_device(ds, device_id@) {
                    SpecRegistry {
                        devices: ds.update(
                            i,
                            SpecDevice {
                                subscriptions: subscriptions_without(
                                    ds[i].subscriptions,
                                    subscription_id@,
                                ),
                                ..ds[i]
                            },
                        ),
                        ..old(self)@
                    }
                } else {
                    old(self)@
                }
            }),
    {
        let ghost ds = old(self)@.devices;
        match self.index_of(device_id) {
            Some(i) => {
                let ghost orig = self.devices@[i as int].subscriptions@;
                let ghost sv = subscriptions_view(orig);
                assert(ds[i as int] == self.devices@[i as int]@);
                let ghost pred = |s: SpecSubscription| s.subscription_id != subscription_id@;
                let mut rest: Vec<SubscriptionStateInfo> = Vec::new();
                std::mem::swap(&mut rest, &mut self.devices[i].subscriptions);
                let mut kept: Vec<SubscriptionStateInfo> = Vec::new();
                let mut removed = false;
                let ghost mut n: int = 0;
                while rest.len() > 0
                    invariant
                        0 <= n <= orig.len(),
                        sv == subscriptions_view(orig),
                        rest@ == orig.skip(n),
                        subscriptions_view(kept@) == sv.take(n).filter(pred),
                        pred == (|s: SpecSubscription| s.subscription_id != subscription_id@),
                        removed == exists|k: int|
                            0 <= k < n && #[trigger] sv[k].subscription_id == subscription_id@,
                    decreases rest@.len(),
                {
                    proof {
                        lemma_filter_take_step(sv, pred, n);
                    }
                    let s = rest.remove(0);
                    assert(s == orig[n]);
                    assert(sv[n] == subscription_view(s));
                    let ghost kv = subscriptions_view(kept@);
                    if text_eq(&s.subscription_id, subscription_id) {
                        removed = true;
                    } else {
                        kept.push(s);
                        assert(subscriptions_view(kept@) =~= kv.push(subscription_view(s)));
                    }
                    proof {
                        assert(rest@ =~= orig.skip(n + 1));
                        n = n + 1;
                    }
                }
                proof {
                    assert(n == orig.len());
                    assert(sv.take(n) =~= sv);
                }
                self.devices[i].subscriptions = kept;
                proof {
                    let dv = self.devices@[i as int]@;
                    assert(devices_view(self.devices@) =~= ds.update(i as int, dv));
                    lemma_update_unique(ds, i as int, dv);
                }
                removed
            },
            None => false,
        }
    }

    /// The selected subscriptions of a device (see `selected`).
    fn subscriptions_where(&self, device_id: &str, event: Option<&str>) -> (r: Vec<
        &SubscriptionStateInfo,
    >)
        requires
            self.wf(),
        ensures
            subscription_refs_view(r@) == selected_subscriptions(
                self@.devices,
                device_id@,
                match event {
                    Some(e) => Some(e@),
                    None => None,
                },
            ),
    {
        let ghost ev = match event {
            Some(e) => Some(e@),
            None => None,
        };
        let ghost pred = |s: SpecSubscription| selected(s, ev);
        let ev_chars = match event {
            Some(e) => Some(crate::text::chars_of(e)),
            None => None,
        };
        let mut r: Vec<&SubscriptionStateInfo> = Vec::new();
        match self.index_of(device_id) {
            Some(i) => {
                let d = &self.devices[i];
                assert(self@.devices[i as int] == d@);
                let ghost ss = d@.subscriptions;
                let mut j: usize = 0;
                while j < d.subscriptions.len()
                    invariant
                        j <= d.subscriptions@.len(),
                        ss == subscriptions_view(d.subscriptions@),
                        pred == (|s: SpecSubscription| selected(s, ev)),
                        ev == match event {
                            Some(e) => Some(e@),
                            None => None::<Seq<char>>,
                        },
                        match ev_chars {
                            Some(v) => ev == Some(v@),
                            None => ev is None,
                        },
                        subscription_refs_view(r@) == ss.take(j as int).filter(pred),
                    decreases d.subscriptions@.len() - j,
                {
                    proof {
                        lemma_filter_take_step(ss, pred, j as int);
                    }
                    let s = &d.subscriptions[j];
                    assert(ss[j as int] == subscription_view(*s));
                    let keep = if !s.active {
                        false
                    } else {
                        match &ev_chars {
                            Some(v) => {
                                let sc = crate::text::chars_of(s.event.as_str());
                                crate::text::vec_eq_ascii_ci(&sc, v)
                            },
                            None => true,
                        }
                    };
                    if keep {
                        let ghost rv = subscription_refs_view(r@);
                        r.push(s);
                        assert(subscription_refs_view(r@) =~= rv.push(subscription_view(*s)));
                    }
                    j += 1;
                }
                assert(ss.take(ss.len() as int) =~= ss);
            },
            None => {
                assert(subscription_refs_view(r@) =~= Seq::<SpecSubscription>::empty());
            },
        }
        r
    }

    /// The active subscriptions of device `device_id`, in the order they
    /// were added; none for an unknown device.
    pub fn get_subscriptions(&self, device_id: &str) -> (r: Vec<&SubscriptionStateInfo>)
        requires
            self.wf(),
        ensures
            subscription_refs_view(r@) == selected_subscriptions(self@.devices, device_id@, None),
    {
        self.subscriptions_where(device_id, None)
    }

    /// The active subscriptions of device `device_id` to event package
    /// `event`, compared up to ASCII case; none for an unknown device.
    pub fn get_subscriptions_by_event(&self, device_id: &str, event: &str) -> (r: Vec<
        &SubscriptionStateInfo,
    >)
        requires
            self.wf(),
        ensures
            subscription_refs_view(r@) == selected_subscriptions(
                self@.devices,
                device_id@,
                Some(event@),
            ),
    {
        self.subscriptions_where(device_id, Some(event))
    }
}


// ---------------------------------------------------------------------------
// Effects on the device list, and the laws that relate them
// ---------------------------------------------------------------------------

/// The devices after `register_device`.
pub open spec fn registered(
    ds: Seq<SpecDevice>,
    id: Seq<char>,
    contact: Seq<char>,
    server_addr: Seq<char>,
    expires: u64,
    call_id: Seq<char>,
) -> Seq<SpecDevice> {
    if has_device(ds, id) {
        let i = device_index(ds, id);
        ds.update(
            i,
            SpecDevice {
                contact,
                server_addr,
                expires,
                call_id,
                status: DeviceOnlineStatus::Online,
                ..ds[i]
            },
        )
    } else {
        ds.push(fresh_device(id, contact, server_addr, expires, call_id))
    }
}

/// The devices after `unregister_device`.
pub open spec fn unregistered(ds: Seq<SpecDevice>, id: Seq<char>) -> Seq<SpecDevice> {
    if has_device(ds, id) {
        ds.remove(device_index(ds, id))
    } else {
        ds
    }
}

/// The devices after `add_subscription`.
pub open spec fn subscribed(
    ds: Seq<SpecDevice>,
    id: Seq<char>,
    sid: Seq<char>,
    event: Seq<char>,
    expires: u64,
) -> Seq<SpecDevice> {
    let i = device_index(ds, id);
    let ss = ds[i].subscriptions;
    if has_device(ds, id) && !has_subscription(ss, sid) {
        ds.update(
            i,
            SpecDevice { subscriptions: ss.push(new_subscription(sid, event, expires)), ..ds[i] },
        )
    } else {
        ds
    }
}

/// A device just registered (or registered again) is registered, online,
/// with the contact, server, lifetime and Call-ID of that registration;
/// the ids stay unique.
pub proof fn law_register_then_lookup(
    ds: Seq<SpecDevice>,
    id: Seq<char>,
    contact: Seq<char>,
    server_addr: Seq<char>,
    expires: u64,
    call_id: Seq<char>,
)
    requires
        unique_ids(ds),
    ensures
        unique_ids(registered(ds, id, contact, server_addr, expires, call_id)),
        match lookup(registered(ds, id, contact, server_addr, expires, call_id), id) {
            Some(d) => d.status == DeviceOnlineStatus::Online && d.contact == contact
                && d.server_addr == server_addr && d.expires == expires && d.call_id == call_id,
            None => false,
        },
{
    let r = registered(ds, id, contact, server_addr, expires, call_id);
    if has_device(ds, id) {
        let i = device_index(ds, id);
        lemma_has_device_index(ds, id);
        lemma_update_unique(ds, i, r[i]);
        lemma_device_index(r, id, i);
    } else {
        lemma_push_unique(ds, fresh_device(id, contact, server_addr, expires, call_id));
    }
}

/// Registering a device again adds no device: the count is that of one
/// registration, one more than before for a new id, the same for a known one.
pub proof fn law_register_again_same_count(
    ds: Seq<SpecDevice>,
    id: Seq<char>,
    contact1: Seq<char>,
    server1: Seq<char>,
    expires1: u64,
    call_id1: Seq<char>,
    contact2: Seq<char>,
    server2: Seq<char>,
    expires2: u64,
    call_id2: Seq<char>,
)
    requires
        unique_ids(ds),
    ensures
        registered(
            registered(ds, id, contact1, server1, expires1, call_id1),
            id,
            contact2,
            server2,
            expires2,
            call_id2,
        ).len() == registered(ds, id, contact1, server1, expires1, call_id1).len(),
        registered(ds, id, contact1, server1, expires1, call_id1).len() == ds.len() + if has_device(
            ds,
            id,
        ) {
            0int
        } else {
            1int
        },
{
    law_register_then_lookup(ds, id, contact1, server1, expires1, call_id1);
}

/// Unregistering a device that was just registered under a new id gives
/// back the devices as they were.
pub proof fn law_unregister_undoes_register(
    ds: Seq<SpecDevice>,
    id: Seq<char>,
    contact: Seq<char>,
    server_addr: Seq<char>,
    expires: u64,
    call_id: Seq<char>,
)
    requires
        unique_ids(ds),
        !has_device(ds, id),
    ensures
        unregistered(registered(ds, id, contact, server_addr, expires, call_id), id) == ds,
{
    let d = fresh_device(id, contact, server_addr, expires, call_id);
    lemma_push_unique(ds, d);
    assert(ds.push(d).remove(ds.len() as int) =~= ds);
}

/// After unregistering, the id is not registered, and the other devices
/// are those before, in the same order.
pub proof fn law_unregister_removes(ds: Seq<SpecDevice>, id: Seq<char>)
    requires
        unique_ids(ds),
    ensures
        unique_ids(unregistered(ds, id)),
        !has_device(unregistered(ds, id), id),
        unregistered(ds, id) == ds.filter(|d: SpecDevice| d.device_id != id),
{
    let p = |d: SpecDevice| d.device_id != id;
    if has_device(ds, id) {
        let i = device_index(ds, id);
        lemma_has_device_index(ds, id);
        lemma_remove_unique(ds, i);
        lemma_filter_skip_one(ds, p, i);
    } else {
        lemma_filter_all(ds, p);
    }
}

/// Filtering keeps everything when every element passes.
proof fn lemma_filter_all<A>(s: Seq<A>, p: spec_fn(A) -> bool)
    requires
        forall|k: int| 0 <= k < s.len() ==> p(#[trigger] s[k]),
    ensures
        s.filter(p) == s,
    decreases s.len(),
{
    reveal(Seq::filter);
    if s.len() > 0 {
        lemma_filter_all(s.drop_last(), p);
        assert(s.drop_last().push(s.last()) =~= s);
    }
}

/// Filtering drops exactly the one element that fails.
proof fn lemma_filter_skip_one<A>(s: Seq<A>, p: spec_fn(A) -> bool, i: int)
    requires
        0 <= i < s.len(),
        !p(s[i]),
        forall|k: int| 0 <= k < s.len() && k != i ==> p(#[trigger] s[k]),
    ensures
        s.filter(p) == s.remove(i),
    decreases s.len(),
{
    reveal(Seq::filter);
    if i == s.len() - 1 {
        lemma_filter_all(s.drop_last(), p);
        assert(s.drop_last() =~= s.remove(i));
    } else {
        lemma_filter_skip_one(s.drop_last(), p, i);
        assert(s.drop_last().remove(i).push(s.last()) =~= s.remove(i));
    }
}

/// The devices a heartbeat check turns offline are as many as the online
/// devices it leaves fewer: the count returned is the drop of
/// `online_device_count`.
pub proof fn law_heartbeat_count(ds: Seq<SpecDevice>, ages: Seq<u64>, timeout: u64)
    requires
        ages.len() == ds.len(),
    ensures
        offline_events(ds, ages, timeout, ds.len()).len() + online_of(
            heartbeat_result(ds, ages, timeout),
        ).len() == online_of(ds).len(),
{
    lemma_heartbeat_prefix(ds, ages, timeout, ds.len() as int);
    assert(ds.take(ds.len() as int) =~= ds);
    assert(heartbeat_result(ds, ages, timeout).take(ds.len() as int) =~= heartbeat_result(
        ds,
        ages,
        timeout,
    ));
}

/// A heartbeat check turns a device offline exactly when it is online and
/// its heartbeat is older than the timeout: a device that sent a heartbeat
/// no more than `timeout` seconds ago keeps its record unchanged, and every
/// device keeps everything but its status.
pub proof fn law_heartbeat_by_age(ds: Seq<SpecDevice>, ages: Seq<u64>, timeout: u64, k: int)
    requires
        ages.len() == ds.len(),
        0 <= k < ds.len(),
    ensures
        heartbeat_result(ds, ages, timeout).len() == ds.len(),
        ages[k] <= timeout ==> heartbeat_result(ds, ages, timeout)[k] == ds[k],
        ages[k] > timeout && ds[k].status == DeviceOnlineStatus::Online ==> heartbeat_result(
            ds,
            ages,
            timeout,
        )[k] == (SpecDevice { status: DeviceOnlineStatus::Offline, ..ds[k] }),
        ds[k].status != DeviceOnlineStatus::Online ==> heartbeat_result(ds, ages, timeout)[k]
            == ds[k],
{
}

proof fn lemma_heartbeat_prefix(ds: Seq<SpecDevice>, ages: Seq<u64>, timeout: u64, n: int)
    requires
        ages.len() == ds.len(),
        0 <= n <= ds.len(),
    ensures
        offline_events(ds, ages, timeout, n as nat).len() + heartbeat_result(
            ds,
            ages,
            timeout,
        ).take(n).filter(|d: SpecDevice| is_online(d)).len() == ds.take(n).filter(
            |d: SpecDevice| is_online(d),
        ).len(),
    decreases n,
{
    let p = |d: SpecDevice| is_online(d);
    let r = heartbeat_result(ds, ages, timeout);
    if n == 0 {
        reveal(Seq::filter);
        assert(ds.take(0) =~= Seq::<SpecDevice>::empty());
        assert(r.take(0) =~= Seq::<SpecDevice>::empty());
    } else {
        lemma_heartbeat_prefix(ds, ages, timeout, n - 1);
        lemma_filter_take_step(ds, p, n - 1);
        lemma_filter_take_step(r, p, n - 1);
    }
}

/// Adding the same subscription twice holds it once: the second addition
/// changes nothing.
pub proof fn law_subscribe_idempotent(
    ds: Seq<SpecDevice>,
    id: Seq<char>,
    sid: Seq<char>,
    event: Seq<char>,
    expires: u64,
)
    requires
        unique_ids(ds),
    ensures
        subscribed(subscribed(ds, id, sid, event, expires), id, sid, event, expires) == subscribed(
            ds,
            id,
            sid,
            event,
            expires,
        ),
{
    let s1 = subscribed(ds, id, sid, event, expires);
    if has_device(ds, id) && !has_subscription(ds[device_index(ds, id)].subscriptions, sid) {
        let i = device_index(ds, id);
        lemma_has_device_index(ds, id);
        lemma_update_unique(ds, i, s1[i]);
        lemma_device_index(s1, id, i);
        let ss = s1[i].subscriptions;
        assert(ss[ss.len() - 1].subscription_id == sid);
    }
}


/// Devices and catalog items of the devices `ds`.
pub open spec fn devices_total(ds: Seq<SpecDevice>) -> nat
    decreases ds.len(),
{
    if ds.len() == 0 {
        0
    } else {
        devices_total(ds.drop_last()) + 1 + ds.last().sub_devices.len()
    }
}

/// Trees without children count one node each.
proof fn lemma_forest_of_leaves(s: Seq<DeviceTreeNode>)
    requires
        forall|j: int| 0 <= j < s.len() ==> (#[trigger] s[j]).children@.len() == 0,
    ensures
        forest_count(s) == s.len(),
    decreases s.len(),
{
    if s.len() > 0 {
        let init = s.subrange(0, s.len() - 1);
        assert forall|j: int| 0 <= j < init.len() implies (#[trigger] init[j]).children@.len()
            == 0 by {
            assert(init[j] == s[j]);
        }
        lemma_forest_of_leaves(init);
        let last = s[s.len() - 1];
        assert(last.children@ =~= Seq::<DeviceTreeNode>::empty());
        assert(forest_count(last.children@) == 0);
        assert(tree_count(last) == 1 + forest_count(last.children@));
        assert(forest_count(s) == forest_count(init) + tree_count(last));
    }
}

proof fn lemma_forest_of_devices(cs: Seq<DeviceTreeNode>, ds: Seq<SpecDevice>)
    requires
        cs.len() == ds.len(),
        forall|i: int| 0 <= i < ds.len() ==> is_device_node(#[trigger] cs[i], ds[i]),
    ensures
        forest_count(cs) == devices_total(ds),
    decreases cs.len(),
{
    if cs.len() > 0 {
        let ci = cs.subrange(0, cs.len() - 1);
        let di = ds.drop_last();
        assert forall|i: int| 0 <= i < di.len() implies is_device_node(#[trigger] ci[i], di[i]) by {
            assert(ci[i] == cs[i]);
            assert(is_device_node(cs[i], ds[i]));
        }
        lemma_forest_of_devices(ci, di);
        let c = cs[cs.len() - 1];
        let d = ds.last();
        assert(is_device_node(cs[cs.len() - 1], ds[ds.len() - 1]));
        let leaves = c.children@;
        assert forall|j: int| 0 <= j < leaves.len() implies (#[trigger] leaves[j]).children@.len()
            == 0 by {
            assert(is_item_node(leaves[j], d.sub_devices[j]));
        }
        lemma_forest_of_leaves(leaves);
        assert(tree_count(c) == 1 + forest_count(leaves));
        assert(forest_count(cs) == forest_count(ci) + tree_count(c));
        assert(devices_total(ds) == devices_total(di) + 1 + d.sub_devices.len());
    }
}

/// The device tree counts its root, each registered device and each
/// catalog item of each device (one node each).
pub proof fn law_device_tree_count(root: DeviceTreeNode, ds: Seq<SpecDevice>)
    requires
        root.children@.len() == ds.len(),
        forall|i: int| 0 <= i < ds.len() ==> is_device_node(#[trigger] root.children@[i], ds[i]),
    ensures
        tree_count(root) == 1 + devices_total(ds),
{
    lemma_forest_of_devices(root.children@, ds);
}

} // verus!
