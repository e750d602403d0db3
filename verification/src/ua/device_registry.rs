//! GB28181 device registry data: online status, cascading platforms,
//! subscriptions, registry events and the device tree.
use vstd::prelude::*;

use crate::clock::{elapsed_since, Elapsed};
use crate::text::copy_str;

verus! {

/// Whether a cascaded platform is above or below this one.
#[derive(Debug, Clone, Copy, PartialEq, Eq, Structural)]
pub enum CascadingDirection {
    Upstream,
    Downstream,
}

impl CascadingDirection {
    /// `upstream` or `downstream`.
    pub fn to_string(&self) -> (s: String)
        ensures
            s@ == match *self {
                CascadingDirection::Upstream => "upstream"@,
                CascadingDirection::Downstream => "downstream"@,
            },
    {
        match self {
            CascadingDirection::Upstream => copy_str("upstream"),
            CascadingDirection::Downstream => copy_str("downstream"),
        }
    }
}

/// Connection data of a cascaded (upper or lower) platform.
#[derive(Debug, Clone, PartialEq)]
pub struct CascadingPlatformInfo {
    /// 20-digit GB28181 code of the platform.
    pub platform_id: String,
    pub domain: String,
    pub sip_ip: String,
    pub sip_port: u16,
    pub direction: CascadingDirection,
    pub registered_at: std::time::Instant,
    pub online: bool,
}

/// A subscription (catalog, alarm, mobile position...) held for a device.
#[derive(Debug, Clone, PartialEq)]
pub struct SubscriptionStateInfo {
    pub subscription_id: String,
    /// Event package, such as `Catalog`, `Alarm` or `MobilePosition`.
    pub event: String,
    /// Lifetime in seconds.
    pub expires: u64,
    pub created_at: std::time::Instant,
    pub active: bool,
}

/// Whether a subscription of `expires` seconds is over once
/// `elapsed_secs` whole seconds have passed: more than `expires` have.
pub open spec fn subscription_over(expires: u64, elapsed_secs: u64) -> bool {
    elapsed_secs > expires
}

impl SubscriptionStateInfo {
    /// Whether the subscription is over once `elapsed_secs` whole seconds
    /// have passed since it was created: more than `expires` have.
    pub fn is_expired_after(&self, elapsed_secs: u64) -> (b: bool)
        ensures
            b == subscription_over(self.expires, elapsed_secs),
    {
        elapsed_secs > self.expires
    }

    /// Whether more whole seconds than `expires` have passed since the
    /// subscription was created, by the monotonic clock: `subscription_over`
    /// at the whole seconds the clock counts since then. A lifetime of
    /// `u64::MAX` seconds never ends.
    pub fn is_expired(&self) -> (b: bool)
        ensures
            exists|e: Elapsed|
                e.from() == self.created_at && b == #[trigger] subscription_over(
                    self.expires,
                    e.seconds(),
                ),
            self.expires == u64::MAX ==> !b,
    {
        let e = elapsed_since(&self.created_at);
        let b = self.is_expired_after(e.secs());
        assert(b == subscription_over(self.expires, e.seconds()));
        b
    }
}

/// Online status of a device.
#[derive(Debug, Clone, Copy, PartialEq, Eq, Structural)]
pub enum DeviceOnlineStatus {
    Online,
    Offline,
    Unknown,
}

impl DeviceOnlineStatus {
    /// `ONLINE`, `OFFLINE` or `UNKNOWN`.
    pub fn to_string(&self) -> (s: String)
        ensures
            s@ == match *self {
                DeviceOnlineStatus::Online => "ONLINE"@,
                DeviceOnlineStatus::Offline => "OFFLINE"@,
                DeviceOnlineStatus::Unknown => "UNKNOWN"@,
            },
    {
        match self {
            DeviceOnlineStatus::Online => copy_str("ONLINE"),
            DeviceOnlineStatus::Offline => copy_str("OFFLINE"),
            DeviceOnlineStatus::Unknown => copy_str("UNKNOWN"),
        }
    }
}

/// Change in the registry reported to the application.
#[derive(Debug)]
pub enum DeviceRegistryEvent {
    DeviceOnline { device_id: String },
    DeviceOffline { device_id: String },
    DeviceRegistered { device_id: String },
    DeviceUnregistered { device_id: String },
    DeviceCatalogUpdated { device_id: String, count: usize },
    DevicePositionUpdated { device_id: String },
    CascadingPlatformRegistered { platform_id: String },
    CascadingPlatformUnregistered { platform_id: String },
}

// ---------------------------------------------------------------------------
// Device tree
// ---------------------------------------------------------------------------

/// Node of a device tree: a device and the devices below it.
#[derive(Debug)]
pub struct DeviceTreeNode {
    pub device_id: String,
    pub name: Option<String>,
    pub status: DeviceOnlineStatus,
    pub children: Vec<DeviceTreeNode>,
}

/// Number of nodes of the tree rooted at `n`, `n` included.
pub open spec fn tree_count(n: DeviceTreeNode) -> nat
    decreases n,
{
    1 + forest_count(n.children@)
}

/// Number of nodes of the trees in `s`.
pub open spec fn forest_count(s: Seq<DeviceTreeNode>) -> nat
    decreases s,
{
    if s.len() == 0 {
        0
    } else {
        forest_count(s.subrange(0, s.len() - 1)) + tree_count(s[s.len() - 1])
    }
}

proof fn lemma_forest_count_prefix(s: Seq<DeviceTreeNode>, k: int)
    requires
        0 <= k <= s.len(),
    ensures
        forest_count(s.subrange(0, k)) <= forest_count(s),
        k < s.len() ==> forest_count(s.subrange(0, k + 1)) == forest_count(s.subrange(0, k))
            + tree_count(s[k]),
    decreases s.len() - k,
{
    if k < s.len() {
        assert(s.subrange(0, k + 1).subrange(0, k) == s.subrange(0, k));
        lemma_forest_count_prefix(s, k + 1);
    } else {
        assert(s.subrange(0, k) == s);
    }
}

/// A copy of the tree rooted at `n`.
fn clone_node(n: &DeviceTreeNode) -> (r: DeviceTreeNode)
    ensures
        r.device_id@ == n.device_id@,
        crate::text::opt_view(r.name) == crate::text::opt_view(n.name),
        r.status == n.status,
        r.children@.len() == n.children@.len(),
        tree_count(r) == tree_count(*n),
    decreases n,
{
    let ghost cs = n.children@;
    let mut children: Vec<DeviceTreeNode> = Vec::new();
    let mut i: usize = 0;
    while i < n.children.len()
        invariant
            i <= cs.len(),
            cs == n.children@,
            children@.len() == i,
            forest_count(children@) == forest_count(cs.subrange(0, i as int)),
        decreases cs.len() - i,
    {
        proof {
            lemma_forest_count_prefix(cs, i as int);
        }
        let c = clone_node(&n.children[i]);
        let ghost before = children@;
        children.push(c);
        proof {
            assert(children@.subrange(0, i as int) == before);
            assert(children@.subrange(0, children@.len() - 1) == before);
        }
        i += 1;
    }
    assert(cs.subrange(0, cs.len() as int) == cs);
    DeviceTreeNode {
        device_id: crate::text::copy_string(&n.device_id),
        name: crate::text::copy_opt(&n.name),
        status: n.status,
        children,
    }
}

impl Clone for DeviceTreeNode {
    /// A copy of the whole subtree.
    fn clone(&self) -> (r: DeviceTreeNode)
        ensures
            r.device_id@ == self.device_id@,
            tree_count(r) == tree_count(*self),
    {
        clone_node(self)
    }
}

impl DeviceTreeNode {
    /// A node without name or children, in status `Unknown`.
    pub fn new(device_id: &str) -> (n: DeviceTreeNode)
        ensures
            n.device_id@ == device_id@,
            n.name is None,
            n.status == DeviceOnlineStatus::Unknown,
            n.children@.len() == 0,
    {
        DeviceTreeNode {
            device_id: copy_str(device_id),
            name: None,
            status: DeviceOnlineStatus::Unknown,
            children: Vec::new(),
        }
    }

    /// Number of nodes of the tree rooted here, this node included.
    pub fn total_count(&self) -> (n: usize)
        requires
            tree_count(*self) <= usize::MAX,
        ensures
            n == tree_count(*self),
        decreases self,
    {
        let ghost cs = self.children@;
        let mut sum: usize = 0;
        let mut i: usize = 0;
        assert(cs.subrange(0, 0) == Seq::<DeviceTreeNode>::empty());
        while i < self.children.len()
            invariant
                i <= cs.len(),
                cs == self.children@,
                1 + forest_count(cs) <= usize::MAX,
                sum == forest_count(cs.subrange(0, i as int)),
            decreases cs.len() - i,
        {
            proof {
                lemma_forest_count_prefix(cs, i as int);
                lemma_forest_count_prefix(cs, i + 1);
            }
            let c = self.children[i].total_count();
            sum = sum + c;
            i += 1;
        }
        assert(cs.subrange(0, cs.len() as int) == cs);
        1 + sum
    }
}

/// GB28181 device tree: the root is the platform, below it the devices.
#[derive(Debug, Clone)]
pub struct DeviceTree {
    pub root: DeviceTreeNode,
}

impl DeviceTree {
    /// A tree holding only its root `root_id`.
    pub fn new(root_id: &str) -> (t: DeviceTree)
        ensures
            t.root.device_id@ == root_id@,
            t.root.name is None,
            t.root.status == DeviceOnlineStatus::Unknown,
            t.root.children@.len() == 0,
    {
        DeviceTree { root: DeviceTreeNode::new(root_id) }
    }

    /// Number of nodes, the root included.
    pub fn total_count(&self) -> (n: usize)
        requires
            tree_count(self.root) <= usize::MAX,
        ensures
            n == tree_count(self.root),
    {
        self.root.total_count()
    }
}

} // verus!
