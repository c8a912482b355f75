//! The provider-agnostic description of a machine.
use vstd::prelude::*;

use crate::status::InstanceStatus;

verus! {

/// The port on which every instance accepts SSH connections.
pub const SSH_PORT: u16 = 22;

/// An IPv4 address, held as its 32 bits in network order.
#[derive(Debug, Clone, Copy, PartialEq, Eq, Structural, Hash)]
pub struct Ipv4Address {
    pub bits: u32,
}

impl Ipv4Address {
    /// The four octets of the address, most significant first.
    pub fn octets(&self) -> (r: [u8; 4])
        ensures
            r@ == seq![
                (self.bits / 0x100_0000) as u8,
                (self.bits / 0x1_0000 % 0x100) as u8,
                (self.bits / 0x100 % 0x100) as u8,
                (self.bits % 0x100) as u8,
            ],
    {
        let r = [
            (self.bits / 0x100_0000) as u8,
            (self.bits / 0x1_0000 % 0x100) as u8,
            (self.bits / 0x100 % 0x100) as u8,
            (self.bits % 0x100) as u8,
        ];
        assert(r@ =~= seq![
            (self.bits / 0x100_0000) as u8,
            (self.bits / 0x1_0000 % 0x100) as u8,
            (self.bits / 0x100 % 0x100) as u8,
            (self.bits % 0x100) as u8,
        ]);
        r
    }
}

/// An address and a port to open an SSH session on.
#[derive(Debug, Clone, Copy, PartialEq, Eq, Structural, Hash)]
pub struct SshAddress {
    pub ip: Ipv4Address,
    pub port: u16,
}

/// A cloud provider instance.
#[derive(Debug, Eq, Hash)]
pub struct Instance {
    /// The unique identifier of the instance.
    pub id: String,
    /// The region where the instance runs.
    pub region: String,
    /// The public ip address of the instance (accessible from anywhere).
    pub main_ip: Ipv4Address,
    /// The list of tags associated with the instance.
    pub tags: Vec<String>,
    /// The specs of the instance.
    pub specs: String,
    /// The current status of the instance.
    pub status: InstanceStatus,
}

/// What an instance holds, with its text as characters.
pub struct InstanceView {
    pub id: Seq<char>,
    pub region: Seq<char>,
    pub main_ip: Ipv4Address,
    pub tags: Seq<Seq<char>>,
    pub specs: Seq<char>,
    pub status: InstanceStatus,
}

impl View for Instance {
    type V = InstanceView;

    open spec fn view(&self) -> InstanceView {
        InstanceView {
            id: self.id@,
            region: self.region@,
            main_ip: self.main_ip,
            tags: self.tags.deep_view(),
            specs: self.specs@,
            status: self.status,
        }
    }
}

/// `x` with its status replaced by `s` and every other field kept.
pub open spec fn with_status(x: InstanceView, s: InstanceStatus) -> InstanceView {
    InstanceView { status: s, ..x }
}

/// The views of the instances of `s`, in order.
pub open spec fn views(s: Seq<Instance>) -> Seq<InstanceView> {
    s.map_values(|x: Instance| x@)
}

/// Copies the labels, each one kept as it is.
fn copy_tags(tags: &Vec<String>) -> (r: Vec<String>)
    ensures
        r.deep_view() == tags.deep_view(),
{
    let mut r: Vec<String> = Vec::new();
    let mut i: usize = 0;
    while i < tags.len()
        invariant
            i <= tags@.len(),
            r@.len() == i,
            forall|k: int| 0 <= k < i ==> (#[trigger] r@[k])@ == tags@[k]@,
        decreases tags@.len() - i,
    {
        r.push(tags[i].clone());
        i = i + 1;
    }
    assert(r.deep_view() =~= tags.deep_view());
    r
}

impl Clone for Instance {
    fn clone(&self) -> (r: Instance)
        ensures
            r@ == self@,
    {
        Instance {
            id: self.id.clone(),
            region: self.region.clone(),
            main_ip: self.main_ip,
            tags: copy_tags(&self.tags),
            specs: self.specs.clone(),
            status: self.status,
        }
    }
}

/// Whether the two label lists hold the same labels in the same order.
fn same_tags(a: &Vec<String>, b: &Vec<String>) -> (r: bool)
    ensures
        r == (a.deep_view() == b.deep_view()),
{
    if a.len() != b.len() {
        assert(a.deep_view().len() != b.deep_view().len());
        return false;
    }
    let mut i: usize = 0;
    while i < a.len()
        invariant
            a@.len() == b@.len(),
            i <= a@.len(),
            forall|k: int| 0 <= k < i ==> (#[trigger] a@[k])@ == b@[k]@,
        decreases a@.len() - i,
    {
        if a[i] != b[i] {
            assert(a.deep_view()[i as int] != b.deep_view()[i as int]);
            return false;
        }
        i = i + 1;
    }
    assert(a.deep_view() =~= b.deep_view());
    true
}

impl PartialEq for Instance {
    fn eq(&self, other: &Instance) -> (r: bool) {
        self.id == other.id && self.region == other.region && self.main_ip == other.main_ip
            && same_tags(&self.tags, &other.tags) && self.specs == other.specs && self.status
            == other.status
    }
}

impl vstd::std_specs::cmp::PartialEqSpecImpl for Instance {
    open spec fn obeys_eq_spec() -> bool {
        true
    }

    open spec fn eq_spec(&self, other: &Instance) -> bool {
        self@ == other@
    }
}

impl Instance {
    /// Whether the instance is active and running.
    pub fn is_active(&self) -> (r: bool)
        ensures
            r == (self.status == InstanceStatus::Active),
    {
        self.status == InstanceStatus::Active
    }

    /// Whether the instance is not ready for use: every status but `Active`,
    /// `Terminated` included.
    pub fn is_inactive(&self) -> (r: bool)
        ensures
            r == (self.status != InstanceStatus::Active),
    {
        !self.is_active()
    }

    /// Whether the instance is terminated and in the process of being deleted.
    pub fn is_terminated(&self) -> (r: bool)
        ensures
            r == (self.status == InstanceStatus::Terminated),
    {
        self.status == InstanceStatus::Terminated
    }

    /// The address to open an SSH session on: the main ip and port 22.
    pub fn ssh_address(&self) -> (r: SshAddress)
        ensures
            r.ip == self.main_ip,
            r.port == SSH_PORT,
    {
        SshAddress { ip: self.main_ip, port: SSH_PORT }
    }
}

/// Of every instance, `is_inactive` is the negation of `is_active`, and when
/// it is not inactive exactly one of `is_active` and `is_terminated` holds.
pub proof fn lemma_status_queries_consistent(x: Instance)
    ensures
        (x.status != InstanceStatus::Active) == !(x.status == InstanceStatus::Active),
        !(x.status != InstanceStatus::Active) ==> ((x.status == InstanceStatus::Active) != (
        x.status == InstanceStatus::Terminated)),
{
}

} // verus!
