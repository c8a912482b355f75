//! A deterministic in-memory client for exercising orchestration logic
//! without real infrastructure.
use vstd::prelude::*;

use crate::client::ServerProviderClient;
use crate::decimal::{decimal, decimal_string, lemma_decimal_injective};
use crate::error::{CloudProviderError, CloudProviderResult};
use crate::instance::{Instance, InstanceView, Ipv4Address, views, with_status};
use crate::status::InstanceStatus;

verus! {

/// The first address of the loopback range 127.0.0.0/8.
pub const LOOPBACK_BASE: u32 = 0x7f00_0000;

/// How many instances a client can create: one per loopback address.
pub const MAX_INSTANCES: usize = 0x100_0000;

/// The configuration of a client.
pub struct Settings {
    /// The machine shape given to every created instance.
    pub specs: String,
}

/// An in-memory client that holds its instances in one table. Every
/// operation takes the client exclusively, so each one's effect is atomic
/// relative to the others.
pub struct TestClient {
    settings: Settings,
    instances: Vec<Instance>,
    next_id: usize,
}

impl View for TestClient {
    type V = Seq<InstanceView>;

    /// The instances held, in the order of their creation.
    closed spec fn view(&self) -> Seq<InstanceView> {
        views(self.instances@)
    }
}

/// The instance that the client creates as its `n`-th, counting from zero.
pub open spec fn fresh_instance(n: nat, region: Seq<char>, specs: Seq<char>) -> InstanceView {
    InstanceView {
        id: decimal(n),
        region,
        main_ip: Ipv4Address { bits: (LOOPBACK_BASE + n) as u32 },
        tags: Seq::empty(),
        specs,
        status: InstanceStatus::Active,
    }
}

/// The table of a new client after one create for each of `regions`, in order.
pub open spec fn creates_from_empty(regions: Seq<Seq<char>>, specs: Seq<char>) -> Seq<InstanceView> {
    Seq::new(regions.len(), |k: int| fresh_instance(k as nat, regions[k], specs))
}

/// Whether some instance of `t` has the id `id`.
pub open spec fn holds_id(t: Seq<InstanceView>, id: Seq<char>) -> bool {
    exists|i: int| 0 <= i < t.len() && (#[trigger] t[i]).id == id
}

/// No two instances of `t` share an id.
pub open spec fn unique_ids(t: Seq<InstanceView>) -> bool {
    forall|i: int, j: int|
        0 <= i < t.len() && 0 <= j < t.len() && i != j ==> #[trigger] t[i].id != #[trigger] t[j].id
}

/// Whether `id` is the decimal form of a number below `n`.
pub open spec fn is_decimal_below(id: Seq<char>, n: nat) -> bool {
    exists|k: nat| k < n && #[trigger] decimal(k) == id
}

/// Every id of `t` is the decimal form of a number below `n`.
pub open spec fn issued_below(t: Seq<InstanceView>, n: nat) -> bool {
    forall|i: int| 0 <= i < t.len() ==> is_decimal_below((#[trigger] t[i]).id, n)
}

/// Whether one of `given` has the id `id`.
pub open spec fn is_named(given: Seq<InstanceView>, id: Seq<char>) -> bool {
    exists|k: int| 0 <= k < given.len() && (#[trigger] given[k]).id == id
}

/// `table` with the status of each instance named in `given` set to `s`,
/// except that terminated instances stay terminated.
pub open spec fn status_applied(
    table: Seq<InstanceView>,
    given: Seq<InstanceView>,
    s: InstanceStatus,
) -> Seq<InstanceView> {
    table.map_values(
        |x: InstanceView|
            if is_named(given, x.id) && x.status != InstanceStatus::Terminated {
                with_status(x, s)
            } else {
                x
            },
    )
}

/// `table` without the instances whose id is `id`.
pub open spec fn without_id(table: Seq<InstanceView>, id: Seq<char>) -> Seq<InstanceView> {
    table.filter(|x: InstanceView| x.id != id)
}

/// Whether one of `given` has the id `id`.
fn contains_id(given: &[Instance], id: &String) -> (r: bool)
    ensures
        r == is_named(views(given@), id@),
{
    let mut k: usize = 0;
    while k < given.len()
        invariant
            k <= given@.len(),
            forall|j: int| 0 <= j < k ==> (#[trigger] given@[j]).id@ != id@,
        decreases given@.len() - k,
    {
        if given[k].id == *id {
            assert(views(given@)[k as int].id == id@);
            return true;
        }
        k = k + 1;
    }
    assert(!is_named(views(given@), id@)) by {
        assert forall|j: int| 0 <= j < views(given@).len() implies (#[trigger] views(
            given@,
        )[j]).id != id@ by {
            assert(given@[j].id@ != id@);
        }
    }
    false
}

impl TestClient {
    /// How many instances this client has ever created.
    pub closed spec fn next_id(&self) -> nat {
        self.next_id as nat
    }

    /// The held ids are distinct, and each was issued by an earlier create.
    pub open spec fn well_formed(&self) -> bool {
        &&& self.next_id() <= MAX_INSTANCES
        &&& issued_below(self@, self.next_id())
        &&& unique_ids(self@)
    }

    /// Whether this client has issued the id `id`.
    pub open spec fn was_issued(&self, id: Seq<char>) -> bool {
        is_decimal_below(id, self.next_id())
    }

    /// `id` was issued by this client and is no longer held: no later
    /// operation brings it back.
    pub open spec fn retired(&self, id: Seq<char>) -> bool {
        self.was_issued(id) && !holds_id(self@, id)
    }

    #[verifier::type_invariant]
    spec fn inv(&self) -> bool {
        self.well_formed()
    }

    /// A client that holds no instance yet.
    pub fn new(settings: Settings) -> (r: TestClient)
        ensures
            r@ == Seq::<InstanceView>::empty(),
            r.next_id() == 0,
            r.machine_specs() == settings.specs@,
            r.well_formed(),
    {
        let r = TestClient { settings, instances: Vec::new(), next_id: 0 };
        assert(r@ =~= Seq::<InstanceView>::empty());
        r
    }

    /// Copies of the instances held, in order.
    fn snapshot(&self) -> (r: Vec<Instance>)
        ensures
            views(r@) == self@,
    {
        let mut r: Vec<Instance> = Vec::new();
        let mut i: usize = 0;
        while i < self.instances.len()
            invariant
                i <= self.instances@.len(),
                r@.len() == i,
                forall|k: int| 0 <= k < i ==> (#[trigger] r@[k])@ == self.instances@[k]@,
            decreases self.instances@.len() - i,
        {
            r.push(self.instances[i].clone());
            i = i + 1;
        }
        assert(views(r@) =~= self@);
        r
    }

    /// Sets to `s` the status of each instance held whose id is one of
    /// `given`, leaving terminated instances as they are.
    fn apply_status(&mut self, given: &[Instance], s: InstanceStatus)
        ensures
            final(self)@ == status_applied(old(self)@, views(given@), s),
            final(self).next_id() == old(self).next_id(),
            final(self).machine_specs() == old(self).machine_specs(),
            final(self).held_ids() == old(self).held_ids(),
            final(self).well_formed(),
    {
        proof {
            use_type_invariant(&*self);
        }
        let ghost before = self@;
        let mut table: Vec<Instance> = Vec::new();
        std::mem::swap(&mut table, &mut self.instances);
        let ghost start = table@;
        let mut i: usize = 0;
        while i < table.len()
            invariant
                i <= table@.len(),
                table@.len() == start.len(),
                views(start) == before,
                forall|k: int|
                    0 <= k < i ==> (#[trigger] table@[k])@ == (if is_named(
                        views(given@),
                        start[k].id@,
                    ) && start[k].status != InstanceStatus::Terminated {
                        with_status(start[k]@, s)
                    } else {
                        start[k]@
                    }),
                forall|k: int| i <= k < table@.len() ==> #[trigger] table@[k] == start[k],
            decreases table@.len() - i,
        {
            if table[i].status != InstanceStatus::Terminated && contains_id(given, &table[i].id) {
                table[i].status = s;
            }
            i = i + 1;
        }
        assert(views(table@) =~= status_applied(before, views(given@), s));
        proof {
            lemma_status_applied_keeps_ids(before, views(given@), s);
            lemma_status_applied_issued(before, views(given@), s, self.next_id());
        }
        self.instances = table;
        assert(self.held_ids() =~= old(self).held_ids());
    }
}

impl ServerProviderClient for TestClient {
    const USERNAME: &'static str = "root";

    closed spec fn machine_specs(&self) -> Seq<char> {
        self.settings.specs@
    }

    open spec fn held_ids(&self) -> Set<Seq<char>> {
        Set::new(|id: Seq<char>| holds_id(self@, id))
    }

    fn identify(&self) -> (r: String)
        ensures
            r@ == "TestClient"@,
    {
        "TestClient".to_string()
    }

    /// Every instance held, in the order of creation.
    fn list_instances(&self) -> (r: CloudProviderResult<Vec<Instance>>)
        ensures
            r matches Ok(v) && views(v@) == self@,
            self.well_formed(),
    {
        proof {
            use_type_invariant(self);
        }
        Ok(self.snapshot())
    }

    /// Marks `Active` each instance held whose id is one of `instances`; other
    /// ids, and terminated instances, are left as they are.
    fn start_instances(&mut self, instances: &[Instance]) -> (r: CloudProviderResult<()>)
        ensures
            r is Ok,
            final(self)@ == status_applied(old(self)@, views(instances@), InstanceStatus::Active),
            final(self).next_id() == old(self).next_id(),
            final(self).well_formed(),
            forall|id: Seq<char>| #[trigger] old(self).retired(id) ==> final(self).retired(id),
    {
        self.apply_status(instances, InstanceStatus::Active);
        Ok(())
    }

    /// Marks `Inactive` each instance held whose id is one of `instances`;
    /// other ids, and terminated instances, are left as they are.
    fn stop_instances(&mut self, instances: &[Instance]) -> (r: CloudProviderResult<()>)
        ensures
            r is Ok,
            final(self)@ == status_applied(old(self)@, views(instances@), InstanceStatus::Inactive),
            final(self).next_id() == old(self).next_id(),
            final(self).well_formed(),
            forall|id: Seq<char>| #[trigger] old(self).retired(id) ==> final(self).retired(id),
    {
        self.apply_status(instances, InstanceStatus::Inactive);
        Ok(())
    }

    /// Appends a new active instance whose id is the number of instances
    /// created before it and whose address is that number in the loopback
    /// range. Fails once every loopback address has been given out.
    fn create_instance(&mut self, region: String) -> (r: CloudProviderResult<Instance>)
        ensures
            old(self).next_id() < MAX_INSTANCES ==> (r matches Ok(x) && x@ == fresh_instance(
                old(self).next_id(),
                region@,
                old(self).machine_specs(),
            ) && final(self)@ == old(self)@.push(x@)
                && final(self).next_id() == old(self).next_id() + 1),
            old(self).next_id() >= MAX_INSTANCES ==> (r matches Err(e)
                && e == CloudProviderError::Rejected(region) && final(self)@ == old(self)@
                && final(self).next_id() == old(self).next_id()),
            final(self).well_formed(),
            forall|id: Seq<char>| #[trigger] old(self).retired(id) ==> final(self).retired(id),
    {
        proof {
            use_type_invariant(&*self);
        }
        let n = self.next_id;
        if n >= MAX_INSTANCES {
            return Err(CloudProviderError::Rejected(region));
        }
        let x = Instance {
            id: decimal_string(n),
            region,
            main_ip: Ipv4Address { bits: LOOPBACK_BASE + n as u32 },
            tags: Vec::new(),
            specs: self.settings.specs.clone(),
            status: InstanceStatus::Active,
        };
        assert(x.tags.deep_view() =~= Seq::<Seq<char>>::empty());
        let ghost before = self@;
        proof {
            lemma_issued_below_lacks(before, n as nat);
            lemma_holds_push(before, x@);
        }
        let mut table: Vec<Instance> = Vec::new();
        std::mem::swap(&mut table, &mut self.instances);
        table.push(x.clone());
        assert(views(table@) =~= before.push(x@));
        proof {
            let t = before.push(x@);
            assert forall|i: int| 0 <= i < t.len() implies is_decimal_below(
                (#[trigger] t[i]).id,
                (n + 1) as nat,
            ) by {
                if i < before.len() {
                    assert(t[i] == before[i]);
                    let k = choose|k: nat| k < n && #[trigger] decimal(k) == before[i].id;
                    assert(decimal(k) == t[i].id);
                } else {
                    assert(decimal(n as nat) == t[i].id);
                }
            }
            assert forall|id: Seq<char>| #[trigger] old(self).retired(id) implies !holds_id(
                t,
                id,
            ) by {
                let k = choose|k: nat| k < n && #[trigger] decimal(k) == id;
                if decimal(n as nat) == id {
                    lemma_decimal_injective(k, n as nat);
                }
            }
        }
        self.next_id = n + 1;
        self.instances = table;
        Ok(x)
    }

    /// Removes every instance held whose id is that of `instance`; an unknown
    /// id is no error.
    fn delete_instance(&mut self, instance: Instance) -> (r: CloudProviderResult<()>)
        ensures
            r is Ok,
            final(self)@ == without_id(old(self)@, instance@.id),
            final(self).next_id() == old(self).next_id(),
            final(self).well_formed(),
            old(self).was_issued(instance@.id) ==> final(self).retired(instance@.id),
            forall|id: Seq<char>| #[trigger] old(self).retired(id) ==> final(self).retired(id),
    {
        proof {
            use_type_invariant(&*self);
        }
        let ghost before = self@;
        let mut kept: Vec<Instance> = Vec::new();
        let mut i: usize = 0;
        while i < self.instances.len()
            invariant
                i <= self.instances@.len(),
                self@ == before,
                views(kept@) == without_id(before.subrange(0, i as int), instance@.id),
            decreases self.instances@.len() - i,
        {
            let ghost done = before.subrange(0, i as int);
            assert(before.subrange(0, i + 1) =~= done.push(before[i as int]));
            proof {
                done.lemma_filter_push(before[i as int], |x: InstanceView| x.id != instance@.id);
            }
            if self.instances[i].id != instance.id {
                let ghost old_kept = kept@;
                kept.push(self.instances[i].clone());
                assert(views(kept@) =~= views(old_kept).push(before[i as int]));
            }
            i = i + 1;
        }
        assert(before.subrange(0, i as int) =~= before);
        proof {
            lemma_without_id_props(before, instance@.id, self.next_id());
        }
        self.instances = kept;
        Ok(())
    }

    /// Accepts every key: there is no machine to authorise it on.
    fn register_ssh_public_key(&mut self, public_key: String) -> (r: CloudProviderResult<()>)
        ensures
            r is Ok,
            final(self)@ == old(self)@,
            final(self).next_id() == old(self).next_id(),
    {
        Ok(())
    }

    /// No command: there is no machine to set up.
    fn instance_setup_commands(&self) -> (r: CloudProviderResult<Vec<String>>)
        ensures
            r matches Ok(v) && v@.len() == 0,
    {
        Ok(Vec::new())
    }
}

/// One more create extends the table of creates from a new client by the
/// instance for the next region: by induction, a new client after creates
/// for `regions` and nothing else holds `creates_from_empty(regions, specs)`.
pub proof fn lemma_create_step(regions: Seq<Seq<char>>, region: Seq<char>, specs: Seq<char>)
    ensures
        creates_from_empty(regions, specs).push(fresh_instance(regions.len(), region, specs))
            == creates_from_empty(regions.push(region), specs),
{
    assert(creates_from_empty(regions, specs).push(fresh_instance(regions.len(), region, specs))
        =~= creates_from_empty(regions.push(region), specs));
}

/// After `N` creates on a new client, with no other call, the `k`-th instance
/// has id `k` in decimal and the `k`-th loopback address, all are active, and
/// no two share an id or an address. Calls through a lock run one at a time,
/// so this holds of creates from many tasks too.
pub proof fn lemma_creates_distinct(regions: Seq<Seq<char>>, specs: Seq<char>)
    requires
        regions.len() <= MAX_INSTANCES,
    ensures
        forall|k: int|
            0 <= k < regions.len() ==> {
                &&& (#[trigger] creates_from_empty(regions, specs)[k]).id == decimal(k as nat)
                &&& creates_from_empty(regions, specs)[k].main_ip.bits == LOOPBACK_BASE + k
                &&& creates_from_empty(regions, specs)[k].status == InstanceStatus::Active
            },
        unique_ids(creates_from_empty(regions, specs)),
        forall|i: int, j: int|
            0 <= i < regions.len() && 0 <= j < regions.len() && i != j ==> (#[trigger] creates_from_empty(
                regions,
                specs,
            )[i]).main_ip != (#[trigger] creates_from_empty(regions, specs)[j]).main_ip,
{
    let t = creates_from_empty(regions, specs);
    assert forall|i: int, j: int|
        0 <= i < t.len() && 0 <= j < t.len() && i != j implies #[trigger] t[i].id
        != #[trigger] t[j].id by {
        if t[i].id == t[j].id {
            lemma_decimal_injective(i as nat, j as nat);
        }
    }
}

/// Starting an instance that is already active leaves it as it was.
pub proof fn lemma_start_keeps_active(table: Seq<InstanceView>, given: Seq<InstanceView>, k: int)
    requires
        0 <= k < table.len(),
        table[k].status == InstanceStatus::Active,
    ensures
        status_applied(table, given, InstanceStatus::Active)[k] == table[k],
{
}

/// Stopping and then starting instances that were all active restores the
/// table.
pub proof fn lemma_stop_then_start_restores(table: Seq<InstanceView>, given: Seq<InstanceView>)
    requires
        forall|k: int|
            0 <= k < table.len() && is_named(given, (#[trigger] table[k]).id) ==> table[k].status
                == InstanceStatus::Active,
    ensures
        status_applied(status_applied(table, given, InstanceStatus::Inactive), given, InstanceStatus::Active)
            == table,
{
    assert(status_applied(status_applied(table, given, InstanceStatus::Inactive), given, InstanceStatus::Active)
        =~= table);
}

/// A terminated instance stays terminated whatever is started or stopped.
pub proof fn lemma_terminated_is_absorbing(
    table: Seq<InstanceView>,
    given: Seq<InstanceView>,
    s: InstanceStatus,
    k: int,
)
    requires
        0 <= k < table.len(),
        table[k].status == InstanceStatus::Terminated,
    ensures
        status_applied(table, given, s)[k] == table[k],
{
}

/// Stopping instances of which none is held changes nothing.
pub proof fn lemma_stop_unknown_is_noop(table: Seq<InstanceView>, given: Seq<InstanceView>)
    requires
        forall|k: int| 0 <= k < table.len() ==> !is_named(given, #[trigger] table[k].id),
    ensures
        status_applied(table, given, InstanceStatus::Inactive) == table,
{
    assert(status_applied(table, given, InstanceStatus::Inactive) =~= table);
}

/// After a delete no instance held has the deleted id, and deleting the same
/// id again changes nothing.
pub proof fn lemma_deleted_id_absent(table: Seq<InstanceView>, id: Seq<char>)
    ensures
        !holds_id(without_id(table, id), id),
        without_id(without_id(table, id), id) == without_id(table, id),
{
    broadcast use vstd::seq_lib::group_filter_ensures;

    let kept = without_id(table, id);
    let pred = |x: InstanceView| x.id != id;
    lemma_without_id_props(table, id, 0);
    assert forall|k: int| 0 <= k < kept.len() implies pred(#[trigger] kept[k]) by {}
    lemma_filter_all_kept(kept, pred);
}

proof fn lemma_filter_all_kept(t: Seq<InstanceView>, pred: spec_fn(InstanceView) -> bool)
    requires
        forall|k: int| 0 <= k < t.len() ==> pred(#[trigger] t[k]),
    ensures
        t.filter(pred) == t,
    decreases t.len(),
{
    reveal(Seq::filter);
    if t.len() > 0 {
        lemma_filter_all_kept(t.drop_last(), pred);
        assert(t.drop_last().push(t.last()) =~= t);
    }
}

proof fn lemma_issued_below_lacks(t: Seq<InstanceView>, n: nat)
    requires
        issued_below(t, n),
    ensures
        !holds_id(t, decimal(n)),
{
    if holds_id(t, decimal(n)) {
        let i = choose|i: int| 0 <= i < t.len() && (#[trigger] t[i]).id == decimal(n);
        let k = choose|k: nat| k < n && #[trigger] decimal(k) == t[i].id;
        lemma_decimal_injective(k, n);
    }
}

proof fn lemma_holds_push(t: Seq<InstanceView>, x: InstanceView)
    ensures
        forall|id: Seq<char>| #[trigger] holds_id(t.push(x), id) == (holds_id(t, id) || x.id == id),
        !holds_id(t, x.id) && unique_ids(t) ==> unique_ids(t.push(x)),
{
    let u = t.push(x);
    assert forall|id: Seq<char>| #[trigger] holds_id(u, id) == (holds_id(t, id) || x.id == id) by {
        if holds_id(t, id) {
            let i = choose|i: int| 0 <= i < t.len() && (#[trigger] t[i]).id == id;
            assert(u[i] == t[i]);
        }
        if x.id == id {
            assert(u[t.len() as int] == x);
        }
        if holds_id(u, id) {
            let i = choose|i: int| 0 <= i < u.len() && (#[trigger] u[i]).id == id;
            if i < t.len() {
                assert(u[i] == t[i]);
            }
        }
    }
    if !holds_id(t, x.id) && unique_ids(t) {
        assert forall|i: int, j: int|
            0 <= i < u.len() && 0 <= j < u.len() && i != j implies #[trigger] u[i].id
            != #[trigger] u[j].id by {
            if i < t.len() && j < t.len() {
                assert(u[i] == t[i] && u[j] == t[j]);
            } else if i < t.len() {
                assert(u[i] == t[i]);
            } else {
                assert(u[j] == t[j]);
            }
        }
    }
}

proof fn lemma_status_applied_keeps_ids(t: Seq<InstanceView>, given: Seq<InstanceView>, s: InstanceStatus)
    ensures
        forall|id: Seq<char>| #[trigger] holds_id(status_applied(t, given, s), id) == holds_id(t, id),
        unique_ids(t) ==> unique_ids(status_applied(t, given, s)),
{
    let u = status_applied(t, given, s);
    assert forall|id: Seq<char>| #[trigger] holds_id(u, id) == holds_id(t, id) by {
        if holds_id(t, id) {
            let i = choose|i: int| 0 <= i < t.len() && (#[trigger] t[i]).id == id;
            assert(u[i].id == id);
        }
        if holds_id(u, id) {
            let i = choose|i: int| 0 <= i < u.len() && (#[trigger] u[i]).id == id;
            assert(t[i].id == id);
        }
    }
    if unique_ids(t) {
        assert forall|i: int, j: int|
            0 <= i < u.len() && 0 <= j < u.len() && i != j implies #[trigger] u[i].id
            != #[trigger] u[j].id by {
            assert(u[i].id == t[i].id && u[j].id == t[j].id);
        }
    }
}

proof fn lemma_status_applied_issued(
    t: Seq<InstanceView>,
    given: Seq<InstanceView>,
    s: InstanceStatus,
    n: nat,
)
    requires
        issued_below(t, n),
    ensures
        issued_below(status_applied(t, given, s), n),
{
    let u = status_applied(t, given, s);
    assert forall|i: int| 0 <= i < u.len() implies is_decimal_below((#[trigger] u[i]).id, n) by {
        assert(u[i].id == t[i].id);
    }
}

proof fn lemma_filter_unique(t: Seq<InstanceView>, pred: spec_fn(InstanceView) -> bool)
    requires
        unique_ids(t),
    ensures
        unique_ids(t.filter(pred)),
    decreases t.len(),
{
    broadcast use vstd::seq_lib::group_filter_ensures;

    reveal(Seq::filter);
    if t.len() > 0 {
        let d = t.drop_last();
        assert(unique_ids(d)) by {
            assert forall|i: int, j: int|
                0 <= i < d.len() && 0 <= j < d.len() && i != j implies #[trigger] d[i].id
                != #[trigger] d[j].id by {
                assert(d[i] == t[i] && d[j] == t[j]);
            }
        }
        lemma_filter_unique(d, pred);
        let f = d.filter(pred);
        if pred(t.last()) {
            let u = f.push(t.last());
            assert forall|i: int, j: int|
                0 <= i < u.len() && 0 <= j < u.len() && i != j implies #[trigger] u[i].id
                != #[trigger] u[j].id by {
                if i < f.len() && j < f.len() {
                    assert(u[i] == f[i] && u[j] == f[j]);
                } else {
                    let a = if i < f.len() { i } else { j };
                    assert(u[a] == f[a]);
                    d.lemma_filter_contains_rev(pred, f[a]);
                    let m = choose|m: int| 0 <= m < d.len() && d[m] == f[a];
                    assert(t[m] == d[m]);
                    assert(t[t.len() - 1] == t.last());
                }
            }
            assert(t.filter(pred) == u);
        }
    }
}

proof fn lemma_without_id_props(t: Seq<InstanceView>, id0: Seq<char>, n: nat)
    ensures
        forall|id: Seq<char>| #[trigger] holds_id(without_id(t, id0), id) == (holds_id(t, id) && id
            != id0),
        issued_below(t, n) ==> issued_below(without_id(t, id0), n),
        unique_ids(t) ==> unique_ids(without_id(t, id0)),
{
    broadcast use vstd::seq_lib::group_filter_ensures;

    let pred = |x: InstanceView| x.id != id0;
    let f = without_id(t, id0);
    assert forall|id: Seq<char>| #[trigger] holds_id(f, id) == (holds_id(t, id) && id != id0) by {
        if holds_id(t, id) && id != id0 {
            let i = choose|i: int| 0 <= i < t.len() && (#[trigger] t[i]).id == id;
            assert(pred(t[i]));
            assert(f.contains(t[i]));
        }
        if holds_id(f, id) {
            let i = choose|i: int| 0 <= i < f.len() && (#[trigger] f[i]).id == id;
            assert(pred(f[i]));
            t.lemma_filter_contains_rev(pred, f[i]);
        }
    }
    if issued_below(t, n) {
        assert forall|i: int| 0 <= i < f.len() implies is_decimal_below((#[trigger] f[i]).id, n) by {
            t.lemma_filter_contains_rev(pred, f[i]);
            let m = choose|m: int| 0 <= m < t.len() && t[m] == f[i];
            assert(is_decimal_below(t[m].id, n));
        }
    }
    if unique_ids(t) {
        lemma_filter_unique(t, pred);
    }
}

} // verus!
