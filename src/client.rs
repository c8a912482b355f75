//! The interface that every provider adapter implements.
use vstd::prelude::*;

use crate::error::CloudProviderResult;
use crate::instance::Instance;
use crate::status::InstanceStatus;

verus! {

/// A client of one cloud provider. The orchestrator holds one and drives it
/// through list, create, start, stop and delete, never looking at its type.
pub trait ServerProviderClient {
    /// The username used to connect to the instances.
    const USERNAME: &'static str;

    /// The machine shape that this client gives every instance it creates.
    spec fn machine_specs(&self) -> Seq<char>;

    /// The ids of the instances that the provider account holds.
    spec fn held_ids(&self) -> Set<Seq<char>>;

    /// A stable human-readable name for the client.
    fn identify(&self) -> String;

    /// List all existing instances (regardless of their status).
    fn list_instances(&self) -> CloudProviderResult<Vec<Instance>>;

    /// Start the specified instances.
    fn start_instances(&mut self, instances: &[Instance]) -> (r: CloudProviderResult<()>)
        ensures
            final(self).machine_specs() == old(self).machine_specs(),
            r is Ok ==> final(self).held_ids() == old(self).held_ids(),
    ;

    /// Halt/Stop the specified instances. We may still be billed for stopped instances.
    fn stop_instances(&mut self, instances: &[Instance]) -> (r: CloudProviderResult<()>)
        ensures
            final(self).machine_specs() == old(self).machine_specs(),
            r is Ok ==> final(self).held_ids() == old(self).held_ids(),
    ;

    /// Create an instance in a specific region. It comes back active, in that
    /// region, with this client's machine specs, and it is the one instance
    /// that the account gains.
    fn create_instance(&mut self, region: String) -> (r: CloudProviderResult<Instance>)
        ensures
            final(self).machine_specs() == old(self).machine_specs(),
            r matches Ok(x) ==> {
                &&& x@.status == InstanceStatus::Active
                &&& x@.region == region@
                &&& x@.specs == old(self).machine_specs()
                &&& !old(self).held_ids().contains(x@.id)
                &&& final(self).held_ids() == old(self).held_ids().insert(x@.id)
            },
    ;

    /// Delete a specific instance. Calling this function ensures we are no longer billed for
    /// the specified instance.
    fn delete_instance(&mut self, instance: Instance) -> (r: CloudProviderResult<()>)
        ensures
            final(self).machine_specs() == old(self).machine_specs(),
            r is Ok ==> final(self).held_ids() == old(self).held_ids().remove(instance@.id),
    ;

    /// Authorize the provided ssh public key to access machines. Registering a
    /// key twice is no error.
    fn register_ssh_public_key(&mut self, public_key: String) -> (r: CloudProviderResult<()>)
        ensures
            final(self).machine_specs() == old(self).machine_specs(),
            r is Ok ==> final(self).held_ids() == old(self).held_ids(),
    ;

    /// Return provider-specific commands to setup the instance, in the order
    /// in which they are to run.
    fn instance_setup_commands(&self) -> CloudProviderResult<Vec<String>>;
}

} // verus!
