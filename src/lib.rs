//! A uniform interface for provisioning and controlling compute instances
//! across cloud providers, with normalised instance states and a verified
//! in-memory reference client.

pub mod client;
pub mod decimal;
pub mod error;
pub mod instance;
pub mod status;
pub mod test_client;
