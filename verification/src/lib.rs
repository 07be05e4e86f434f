//! An on-ledger profile registry: one uniquely named profile per identity,
//! with owner-only amendment of its bio and links.

pub mod address;
pub mod decode;
pub mod error;
pub mod instructions;
pub mod laws;
pub mod ledger;
pub mod model;
pub mod records;
pub mod schema;
pub mod validation;

pub use address::{profile_address, username_address};
pub use error::ProfileError;
pub use instructions::{create_profile, update_profile, CreateProfile, UpdateProfile};
pub use ledger::Ledger;
pub use records::{UserProfile, UsernameRegistry};
