//! The tools that clients call: their arguments, the rules on them, and what
//! each tool decides.

pub mod completeness;
pub mod get_profile;
pub mod record_feedback;
pub mod reflect_status;
pub mod reflect_summary;
pub mod search;
pub mod store;
pub mod supersede;
pub mod survey;
pub mod validate;

pub use get_profile::{GetProfileArgs, GetProfileOutput};
pub use reflect_status::{ReflectStatusArgs, ReflectStatusOutput};
pub use search::AppliesTo;
pub use store::{StoreArgs, StoreOutput};
pub use supersede::{SupersedeArgs, SupersedeOutput};
pub use validate::DerivationInput;
