pub mod contribution;
pub mod contract;
pub mod error;
pub mod events;
pub mod group;
pub mod payout;
pub mod principal;
pub mod status;
pub mod storage;

pub use contribution::ContributionRecord;
pub use contract::{EngineModel, StellarSaveContract};
pub use error::{ContractResult, ErrorCategory, StellarSaveError};
pub use events::{Event, EventEmitter, EventKind};
pub use group::{Group, GroupModel};
pub use payout::PayoutRecord;
pub use principal::Principal;
pub use status::{GroupStatus, StatusError};
pub use storage::{StorageKey, StorageKeyBuilder};
