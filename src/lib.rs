pub mod types;
pub mod store;
pub mod orders;
pub mod registry;
pub mod pallet;
pub mod laws;
