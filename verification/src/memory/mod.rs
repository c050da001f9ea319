//! Physical-page allocation, address-space construction, and user ELF loading.
pub mod types;
pub mod phys;
pub mod allocator;
pub mod user;
pub mod loader;
pub mod paging;
pub mod kernel;
