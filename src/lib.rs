//! Owning handles on the allocations of an external, manually reference
//! counted object system, and the two queries built on them: whether this
//! process holds the accessibility permission, and which running processes
//! carry a given identifier.
//!
//! An [`Rc`] stands for one unit of its allocation's external count. Handles
//! are made from raw references through [`ManageWithRc`], which tells apart a
//! reference the caller owns from one it borrows, copied with
//! [`Rc::clone_in`] and given back with [`Rc::release`]. All of it is stated
//! over [`ObjectSystem`], whose model maps each live reference to its count;
//! [`ObjectTable`] is an object system held in memory.

pub mod acquire;
pub mod error;
pub mod handle;
pub mod laws;
pub mod queries;
pub mod system;
pub mod table;

pub use acquire::ManageWithRc;
pub use error::WiseError;
pub use handle::{Dictionary, Object, Rc, Retainable};
pub use queries::{
    has_accessibility_permissions, permission_with_options, retain_elements,
    running_apps_with_bundle_id,
};
pub use system::ObjectSystem;
pub use table::ObjectTable;
