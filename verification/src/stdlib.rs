//! Bindings over standard types of the runtime.
//!
//! They use the builders, handles and matchers of this library as any other
//! binding would.
pub mod list;
pub mod option;
pub mod pervasives;
