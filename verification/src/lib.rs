//! A safety layer between native code and a managed runtime whose heap is
//! ruled by a precise garbage collector.
//!
//! Native code may hold a value of the runtime only while the collector can
//! see it through a registered root. The modules build that discipline up
//! from the tagged word ([`raw`]), over the heap and root chain as the
//! collector sees them ([`heap`]) and a stand-in for the runtime itself
//! ([`runtime`]), to rooted handles and typed builders ([`mem`], [`macros`]),
//! shallow matching ([`matching`]) and bindings for two standard types
//! ([`stdlib`]). [`derive`] plans the bindings of user-defined variant types.
#![allow(non_snake_case)]
#![allow(non_camel_case_types)]

pub mod raw;
pub mod heap;
pub mod runtime;
pub mod mem;
pub mod macros;
pub mod matching;
pub mod stdlib;
pub mod derive;
