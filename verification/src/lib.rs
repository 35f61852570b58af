//! Platform-independent core of an AccessKit adapter for the web: the
//! adapter's lifecycle, the registry of DOM elements that mirror the
//! accessibility tree, and the rules by which DOM events become action
//! requests.

pub mod registry;
pub mod adapter;
pub mod elements;
pub mod error;
pub mod walk;
pub mod attributes;
