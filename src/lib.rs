//! Markup-driven UI: BXML and HTML documents are parsed into a shared
//! intermediate representation, tags are resolved against a widget registry,
//! and a detached scene of entities is built together with the list of assets
//! it depends on.
pub mod markup;
pub mod xml;
pub mod bxml;
pub mod widget_registry;
pub mod scene;
pub mod html;
pub mod loader;
pub mod messages;
pub mod writer;
