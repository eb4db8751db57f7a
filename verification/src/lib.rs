//! Core of a small static blog site: an immutable post store, a filter
//! engine over post metadata, a query-string codec for filter
//! specifications, a markdown-to-styled-HTML renderer, and the view
//! assembly that a routing/templating layer consumes.

pub mod codec;
pub mod date;
pub mod filter;
pub mod render;
pub mod store;
pub mod text;
pub mod view;
