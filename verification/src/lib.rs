//! Deterministic browser-agent building blocks: an arena DOM with selector
//! queries, DOM tree operations addressed by child-index paths, URL,
//! fetch, storage and timer models of the page bindings, navigation and
//! subresource rules, and the capability gate for a remote browser.

pub mod text;
pub mod value;
pub mod document;
pub mod selector;
pub mod dom_tree;
pub mod browser_dom;
pub mod events;
pub mod url;
pub mod fetch;
pub mod storage;
pub mod timers;
pub mod report;
pub mod origin;
pub mod call_args;
pub mod trace;
pub mod authority;
pub mod browserctl;
pub mod navigation;
pub mod resources;
pub mod agent;
pub mod bridge;
