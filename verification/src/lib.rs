//! Verified core of the content process of a web engine: the DOM and HTML
//! algorithms that decide what happens, separated from the JavaScript engine,
//! the IPC plumbing and the rendering back ends that carry the decisions out.

pub mod text;
pub mod microsyntaxes;
pub mod channel_messaging;
pub mod identifiers;
pub mod lookup;
pub mod timers;
pub mod global_scope;
pub mod url;
pub mod navigation;
pub mod keybinding;
pub mod dom_exception;
pub mod dom;
pub mod tree_shape;
pub mod event;
pub mod abort;
pub mod fetch;
pub mod fetch_api;
pub mod media;
pub mod canvas;
pub mod worker_agent;
pub mod style_map;
pub mod html_element;
pub mod settings;
pub mod test_widget;
pub mod document;
pub mod iframe_runtime;
pub mod elements;
