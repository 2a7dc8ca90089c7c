//! A multi-tenant server-driven UI runtime: snapshot transport with a
//! prediction cache, a zero-allocation reducer core, DOM renderers for
//! HTML and native view code, a declarative data layer with stream
//! buffering and change coalescing, session management, and the
//! control-plane model that places apps on nodes.

pub mod auth;
pub mod buf;
pub mod caddy;
pub mod control;
pub mod data;
pub mod dom;
pub mod domtree;
pub mod parse;
pub mod platform;
pub mod render_html;
pub mod render_kotlin;
pub mod render_swift;
pub mod session;
pub mod state;
pub mod stream;
pub mod transport;
pub mod wire;

pub use buf::Buf;
pub use parse::{parse_action, Action};
pub use state::{AppState, Message};
pub use transport::Transport;
