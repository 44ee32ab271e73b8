pub mod announce;
pub mod ansi_emit;
pub mod app;
pub mod auth;
pub mod backend;
pub mod capability;
pub mod capture;
pub mod client_session;
pub mod config;
pub mod connection;
pub mod dispatch;
pub mod events;
pub mod layout;
pub mod layout_laws;
pub mod list;
pub mod liveness;
pub mod messages;
pub mod pane;
pub mod pane_laws;
pub mod persist;
pub mod protocol;
pub mod ratios;
pub mod session;
pub mod session_laws;
pub mod terminal;
pub mod text;
