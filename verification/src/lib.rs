//! BetWall keeps gambling sites shut: it watches the address bars of the open
//! browsers and closes a tab whose address matches a blocked pattern. Turning
//! a block off takes a one-time code.
//!
//! This library holds what the program decides: the configuration and its
//! patterns, the one-time codes, the control panel's requests and pages, the
//! watch loop and the update status. Every function here is verified against
//! its contract; the sockets, windows and files around it are not part of it.
//! The modules that end in `_laws` state what the operations are for, over all
//! inputs, and `guarantees` states what holds of them together.
pub mod autostart;
pub mod config;
pub mod config_laws;
pub mod defaults;
pub mod edit;
pub mod edit_laws;
pub mod form;
pub mod guarantees;
pub mod html;
pub mod html_laws;
pub mod http;
pub mod http_laws;
pub mod install;
pub mod monitor;
pub mod monitor_laws;
pub mod paths;
pub mod percent;
pub mod server;
pub mod server_laws;
pub mod shown;
pub mod system_laws;
pub mod templates;
pub mod text;
pub mod text_laws;
pub mod totp;
pub mod totp_laws;
pub mod tray;
pub mod unicode;
pub mod updater;
pub mod updater_laws;
