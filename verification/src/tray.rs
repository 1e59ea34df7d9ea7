//! The icon in the tray, and where it leads.
use crate::config::Config;
use crate::text::{decimal, decimal_text, same_text};
use vstd::prelude::*;

verus! {

/// The address of the control panel.
pub open spec fn panel_address(port: u16) -> Seq<char> {
    "http://127.0.0.1:"@ + decimal(port as nat) + "/"@
}

/// The address of the control panel.
pub fn panel_url(port: u16) -> (r: String)
    ensures
        r@ == panel_address(port),
{
    let mut r = "http://127.0.0.1:".to_owned();
    r.append(decimal_text(port as u128).as_str());
    r.append("/");
    r
}

/// The line of the menu that says where the panel is.
pub fn listening_text(port: u16) -> (r: String)
    ensures
        r@ == "Listening on 127.0.0.1:"@ + decimal(port as nat),
{
    let mut r = "Listening on 127.0.0.1:".to_owned();
    r.append(decimal_text(port as u128).as_str());
    r
}

/// Whether the panel is opened at the start of the program: until the set-up is
/// complete.
pub fn opens_at_start(cfg: &Config) -> (r: bool)
    ensures
        r == !cfg.setup_complete,
{
    !cfg.setup_complete
}

/// What happens at the tray.
pub enum TrayEvent {
    /// The entry of the menu with that identifier was chosen.
    Menu { id: String },
    /// The icon was clicked twice.
    DoubleClick,
    /// Anything else.
    Other,
}

/// An event opens the panel if it is a double click or the choice of the entry
/// that stands for it.
pub open spec fn event_opens(event: TrayEvent, open_id: Seq<char>) -> bool {
    match event {
        TrayEvent::Menu { id } => id@ == open_id,
        TrayEvent::DoubleClick => true,
        TrayEvent::Other => false,
    }
}

/// Whether an event opens the panel.
pub fn opens_panel(event: &TrayEvent, open_id: &str) -> (r: bool)
    ensures
        r == event_opens(*event, open_id@),
{
    match event {
        TrayEvent::Menu { id } => same_text(id.as_str(), open_id),
        TrayEvent::DoubleClick => true,
        TrayEvent::Other => false,
    }
}

} // verus!
