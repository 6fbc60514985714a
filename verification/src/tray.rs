//! The tray menu: what each item does.

use vstd::prelude::*;
use crate::text::{chars_eq, chars_of};

verus! {

/// What a tray menu item does.
#[derive(Clone, Copy, PartialEq, Eq, Structural, Debug)]
pub enum TrayAction {
    /// `show`: show and focus the main window.
    ShowWindow,
    /// `pair`: show the main window and send the UI to the pairing page.
    ShowPairing,
    /// `rotate`: tell the UI to rotate the API key.
    RotateKey,
    /// `reinstall`: tell the UI to reinstall the EA.
    ReinstallEa,
    /// `quit`: exit the app.
    Quit,
    /// Any other item (the separator): nothing.
    Nothing,
}

fn is(id: &[char], name: &str) -> (r: bool)
    ensures
        r == (id@ == name@),
{
    let n = chars_of(name);
    chars_eq(id, n.as_slice())
}

/// The action of the menu item with this id.
pub fn tray_action(id: &str) -> (r: TrayAction)
    ensures
        r == (if id@ == "show"@ {
            TrayAction::ShowWindow
        } else if id@ == "pair"@ {
            TrayAction::ShowPairing
        } else if id@ == "rotate"@ {
            TrayAction::RotateKey
        } else if id@ == "reinstall"@ {
            TrayAction::ReinstallEa
        } else if id@ == "quit"@ {
            TrayAction::Quit
        } else {
            TrayAction::Nothing
        }),
{
    let c = chars_of(id);
    if is(c.as_slice(), "show") {
        TrayAction::ShowWindow
    } else if is(c.as_slice(), "pair") {
        TrayAction::ShowPairing
    } else if is(c.as_slice(), "rotate") {
        TrayAction::RotateKey
    } else if is(c.as_slice(), "reinstall") {
        TrayAction::ReinstallEa
    } else if is(c.as_slice(), "quit") {
        TrayAction::Quit
    } else {
        TrayAction::Nothing
    }
}

} // verus!
