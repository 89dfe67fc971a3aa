//! Autostart through the desktop portal (available inside Flatpak only),
//! and the game-mode signal from a running GameMode daemon.

use vstd::prelude::*;
use crate::text::{owned, push_str};

verus! {

/// Environment variable that names the Flatpak application.
pub const FLATPAK_ID_ENV: &'static str = "FLATPAK_ID";

/// Why an autostart request failed.
#[derive(Debug, Clone, PartialEq, Eq)]
pub enum AutostartError {
    /// Autostart is not offered here.
    FailedPrecondition(String),
    /// The portal call failed or answered otherwise than asked.
    PortalCallFailed(String),
}

/// Autostart is offered only inside Flatpak: when `FLATPAK_ID` is set and
/// not empty.
pub fn ensure_flatpak(flatpak_id: Option<&str>) -> (r: Result<(), AutostartError>)
    ensures
        r is Ok <==> (flatpak_id matches Some(id) && id@.len() > 0),
        r matches Err(AutostartError::FailedPrecondition(m)) ==> m@ == "autostart is only available inside Flatpak"@,
        !(r matches Err(AutostartError::PortalCallFailed(_))),
{
    let available = match flatpak_id {
        Some(id) => crate::text::chars_of(id).len() > 0,
        None => false,
    };
    if available {
        Ok(())
    } else {
        Err(AutostartError::FailedPrecondition(owned("autostart is only available inside Flatpak")))
    }
}

pub open spec fn bool_text(b: bool) -> Seq<char> {
    if b {
        "true"@
    } else {
        "false"@
    }
}

/// The outcome of asking the portal for autostart `requested`, given what
/// it answered (`Ok` with the autostart state it reports, or its error):
/// the new setting to persist, or a failure that leaves the setting as it
/// was.
pub fn autostart_portal_result(requested: bool, response: Result<bool, AutostartError>) -> (r: Result<
    bool,
    AutostartError,
>)
    ensures
        match response {
            Err(e) => r == Err::<bool, AutostartError>(e),
            Ok(granted) => if granted == requested {
                r == Ok::<bool, AutostartError>(requested)
            } else {
                (r matches Err(AutostartError::PortalCallFailed(m)) && m@ == "RequestBackground returned autostart="@
                    + bool_text(granted) + " for requested autostart="@ + bool_text(requested))
            },
        },
{
    match response {
        Err(e) => Err(e),
        Ok(granted) => {
            if granted == requested {
                Ok(requested)
            } else {
                let mut m = owned("RequestBackground returned autostart=");
                push_str(&mut m, if granted { "true" } else { "false" });
                push_str(&mut m, " for requested autostart=");
                push_str(&mut m, if requested { "true" } else { "false" });
                Err(AutostartError::PortalCallFailed(m))
            }
        },
    }
}

/// Game mode is on while GameMode has at least one client.
pub fn gamemode_active(client_count: i32) -> (r: bool)
    ensures
        r == (client_count > 0),
{
    client_count > 0
}

} // verus!
