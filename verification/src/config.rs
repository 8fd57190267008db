//! The confirmation descriptor: what is being confirmed, and the read-only
//! projections (title, subtitle, detail) that the interactive surface shows.

use vstd::prelude::*;

use crate::text::push_decimal;
use crate::text::spec_decimal;

verus! {

/// Result of one confirmation request. Produced exactly once per request:
/// by the state machine on the surface side, or by the spawner on the caller
/// side when the surface could not be reached at all.
#[derive(Debug, Clone, Copy, PartialEq, Eq, Structural)]
pub enum DialogResult {
    /// User confirmed the action.
    Confirmed,
    /// User denied the action.
    Denied,
    /// Dialog timed out.
    Timeout,
    /// Error showing dialog.
    Error,
}

/// Type of confirmation dialog to show.
#[derive(Debug, Clone, PartialEq)]
pub enum DialogKind {
    /// Privilege escalation: a command line about to run with elevated rights.
    PrivilegeEscalation {
        /// Command requesting elevation.
        command: String,
    },
    /// Outbound network connection request.
    NetworkConnection {
        /// Process name requesting the connection.
        process: String,
        /// Path of the requesting process.
        process_path: String,
        /// Destination address.
        destination: String,
        /// Port number.
        port: u16,
        /// Protocol (TCP/UDP).
        protocol: String,
    },
    /// Caller-supplied free-form confirmation.
    Generic {
        /// Title text.
        title: String,
        /// Main message.
        message: String,
        /// Detail/command text.
        detail: String,
    },
}

/// Configuration for a dialog: the kind plus an optional timeout bound.
#[derive(Debug, Clone, PartialEq)]
pub struct DialogConfig {
    /// Kind of dialog to show.
    pub kind: DialogKind,
    /// Optional timeout in seconds (`None` = wait indefinitely).
    pub timeout_secs: Option<u32>,
}

/// Mathematical model of a [`DialogKind`]: the same shape over `Seq<char>`.
#[verifier::ext_equal]
pub enum KindView {
    PrivilegeEscalation { command: Seq<char> },
    NetworkConnection {
        process: Seq<char>,
        process_path: Seq<char>,
        destination: Seq<char>,
        port: u16,
        protocol: Seq<char>,
    },
    Generic { title: Seq<char>, message: Seq<char>, detail: Seq<char> },
}

/// Mathematical model of a [`DialogConfig`].
#[verifier::ext_equal]
pub struct ConfigView {
    pub kind: KindView,
    pub timeout_secs: Option<u32>,
}

impl View for DialogKind {
    type V = KindView;

    open spec fn view(&self) -> KindView {
        match self {
            DialogKind::PrivilegeEscalation { command } => KindView::PrivilegeEscalation {
                command: command.view(),
            },
            DialogKind::NetworkConnection { process, process_path, destination, port, protocol } => {
                KindView::NetworkConnection {
                    process: process.view(),
                    process_path: process_path.view(),
                    destination: destination.view(),
                    port: *port,
                    protocol: protocol.view(),
                }
            },
            DialogKind::Generic { title, message, detail } => KindView::Generic {
                title: title.view(),
                message: message.view(),
                detail: detail.view(),
            },
        }
    }
}

impl View for DialogConfig {
    type V = ConfigView;

    open spec fn view(&self) -> ConfigView {
        ConfigView { kind: self.kind.view(), timeout_secs: self.timeout_secs }
    }
}

/// Title shown by the surface: fixed per kind, caller-supplied for `Generic`.
pub open spec fn spec_title(kind: KindView) -> Seq<char> {
    match kind {
        KindView::PrivilegeEscalation { .. } => "Authorization Required"@,
        KindView::NetworkConnection { .. } => "Network Connection Request"@,
        KindView::Generic { title, .. } => title,
    }
}

/// Subtitle shown by the surface: fixed per kind, the caller's message for
/// `Generic`.
pub open spec fn spec_subtitle(kind: KindView) -> Seq<char> {
    match kind {
        KindView::PrivilegeEscalation { .. } => "An application wants to run as root:"@,
        KindView::NetworkConnection { .. } => "An application wants to connect to:"@,
        KindView::Generic { message, .. } => message,
    }
}

/// Detail line shown by the surface: the raw command, the formatted
/// connection line `"{process} \u{2192} {destination}:{port} ({protocol})"`,
/// or the caller's detail text.
pub open spec fn spec_detail(kind: KindView) -> Seq<char> {
    match kind {
        KindView::PrivilegeEscalation { command } => command,
        KindView::NetworkConnection { process, destination, port, protocol, .. } => {
            process + " → "@ + destination + ":"@ + spec_decimal(port as int) + " ("@ + protocol
                + ")"@
        },
        KindView::Generic { detail, .. } => detail,
    }
}

impl DialogConfig {
    /// Get the title for this dialog kind.
    pub fn title(&self) -> (r: &str)
        ensures
            r@ == spec_title(self@.kind),
    {
        match &self.kind {
            DialogKind::PrivilegeEscalation { .. } => "Authorization Required",
            DialogKind::NetworkConnection { .. } => "Network Connection Request",
            DialogKind::Generic { title, .. } => title.as_str(),
        }
    }

    /// Get the subtitle/description for this dialog kind.
    pub fn subtitle(&self) -> (r: &str)
        ensures
            r@ == spec_subtitle(self@.kind),
    {
        match &self.kind {
            DialogKind::PrivilegeEscalation { .. } => "An application wants to run as root:",
            DialogKind::NetworkConnection { .. } => "An application wants to connect to:",
            DialogKind::Generic { message, .. } => message.as_str(),
        }
    }

    /// Get the detail text (command, connection info, etc.).
    pub fn detail(&self) -> (r: String)
        ensures
            r@ == spec_detail(self@.kind),
    {
        match &self.kind {
            DialogKind::PrivilegeEscalation { command } => command.clone(),
            DialogKind::NetworkConnection { process, destination, port, protocol, .. } => {
                let mut out = String::new();
                out.append(process.as_str());
                out.append(" → ");
                out.append(destination.as_str());
                out.append(":");
                push_decimal(&mut out, *port);
                out.append(" (");
                out.append(protocol.as_str());
                out.append(")");
                proof {
                    assert(out@ =~= spec_detail(self@.kind));
                }
                out
            },
            DialogKind::Generic { detail, .. } => detail.clone(),
        }
    }
}

} // verus!
