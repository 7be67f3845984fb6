//! Out-of-band turn control: the **address** of a controllable turn.
//!
//! A controlled run opens a unix socket for its lifetime, and a separate
//! `oneharness interrupt` process redirects the in-flight turn through it. This
//! crate only asks for a controllable turn and reports where the turn it got is
//! addressed; it never interrupts anything itself.

use vstd::prelude::*;

verus! {

/// Where an `oneharness interrupt` process addresses the controllable turn the
/// agent side opened: exactly the three values `interrupt` takes
/// (`--session`, `--session-dir`, `--cwd`), read back from the run report.
#[derive(Debug, Clone, PartialEq, Eq)]
pub struct ControlAddress {
    /// The caller-owned session handle the turn is addressed by, as it was
    /// sanitized and stored (`interrupt --session`).
    pub session: String,
    /// The session store directory holding both the handle and its
    /// `control/<session>.sock` (`interrupt --session-dir`).
    pub session_dir: String,
    /// The working directory the turn runs in (`interrupt --cwd`).
    pub cwd: String,
}

/// What can be said about out-of-band turn control for a finished run.
///
/// Three states, not an `Option`: having asked and been refused is a different
/// fact from never having asked.
#[derive(Debug, Clone, PartialEq, Eq)]
pub enum ControlOutcome {
    /// No socket was asked for and nothing changed about the run.
    NotRequested,
    /// A controllable turn was opened, addressed here.
    Open(ControlAddress),
    /// Control was asked for and could not be provided; the reason says why. The
    /// run itself went ahead without it.
    Unavailable(String),
}

/// What a [`ControlOutcome`] says.
pub enum ControlView {
    NotRequested,
    Open { session: Seq<char>, session_dir: Seq<char>, cwd: Seq<char> },
    Unavailable(Seq<char>),
}

impl View for ControlOutcome {
    type V = ControlView;

    open spec fn view(&self) -> ControlView {
        match self {
            ControlOutcome::NotRequested => ControlView::NotRequested,
            ControlOutcome::Open(address) => ControlView::Open {
                session: address.session@,
                session_dir: address.session_dir@,
                cwd: address.cwd@,
            },
            ControlOutcome::Unavailable(reason) => ControlView::Unavailable(reason@),
        }
    }
}

impl Default for ControlOutcome {
    fn default() -> (outcome: Self)
        ensures
            outcome is NotRequested,
    {
        ControlOutcome::NotRequested
    }
}

impl ControlOutcome {
    /// The address, when a controllable turn was actually opened.
    #[must_use]
    pub fn address(&self) -> (address: Option<&ControlAddress>)
        ensures
            match *self {
                ControlOutcome::Open(open) => address == Some(&open),
                _ => address is None,
            },
    {
        match self {
            ControlOutcome::Open(address) => Some(address),
            ControlOutcome::NotRequested | ControlOutcome::Unavailable(_) => None,
        }
    }

    /// Why an *asked-for* control channel is missing, when one is.
    #[must_use]
    pub fn unavailable_reason(&self) -> (reason: Option<&str>)
        ensures
            match *self {
                ControlOutcome::Unavailable(why) => reason is Some && reason->0@ == why@,
                _ => reason is None,
            },
    {
        match self {
            ControlOutcome::Unavailable(reason) => Some(reason.as_str()),
            ControlOutcome::NotRequested | ControlOutcome::Open(_) => None,
        }
    }
}

} // verus!
