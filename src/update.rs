//! The firmware update procedure as a state machine.
//!
//! The decisions of an update live here; the caller performs each [`Action`]
//! (asking the operator, sending a command, sleeping and polling for the
//! bootloader, streaming the image) and reports what happened as an [`Event`].
use vstd::prelude::*;

use crate::error::Error;
use crate::firmware::Version;

verus! {

/// Where an update stands.
#[derive(Debug, PartialEq, Eq)]
pub enum Phase {
    /// Waiting for the operator to confirm a major version bump.
    AwaitingConfirmation,
    /// The enter-maintenance command is out; the device waits for a touch.
    EnteringBootloader,
    /// Polling for the device in bootloader mode, with attempts left.
    Polling(u32),
    /// The image is being streamed to the bootloader.
    Flashing,
    /// The reboot command is out.
    Rebooting,
    /// The update is over, successfully or not.
    Finished,
}

/// What the caller does next.
#[derive(Debug, PartialEq, Eq)]
pub enum Action {
    /// Ask the operator to confirm a major version bump.
    AskConfirmation,
    /// Send the enter-maintenance command to the device in regular mode.
    SendMaintenance,
    /// Sleep a short interval, then look for the device's UUID in bootloader mode.
    WaitAndPoll,
    /// Stream the image to the bootloader.
    Flash,
    /// Send the reboot command to the bootloader.
    SendReboot,
    /// Stop, with the procedure's result.
    Finish(Result<(), Error>),
}

/// What happened when the caller performed an action.
#[derive(Debug, PartialEq, Eq)]
pub enum Event {
    /// The operator's answer.
    Confirmed(bool),
    /// The enter-maintenance command returned (a dropped connection included).
    MaintenanceSent(Result<(), Error>),
    /// Whether the bootloader with the device's UUID was found.
    Polled(bool),
    /// The image was streamed.
    Flashed,
    /// The reboot command returned.
    RebootSent(Result<(), Error>),
}

/// Whether the operator must confirm: the image's major version is above the device's.
pub open spec fn needs_confirmation(device: Version, firmware: Version, skip: bool) -> bool {
    !skip && firmware.major > device.major
}

/// The first step: from regular mode (`Some` device version) or from the
/// bootloader (`None`).
pub open spec fn start_spec(device: Option<Version>, firmware: Version, skip: bool, attempts: u32) -> (
    Phase,
    Action,
) {
    match device {
        None => (Phase::Flashing, Action::Flash),
        Some(v) => if needs_confirmation(v, firmware, skip) {
            (Phase::AwaitingConfirmation, Action::AskConfirmation)
        } else {
            (Phase::EnteringBootloader, Action::SendMaintenance)
        },
    }
}

/// One step of the procedure. An event that does not answer the pending
/// action, or any event after the end, ends it with [`Error::InvalidInput`].
pub open spec fn step_spec(phase: Phase, event: Event, attempts: u32) -> (Phase, Action) {
    match (phase, event) {
        (Phase::AwaitingConfirmation, Event::Confirmed(true)) => (
            Phase::EnteringBootloader,
            Action::SendMaintenance,
        ),
        (Phase::AwaitingConfirmation, Event::Confirmed(false)) => (
            Phase::Finished,
            Action::Finish(Err(Error::UserAborted)),
        ),
        (Phase::EnteringBootloader, Event::MaintenanceSent(_)) => if attempts == 0 {
            (Phase::Finished, Action::Finish(Err(Error::Timeout)))
        } else {
            (Phase::Polling(attempts), Action::WaitAndPoll)
        },
        (Phase::Polling(_), Event::Polled(true)) => (Phase::Flashing, Action::Flash),
        (Phase::Polling(n), Event::Polled(false)) => if n <= 1 {
            (Phase::Finished, Action::Finish(Err(Error::Timeout)))
        } else {
            (Phase::Polling((n - 1) as u32), Action::WaitAndPoll)
        },
        (Phase::Flashing, Event::Flashed) => (Phase::Rebooting, Action::SendReboot),
        (Phase::Rebooting, Event::RebootSent(result)) => (Phase::Finished, Action::Finish(result)),
        _ => (
            Phase::Finished,
            Action::Finish(Err(Error::InvalidInput)),
        ),
    }
}

/// The state of one device's update.
pub struct UpdatePlan {
    phase: Phase,
    attempts: u32,
}

impl UpdatePlan {
    pub closed spec fn phase_spec(&self) -> Phase {
        self.phase
    }

    pub closed spec fn attempts_spec(&self) -> u32 {
        self.attempts
    }

    /// Starts an update of a device running `device` (or already in its
    /// bootloader, `None`) to an image declaring `firmware`, polling for the
    /// bootloader at most `attempts` times.
    pub fn start(device: Option<Version>, firmware: Version, skip_major_confirmation: bool, attempts: u32) -> (r: (UpdatePlan, Action))
        ensures
            (r.0.phase_spec(), r.1) == start_spec(device, firmware, skip_major_confirmation, attempts),
            r.0.attempts_spec() == attempts,
    {
        match device {
            None => (UpdatePlan { phase: Phase::Flashing, attempts }, Action::Flash),
            Some(v) => if !skip_major_confirmation && firmware.major > v.major {
                (UpdatePlan { phase: Phase::AwaitingConfirmation, attempts }, Action::AskConfirmation)
            } else {
                (UpdatePlan { phase: Phase::EnteringBootloader, attempts }, Action::SendMaintenance)
            },
        }
    }

    /// The current phase.
    pub fn phase(&self) -> (r: &Phase)
        ensures
            *r == self.phase_spec(),
    {
        &self.phase
    }

    /// Advances on what happened.
    pub fn next(&mut self, event: Event) -> (r: Action)
        ensures
            (final(self).phase_spec(), r) == step_spec(old(self).phase_spec(), event, old(self).attempts_spec()),
            final(self).attempts_spec() == old(self).attempts_spec(),
    {
        let (phase, action) = match (&self.phase, event) {
            (Phase::AwaitingConfirmation, Event::Confirmed(true)) => (
                Phase::EnteringBootloader,
                Action::SendMaintenance,
            ),
            (Phase::AwaitingConfirmation, Event::Confirmed(false)) => (
                Phase::Finished,
                Action::Finish(Err(Error::UserAborted)),
            ),
            (Phase::EnteringBootloader, Event::MaintenanceSent(_)) => if self.attempts == 0 {
                (Phase::Finished, Action::Finish(Err(Error::Timeout)))
            } else {
                (Phase::Polling(self.attempts), Action::WaitAndPoll)
            },
            (Phase::Polling(_), Event::Polled(true)) => (Phase::Flashing, Action::Flash),
            (Phase::Polling(n), Event::Polled(false)) => if *n <= 1 {
                (Phase::Finished, Action::Finish(Err(Error::Timeout)))
            } else {
                (Phase::Polling(*n - 1), Action::WaitAndPoll)
            },
            (Phase::Flashing, Event::Flashed) => (Phase::Rebooting, Action::SendReboot),
            (Phase::Rebooting, Event::RebootSent(result)) => (Phase::Finished, Action::Finish(result)),
            _ => (
                Phase::Finished,
                Action::Finish(Err(Error::InvalidInput)),
            ),
        };
        self.phase = phase;
        action
    }
}

/// The operator is asked at most once: only the first step of an update
/// whose image raises the major version (without the confirmation skipped)
/// asks, and no later step ever does.
pub proof fn lemma_confirmation_once(
    device: Option<Version>,
    firmware: Version,
    skip: bool,
    attempts: u32,
    phase: Phase,
    event: Event,
    n: u32,
)
    ensures
        (start_spec(device, firmware, skip, attempts).1 == Action::AskConfirmation) <==> (
        device matches Some(v) && needs_confirmation(v, firmware, skip)),
        step_spec(phase, event, n).1 != Action::AskConfirmation,
{
}

} // verus!
