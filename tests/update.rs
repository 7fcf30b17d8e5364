use solo2::error::Error;
use solo2::firmware::Version;
use solo2::update::{Action, Event, Phase, UpdatePlan};

fn v(major: u16) -> Version {
    Version { major, minor: 0, patch: 0 }
}

/// Runs a plan against scripted outcomes, counting confirmation prompts.
fn run(device: Option<Version>, firmware: Version, skip: bool, confirm: bool, found_after: u32) -> (Action, u32) {
    let (mut plan, mut action) = UpdatePlan::start(device, firmware, skip, 3);
    let mut prompts = 0;
    let mut polls = 0;
    loop {
        let event = match action {
            Action::AskConfirmation => {
                prompts += 1;
                Event::Confirmed(confirm)
            }
            Action::SendMaintenance => Event::MaintenanceSent(Err(Error::Io)),
            Action::WaitAndPoll => {
                polls += 1;
                Event::Polled(polls >= found_after)
            }
            Action::Flash => Event::Flashed,
            Action::SendReboot => Event::RebootSent(Ok(())),
            Action::Finish(_) => return (action, prompts),
        };
        action = plan.next(event);
    }
}

#[test]
fn major_bump_asks_once() {
    assert_eq!(run(Some(v(1)), v(2), false, true, 1), (Action::Finish(Ok(())), 1));
}

#[test]
fn same_or_lower_major_does_not_ask() {
    assert_eq!(run(Some(v(2)), v(2), false, true, 1), (Action::Finish(Ok(())), 0));
    assert_eq!(run(Some(v(3)), v(2), false, true, 1), (Action::Finish(Ok(())), 0));
}

#[test]
fn skipped_confirmation_does_not_ask() {
    assert_eq!(run(Some(v(1)), v(2), true, false, 1), (Action::Finish(Ok(())), 0));
}

#[test]
fn declining_aborts_before_any_command() {
    let (mut plan, action) = UpdatePlan::start(Some(v(1)), v(2), false, 3);
    assert_eq!(action, Action::AskConfirmation);
    assert_eq!(plan.next(Event::Confirmed(false)), Action::Finish(Err(Error::UserAborted)));
    assert_eq!(*plan.phase(), Phase::Finished);
}

#[test]
fn polling_is_bounded() {
    assert_eq!(run(Some(v(1)), v(1), false, true, 3), (Action::Finish(Ok(())), 0));
    assert_eq!(run(Some(v(1)), v(1), false, true, 4), (Action::Finish(Err(Error::Timeout)), 0));
}

#[test]
fn bootloader_mode_flashes_directly() {
    let (mut plan, action) = UpdatePlan::start(None, v(9), false, 3);
    assert_eq!(action, Action::Flash);
    assert_eq!(plan.next(Event::Flashed), Action::SendReboot);
    assert_eq!(plan.next(Event::RebootSent(Err(Error::Io))), Action::Finish(Err(Error::Io)));
}

#[test]
fn out_of_order_event_is_refused() {
    let (mut plan, _) = UpdatePlan::start(Some(v(1)), v(1), false, 3);
    assert_eq!(plan.next(Event::Flashed), Action::Finish(Err(Error::InvalidInput)));
}
