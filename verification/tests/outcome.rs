use desktop_launcher::outcome::{exit_code, Failure, Outcome};

#[test]
fn cancelling_exits_with_zero() {
    assert_eq!(exit_code(Outcome::Cancelled), 0);
}

#[test]
fn launching_exits_with_zero() {
    assert_eq!(exit_code(Outcome::Launched), 0);
}

#[test]
fn every_failure_exits_with_one() {
    for failure in [
        Failure::HomeUnset,
        Failure::ChooserSpawn,
        Failure::ChooserWait,
        Failure::ChooserOutput,
        Failure::LaunchSpawn,
    ] {
        assert_eq!(exit_code(Outcome::Failed(failure)), 1);
    }
}
