use onejudge::{ControlAddress, ControlOutcome};

fn address() -> ControlAddress {
    ControlAddress {
        session: "run-42-skill".into(),
        session_dir: "/state/oneharness/sessions".into(),
        cwd: "/work/repo".into(),
    }
}

#[test]
fn the_three_states_are_distinguishable() {
    assert_eq!(ControlOutcome::default(), ControlOutcome::NotRequested);
    assert!(ControlOutcome::NotRequested.address().is_none());
    assert!(ControlOutcome::NotRequested.unavailable_reason().is_none());

    let open = ControlOutcome::Open(address());
    assert_eq!(open.address(), Some(&address()));
    assert!(open.unavailable_reason().is_none());

    let refused = ControlOutcome::Unavailable("no control mechanism".into());
    assert!(refused.address().is_none());
    assert_eq!(refused.unavailable_reason(), Some("no control mechanism"));
}
