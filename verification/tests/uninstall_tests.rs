use px::cmdline::Invocation;
use px::errors::IoErrorKind;
use px::registry::UninstallEntry;
use px::uninstall::{un, UnAction, UnEvent, UnPhase};

fn entry(display: &str, cmd: &str) -> UninstallEntry {
    UninstallEntry { display_name: Some(display.to_string()), quiet_uninstall_string: None, uninstall_string: Some(cmd.to_string()) }
}

fn names(v: &[&str]) -> Vec<String> {
    v.iter().map(|s| s.to_string()).collect()
}

fn start_of(a: UnAction) -> Invocation {
    match a {
        UnAction::Start(inv) => inv,
        other => panic!("expected a start, got {:?}", other),
    }
}

fn done_of(a: UnAction) -> Result<(), String> {
    match a {
        UnAction::Done(r) => r,
        other => panic!("expected the end, got {:?}", other),
    }
}

#[test]
fn joined_name_uninstalled_alone() {
    let (mut u, a) = un(&names(&["  Visual  ", "Studio", " Code", "   "]));
    assert!(matches!(a, UnAction::ReadRegistry));
    assert_eq!(u.phase(), UnPhase::JoinedLookup);
    let es = vec![entry("Visual Studio Code", "C:\\vs\\unins.exe /S"), entry("Visual", "v.exe")];
    let inv = start_of(u.step(UnEvent::Registry(es)));
    assert_eq!(inv.program, "C:\\vs\\unins.exe");
    assert_eq!(inv.args, names(&["/S"]));
    assert_eq!(done_of(u.step(UnEvent::Exited(Ok(true)))), Ok(()));
    assert_eq!(u.phase(), UnPhase::Finished);
}

#[test]
fn joined_name_failure_message() {
    let (mut u, _) = un(&names(&["Visual", "Studio", "Code"]));
    let es = vec![entry("visual studio code", "unins.exe")];
    start_of(u.step(UnEvent::Registry(es)));
    assert_eq!(done_of(u.step(UnEvent::Exited(Ok(false)))), Err("un: Visual Studio Code: uninstall command failed".to_string()));
}

#[test]
fn names_one_by_one_when_no_joined_match() {
    let (mut u, _) = un(&names(&["a", "b"]));
    let es = vec![entry("alpha", "alpha.exe"), entry("beta", "beta.bat")];
    let a = u.step(UnEvent::Registry(Vec::new()));
    assert!(matches!(a, UnAction::ReadRegistry));
    assert_eq!(u.phase(), UnPhase::NameLookup);
    let inv = start_of(u.step(UnEvent::Registry(es)));
    assert_eq!(inv.program, "alpha.exe");
    assert!(matches!(u.step(UnEvent::Exited(Ok(true))), UnAction::ReadRegistry));
    let es = vec![entry("beta", "beta.bat")];
    let inv = start_of(u.step(UnEvent::Registry(es)));
    assert_eq!(inv.program, "cmd");
    assert_eq!(inv.args, names(&["/S", "/C", "\"beta.bat\""]));
    assert_eq!(done_of(u.step(UnEvent::Exited(Ok(true)))), Ok(()));
}

#[test]
fn first_failure_stops() {
    let (mut u, _) = un(&names(&["a", "b"]));
    u.step(UnEvent::Registry(Vec::new()));
    start_of(u.step(UnEvent::Registry(vec![entry("a", "a.exe")])));
    assert_eq!(done_of(u.step(UnEvent::Exited(Err(IoErrorKind::PermissionDenied)))), Err("un: a: permission denied".to_string()));
}

#[test]
fn winget_fallback() {
    let (mut u, a) = un(&names(&["foo"]));
    assert!(matches!(a, UnAction::ReadRegistry));
    assert_eq!(u.phase(), UnPhase::NameLookup);
    let inv = start_of(u.step(UnEvent::Registry(Vec::new())));
    assert_eq!(inv.program, "winget");
    assert_eq!(inv.args, names(&["uninstall", "--exact", "--silent", "--accept-source-agreements", "--accept-package-agreements", "foo"]));
    assert_eq!(done_of(u.step(UnEvent::Exited(Ok(true)))), Ok(()));
}

#[test]
fn winget_missing_or_failing() {
    let (mut u, _) = un(&names(&["foo"]));
    start_of(u.step(UnEvent::Registry(Vec::new())));
    assert_eq!(done_of(u.step(UnEvent::Exited(Err(IoErrorKind::NotFound)))),
        Err("un: 'foo': not found in registry, and winget is not available".to_string()));
    let (mut u, _) = un(&names(&["foo"]));
    start_of(u.step(UnEvent::Registry(Vec::new())));
    assert_eq!(done_of(u.step(UnEvent::Exited(Ok(false)))), Err("un: 'foo': not found".to_string()));
}

#[test]
fn no_names() {
    let (u, a) = un(&names(&[" ", ""]));
    assert_eq!(done_of(a), Err("un: give at least one app name".to_string()));
    assert_eq!(u.phase(), UnPhase::Finished);
}

#[test]
fn empty_command_fails_with_name() {
    let (mut u, _) = un(&names(&["x"]));
    assert_eq!(done_of(u.step(UnEvent::Registry(vec![entry("x", "\"\"")]))), Err("un: x: uninstall command failed".to_string()));
}

#[test]
fn normalised_names_start_the_same() {
    let given = names(&["  Visual  ", "   ", "Studio", " Code"]);
    let normal = names(&["Visual", "Studio", "Code"]);
    let (mut u1, a1) = un(&given);
    let (mut u2, a2) = un(&normal);
    assert_eq!(format!("{:?}", a1), format!("{:?}", a2));
    assert_eq!(u1.phase(), u2.phase());
    let es = || vec![entry("Visual Studio Code", "C:\\vs\\unins.exe /S")];
    assert_eq!(format!("{:?}", u1.step(UnEvent::Registry(es()))), format!("{:?}", u2.step(UnEvent::Registry(es()))));
    let (_, b1) = un(&names(&["", "  "]));
    let (_, b2) = un(&names(&[]));
    assert_eq!(format!("{:?}", b1), format!("{:?}", b2));
}
