use px::cmdline::{msi_to_uninstall, run_outcome, run_plan, split_args, split_cmd};
use px::errors::{clean_io, IoErrorKind};

fn strings(v: &[&str]) -> Vec<String> {
    v.iter().map(|s| s.to_string()).collect()
}

#[test]
fn split_cmd_quoted_program() {
    let (program, args) = split_cmd("\"C:\\a b\\x.exe\" /SILENT");
    assert_eq!(program, "C:\\a b\\x.exe");
    assert_eq!(args, strings(&["/SILENT"]));
}

#[test]
fn split_cmd_plain_program_and_padding() {
    let (program, args) = split_cmd("  C:\\x.exe /a   /b  ");
    assert_eq!(program, "C:\\x.exe");
    assert_eq!(args, strings(&["/a", "/b"]));
}

#[test]
fn split_cmd_empty_line() {
    let (program, args) = split_cmd("   ");
    assert_eq!(program, "");
    assert!(args.is_empty());
}

#[test]
fn split_cmd_unterminated_quote() {
    let (program, args) = split_cmd("\"unterminated /x");
    assert_eq!(program, "unterminated /x");
    assert!(args.is_empty());
}

#[test]
fn split_cmd_quoted_program_then_quoted_argument() {
    let (program, args) = split_cmd("\"C:\\p\\u.exe\" \"/D=C:\\Program Files\\App\" /S");
    assert_eq!(program, "C:\\p\\u.exe");
    assert_eq!(args, strings(&["/D=C:\\Program Files\\App", "/S"]));
}

#[test]
fn split_args_quotes_group_and_vanish() {
    assert_eq!(split_args("a \"b c\" \"\" d"), strings(&["a", "b c", "", "d"]));
    assert_eq!(split_args("x\"y z\"w"), strings(&["xy zw"]));
    assert_eq!(split_args("\t one\ttwo \n"), strings(&["one", "two"]));
    assert!(split_args("   ").is_empty());
}

#[test]
fn split_args_gives_back_joined_words() {
    let words = strings(&["uninstall", "/quiet", "--force", "x=1"]);
    assert_eq!(split_args(&words.join(" ")), words);
    assert_eq!(split_args(&words.join("\t")), words);
}

#[test]
fn msi_repair_becomes_uninstall() {
    assert_eq!(msi_to_uninstall("MsiExec.exe /I{1234-ABCD}"), "MsiExec.exe /X{1234-ABCD}");
    assert_eq!(msi_to_uninstall("msiexec.exe /i {GUID} /quiet "), "MsiExec.exe /X{GUID} /quiet");
    assert_eq!(msi_to_uninstall("MSIEXEC /I{A}{B}"), "MsiExec.exe /X{A}{B}");
}

#[test]
fn msi_other_lines_unchanged() {
    assert_eq!(msi_to_uninstall("C:\\foo\\uninst.exe /S"), "C:\\foo\\uninst.exe /S");
    assert_eq!(msi_to_uninstall("MsiExec.exe /I}{"), "MsiExec.exe /I}{");
    assert_eq!(msi_to_uninstall("msiexec no braces"), "msiexec no braces");
    assert_eq!(msi_to_uninstall("app.exe {GUID}"), "app.exe {GUID}");
}

#[test]
fn msi_rewrite_is_stable() {
    let once = msi_to_uninstall("MsiExec.exe /I{0F1E} REBOOT=0");
    assert_eq!(once, "MsiExec.exe /X{0F1E} REBOOT=0");
    assert_eq!(msi_to_uninstall(&once), once);
}

#[test]
fn run_plan_batch_goes_through_cmd() {
    let inv = run_plan("C:\\p\\Uninstall.BAT /S").unwrap();
    assert_eq!(inv.program, "cmd");
    assert_eq!(inv.args, strings(&["/S", "/C", "\"C:\\p\\Uninstall.BAT /S\""]));
    let inv = run_plan("\"C:\\p q\\remove.cmd\"").unwrap();
    assert_eq!(inv.program, "cmd");
    assert_eq!(inv.args, strings(&["/S", "/C", "\"\"C:\\p q\\remove.cmd\"\""]));
}

#[test]
fn run_plan_direct_program() {
    let inv = run_plan("\"C:\\Program Files\\App\\unins000.exe\" /SILENT").unwrap();
    assert_eq!(inv.program, "C:\\Program Files\\App\\unins000.exe");
    assert_eq!(inv.args, strings(&["/SILENT"]));
    let inv = run_plan("MsiExec.exe /I{X}").unwrap();
    assert_eq!(inv.program, "MsiExec.exe");
    assert_eq!(inv.args, strings(&["/X{X}"]));
}

#[test]
fn run_plan_nothing_to_run() {
    assert_eq!(run_plan("   ").unwrap_err(), "uninstall command failed");
    assert_eq!(run_plan("\"\" /S").unwrap_err(), "uninstall command failed");
}

#[test]
fn run_outcome_cases() {
    assert_eq!(run_outcome(Ok(true)), Ok(()));
    assert_eq!(run_outcome(Ok(false)), Err("uninstall command failed".to_string()));
    assert_eq!(run_outcome(Err(IoErrorKind::NotFound)), Err("not found".to_string()));
}

#[test]
fn clean_io_messages() {
    assert_eq!(clean_io(IoErrorKind::NotFound), "not found");
    assert_eq!(clean_io(IoErrorKind::PermissionDenied), "permission denied");
    assert_eq!(clean_io(IoErrorKind::AlreadyExists), "already exists");
    assert_eq!(clean_io(IoErrorKind::Other), "failed");
}

#[test]
fn split_cmd_round_trip() {
    for (program, args) in [
        ("C:\\Program Files\\App\\uninst.exe", vec!["/S", "--force"]),
        ("a b", vec![]),
        ("", vec!["x"]),
    ] {
        let line = format!("\"{}\" {}", program, args.join(" "));
        assert_eq!(split_cmd(&line), (program.to_string(), strings(&args)));
    }
}

#[test]
fn split_args_unquoted_is_split_whitespace() {
    for s in ["", "   ", "a", " a  b\tc\r\n", "uninst.exe /S --x=1", "\u{a0}x\u{3000}y\u{2028}", "a\u{85}b"] {
        let expected: Vec<String> = s.split_whitespace().map(|w| w.to_string()).collect();
        assert_eq!(split_args(s), expected, "{:?}", s);
    }
}

#[test]
fn msi_rewrite_twice_changes_nothing() {
    for cmd in [
        "MsiExec.exe /I{1234-ABCD}",
        "msiexec.exe /i {GUID} /quiet ",
        "MSIEXEC /I{A}{B}  x  ",
        "MsiExec.exe /I}{",
        "plain.exe {X}",
        "",
    ] {
        let once = msi_to_uninstall(cmd);
        assert_eq!(msi_to_uninstall(&once), once, "{:?}", cmd);
    }
}
