use px::selfupdate::{
    cleanup_script, detached_script, latest_release_url, path_update_command, path_without, plan_for_tag, release_tag,
    script_name,
    update_dir_name, update_plan, update_script, UpdatePlan,
};

#[test]
fn release_tag_cases() {
    assert_eq!(release_tag("{\"tag_name\":\"v1.2.3\",\"name\":\"x\"}"), Ok("v1.2.3".to_string()));
    assert_eq!(release_tag("not json"), Err("update: bad response".to_string()));
    assert_eq!(release_tag("{\"name\":\"x\"}"), Err("update: no tag in response".to_string()));
    assert_eq!(release_tag("{\"tag_name\": 5}"), Err("update: no tag in response".to_string()));
    assert_eq!(release_tag("[1, 2]"), Err("update: no tag in response".to_string()));
}

#[test]
fn update_plan_up_to_date() {
    assert!(matches!(update_plan("0.1.0", "{\"tag_name\":\"v0.1.0\"}"), Ok(UpdatePlan::UpToDate)));
    assert!(matches!(update_plan("0.1.0", "{\"tag_name\":\"0.1.0\"}"), Ok(UpdatePlan::UpToDate)));
}

#[test]
fn update_plan_install() {
    match update_plan("0.1.0", "{\"tag_name\":\"vv0.2.0\",\"x\":1}") {
        Ok(UpdatePlan::Install { version, tag, url }) => {
            assert_eq!(version, "0.2.0");
            assert_eq!(tag, "vv0.2.0");
            assert_eq!(url, "https://github.com/Muhammad-Owais-Warsi/px/releases/download/vv0.2.0/px-windows-x86_64.zip");
        },
        other => panic!("unexpected {:?}", other),
    }
    assert_eq!(update_plan("0.1.0", "{").unwrap_err(), "update: bad response");
}

#[test]
fn update_names_and_urls() {
    assert_eq!(latest_release_url(), "https://api.github.com/repos/Muhammad-Owais-Warsi/px/releases/latest");
    assert_eq!(update_dir_name("1.2.3"), "px-update-1.2.3");
    assert_eq!(script_name("px_update_", 42), "px_update_42.bat");
    assert_eq!(script_name("px_cleanup_", 7), "px_cleanup_7.bat");
}

#[test]
fn update_script_text() {
    let new_s = "C:\\t\\bin\\px.exe";
    let me_s = "C:\\px\\px.exe";
    let cleanup = "C:\\t\\bin";
    let expected = format!(
        "@echo off\r\n\
         ping -n 4 127.0.0.1 >nul\r\n\
         copy /Y \"{new_s}\" \"{me_s}\" >nul 2>&1\r\n\
         if errorlevel 1 (\r\n\
           ping -n 4 127.0.0.1 >nul\r\n\
           copy /Y \"{new_s}\" \"{me_s}\" >nul 2>&1\r\n\
         )\r\n\
         start \"\" \"{me_s}\"\r\n\
         del /f /q \"{cleanup}\\px.exe\" >nul 2>&1\r\n\
         del /f /q \"%~f0\" >nul 2>&1\r\n",
    );
    assert_eq!(update_script(new_s, me_s, cleanup), expected);
}

#[test]
fn cleanup_script_text() {
    let exe = "C:\\Users\\me\\AppData\\Local\\px\\bin\\px.exe";
    let expected = format!("@echo off\r\nping -n 2 127.0.0.1 >nul\r\ndel /f /q \"{}\"\r\n", exe);
    assert_eq!(cleanup_script(exe), expected);
}

#[test]
fn detached_and_path_commands() {
    let inv = detached_script("C:\\t\\x.bat");
    assert_eq!(inv.program, "cmd");
    assert_eq!(inv.args, vec!["/C", "start", "", "/min", "cmd", "/C", "C:\\t\\x.bat"]);
    let inv = path_update_command("C:\\Windows");
    assert_eq!(inv.program, "reg");
    assert_eq!(inv.args, vec!["add", "HKCU\\Environment", "/v", "Path", "/t", "REG_EXPAND_SZ", "/d", "C:\\Windows", "/f"]);
}

#[test]
fn path_without_drops_every_spelling_of_the_dir() {
    let dir = "C:\\Users\\me\\AppData\\Local\\px\\bin";
    let path = "C:\\Windows;C:\\Users\\me\\AppData\\Local\\px\\bin\\;D:\\tools;c:\\users\\ME\\appdata\\local\\PX\\BIN";
    assert_eq!(path_without(path, dir), "C:\\Windows;D:\\tools");
}

#[test]
fn path_without_keeps_empty_entries() {
    assert_eq!(path_without("", "x"), "");
    assert_eq!(path_without(";;", "x"), ";;");
    assert_eq!(path_without("x;y", "x"), "y");
    assert_eq!(path_without("x", "x"), "");
}

#[test]
fn plan_for_tag_cases() {
    assert!(matches!(plan_for_tag("1.0.0", "v1.0.0"), UpdatePlan::UpToDate));
    assert!(matches!(plan_for_tag("1.0.0", "1.0.0"), UpdatePlan::UpToDate));
    assert!(matches!(plan_for_tag("", "vvv"), UpdatePlan::UpToDate));
    match plan_for_tag("1.0.0", "v1.0.1") {
        UpdatePlan::Install { version, tag, url } => {
            assert_eq!(version, "1.0.1");
            assert_eq!(tag, "v1.0.1");
            assert_eq!(url, "https://github.com/Muhammad-Owais-Warsi/px/releases/download/v1.0.1/px-windows-x86_64.zip");
        },
        other => panic!("unexpected {:?}", other),
    }
    match plan_for_tag("v1.0.0", "v1.0.0") {
        UpdatePlan::Install { version, .. } => assert_eq!(version, "1.0.0"),
        other => panic!("unexpected {:?}", other),
    }
}
