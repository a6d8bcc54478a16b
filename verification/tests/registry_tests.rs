use px::apps::apps_listing;
use px::registry::{find_exact_uninstall_cmd, find_uninstall_cmd, installed_apps, lookup_uninstall, AppEntry, InstalledApp, UninstallEntry};
use px::size::human_size;

fn entry(display: Option<&str>, quiet: Option<&str>, plain: Option<&str>) -> UninstallEntry {
    UninstallEntry {
        display_name: display.map(|s| s.to_string()),
        quiet_uninstall_string: quiet.map(|s| s.to_string()),
        uninstall_string: plain.map(|s| s.to_string()),
    }
}

fn sample() -> Vec<UninstallEntry> {
    vec![
        entry(None, None, Some("nameless.exe")),
        entry(Some("Visual Studio Code"), None, Some("code-uninst.exe")),
        entry(Some("Code Helper"), None, Some("helper.exe")),
        entry(Some("code"), Some("  "), Some("ignored.exe")),
        entry(Some("CODE"), None, Some("exact.exe")),
        entry(Some("Quiet App"), Some("quiet.exe /S"), Some("loud.exe")),
    ]
}

#[test]
fn exact_match_wins_over_earlier_partial() {
    assert_eq!(find_uninstall_cmd(&sample(), "Code"), Some("exact.exe".to_string()));
}

#[test]
fn exact_lookup_ignores_case() {
    assert_eq!(find_exact_uninstall_cmd(&sample(), "visual studio CODE"), Some("code-uninst.exe".to_string()));
}

#[test]
fn partial_match_takes_first() {
    assert_eq!(find_uninstall_cmd(&sample(), "studio"), Some("code-uninst.exe".to_string()));
    assert_eq!(find_uninstall_cmd(&sample(), "helper"), Some("helper.exe".to_string()));
    assert_eq!(find_exact_uninstall_cmd(&sample(), "studio"), None);
}

#[test]
fn blank_quiet_string_makes_entry_unusable() {
    let es = vec![entry(Some("code"), Some("  "), Some("ignored.exe"))];
    assert_eq!(find_uninstall_cmd(&es, "code"), None);
}

#[test]
fn quiet_string_preferred() {
    assert_eq!(lookup_uninstall(&sample(), "quiet app", true), Some("quiet.exe /S".to_string()));
}

#[test]
fn nothing_found() {
    assert_eq!(find_uninstall_cmd(&sample(), "firefox"), None);
    assert_eq!(find_uninstall_cmd(&Vec::new(), ""), None);
}

fn app(display: Option<&str>, sys: Option<u32>, size: Option<u32>) -> AppEntry {
    AppEntry { display_name: display.map(|s| s.to_string()), system_component: sys, estimated_size: size }
}

#[test]
fn installed_apps_filters_and_dedups() {
    let es = vec![
        app(Some("App A"), None, Some(100)),
        app(Some("app a"), None, Some(5)),
        app(Some("   "), None, Some(1)),
        app(Some("Sys"), Some(1), Some(9)),
        app(Some("Tool"), Some(0), None),
        app(None, None, Some(3)),
        app(Some("Sys"), None, Some(7)),
    ];
    let got: Vec<(String, Option<u64>)> = installed_apps(&es).into_iter().map(|a| (a.name, a.size_kb)).collect();
    assert_eq!(got, vec![
        ("App A".to_string(), Some(100)),
        ("Tool".to_string(), None),
        ("Sys".to_string(), Some(7)),
    ]);
}

#[test]
fn installed_names_are_distinct_ignoring_case() {
    let es = vec![app(Some("X"), None, None), app(Some("x"), None, None), app(Some("Y"), None, None), app(Some("y "), None, None)];
    let got = installed_apps(&es);
    let lowered: Vec<String> = got.iter().map(|a| a.name.to_lowercase()).collect();
    for i in 0..lowered.len() {
        for j in (i + 1)..lowered.len() {
            assert_ne!(lowered[i], lowered[j]);
        }
    }
    assert_eq!(got.len(), 3);
}

fn installed(name: &str, size: Option<u64>) -> InstalledApp {
    InstalledApp { name: name.to_string(), size_kb: size }
}

#[test]
fn apps_listing_biggest_first_unknown_last() {
    let list = vec![
        installed("Zeta", Some(10)),
        installed("Alpha", None),
        installed("Beta", Some(2048)),
        installed("Alpha2", Some(10)),
        installed("Gamma", None),
    ];
    let lines = apps_listing(&list).unwrap();
    assert_eq!(lines, vec![
        format!("{:<6}  SIZE", "NAME"),
        format!("{:<6}  {}", "Beta", human_size(2048 * 1024)),
        format!("{:<6}  {}", "Alpha2", human_size(10 * 1024)),
        format!("{:<6}  {}", "Zeta", human_size(10 * 1024)),
        format!("{:<6}  {}", "Alpha", "-"),
        format!("{:<6}  {}", "Gamma", "-"),
    ]);
    assert_eq!(lines[1], "Beta    2.0 MB");
}

#[test]
fn apps_listing_long_names_are_cut() {
    let long: String = std::iter::repeat('n').take(60).collect();
    let list = vec![installed(&long, Some(1)), installed("ab", None)];
    let lines = apps_listing(&list).unwrap();
    let short: String = long.chars().take(50).collect();
    assert_eq!(lines[0], format!("{:<50}  SIZE", "NAME"));
    assert_eq!(lines[1], format!("{:<50}  {}", short, "1.0 KB"));
    assert_eq!(lines[2], format!("{:<50}  -", "ab"));
}

#[test]
fn apps_listing_short_names_use_width_four() {
    let lines = apps_listing(&vec![installed("a", Some(0))]).unwrap();
    assert_eq!(lines, vec!["NAME  SIZE".to_string(), "a     0 B".to_string()]);
}

#[test]
fn apps_listing_empty() {
    assert_eq!(apps_listing(&Vec::new()).unwrap_err(), "apps: no apps found");
}

#[test]
fn apps_listing_names_in_string_order() {
    let mut names: Vec<String> = vec!["zeta", "Äpfel", "apple", "Apple", "éclair", "b", "ab", "a", "日本", "Zeta"]
        .into_iter().map(|s| s.to_string()).collect();
    let list: Vec<InstalledApp> = names.iter().map(|n| installed(n, None)).collect();
    let lines = apps_listing(&list).unwrap();
    names.sort();
    let width = names.iter().map(|n| n.chars().count()).max().unwrap().max(4);
    let expected: Vec<String> = std::iter::once(format!("{:<width$}  SIZE", "NAME", width = width))
        .chain(names.iter().map(|n| format!("{:<width$}  -", n, width = width)))
        .collect();
    assert_eq!(lines, expected);
}

#[test]
fn unusable_entries_never_change_a_lookup() {
    let all = sample();
    let usable: Vec<UninstallEntry> = sample()
        .into_iter()
        .filter(|e| {
            let cmd = match (&e.quiet_uninstall_string, &e.uninstall_string) {
                (Some(q), _) => Some(q.clone()),
                (None, Some(u)) => Some(u.clone()),
                (None, None) => None,
            };
            e.display_name.is_some() && cmd.map_or(false, |c| !c.trim().is_empty())
        })
        .collect();
    assert_eq!(usable.len(), 4);
    for name in ["code", "CODE", "studio", "quiet app", "helper", "nameless", "x"] {
        for exact in [false, true] {
            assert_eq!(lookup_uninstall(&all, name, exact), lookup_uninstall(&usable, name, exact));
        }
    }
    let mut with_bad = vec![entry(Some("Code"), Some(" "), None), entry(None, Some("x.exe"), None)];
    with_bad.extend(sample());
    assert_eq!(lookup_uninstall(&with_bad, "code", false), Some("exact.exe".to_string()));
}
