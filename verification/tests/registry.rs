use main_logic::platform::InstalledApp;
use main_logic::registry::{collect_installed_windows, extract_exe_name_windows, first_exe_part, registry_app};

fn app(display: &str, exe: &str) -> InstalledApp {
    InstalledApp { display_name: display.to_string(), exe_name: exe.to_string() }
}

fn pairs(apps: &[InstalledApp]) -> Vec<(String, String)> {
    apps.iter().map(|a| (a.display_name.clone(), a.exe_name.clone())).collect()
}

fn by_std(path: &str) -> Option<String> {
    path.split(|c| c == ',' || c == ' ' || c == '"').find(|s| s.to_lowercase().ends_with(".exe")).map(str::to_string)
}

#[test]
fn first_part_that_names_an_executable() {
    assert_eq!(first_exe_part("C:\\Apps\\tool.exe,0"), Some("C:\\Apps\\tool.exe".to_string()));
    assert_eq!(first_exe_part("\"C:\\Program Files\\App\\App.EXE\" /S"), Some("Files\\App\\App.EXE".to_string()));
    assert_eq!(first_exe_part("a.txt b.Exe c.exe"), Some("b.Exe".to_string()));
    assert_eq!(first_exe_part(".exe"), Some(".exe".to_string()));
    assert_eq!(first_exe_part("setup.exe.bak,icon.ico"), None);
    assert_eq!(first_exe_part(""), None);
    assert_eq!(first_exe_part(",, \""), None);
    for path in [
        "",
        " ",
        "x.exe",
        "x.exe,",
        ",x.exe",
        "a b\"c.EXE\"d",
        "MsiExec.exe /I{GUID}",
        "C:\\Program Files (x86)\\Steam\\uninstall.exe",
        "no executable here",
        "İ.exe end",
    ] {
        assert_eq!(first_exe_part(path), by_std(path), "{:?}", path);
    }
}

#[test]
fn executable_name_of_a_registry_value() {
    assert_eq!(extract_exe_name_windows("C:/Apps/Tool/tool.exe,0"), Some("tool.exe".to_string()));
    assert_eq!(extract_exe_name_windows("\"C:/Program Files/App/App.exe\" /uninstall"), Some("App.exe".to_string()));
    assert_eq!(extract_exe_name_windows("MsiExec.exe /X{1234}"), Some("MsiExec.exe".to_string()));
    assert_eq!(extract_exe_name_windows("C:/Apps/readme.txt"), None);
    assert_eq!(extract_exe_name_windows(""), None);
    for path in ["C:/a/b.exe", "tool.exe", "x/y/z.EXE rest"] {
        let part = by_std(path).unwrap();
        let expected = std::path::Path::new(&part).file_name().map(|f| f.to_string_lossy().to_string());
        assert_eq!(extract_exe_name_windows(path), expected, "{:?}", path);
    }
}

#[test]
fn registry_entries_become_applications() {
    let found = registry_app(Some("  Editor  "), false, Some("C:/Apps/Editor/editor.exe,0"), Some("C:/Apps/Editor/unins.exe"));
    assert_eq!(pairs(&[found.unwrap()]), vec![("Editor".to_string(), "editor.exe".to_string())]);
    // Without an icon the uninstall command decides.
    let found = registry_app(Some("Editor"), false, None, Some("\"C:/Apps/Editor/unins.exe\" /S"));
    assert_eq!(pairs(&[found.unwrap()]), vec![("Editor".to_string(), "unins.exe".to_string())]);
    // An icon that names no executable is not made up for by the command.
    assert!(registry_app(Some("Editor"), false, Some("C:/Apps/Editor/editor.ico"), Some("C:/unins.exe")).is_none());
    assert!(registry_app(None, false, Some("C:/a.exe"), None).is_none());
    assert!(registry_app(Some("   "), false, Some("C:/a.exe"), None).is_none());
    assert!(registry_app(Some(""), false, Some("C:/a.exe"), None).is_none());
    assert!(registry_app(Some("Runtime"), true, Some("C:/a.exe"), None).is_none());
    assert!(registry_app(Some("Editor"), false, None, None).is_none());
}

#[test]
fn registry_list_is_in_name_order_with_one_entry_for_each_name() {
    let found = vec![
        app("Zed", "zed.exe"),
        app("Code", "code.exe"),
        app("Alpha", "a.exe"),
        app("Code", "code-insiders.exe"),
        app("Zed", "zed.exe"),
        app("code", "lower.exe"),
    ];
    let listed = collect_installed_windows(&found);
    assert_eq!(
        pairs(&listed),
        vec![
            ("Alpha".to_string(), "a.exe".to_string()),
            ("Code".to_string(), "code.exe".to_string()),
            ("Zed".to_string(), "zed.exe".to_string()),
            ("code".to_string(), "lower.exe".to_string()),
        ]
    );
    let mut expected = pairs(&found);
    expected.sort_by(|a, b| a.0.cmp(&b.0));
    expected.dedup_by(|a, b| a.0 == b.0);
    assert_eq!(pairs(&listed), expected);
    assert!(collect_installed_windows(&vec![]).is_empty());
}
