use main_logic::desktop::{
    collect_installed, exe_name, extract_exe_name, file_name, is_whitespace, name_le,
    parse_desktop_entry, trim,
};
use main_logic::names::chars_of;
use main_logic::platform::{active_window, last_word, parse_pid, process_name, InstalledApp};

fn app(display: &str, exe: &str) -> InstalledApp {
    InstalledApp { display_name: display.to_string(), exe_name: exe.to_string() }
}

fn pairs(apps: &[InstalledApp]) -> Vec<(String, String)> {
    apps.iter().map(|a| (a.display_name.clone(), a.exe_name.clone())).collect()
}

fn text(chars: &[char]) -> String {
    chars.iter().collect()
}

fn base(path: &str) -> String {
    text(&file_name(&chars_of(path)))
}

#[test]
fn desktop_entry_gives_name_and_executable() {
    let entry = "[Desktop Entry]\nType=Application\nName= Visual Studio Code \nExec=/usr/share/code/code --unity-launch %F\nIcon=code\n";
    let found = parse_desktop_entry(entry).unwrap();
    assert_eq!(found.display_name, "Visual Studio Code");
    assert_eq!(found.exe_name, "code");
    // Reading stops at the first pair: later actions do not count.
    let entry = "Name=Firefox\r\nExec=firefox %u\r\n[Desktop Action new]\nName=New Window\nExec=firefox --new-window\n";
    assert_eq!(pairs(&[parse_desktop_entry(entry).unwrap()]), vec![("Firefox".to_string(), "firefox".to_string())]);
    // Before the pair is complete a later line replaces an earlier one.
    let entry = "Name=A\nName=B\nGenericName=C\nName[de]=D\nExec=env X=1 app";
    assert_eq!(pairs(&[parse_desktop_entry(entry).unwrap()]), vec![("B".to_string(), "env".to_string())]);
    let entry = "Exec=one\nExec=two\nName=N\nName=M";
    assert_eq!(pairs(&[parse_desktop_entry(entry).unwrap()]), vec![("N".to_string(), "two".to_string())]);
}

#[test]
fn desktop_entry_without_name_or_command_is_none() {
    assert!(parse_desktop_entry("").is_none());
    assert!(parse_desktop_entry("\n\n").is_none());
    assert!(parse_desktop_entry("Name=Only a name\n").is_none());
    assert!(parse_desktop_entry("Exec=only-a-command\n").is_none());
    assert!(parse_desktop_entry("Name=App\nExec=   \n").is_none());
    assert!(parse_desktop_entry("Name=App\nExec=%U %f\n").is_none());
    assert!(parse_desktop_entry(" Name=App\n Exec=app\n").is_none());
    let empty_name = parse_desktop_entry("Name=\nExec=app").unwrap();
    assert_eq!(empty_name.display_name, "");
}

#[test]
fn executable_name_is_the_file_name_of_the_first_word() {
    assert_eq!(extract_exe_name("/usr/bin/gimp-2.10 %U"), Some("gimp-2.10".to_string()));
    assert_eq!(extract_exe_name("  %k \t%f  /opt/x/run.sh --flag"), Some("run.sh".to_string()));
    assert_eq!(extract_exe_name("firefox"), Some("firefox".to_string()));
    assert_eq!(extract_exe_name("a%b c"), Some("a%b".to_string()));
    assert_eq!(extract_exe_name("\u{a0}\u{3000}x\u{2003}y"), Some("x".to_string()));
    assert_eq!(extract_exe_name(""), None);
    assert_eq!(extract_exe_name(" \n\t"), None);
    assert_eq!(extract_exe_name("%U"), None);
    assert_eq!(exe_name(&chars_of("bin/tool arg")).map(|n| text(&n)), Some("tool".to_string()));
}

#[test]
fn file_names_follow_the_path_rules() {
    for (path, name) in [
        ("/usr/bin/foo", "foo"),
        ("foo", "foo"),
        ("foo/", "foo"),
        ("foo//", "foo"),
        ("foo/.", "foo"),
        ("foo/./", "foo"),
        ("a//b", "b"),
        ("./foo", "foo"),
        ("a/.b", ".b"),
        ("a/...", "..."),
        ("a/b.", "b."),
        ("/", "/"),
        (".", "."),
        ("..", ".."),
        ("a/..", "a/.."),
        ("./.", "./."),
        ("/.", "/."),
        ("", ""),
    ] {
        assert_eq!(base(path), name, "file name of {:?}", path);
        let expected = std::path::Path::new(path).file_name().and_then(|f| f.to_str()).unwrap_or(path);
        assert_eq!(base(path), expected, "against the standard library for {:?}", path);
    }
}

#[test]
fn white_space_is_what_the_standard_library_calls_so() {
    for code in 0u32..0x3100 {
        if let Some(c) = char::from_u32(code) {
            assert_eq!(is_whitespace(c), c.is_whitespace(), "U+{:04X}", code);
        }
    }
    assert!(!is_whitespace('\u{feff}'));
    assert!(!is_whitespace('\u{10ffff}'));
    for sample in ["", " ", "  a b \t\n", "\u{2028}x\u{85}", "x", " \u{a0} "] {
        assert_eq!(text(&trim(&chars_of(sample))), sample.trim());
    }
    assert_eq!(chars_of("héllo"), vec!['h', 'é', 'l', 'l', 'o']);
}

#[test]
fn installed_apps_are_listed_once_in_name_order() {
    let found = vec![
        app("Zed", "zed"),
        app("Code", "code-oss"),
        app("Alpha", "a"),
        app("Code", "code"),
        app("Zed", "zed"),
        app("code", "lower"),
        app("Code", "code-oss"),
        app("Co", "co"),
    ];
    let listed = collect_installed(&found);
    assert_eq!(
        pairs(&listed),
        vec![
            ("Alpha".to_string(), "a".to_string()),
            ("Co".to_string(), "co".to_string()),
            ("Code".to_string(), "code-oss".to_string()),
            ("Code".to_string(), "code".to_string()),
            ("Zed".to_string(), "zed".to_string()),
            ("code".to_string(), "lower".to_string()),
        ]
    );
    assert!(collect_installed(&vec![]).is_empty());
    let mut by_std: Vec<(String, String)> = pairs(&found);
    by_std.dedup();
    let mut seen = std::collections::HashSet::new();
    by_std.retain(|p| seen.insert(p.clone()));
    by_std.sort_by(|a, b| a.0.cmp(&b.0));
    assert_eq!(pairs(&listed), by_std);
}

#[test]
fn names_are_ordered_like_strings() {
    let samples = ["", "a", "A", "ab", "b", "é", "z", "aa", "a\u{10ffff}", "\u{e000}", "\u{d7ff}", "Z"];
    for a in samples {
        for b in samples {
            assert_eq!(name_le(a, b), a <= b, "{:?} <= {:?}", a, b);
        }
    }
}

#[test]
fn probe_output_is_read() {
    assert_eq!(last_word("_NET_ACTIVE_WINDOW(WINDOW): window id # 0x3a00007\n"), Some("0x3a00007".to_string()));
    assert_eq!(last_word("single"), Some("single".to_string()));
    assert_eq!(last_word("  \n "), None);
    assert_eq!(last_word(""), None);
    assert_eq!(active_window("_NET_ACTIVE_WINDOW(WINDOW): window id # 0x3a00007\n"), Some("0x3a00007".to_string()));
    assert_eq!(active_window("_NET_ACTIVE_WINDOW(WINDOW): window id # 0x0\n"), None);
    assert_eq!(active_window(""), None);
    assert_eq!(process_name(" Code\n"), "code");
    assert_eq!(process_name("firefox-ESR"), "firefox-esr");
}

#[test]
fn process_identifiers_are_parsed() {
    for word in ["0", "7", "42", "007", "+15", "4294967295", "4294967296", "99999999999999999999", "", "+", "-1", "12a", " 1", "1 ", "+-1", "++1", "１"] {
        assert_eq!(parse_pid(word), word.parse::<u32>().ok(), "{:?}", word);
    }
    assert_eq!(parse_pid("1234"), Some(1234));
    assert_eq!(parse_pid("4294967295"), Some(u32::MAX));
    assert_eq!(parse_pid("4294967296"), None);
}
