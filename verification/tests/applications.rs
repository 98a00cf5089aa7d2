use rtop::desktop::{
    desktop_roots, detect_process_app_name, extract_desktop_id_candidate, extract_exec_basename,
    is_desktop_file, normalize_desktop_id, normalize_lookup_key, parse_desktop_file,
    DesktopAppResolver, DesktopFile, ProcessInfo,
};

fn file(stem: &str, text: &str) -> DesktopFile {
    DesktopFile { stem: Some(stem.to_string()), text: text.to_string() }
}

fn process(cmd: &[&str], exe: Option<&str>, name: &str) -> ProcessInfo {
    ProcessInfo {
        cmd: cmd.iter().map(|s| s.to_string()).collect(),
        exe_name: exe.map(str::to_string),
        name: name.to_string(),
    }
}

fn resolver() -> DesktopAppResolver {
    DesktopAppResolver::from_system(&vec![
        file("org.mozilla.Firefox", "[Desktop Entry]\nName=Firefox\nExec=/usr/bin/firefox %u\n"),
        file("firefox-copy", "[Desktop Entry]\nName=Copy\nExec=firefox\n"),
        file("Code", "[Desktop Entry]\nName=Editor\nExec=env A=1 \"code\" --x\n"),
        file("nameless", "[Desktop Entry]\nExec=nameless\n"),
        DesktopFile { stem: None, text: "[Desktop Entry]\nName=Lost\nExec=lost\n".to_string() },
    ])
}

#[test]
fn desktop_entries() {
    let text = "# note\nName=Outside\n[desktop entry]\n Name = x\nName=  \nName=Name=App\nName=Later\nExec=\n\
                Exec=run %f\n[Desktop Action new]\nName=Action\nExec=other\n";
    assert_eq!(
        parse_desktop_file(text),
        Some(("App".to_string(), Some("run %f".to_string())))
    );
    assert_eq!(parse_desktop_file("[Desktop Entry]\nName=A\n"), Some(("A".to_string(), None)));
    assert_eq!(parse_desktop_file("[Desktop Entry]\nExec=a\n"), None);
    assert_eq!(parse_desktop_file(""), None);
}

#[test]
fn programs_of_commands() {
    assert_eq!(extract_exec_basename("/usr/bin/Firefox %u"), Some("firefox".to_string()));
    assert_eq!(extract_exec_basename("env LANG=C 'my app' x"), Some("my".to_string()));
    assert_eq!(extract_exec_basename("env A=1 /opt/a=b/run"), Some("run".to_string()));
    assert_eq!(extract_exec_basename("%f \"\" tool"), Some("tool".to_string()));
    assert_eq!(extract_exec_basename("env A=1"), None);
    assert_eq!(extract_exec_basename(""), None);
}

#[test]
fn desktop_files_in_command_lines() {
    assert_eq!(
        extract_desktop_id_candidate("--desktop=/usr/share/applications/org.x.App.desktop"),
        Some("org.x.App".to_string())
    );
    assert_eq!(
        extract_desktop_id_candidate("'application://foo.desktop'"),
        Some("foo".to_string())
    );
    assert_eq!(extract_desktop_id_candidate("a/.desktop"), None);
    assert_eq!(extract_desktop_id_candidate("a.desktop/b"), None);
    assert_eq!(extract_desktop_id_candidate("plain"), None);
}

#[test]
fn keys() {
    assert_eq!(normalize_lookup_key("  /usr/bin/Top "), "top");
    assert_eq!(normalize_lookup_key(".."), "..");
    assert_eq!(normalize_desktop_id(" /x/Org.App.desktop.desktop "), "org.app");
    assert_eq!(normalize_desktop_id("App"), "app");
}

#[test]
fn the_first_description_counts() {
    let r = resolver();
    assert_eq!(r.lookup_exec("firefox"), Some("Firefox".to_string()));
    assert_eq!(r.lookup_exec("/opt/CODE"), Some("Editor".to_string()));
    assert_eq!(r.lookup_exec("nameless"), None);
    assert_eq!(r.lookup_exec("lost"), None);
    assert_eq!(r.lookup_desktop_id("firefox-copy.desktop"), Some("Copy".to_string()));
    assert_eq!(r.lookup_desktop_id("ORG.MOZILLA.FIREFOX"), Some("Firefox".to_string()));
}

#[test]
fn applications_of_processes() {
    let r = resolver();
    let named = process(&["x", "--d=/apps/code.desktop"], Some("firefox"), "n");
    assert_eq!(r.lookup_process(&named), Some("Editor".to_string()));
    let by_exe = process(&["x"], Some("firefox"), "n");
    assert_eq!(r.lookup_process(&by_exe), Some("Firefox".to_string()));
    let by_word = process(&["/bin/code"], None, "n");
    assert_eq!(r.lookup_process(&by_word), Some("Editor".to_string()));
    let by_file = process(&["firefox-copy"], None, "n");
    assert_eq!(r.lookup_process(&by_file), Some("Copy".to_string()));
    let by_name = process(&[], None, "Code");
    assert_eq!(r.lookup_process(&by_name), Some("Editor".to_string()));
    let unknown = process(&["foo"], Some("bar"), "baz");
    assert_eq!(r.lookup_process(&unknown), None);
}

#[test]
fn names_of_applications() {
    let r = resolver();
    assert_eq!(detect_process_app_name(&r, &process(&[], Some("firefox"), "n")), "Firefox");
    assert_eq!(detect_process_app_name(&r, &process(&["a/b"], Some(" tool "), "n")), "tool");
    assert_eq!(detect_process_app_name(&r, &process(&["/a/b"], None, "n")), "b");
    assert_eq!(detect_process_app_name(&r, &process(&["/"], Some(" "), "n")), "/");
    assert_eq!(detect_process_app_name(&r, &process(&[""], None, " n ")), "n");
    assert_eq!(detect_process_app_name(&r, &process(&[], None, " ")), "unknown");
}

#[test]
fn places_of_desktop_files() {
    let system = [
        "/usr/local/share/applications",
        "/usr/share/applications",
        "/var/lib/flatpak/exports/share/applications",
        "/var/lib/snapd/desktop/applications",
    ];
    assert_eq!(desktop_roots(None, None), system);
    assert_eq!(desktop_roots(Some("/data"), Some("/home/u"))[0], "/data/applications");
    assert_eq!(desktop_roots(None, Some("/home/u/"))[0], "/home/u/.local/share/applications");
    assert_eq!(desktop_roots(Some(""), None)[0], "applications");
    assert_eq!(desktop_roots(Some("x"), None).len(), 5);
    assert!(is_desktop_file("a.desktop"));
    assert!(!is_desktop_file(".desktop"));
    assert!(!is_desktop_file("a.desktop.bak"));
}
