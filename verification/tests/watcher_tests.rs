use hremap::watcher::{detect_desktop, kwin_script_path, parse_dbus_value, DesktopEnvironment, KdeMonitor};

#[test]
fn dbus_values() {
    assert_eq!(parse_dbus_value("   string \"Firefox\""), Some("Firefox".to_string()));
    assert_eq!(parse_dbus_value("string \"\""), Some("".to_string()));
    assert_eq!(parse_dbus_value("   uint32 4242 "), Some("4242".to_string()));
    assert_eq!(parse_dbus_value("int32 -1"), Some("-1".to_string()));
    assert_eq!(parse_dbus_value("signal time=1 member=windowActivated"), None);
    assert_eq!(parse_dbus_value("boolean true"), None);
}

#[test]
fn kde_monitor_reads_one_activation() {
    let mut m = KdeMonitor::new();
    let lines = [
        "signal time=1.0 sender=:1.5 -> destination=(null destination) serial=9 path=/WindowWatcher; interface=org.kde.WindowWatcher; member=windowActivated",
        "   string \"Editor — notes\"",
        "   string \"kate\"",
        "   string \"kate-instance\"",
        "   uint32 1234",
    ];
    let mut found = None;
    for line in lines {
        if let Some(info) = m.feed(line) {
            found = Some(info);
        }
    }
    let info = found.expect("a window");
    assert_eq!(info.title, "Editor — notes");
    assert_eq!(info.wm_class, "kate");
    assert_eq!(info.wm_class_instance, "kate-instance");
    assert_eq!(info.pid, 1234);
    assert_eq!(m.field, 0);
}

#[test]
fn kde_monitor_bad_pid_is_zero_and_header_resets() {
    let mut m = KdeMonitor::new();
    assert!(m.feed("string \"a\"").is_none());
    assert!(m.feed("member=windowActivated").is_none());
    assert_eq!(m.field, 0);
    assert_eq!(m.caption, "");
    m.feed("string \"t\"");
    m.feed("string \"c\"");
    m.feed("string \"n\"");
    let info = m.feed("int32 -5").expect("a window");
    assert_eq!(info.pid, 0);
    assert_eq!(info.title, "t");
}

#[test]
fn desktop_detection() {
    assert_eq!(detect_desktop("KDE", ""), DesktopEnvironment::Kde);
    assert_eq!(detect_desktop("ubuntu:GNOME", ""), DesktopEnvironment::Gnome);
    assert_eq!(detect_desktop("Unity", ""), DesktopEnvironment::Gnome);
    assert_eq!(detect_desktop("pop:GNOME", "plasma"), DesktopEnvironment::Gnome);
    assert_eq!(detect_desktop("", "plasmawayland"), DesktopEnvironment::Kde);
    assert_eq!(detect_desktop("sway", "sway"), DesktopEnvironment::Gnome);
    assert_eq!(detect_desktop("", ""), DesktopEnvironment::Gnome);
    // KELVIN SIGN lowercases to 'k'
    assert_eq!(detect_desktop("\u{212A}DE", ""), DesktopEnvironment::Kde);
}

#[test]
fn dbus_value_ignores_surrounding_whitespace() {
    let line = "string \"Konsole\"";
    assert_eq!(parse_dbus_value(" \t\n string \"Konsole\" \r\n"), parse_dbus_value(line));
    assert_eq!(parse_dbus_value("\u{a0} uint32 7 \u{3000}"), Some("7".to_string()));
    assert_eq!(parse_dbus_value(line.trim()), parse_dbus_value(line));
}

#[test]
fn kwin_script_paths() {
    assert_eq!(kwin_script_path(0), Some("/Scripting/Script0".to_string()));
    assert_eq!(kwin_script_path(17), Some("/Scripting/Script17".to_string()));
    assert_eq!(kwin_script_path(2147483647), Some("/Scripting/Script2147483647".to_string()));
    assert_eq!(kwin_script_path(-1), None);
}
