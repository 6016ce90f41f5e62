use hremap::config::VolumeDirection;
use hremap::volume::{app_volume_call, find_sink_input, system_volume_call};

#[test]
fn system_volume_commands() {
    let up = system_volume_call(VolumeDirection::Up, 10);
    assert_eq!(up.program, "wpctl");
    assert_eq!(up.args, vec!["set-volume", "--limit", "1.0", "@DEFAULT_AUDIO_SINK@", "10%+"]);
    let down = system_volume_call(VolumeDirection::Down, 5);
    assert_eq!(down.args, vec!["set-volume", "--limit", "1.0", "@DEFAULT_AUDIO_SINK@", "5%-"]);
    let mute = system_volume_call(VolumeDirection::Mute, 10);
    assert_eq!(mute.args, vec!["set-mute", "@DEFAULT_AUDIO_SINK@", "toggle"]);
}

#[test]
fn app_volume_commands() {
    let up = app_volume_call(VolumeDirection::Up, 25, 317);
    assert_eq!(up.program, "pactl");
    assert_eq!(up.args, vec!["set-sink-input-volume", "317", "25%+"]);
    let mute = app_volume_call(VolumeDirection::Mute, 25, 0);
    assert_eq!(mute.args, vec!["set-sink-input-mute", "0", "toggle"]);
}

const LISTING: &str = "Sink Input #41\n\tDriver: protocol-native.c\n\tProperties:\n\t\tapplication.name = \"Firefox\"\n\t\tapplication.process.id = \"1200\"\n\nSink Input #57\r\n\tProperties:\r\n\t\tapplication.process.id = \"3400\"\r\n";

#[test]
fn sink_input_found_by_process_id() {
    assert_eq!(find_sink_input(LISTING, 1200), Some(41));
    assert_eq!(find_sink_input(LISTING, 3400), Some(57));
    assert_eq!(find_sink_input(LISTING, 999), None);
    assert_eq!(find_sink_input("", 1), None);
}

#[test]
fn sink_input_edge_cases() {
    // a pid line before any header has no sink input
    assert_eq!(find_sink_input("application.process.id = \"7\"\nSink Input #3\n", 7), None);
    // an unparsable header number leaves no sink input
    assert_eq!(find_sink_input("Sink Input #x\napplication.process.id = \"7\"\n", 7), None);
    // unquoted values parse too
    assert_eq!(find_sink_input("Sink Input #9\n  application.process.id = 7\n", 7), Some(9));
    // a repeated header prefix is stripped entirely
    assert_eq!(find_sink_input("Sink Input #Sink Input #12\napplication.process.id = \"7\"", 7), Some(12));
}
