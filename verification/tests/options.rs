use pav_ecs_game::options::{
    capture_due, parse_options, parse_port, replay_step, walk_is_valid, OptionsError, DEFAULT_AGENT_PORT,
};

fn args(list: &[&str]) -> Vec<String> {
    list.iter().map(|s| s.to_string()).collect()
}

#[test]
fn no_arguments_play_interactively() {
    let o = parse_options(&args(&[])).unwrap();
    assert_eq!(o.capture, None);
    assert_eq!(o.walk, "");
    assert_eq!(o.remote_port, None);
}

#[test]
fn a_screenshot_run_with_a_walk() {
    let o = parse_options(&args(&["--screenshot", "out/shot.png", "--walk", "RRUL"])).unwrap();
    assert_eq!(o.capture.as_deref(), Some("out/shot.png"));
    assert_eq!(o.walk, "RRUL");
}

#[test]
fn remote_control_ports() {
    assert_eq!(parse_options(&args(&["--remote"])).unwrap().remote_port, Some(DEFAULT_AGENT_PORT));
    assert_eq!(parse_options(&args(&["--remote-port", "8080"])).unwrap().remote_port, Some(8080));
    assert_eq!(
        parse_options(&args(&["--remote-port", "70000"])).unwrap_err(),
        OptionsError::PortInvalid
    );
    assert_eq!(parse_options(&args(&["--remote-port"])).unwrap_err(), OptionsError::PortMissing);
    // One port option only.
    assert_eq!(
        parse_options(&args(&["--remote", "--remote-port", "1"])).unwrap_err(),
        OptionsError::Usage
    );
}

#[test]
fn each_refusal_has_its_message() {
    assert_eq!(parse_options(&args(&["--screenshot"])).unwrap_err(), OptionsError::ScreenshotPathMissing);
    assert_eq!(parse_options(&args(&["--walk"])).unwrap_err(), OptionsError::WalkStepsMissing);
    assert_eq!(parse_options(&args(&["--walk", "UD"])).unwrap_err(), OptionsError::WalkWithoutScreenshot);
    assert_eq!(
        parse_options(&args(&["--screenshot", "a.png", "--walk", "UX"])).unwrap_err(),
        OptionsError::InvalidWalkStep
    );
    assert_eq!(parse_options(&args(&["--fullscreen"])).unwrap_err(), OptionsError::Usage);
    assert_eq!(
        parse_options(&args(&["--screenshot", "a.png", "--screenshot", "b.png"])).unwrap_err(),
        OptionsError::Usage
    );
    assert_eq!(OptionsError::PortInvalid.message(), "--remote-port must be a valid u16");
    assert_eq!(OptionsError::WalkWithoutScreenshot.message(), "--walk requires --screenshot");
    assert!(OptionsError::Usage.message().starts_with("usage: "));
}

#[test]
fn ports_read_like_u16_from_str() {
    for text in ["0", "1", "+80", "00080", "65535", "", "+", "-1", "65536", "12a", " 1", "99999999999"] {
        assert_eq!(parse_port(text), text.parse::<u16>().ok(), "{text}");
    }
}

#[test]
fn walk_steps_are_udlr() {
    assert!(walk_is_valid(""));
    assert!(walk_is_valid("UDLR"));
    assert!(!walk_is_valid("UdLR"));
}

#[test]
fn the_walk_is_replayed_every_eight_frames_then_captured() {
    assert_eq!(replay_step(29, 3), None);
    assert_eq!(replay_step(30, 3), Some(0));
    assert_eq!(replay_step(31, 3), None);
    assert_eq!(replay_step(38, 3), Some(1));
    assert_eq!(replay_step(46, 3), Some(2));
    assert_eq!(replay_step(54, 3), None);
    assert!(capture_due(144, 3));
    assert!(!capture_due(143, 3));
    assert!(capture_due(120, 0));
}
