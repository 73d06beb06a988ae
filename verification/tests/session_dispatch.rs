use cam_to_hue::color::Rgb;
use cam_to_hue::convert::yuv_to_rgb;
use cam_to_hue::dispatch::{is_room, next_command, plan_cycle, run_cycle, select_group, GroupKind, LightGroup};
use cam_to_hue::hue::{
    connect_to_bridge, on_register_response, start, PairingAction, RegisterResponse, SessionState,
    PAIRING_BACKOFF_SECS,
};
use cam_to_hue::mapper::color_to_light_command;

#[test]
fn stored_credential_authenticates_without_network() {
    let (state, action) = start(Some("stored-user".to_string()));
    assert_eq!(
        state,
        SessionState::Authenticated { user: "stored-user".to_string() }
    );
    assert_eq!(action, PairingAction::UseStored);
}

#[test]
fn missing_credential_enters_registering() {
    let (state, action) = start(None);
    assert_eq!(state, SessionState::Registering);
    assert_eq!(action, PairingAction::SendRegister);
}

#[test]
fn two_link_button_answers_then_success_retries_twice() {
    let (mut state, _) = start(None);
    let mut waits = 0;
    for _ in 0..2 {
        let (next, action) = on_register_response(&state, RegisterResponse::LinkButtonNotPressed);
        assert_eq!(action, PairingAction::WaitRetry);
        waits += 1;
        state = next;
        assert_eq!(state, SessionState::Registering);
    }
    let (state, action) =
        on_register_response(&state, RegisterResponse::Success("token".to_string()));
    assert_eq!(waits, 2);
    assert_eq!(action, PairingAction::StoreCredential);
    assert_eq!(state, SessionState::Authenticated { user: "token".to_string() });
    assert_eq!(PAIRING_BACKOFF_SECS, 5);
}

#[test]
fn other_bridge_error_is_fatal() {
    let (state, _) = start(None);
    let (state, action) = on_register_response(&state, RegisterResponse::OtherError);
    assert_eq!(state, SessionState::Failed);
    assert_eq!(action, PairingAction::ReportFailure);
}

#[test]
fn connect_keeps_address_and_credential() {
    let handle = connect_to_bridge("192.168.1.2".to_string(), "user".to_string());
    assert_eq!(handle.ip, "192.168.1.2");
    assert_eq!(handle.user, "user");
}

fn group(name: &str, kind: GroupKind, lights: Vec<usize>) -> LightGroup {
    LightGroup { name: name.to_string(), kind, lights }
}

#[test]
fn only_rooms_are_rooms() {
    assert!(is_room(&group("a", GroupKind::Room, vec![])));
    assert!(!is_room(&group("a", GroupKind::Other, vec![])));
}

#[test]
fn select_group_finds_first_matching_room() {
    let groups = vec![
        group("den", GroupKind::Other, vec![1]),
        group("attic", GroupKind::Room, vec![2]),
        group("den", GroupKind::Room, vec![3]),
        group("den", GroupKind::Room, vec![4]),
    ];
    assert_eq!(select_group(&groups, "den"), Some(2));
    assert_eq!(select_group(&groups, "attic"), Some(1));
    assert_eq!(select_group(&groups, "cellar"), None);
}

#[test]
fn plan_pairs_palette_with_lights_positionally() {
    let palette = vec![
        Rgb { r: 255, g: 0, b: 0 },
        Rgb { r: 0, g: 255, b: 0 },
        Rgb { r: 0, g: 0, b: 255 },
    ];
    let lights = vec![10usize, 20, 30, 40, 50];
    let plan = plan_cycle(&palette, &lights);
    assert_eq!(plan.len(), 3);
    for i in 0..3 {
        assert_eq!(plan[i].0, lights[i]);
        assert_eq!(plan[i].1, color_to_light_command(&palette[i]));
    }
}

#[test]
fn plan_never_exceeds_the_light_count() {
    let palette = vec![Rgb { r: 9, g: 9, b: 9 }; 5];
    let lights = vec![7usize, 8, 9];
    let plan = plan_cycle(&palette, &lights);
    assert_eq!(plan.len(), 3);
    assert_eq!(plan[2].0, 9);
}

#[test]
fn send_failure_does_not_change_later_commands() {
    let palette = vec![
        Rgb { r: 255, g: 0, b: 0 },
        Rgb { r: 0, g: 255, b: 0 },
        Rgb { r: 0, g: 0, b: 255 },
    ];
    let lights = vec![0usize, 1, 2];
    let plan = plan_cycle(&palette, &lights);
    // Whatever happened to the send for light 1, lights 0 and 2 still get
    // their own commands in the same cycle.
    assert_eq!(next_command(&plan, 0, false), Some(plan[0]));
    assert_eq!(next_command(&plan, 1, false), Some(plan[1]));
    assert_eq!(next_command(&plan, 2, true), Some(plan[2]));
    assert_eq!(next_command(&plan, 2, false), Some(plan[2]));
    assert_eq!(next_command(&plan, 3, true), None);
}

#[test]
fn run_cycle_addresses_the_group_in_order() {
    // 4x2 frame whose sampled pixels (0, 3 and 6) carry three distinct
    // luma values: three distinct colors, one command per light.
    let mut buf = vec![81u8; 8];
    buf[3] = 120;
    buf[6] = 180;
    buf.extend_from_slice(&[90, 90]);
    buf.extend_from_slice(&[240, 240]);
    let lights = vec![4usize, 5, 6];
    let plan = run_cycle(&buf, 4, 2, &lights);
    assert_eq!(plan.len(), 3);
    for i in 0..3 {
        assert_eq!(plan[i].0, lights[i]);
    }
}

#[test]
fn run_cycle_on_a_uniform_frame_sends_one_command() {
    // A uniform frame has a single distinct sampled color: one command,
    // to the first light, even with three lights available.
    let mut buf = vec![81u8; 8];
    buf.extend_from_slice(&[90, 90]);
    buf.extend_from_slice(&[240, 240]);
    let lights = vec![4usize, 5, 6];
    let plan = run_cycle(&buf, 4, 2, &lights);
    assert_eq!(plan.len(), 1);
    assert_eq!(plan[0].0, 4);
}
