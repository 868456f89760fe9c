use ipflip::profile::IpProfile;
use ipflip::state::StatusTone;
use ipflip::window::{
    data_root, elevation_badge, elevation_missing, ensure_windows_elevation, is_windows_admin,
    load_window_icon, profile_details, status_colors, Rgb, WindowIcon,
};

/// A picture of two points in one row.
const PNG: [u8; 74] = [
    137, 80, 78, 71, 13, 10, 26, 10, 0, 0, 0, 13, 73, 72, 68, 82, 0, 0, 0, 2, 0, 0, 0, 1, 8, 6, 0,
    0, 0, 244, 34, 127, 138, 0, 0, 0, 17, 73, 68, 65, 84, 120, 156, 99, 96, 100, 98, 254, 207, 37,
    34, 215, 0, 0, 6, 76, 1, 194, 68, 159, 130, 159, 0, 0, 0, 0, 73, 69, 78, 68, 174, 66, 96, 130,
];

fn picture() -> WindowIcon {
    WindowIcon { rgba: vec![1, 2, 3, 255, 10, 20, 30, 128], width: 2, height: 1 }
}

#[test]
fn pictures_are_decoded() {
    assert_eq!(load_window_icon(&PNG), Some(picture()));
}

#[test]
fn icons_hold_pictures() {
    let mut icon: Vec<u8> = vec![0, 0, 1, 0, 1, 0, 2, 1, 0, 0, 1, 0, 32, 0, 74, 0, 0, 0, 22, 0, 0, 0];
    icon.extend_from_slice(&PNG);
    assert_eq!(load_window_icon(&icon), Some(picture()));
}

#[test]
fn other_bytes_are_no_picture() {
    assert_eq!(load_window_icon(&[]), None);
    assert_eq!(load_window_icon(&[1, 2, 3]), None);
    assert_eq!(load_window_icon(&PNG[..40]), None);
}

#[test]
fn colors_of_messages() {
    let rgb = |red: u8, green: u8, blue: u8| Rgb { red, green, blue };
    assert_eq!(status_colors(StatusTone::Neutral), (rgb(24, 28, 38), rgb(148, 155, 175)));
    assert_eq!(status_colors(StatusTone::Success), (rgb(20, 40, 36), rgb(52, 211, 153)));
    assert_eq!(status_colors(StatusTone::Danger), (rgb(43, 22, 24), rgb(248, 113, 113)));
}

#[test]
fn rights_of_the_program() {
    ensure_windows_elevation();
    assert!(is_windows_admin(Some(1)));
    assert!(is_windows_admin(Some(-1)));
    assert!(!is_windows_admin(Some(0)));
    assert!(!is_windows_admin(None));
    assert!(elevation_missing(true, false));
    assert!(!elevation_missing(true, true));
    assert!(!elevation_missing(false, false));
    assert_eq!(elevation_badge(true), (StatusTone::Danger, "Not elevated"));
    assert_eq!(elevation_badge(false), (StatusTone::Success, "Administrator"));
}

#[test]
fn details_of_a_profile() {
    let profile = IpProfile {
        name: "n".to_string(),
        net_interface: "e".to_string(),
        ip: "1.1.1.1".to_string(),
        mask: "255.0.0.0".to_string(),
        gateway: "1.0.0.1".to_string(),
    };
    assert_eq!(profile_details(&profile), "mask 255.0.0.0  ·  gw 1.0.0.1");
}

#[test]
fn directory_of_the_program() {
    assert_eq!(data_root(Some("a"), Some("b"), "."), "a");
    assert_eq!(data_root(None, Some("b"), "."), "b");
    assert_eq!(data_root(None, None, "."), ".");
}
