use ipflip::netsh::Change;
use ipflip::profile::IpProfile;
use ipflip::settings::InterfaceSettings;
use ipflip::state::{Action, IpFlipRustApp, StatusTone, WorkerMessage};
use ipflip::table::NameTable;

fn owned(list: &[&str]) -> Vec<String> {
    list.iter().map(|s| s.to_string()).collect()
}

fn profile(name: &str, net_interface: &str, ip: &str) -> IpProfile {
    IpProfile {
        name: name.to_string(),
        net_interface: net_interface.to_string(),
        ip: ip.to_string(),
        mask: "255.255.255.0".to_string(),
        gateway: "10.0.0.1".to_string(),
    }
}

fn empty_app() -> IpFlipRustApp {
    IpFlipRustApp {
        profiles: vec![],
        interfaces: vec![],
        interface_category_by_name: NameTable::new(),
        interface_device_name_by_name: NameTable::new(),
        selected_interface: String::new(),
        ip_text: String::new(),
        mask_text: String::new(),
        gateway_text: String::new(),
        preset_name_text: String::new(),
        current_settings_message: String::new(),
        status_message: String::new(),
        status_tone: StatusTone::Neutral,
        request_id: 0,
        interfaces_loading: false,
        interface_details_loading: false,
    }
}

fn filled_app() -> IpFlipRustApp {
    let mut app = empty_app();
    app.selected_interface = " Ethernet ".to_string();
    app.preset_name_text = " Office ".to_string();
    app.ip_text = " 10.0.0.2".to_string();
    app.mask_text = "255.255.255.0 ".to_string();
    app.gateway_text = "10.0.0.1\t".to_string();
    app
}

fn loaded(interfaces: &[&str]) -> WorkerMessage {
    WorkerMessage::InterfacesLoaded {
        interfaces: owned(interfaces),
        categories: NameTable::new(),
        device_names: NameTable::new(),
    }
}

fn answer(interface_name: &str, ip: &str, request_id: u64, fill_form: bool) -> WorkerMessage {
    WorkerMessage::SettingsLoaded {
        interface_name: interface_name.to_string(),
        settings: Some(InterfaceSettings {
            ip: ip.to_string(),
            mask: "255.0.0.0".to_string(),
            gateway: "10.9.9.9".to_string(),
            dhcp_enabled: Some(true),
        }),
        request_id,
        fill_form,
    }
}

#[test]
fn interface_selector_is_disabled_while_reading_details() {
    let app = IpFlipRustApp {
        profiles: vec![],
        interfaces: vec![],
        interface_category_by_name: NameTable::new(),
        interface_device_name_by_name: NameTable::new(),
        selected_interface: String::new(),
        ip_text: String::new(),
        mask_text: String::new(),
        gateway_text: String::new(),
        preset_name_text: String::new(),
        current_settings_message: String::new(),
        status_message: String::new(),
        status_tone: StatusTone::Neutral,
        request_id: 0,
        interfaces_loading: false,
        interface_details_loading: true,
    };

    assert!(app.interface_selector_disabled());
}

#[test]
fn interface_selector_follows_the_work() {
    let mut app = empty_app();
    assert!(!app.interface_selector_disabled());
    app.interfaces_loading = true;
    assert!(app.interface_selector_disabled());
    app.interface_details_loading = true;
    assert!(app.interface_selector_disabled());
}

#[test]
fn start_without_profiles() {
    let (app, actions) = IpFlipRustApp::new(vec![], false);
    assert_eq!(actions, vec![Action::LoadInterfaces]);
    assert!(app.interfaces_loading);
    assert!(!app.interface_details_loading);
    assert_eq!(app.interfaces, owned(&[]));
    assert_eq!(app.selected_interface, "");
    assert_eq!(app.current_settings_message, "Current settings will appear here.");
    assert_eq!(app.status_message, "Loading network interfaces...");
    assert_eq!(app.status_tone, StatusTone::Neutral);
    assert_eq!(app.request_id, 0);
}

#[test]
fn start_with_profiles() {
    let profiles = vec![profile("Home", "Wi-Fi", "10.0.0.2"), profile("", "Ethernet", "10.0.0.3")];
    let (app, actions) = IpFlipRustApp::new(profiles.clone(), true);
    let reading = Action::ReadSettings {
        interface_name: "Wi-Fi".to_string(),
        request_id: 1,
        fill_form: true,
    };
    assert_eq!(actions, vec![Action::LoadInterfaces, reading]);
    assert_eq!(app.profiles, profiles);
    assert_eq!(app.interfaces, owned(&["Ethernet", "Wi-Fi"]));
    assert_eq!(app.selected_interface, "Wi-Fi");
    assert_eq!(app.preset_name_text, "Home");
    assert_eq!(app.current_settings_message, "Reading Wi-Fi...");
    assert_eq!(app.status_message, "Loading network interfaces...");
    assert_eq!(app.status_tone, StatusTone::Neutral);
    assert!(app.interface_selector_disabled());
}

#[test]
fn status_is_set() {
    let mut app = empty_app();
    app.set_status("m".to_string(), StatusTone::Success);
    assert_eq!(app.status_message, "m");
    assert_eq!(app.status_tone, StatusTone::Success);
}

#[test]
fn name_field_follows_the_first_profile() {
    let mut app = empty_app();
    app.profiles = vec![
        profile("a", "Wi-Fi", "1"),
        profile("b", "Ethernet", "2"),
        profile("c", "Ethernet", "3"),
    ];
    app.selected_interface = "Ethernet".to_string();
    app.sync_preset_name_from_selected();
    assert_eq!(app.preset_name_text, "b");
    app.selected_interface = "ethernet".to_string();
    app.sync_preset_name_from_selected();
    assert_eq!(app.preset_name_text, "");
}

#[test]
fn reloading_offers_the_interfaces_of_the_profiles() {
    let mut app = empty_app();
    app.profiles = vec![
        profile("", "Wi-Fi", "1"),
        profile("", " ", "2"),
        profile("", "Ethernet", "3"),
        profile("", "Wi-Fi", "4"),
    ];
    app.interfaces = owned(&["gone"]);
    assert_eq!(app.reload_interfaces_async(), Some(Action::LoadInterfaces));
    assert_eq!(app.interfaces, owned(&["Ethernet", "Wi-Fi"]));
    assert_eq!(app.selected_interface, "Ethernet");
    assert!(app.interfaces_loading);
    app.interfaces = owned(&["other"]);
    app.status_message = "x".to_string();
    assert_eq!(app.reload_interfaces_async(), None);
    assert_eq!(app.interfaces, owned(&["other"]));
    assert_eq!(app.status_message, "x");
}

#[test]
fn equal_names_apart_stay_while_reloading() {
    let mut app = empty_app();
    app.profiles = vec![profile("", "eth", "1"), profile("", "ETH", "2"), profile("", "eth", "3")];
    app.reload_interfaces_async();
    assert_eq!(app.interfaces, owned(&["eth", "ETH", "eth"]));
}

#[test]
fn requests_are_numbered() {
    let mut app = empty_app();
    let first = app.request_interface_settings("Wi-Fi".to_string(), false);
    let expected = Action::ReadSettings {
        interface_name: "Wi-Fi".to_string(),
        request_id: 1,
        fill_form: false,
    };
    assert_eq!(first, Some(expected));
    assert_eq!(app.request_id, 1);
    assert!(app.interface_details_loading);
    assert_eq!(app.current_settings_message, "Reading Wi-Fi...");
    app.request_id = u64::MAX;
    let last = app.request_interface_settings("Wi-Fi".to_string(), true);
    let expected = Action::ReadSettings {
        interface_name: "Wi-Fi".to_string(),
        request_id: u64::MAX,
        fill_form: true,
    };
    assert_eq!(last, Some(expected));
    assert_eq!(app.request_interface_settings(" ".to_string(), true), None);
    assert_eq!(app.request_id, u64::MAX);
    assert!(!app.interface_details_loading);
    assert_eq!(app.current_settings_message, "Select an interface.");
}

#[test]
fn static_settings_are_applied() {
    let mut app = filled_app();
    let action = app.apply_static_async();
    let expected = Action::Apply {
        change: Change {
            interface: "Ethernet".to_string(),
            ip: Some("10.0.0.2".to_string()),
            mask: Some("255.255.255.0".to_string()),
            gateway: Some("10.0.0.1".to_string()),
        },
        profile_to_save: Some(profile("Office", "Ethernet", "10.0.0.2")),
        success_message: "Static IP applied and saved.".to_string(),
    };
    assert_eq!(action, Some(expected));
    assert_eq!(app.status_message, "Applying static IP...");
    assert_eq!(app.status_tone, StatusTone::Neutral);
    assert_eq!(app.profiles, vec![]);
    assert_eq!(app.ip_text, " 10.0.0.2");
}

#[test]
fn refused_forms_tell_why() {
    let incomplete = "For static mode, interface, ip, mask, and gateway are required.";
    let to_save = "To save, interface, ip, mask, and gateway are required.";
    let invalid = "IP, mask, and gateway must be valid IPv4 values.";
    for field in 0..7 {
        let mut app = filled_app();
        match field {
            0 => app.selected_interface = " ".to_string(),
            1 => app.ip_text = "  ".to_string(),
            2 => app.mask_text = String::new(),
            3 => app.gateway_text = "\t".to_string(),
            4 => app.ip_text = "10.0.0.256".to_string(),
            5 => app.mask_text = "255.255.255".to_string(),
            _ => app.gateway_text = "10.0.0.01".to_string(),
        }
        assert_eq!(app.apply_static_async(), None);
        let expected = match field {
            0 => "Interface is required.",
            1 | 2 | 3 => incomplete,
            _ => invalid,
        };
        assert_eq!(app.status_message, expected);
        assert_eq!(app.status_tone, StatusTone::Danger);
        assert_eq!(app.save_profile(), None);
        let expected = match field {
            0 => "Interface is required.",
            1 | 2 | 3 => to_save,
            _ => invalid,
        };
        assert_eq!(app.status_message, expected);
        assert_eq!(app.profiles, vec![]);
    }
}

#[test]
fn dhcp_is_applied() {
    let mut app = filled_app();
    let apply = |interface: &str| Action::Apply {
        change: Change { interface: interface.to_string(), ip: None, mask: None, gateway: None },
        profile_to_save: None,
        success_message: "Automatic IP (DHCP) applied.".to_string(),
    };
    assert_eq!(app.apply_dhcp_async(), apply("Ethernet"));
    assert_eq!(app.status_message, "Applying DHCP...");
    app.selected_interface = " Wi-Fi".to_string();
    assert_eq!(app.apply_dhcp_async(), apply("Wi-Fi"));
    app.selected_interface = " ".to_string();
    assert_eq!(app.apply_dhcp_async(), apply("Ethernet"));
}

#[test]
fn profiles_are_saved_once() {
    let mut app = filled_app();
    app.interfaces = owned(&["Wi-Fi"]);
    let expected = vec![profile("Office", "Ethernet", "10.0.0.2")];
    let action = app.save_profile();
    assert_eq!(action, Some(Action::SaveProfiles { profiles: expected.clone() }));
    assert_eq!(app.profiles, expected);
    assert_eq!(app.preset_name_text, "Office");
    assert_eq!(app.interfaces, owned(&["Ethernet", "Wi-Fi"]));
    assert_eq!(app.status_message, "Configuration saved.");
    assert_eq!(app.status_tone, StatusTone::Success);
    app.set_status(String::new(), StatusTone::Neutral);
    assert_eq!(app.save_profile(), None);
    assert_eq!(app.profiles, expected);
    assert_eq!(app.status_message, "Configuration saved.");
}

#[test]
fn removing_gives_the_list_back() {
    let mut app = empty_app();
    let given = vec![profile("a", "Ethernet", "1"), profile("b", "Wi-Fi", "2")];
    app.profiles = given.clone();
    let extra = profile("c", "Ethernet", "3");
    assert!(app.add_profile(extra.clone()).is_some());
    assert_eq!(app.profiles.len(), 3);
    assert_eq!(app.remove_profile(&extra), Action::SaveProfiles { profiles: given.clone() });
    assert_eq!(app.profiles, given);
}

#[test]
fn removing_takes_every_copy() {
    let mut app = empty_app();
    let twice = profile("a", "Ethernet", "1");
    let other = profile("b", "Ethernet", "1");
    app.profiles = vec![twice.clone(), other.clone(), twice.clone()];
    let action = app.delete_profile(&twice);
    assert_eq!(action, Action::SaveProfiles { profiles: vec![other.clone()] });
    assert_eq!(app.profiles, vec![other]);
    assert_eq!(app.status_message, "Profile deleted.");
    assert_eq!(app.status_tone, StatusTone::Neutral);
}

#[test]
fn listed_interfaces_are_offered_with_those_of_profiles() {
    let mut app = empty_app();
    app.profiles = vec![profile("", "VPN", "1"), profile("", "Wi-Fi", "2"), profile("", "", "3")];
    app.interfaces_loading = true;
    app.status_message = "Loading network interfaces...".to_string();
    let mut categories: NameTable<u8> = NameTable::new();
    categories.insert("Ethernet".to_string(), 2);
    let mut device_names: NameTable<String> = NameTable::new();
    device_names.insert("Wi-Fi".to_string(), "Intel AX200".to_string());
    let message = WorkerMessage::InterfacesLoaded {
        interfaces: owned(&["Wi-Fi", "Ethernet"]),
        categories,
        device_names,
    };
    let actions = app.process_worker_message(message);
    assert_eq!(app.interfaces, owned(&["Wi-Fi", "Ethernet", "VPN"]));
    assert_eq!(app.selected_interface, "Wi-Fi");
    let reading = Action::ReadSettings {
        interface_name: "Wi-Fi".to_string(),
        request_id: 1,
        fill_form: true,
    };
    assert_eq!(actions, vec![reading]);
    assert!(!app.interfaces_loading);
    assert_eq!(app.status_message, "");
    assert_eq!(app.interface_label("Wi-Fi"), "Wi-Fi\nIntel AX200");
    assert_eq!(app.interface_label("VPN"), "VPN");
}

#[test]
fn a_chosen_interface_stays_chosen() {
    let mut app = empty_app();
    app.selected_interface = "Gone".to_string();
    app.status_message = "Configuration saved.".to_string();
    assert_eq!(app.process_worker_message(loaded(&["Ethernet"])), vec![]);
    assert_eq!(app.selected_interface, "Gone");
    assert_eq!(app.status_message, "Configuration saved.");
    assert_eq!(app.request_id, 0);
}

#[test]
fn settings_fill_the_form() {
    let mut app = empty_app();
    app.selected_interface = "Ethernet".to_string();
    app.request_interface_settings("Ethernet".to_string(), true);
    assert_eq!(app.process_worker_message(answer("Ethernet", "10.0.0.7", 1, true)), vec![]);
    assert_eq!(app.ip_text, "10.0.0.7");
    assert_eq!(app.mask_text, "255.0.0.0");
    assert_eq!(app.gateway_text, "10.9.9.9");
    assert!(!app.interface_details_loading);
    let shown = "Ethernet · DHCP\nIP 10.0.0.7\nMask 255.0.0.0\nGateway 10.9.9.9";
    assert_eq!(app.current_settings_message, shown);
}

#[test]
fn settings_may_leave_the_form_alone() {
    let mut app = filled_app();
    app.selected_interface = "Ethernet".to_string();
    app.process_worker_message(answer("Ethernet", "10.0.0.7", 0, false));
    assert_eq!(app.ip_text, " 10.0.0.2");
    assert!(app.current_settings_message.starts_with("Ethernet · DHCP\nIP 10.0.0.7\n"));
    let unavailable = WorkerMessage::SettingsLoaded {
        interface_name: "Ethernet".to_string(),
        settings: None,
        request_id: 0,
        fill_form: true,
    };
    app.interface_details_loading = true;
    app.process_worker_message(unavailable);
    assert_eq!(app.current_settings_message, "Ethernet: unavailable");
    assert_eq!(app.ip_text, " 10.0.0.2");
    assert!(!app.interface_details_loading);
}

#[test]
fn stale_settings_are_passed_over() {
    let mut app = empty_app();
    app.selected_interface = "Ethernet".to_string();
    app.request_interface_settings("Ethernet".to_string(), true);
    app.request_interface_settings("Ethernet".to_string(), true);
    app.process_worker_message(answer("Ethernet", "10.0.0.7", 1, true));
    app.process_worker_message(answer("Wi-Fi", "10.0.0.8", 2, true));
    assert_eq!(app.ip_text, "");
    assert!(app.interface_details_loading);
    assert_eq!(app.current_settings_message, "Reading Ethernet...");
    app.process_worker_message(answer("Ethernet", "10.0.0.9", 2, true));
    assert_eq!(app.ip_text, "10.0.0.9");
}

#[test]
fn successful_changes_are_saved() {
    let mut app = filled_app();
    let saved = profile("Office", "Ethernet", "10.0.0.2");
    let message = || WorkerMessage::ApplyCompleted {
        interface_name: "Ethernet".to_string(),
        result: Ok(()),
        profile_to_save: Some(saved.clone()),
        success_message: "Static IP applied and saved.".to_string(),
    };
    let reading = |request_id: u64| Action::ReadSettings {
        interface_name: "Ethernet".to_string(),
        request_id,
        fill_form: true,
    };
    let actions = app.process_worker_message(message());
    let saving = Action::SaveProfiles { profiles: vec![saved.clone()] };
    assert_eq!(actions, vec![saving, reading(1)]);
    assert_eq!(app.profiles, vec![saved.clone()]);
    assert_eq!(app.status_message, "Static IP applied and saved.");
    assert_eq!(app.status_tone, StatusTone::Success);
    assert_eq!(app.process_worker_message(message()), vec![reading(2)]);
    assert_eq!(app.profiles, vec![saved.clone()]);
}

#[test]
fn failed_changes_are_told() {
    let mut app = filled_app();
    let message = WorkerMessage::ApplyCompleted {
        interface_name: "Ethernet".to_string(),
        result: Err("Failed".to_string()),
        profile_to_save: Some(profile("Office", "Ethernet", "10.0.0.2")),
        success_message: "Static IP applied and saved.".to_string(),
    };
    assert_eq!(app.process_worker_message(message), vec![]);
    assert_eq!(app.profiles, vec![]);
    assert_eq!(app.status_message, "Failed");
    assert_eq!(app.status_tone, StatusTone::Danger);
    assert_eq!(app.request_id, 0);
}

#[test]
fn messages_are_taken_one_after_the_other() {
    let batch = || {
        vec![
            loaded(&["Wi-Fi", "Ethernet"]),
            answer("Ethernet", "10.0.0.7", 1, true),
            WorkerMessage::ApplyCompleted {
                interface_name: "Ethernet".to_string(),
                result: Ok(()),
                profile_to_save: None,
                success_message: "Automatic IP (DHCP) applied.".to_string(),
            },
        ]
    };
    let mut at_once = empty_app();
    let all = at_once.process_worker_messages(batch());
    let mut one_by_one = empty_app();
    let mut collected: Vec<Action> = vec![];
    for message in batch() {
        collected.extend(one_by_one.process_worker_messages(vec![message]));
    }
    assert_eq!(all, collected);
    assert_eq!(all.len(), 2);
    assert_eq!(at_once.ip_text, one_by_one.ip_text);
    assert_eq!(at_once.ip_text, "10.0.0.7");
    assert_eq!(at_once.request_id, 2);
    assert_eq!(at_once.process_worker_messages(vec![]), vec![]);
}

#[test]
fn clicks_load_profiles() {
    let mut app = empty_app();
    let clicked = profile("Office", "Ethernet", "10.0.0.2");
    assert_eq!(app.profile_clicked(&clicked, true, false, true), None);
    assert_eq!(app.selected_interface, "");
    assert_eq!(app.profile_clicked(&clicked, true, false, false), None);
    assert_eq!(app.selected_interface, "Ethernet");
    assert_eq!(app.preset_name_text, "Office");
    assert_eq!(app.ip_text, "10.0.0.2");
    assert_eq!(app.mask_text, "255.255.255.0");
    assert_eq!(app.gateway_text, "10.0.0.1");
    assert_eq!(app.status_message, "Loaded saved profile into form.");
    app.profiles = vec![clicked.clone()];
    assert_eq!(app.save_profile(), None);
    assert_eq!(app.profiles, vec![clicked]);
}

#[test]
fn double_clicks_apply_profiles() {
    let mut app = empty_app();
    let clicked = profile("Office", "Ethernet", "10.0.0.2");
    assert_eq!(app.profile_clicked(&clicked, true, true, true), None);
    let action = app.profile_clicked(&clicked, true, true, false);
    assert!(matches!(action, Some(Action::Apply { .. })));
    assert_eq!(app.status_message, "Applying static IP...");
    assert_eq!(app.ip_text, "10.0.0.2");
}

#[test]
fn renaming_changes_one_profile() {
    let mut app = empty_app();
    app.profiles = vec![profile("a", "Ethernet", "1"), profile("b", "Wi-Fi", "2")];
    app.selected_interface = "Wi-Fi".to_string();
    app.preset_name_text = "b".to_string();
    let action = app.rename_profile(1, " Home ");
    let expected = vec![profile("a", "Ethernet", "1"), profile("Home", "Wi-Fi", "2")];
    assert_eq!(action, Some(Action::SaveProfiles { profiles: expected.clone() }));
    assert_eq!(app.profiles, expected);
    assert_eq!(app.preset_name_text, "Home");
    app.rename_profile(0, "Ethernet");
    assert_eq!(app.profiles[0].name, "");
    assert_eq!(app.preset_name_text, "Home");
    assert_eq!(app.rename_profile(2, "x"), None);
}

#[test]
fn choosing_an_interface_reads_its_settings() {
    let mut app = empty_app();
    app.profiles = vec![profile("Home", "Wi-Fi", "2")];
    let action = app.interface_chosen("Wi-Fi".to_string());
    let expected = Action::ReadSettings {
        interface_name: "Wi-Fi".to_string(),
        request_id: 1,
        fill_form: true,
    };
    assert_eq!(action, Some(expected));
    assert_eq!(app.selected_interface, "Wi-Fi");
    assert_eq!(app.preset_name_text, "Home");
    assert!(app.interface_selector_disabled());
}

#[test]
fn usual_mask_is_filled_in() {
    let mut app = empty_app();
    app.ip_text = " ".to_string();
    app.fill_default_mask();
    assert_eq!(app.mask_text, "");
    app.ip_text = "1".to_string();
    app.fill_default_mask();
    assert_eq!(app.mask_text, "255.255.255.0");
    app.mask_text = "x".to_string();
    app.fill_default_mask();
    assert_eq!(app.mask_text, "x");
}

#[test]
fn texts_of_the_selector() {
    let mut app = empty_app();
    assert_eq!(app.selector_text(), "Select interface");
    app.selected_interface = "Wi-Fi".to_string();
    assert_eq!(app.selector_text(), "Wi-Fi");
    app.interface_device_name_by_name.insert("Wi-Fi".to_string(), " ".to_string());
    assert_eq!(app.interface_label("Wi-Fi"), "Wi-Fi");
}
