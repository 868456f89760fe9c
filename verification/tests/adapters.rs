use ipflip::adapters::{
    categories_command, categories_from_document, categorize_interface, device_names_command,
    device_names_from_document, interfaces_command, interfaces_from_listing, is_wireless_text,
    list_network_interfaces, load_interface_categories, load_interface_device_names,
};
use ipflip::command::{document_of_success, run_failure, text_of_output, text_of_success, CommandOutput};
use ipflip::json::{Document, Field, Row};

fn put_out(stdout: &str) -> CommandOutput {
    CommandOutput { success: true, stdout: stdout.as_bytes().to_vec(), stderr: vec![] }
}

fn failed(stdout: &str) -> CommandOutput {
    CommandOutput { success: false, stdout: stdout.as_bytes().to_vec(), stderr: vec![] }
}

fn adapter(name: &str, physical: bool, description: &str) -> Row {
    Row::Fields(vec![
        ("Name".to_string(), Field::Text(name.to_string())),
        ("HardwareInterface".to_string(), Field::Flag(physical)),
        ("InterfaceDescription".to_string(), Field::Text(description.to_string())),
    ])
}

#[test]
fn commands_of_the_listings() {
    let command = interfaces_command();
    assert_eq!(command.program, "netsh");
    assert_eq!(command.arguments, ["interface", "ipv4", "show", "interfaces"]);
    let command = categories_command();
    assert_eq!(command.program, "powershell");
    assert_eq!(
        command.arguments,
        [
            "-NoProfile",
            "-Command",
            "Get-NetAdapter -IncludeHidden -ErrorAction SilentlyContinue | Select-Object Name, HardwareInterface, InterfaceDescription, NdisPhysicalMedium, PhysicalMediaType | ConvertTo-Json -Compress",
        ]
    );
    let command = device_names_command();
    assert_eq!(command.program, "powershell");
    assert_eq!(
        command.arguments,
        [
            "-NoProfile",
            "-Command",
            "Get-NetAdapter -IncludeHidden -ErrorAction SilentlyContinue | Select-Object Name, InterfaceDescription | ConvertTo-Json -Compress",
        ]
    );
}

#[test]
fn names_in_a_listing() {
    let listing = "\r\nIdx     Met         MTU          State                Name\r\n---  ----------  ----------  ------------  ---------------------------\r\n  1          75  4294967295  connected     Loopback Pseudo-Interface 1\r\n 12          25        1500  connected     Wi-Fi\r\n 13          25        1500  disconnected  Ethernet   2 \r\n 14          25        1500  connected     Wi-Fi\r\n 15 25 1500 connected\r\n\r\n";
    let expected = ["Loopback Pseudo-Interface 1", "Wi-Fi", "Ethernet 2"];
    assert_eq!(interfaces_from_listing(Some(listing)), expected);
    assert_eq!(list_network_interfaces(Some(&put_out(listing))), expected);
}

#[test]
fn without_a_listing_there_is_ethernet() {
    let line = " 12          25        1500  connected     Wi-Fi";
    assert_eq!(list_network_interfaces(None), ["Ethernet"]);
    assert_eq!(list_network_interfaces(Some(&failed(line))), ["Ethernet"]);
    assert_eq!(list_network_interfaces(Some(&put_out("nothing\nhere"))), ["Ethernet"]);
    assert_eq!(list_network_interfaces(Some(&put_out(line))), ["Wi-Fi"]);
    assert_eq!(interfaces_from_listing(None), ["Ethernet"]);
    assert_eq!(interfaces_from_listing(Some("")), ["Ethernet"]);
}

#[test]
fn bytes_that_are_no_text_are_replaced() {
    let mut output = put_out("1 2 3 4 Net");
    output.stdout.push(0xff);
    assert_eq!(list_network_interfaces(Some(&output)), ["Net\u{fffd}"]);
    assert_eq!(text_of_output(&vec![b' ', 0xc3, 0xa9, 0x80, b'\n']), "é\u{fffd}");
}

#[test]
fn output_counts_after_success() {
    assert_eq!(text_of_success(Some(&put_out(" a "))).as_deref(), Some(" a "));
    assert_eq!(text_of_success(Some(&failed("a"))), None);
    assert_eq!(text_of_success(None), None);
    assert_eq!(document_of_success(Some(&put_out(" \n"))), None);
    assert_eq!(document_of_success(Some(&put_out(" {"))), None);
    assert_eq!(document_of_success(Some(&failed("{}"))), None);
    let empty = Document::Single(Row::Fields(vec![]));
    assert_eq!(document_of_success(Some(&put_out("\u{a0}{} \r\n"))), Some(empty));
}

#[test]
fn message_for_a_program_that_could_not_be_run() {
    assert_eq!(run_failure("netsh", "not found"), "Failed to run netsh: not found");
}

#[test]
fn categories_of_adapters() {
    assert_eq!(categorize_interface(&adapter("Ethernet", true, "Intel I219-V")), 0);
    assert_eq!(categorize_interface(&adapter("Wi-Fi", true, "Intel AX200")), 1);
    assert_eq!(categorize_interface(&adapter("Net", true, "Realtek 802.11ac")), 1);
    assert_eq!(categorize_interface(&adapter("WLAN", true, "x")), 1);
    assert_eq!(categorize_interface(&adapter("Wi-Fi", false, "WIRELESS")), 2);
    assert_eq!(categorize_interface(&Row::Other), 2);
    let medium = Row::Fields(vec![
        ("HardwareInterface".to_string(), Field::Flag(true)),
        ("NdisPhysicalMedium".to_string(), Field::Text("Native802_11".to_string())),
    ]);
    assert_eq!(categorize_interface(&medium), 1);
    let number = Row::Fields(vec![
        ("HardwareInterface".to_string(), Field::Flag(true)),
        ("NdisPhysicalMedium".to_string(), Field::Count(9)),
        ("PhysicalMediaType".to_string(), Field::Text("802.3".to_string())),
    ]);
    assert_eq!(categorize_interface(&number), 0);
    let text = Row::Fields(vec![(
        "HardwareInterface".to_string(),
        Field::Text("true".to_string()),
    )]);
    assert_eq!(categorize_interface(&text), 2);
}

#[test]
fn texts_that_tell_of_wireless() {
    for lower in ["wireless", "my wifi", "wi-fi", "wlan0", "802.11n", "native802_11"] {
        assert!(is_wireless_text(lower));
    }
    for lower in ["", "ethernet", "Wi-Fi", "802.3", "native802_"] {
        assert!(!is_wireless_text(lower));
    }
}

#[test]
fn categories_in_a_listing() {
    let json = r#"[{"Name":" Ethernet ","HardwareInterface":true},{"Name":"Wi-Fi","HardwareInterface":true},{"HardwareInterface":true},5,{"Name":"VPN","HardwareInterface":false},{"Name":"VPN","HardwareInterface":true}]"#;
    let table = load_interface_categories(Some(&put_out(json)));
    assert_eq!(table.get("Ethernet"), Some(&0));
    assert_eq!(table.get(" Ethernet "), None);
    assert_eq!(table.get("Wi-Fi"), Some(&1));
    assert_eq!(table.get("VPN"), Some(&0));
    assert_eq!(table.get(""), None);
}

#[test]
fn a_listing_may_be_a_single_adapter() {
    let json = r#"{"Name":"Ethernet","HardwareInterface":true,"InterfaceDescription":" Intel "}"#;
    let categories = load_interface_categories(Some(&put_out(json)));
    assert_eq!(categories.get("Ethernet"), Some(&0));
    let devices = load_interface_device_names(Some(&put_out(json)));
    assert_eq!(devices.get("Ethernet").map(|s| s.as_str()), Some("Intel"));
    let other = Document::Single(Row::Other);
    assert_eq!(categories_from_document(&other).get("Ethernet"), None);
    assert_eq!(device_names_from_document(&other).get("Ethernet"), None);
}

#[test]
fn devices_in_a_listing() {
    let rows = Document::Rows(vec![
        adapter(" Ethernet ", true, " Intel I219-V "),
        adapter("Wi-Fi", true, "  "),
        adapter("  ", true, "Nameless"),
        adapter("VPN", true, "First"),
        adapter("VPN", true, "Second"),
        Row::Other,
    ]);
    let table = device_names_from_document(&rows);
    assert_eq!(table.get("Ethernet").map(|s| s.as_str()), Some("Intel I219-V"));
    assert_eq!(table.get("Wi-Fi"), None);
    assert_eq!(table.get(""), None);
    assert_eq!(table.get("VPN").map(|s| s.as_str()), Some("Second"));
}

#[test]
fn without_a_listing_nothing_is_known() {
    let json = r#"[{"Name":"Ethernet","HardwareInterface":true,"InterfaceDescription":"x"}]"#;
    for output in [None, Some(&failed(json)), Some(&put_out("")), Some(&put_out("no json"))] {
        assert_eq!(load_interface_categories(output).get("Ethernet"), None);
        assert_eq!(load_interface_device_names(output).get("Ethernet"), None);
    }
}
