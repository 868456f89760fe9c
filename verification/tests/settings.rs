use ipflip::command::CommandOutput;
use ipflip::json::{Document, Field, Row};
use ipflip::settings::{
    describe_settings, get_interface_ipv4_settings, ipv4_settings_command, settings_from_document,
    InterfaceSettings,
};

fn put_out(stdout: &str) -> CommandOutput {
    CommandOutput { success: true, stdout: stdout.as_bytes().to_vec(), stderr: vec![] }
}

fn read(stdout: &str) -> Option<InterfaceSettings> {
    get_interface_ipv4_settings("Ethernet", Some(&put_out(stdout)))
}

fn settings(ip: &str, mask: &str, gateway: &str, dhcp: Option<bool>) -> InterfaceSettings {
    InterfaceSettings {
        ip: ip.to_string(),
        mask: mask.to_string(),
        gateway: gateway.to_string(),
        dhcp_enabled: dhcp,
    }
}

#[test]
fn command_for_settings() {
    let command = ipv4_settings_command("Wi-Fi \"2\"\\\n\u{1}é").unwrap();
    assert_eq!(command.program, "powershell");
    assert_eq!(command.arguments[0], "-NoProfile");
    assert_eq!(command.arguments[1], "-Command");
    assert_eq!(
        command.arguments[2],
        "$alias = \"Wi-Fi \\\"2\\\"\\\\\\n\\u0001é\"; $ipif = Get-NetIPInterface -InterfaceAlias $alias -AddressFamily IPv4 -ErrorAction SilentlyContinue | Select-Object -First 1; Get-NetIPConfiguration -InterfaceAlias $alias -Detailed -ErrorAction SilentlyContinue | Select-Object -First 1 -Property @(@{Name='DhcpEnabled'; Expression={ if ($ipif) { [bool]($ipif.Dhcp -eq 'Enabled') } else { $null } }}, @{Name='IPAddress'; Expression={ ($_.IPv4Address | Select-Object -First 1).IPAddress }}, @{Name='PrefixLength'; Expression={ ($_.IPv4Address | Select-Object -First 1).PrefixLength }}, @{Name='DefaultGateway'; Expression={ ($_.IPv4DefaultGateway | Select-Object -First 1).NextHop }}) | ConvertTo-Json -Compress"
    );
    assert_eq!(command.arguments.len(), 3);
}

#[test]
fn quoting_every_control_character() {
    for n in 0u32..0x80 {
        let c = char::from_u32(n).unwrap();
        let command = ipv4_settings_command(&format!("a{c}b")).unwrap();
        let inside = match n {
            8 => "\\b".to_string(),
            9 => "\\t".to_string(),
            10 => "\\n".to_string(),
            12 => "\\f".to_string(),
            13 => "\\r".to_string(),
            34 => "\\\"".to_string(),
            92 => "\\\\".to_string(),
            _ if n < 32 => format!("\\u{n:04x}"),
            _ => format!("{c}"),
        };
        assert!(command.arguments[2].starts_with(&format!("$alias = \"a{inside}b\"; ")));
    }
}

#[test]
fn no_command_for_a_blank_name() {
    assert_eq!(ipv4_settings_command(""), None);
    assert_eq!(ipv4_settings_command(" \t"), None);
}

#[test]
fn settings_are_read() {
    let json = r#" {"DhcpEnabled":true,"IPAddress":"10.0.0.5","PrefixLength":24,"DefaultGateway":"10.0.0.1"} "#;
    let expected = settings("10.0.0.5", "255.255.255.0", "10.0.0.1", Some(true));
    assert_eq!(read(json), Some(expected));
}

#[test]
fn missing_settings_are_empty() {
    assert_eq!(read(r#"{"IPAddress":"10.0.0.5"}"#), Some(settings("10.0.0.5", "", "", None)));
    assert_eq!(read(r#"{"DhcpEnabled":false}"#), Some(settings("", "", "", Some(false))));
    assert_eq!(read(r#"{"PrefixLength":0}"#), Some(settings("", "0.0.0.0", "", None)));
    assert_eq!(read(r#"{"DefaultGateway":"g","IPAddress":4}"#), Some(settings("", "", "g", None)));
}

#[test]
fn settings_that_tell_nothing() {
    for json in [
        "",
        "{}",
        "[]",
        "null",
        "{",
        r#"[{"IPAddress":"10.0.0.5"}]"#,
        r#"{"DhcpEnabled":null,"IPAddress":null,"PrefixLength":null,"DefaultGateway":null}"#,
        r#"{"PrefixLength":33}"#,
        r#"{"PrefixLength":-1}"#,
        r#"{"PrefixLength":24.0}"#,
        r#"{"PrefixLength":"24"}"#,
    ] {
        assert_eq!(read(json), None, "{json}");
    }
}

#[test]
fn only_the_lower_bits_of_a_prefix_length_count() {
    let expected = settings("", "255.255.255.0", "", None);
    assert_eq!(read(r#"{"PrefixLength":4294967320}"#), Some(expected));
    assert_eq!(read(r#"{"PrefixLength":4294967295}"#), None);
    assert_eq!(read(r#"{"PrefixLength":18446744073709551615}"#), None);
}

#[test]
fn no_settings_without_an_interface_or_output() {
    let output = put_out(r#"{"IPAddress":"10.0.0.5"}"#);
    assert_eq!(get_interface_ipv4_settings(" ", Some(&output)), None);
    assert_eq!(get_interface_ipv4_settings("Ethernet", None), None);
    let failed = CommandOutput { success: false, ..output };
    assert_eq!(get_interface_ipv4_settings("Ethernet", Some(&failed)), None);
}

#[test]
fn settings_of_a_document() {
    let row = Row::Fields(vec![("PrefixLength".to_string(), Field::Count(16))]);
    let expected = settings("", "255.255.0.0", "", None);
    assert_eq!(settings_from_document(&Document::Single(row)), Some(expected));
    assert_eq!(settings_from_document(&Document::Single(Row::Other)), None);
    assert_eq!(settings_from_document(&Document::Rows(vec![])), None);
}

#[test]
fn settings_as_they_are_shown() {
    let all = Some(settings("10.0.0.5", "255.0.0.0", "10.0.0.1", Some(true)));
    assert_eq!(
        describe_settings("Ethernet", &all),
        "Ethernet · DHCP\nIP 10.0.0.5\nMask 255.0.0.0\nGateway 10.0.0.1"
    );
    let none = Some(settings("", "", "", None));
    assert_eq!(
        describe_settings("Wi-Fi", &none),
        "Wi-Fi · Static\nIP Unassigned\nMask Unassigned\nGateway Unassigned"
    );
    let fixed = Some(settings("1", "2", "", Some(false)));
    assert_eq!(
        describe_settings("E", &fixed),
        "E · Static\nIP 1\nMask 2\nGateway Unassigned"
    );
    assert_eq!(describe_settings("E", &None), "E: unavailable");
}
