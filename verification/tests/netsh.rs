use ipflip::command::{CommandLine, CommandOutput};
use ipflip::netsh::{
    change_commands, change_ip_address, failure_message, Change, Outcome, Step,
};

fn dhcp() -> Change {
    Change { interface: "Wi-Fi 2".to_string(), ip: None, mask: None, gateway: None }
}

fn fixed() -> Change {
    Change {
        interface: "Ethernet".to_string(),
        ip: Some("10.0.0.5".to_string()),
        mask: Some("255.0.0.0".to_string()),
        gateway: Some("10.0.0.1".to_string()),
    }
}

fn netsh(arguments: &[&str]) -> CommandLine {
    CommandLine {
        program: "netsh".to_string(),
        arguments: arguments.iter().map(|s| s.to_string()).collect(),
    }
}

fn ran(success: bool, stdout: &str, stderr: &str) -> Outcome {
    Outcome::Ran(CommandOutput {
        success,
        stdout: stdout.as_bytes().to_vec(),
        stderr: stderr.as_bytes().to_vec(),
    })
}

#[test]
fn commands_of_changes() {
    let expected = vec![
        netsh(&["interface", "ipv4", "set", "address", "name=Wi-Fi 2", "source=dhcp"]),
        netsh(&["interface", "ipv4", "set", "dnsservers", "name=Wi-Fi 2", "source=dhcp"]),
    ];
    assert_eq!(change_commands(&dhcp()), Some(expected));
    let expected = vec![netsh(&[
        "interface",
        "ipv4",
        "set",
        "address",
        "name=Ethernet",
        "source=static",
        "address=10.0.0.5",
        "mask=255.0.0.0",
        "gateway=10.0.0.1",
        "gwmetric=1",
    ])];
    assert_eq!(change_commands(&fixed()), Some(expected));
}

#[test]
fn successful_changes_run_every_command() {
    let commands = change_commands(&dhcp()).unwrap();
    let mut outcomes: Vec<Outcome> = vec![];
    for command in commands {
        assert_eq!(change_ip_address(&dhcp(), &outcomes), Step::Run(command));
        outcomes.push(ran(true, "Ok.", "warning"));
    }
    assert_eq!(change_ip_address(&dhcp(), &outcomes), Step::Done);
    assert!(matches!(change_ip_address(&fixed(), &vec![]), Step::Run(_)));
    assert_eq!(change_ip_address(&fixed(), &vec![ran(true, "", "")]), Step::Done);
}

#[test]
fn partial_changes_fail() {
    let message = "Provide all of ip, mask, and gateway, or provide none for DHCP.";
    for missing in 0..3 {
        let mut change = fixed();
        match missing {
            0 => change.ip = None,
            1 => change.mask = None,
            _ => change.gateway = None,
        }
        assert_eq!(change_commands(&change), None);
        assert_eq!(change_ip_address(&change, &vec![]), Step::Failed(message.to_string()));
    }
}

#[test]
fn failures_are_told() {
    let fail = |outcome: Outcome| change_ip_address(&fixed(), &vec![outcome]);
    let told = |error: &str| {
        Step::Failed(format!("Failed to change IP settings for 'Ethernet': {error}"))
    };
    assert_eq!(fail(ran(false, "out", " err\r\n")), told("err"));
    assert_eq!(fail(ran(false, "\nout ", " ")), told("out"));
    assert_eq!(fail(ran(false, "\n", "")), told("Unknown error"));
    let message = failure_message("VPN", "", "no");
    assert_eq!(message, "Failed to change IP settings for 'VPN': no");
    let expected = Step::Failed("Failed to run netsh: no such file".to_string());
    assert_eq!(fail(Outcome::NotRun("no such file".to_string())), expected);
}

#[test]
fn the_first_failure_ends_a_change() {
    let first = Step::Failed("Failed to change IP settings for 'Wi-Fi 2': a".to_string());
    let mut outcomes = vec![ran(false, "a", "")];
    assert_eq!(change_ip_address(&dhcp(), &outcomes), first);
    outcomes.push(Outcome::NotRun("b".to_string()));
    assert_eq!(change_ip_address(&dhcp(), &outcomes), first);
    let later = vec![ran(true, "", ""), ran(false, "", "c")];
    let expected = Step::Failed("Failed to change IP settings for 'Wi-Fi 2': c".to_string());
    assert_eq!(change_ip_address(&dhcp(), &later), expected);
}
