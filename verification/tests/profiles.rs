use ipflip::json::{read_document, Document, Field, Row};
use ipflip::profile::{
    load_profiles, normalized_name, profile_label, profiles_from_document, save_profiles, IpProfile,
};

fn profile(name: &str, net_interface: &str, ip: &str) -> IpProfile {
    IpProfile {
        name: name.to_string(),
        net_interface: net_interface.to_string(),
        ip: ip.to_string(),
        mask: "255.255.255.0".to_string(),
        gateway: "10.0.0.1".to_string(),
    }
}

#[test]
fn legacy_profile_json_without_name_deserializes() {
    let raw = r#"[{"net_interface":"Ethernet","ip":"192.168.1.10","mask":"255.255.255.0","gateway":"192.168.1.1"}]"#;
    let profiles: Vec<IpProfile> = load_profiles(Some(raw));

    assert_eq!(profiles.len(), 1);
    assert_eq!(profiles[0].name, "");
}

#[test]
fn profiles_are_written_indented() {
    let profiles = vec![profile("Of\"fice", "Ethernet", "10.0.0.2")];
    let expected = "[\n  {\n    \"name\": \"Of\\\"fice\",\n    \"net_interface\": \"Ethernet\",\n    \"ip\": \"10.0.0.2\",\n    \"mask\": \"255.255.255.0\",\n    \"gateway\": \"10.0.0.1\"\n  }\n]";
    assert_eq!(save_profiles(&profiles).as_deref(), Some(expected));
    assert_eq!(save_profiles(&[]).as_deref(), Some("[]"));
    let one = expected.strip_prefix("[\n").unwrap().strip_suffix("\n]").unwrap();
    let twice = vec![profiles[0].clone(), profiles[0].clone()];
    assert_eq!(save_profiles(&twice), Some(format!("[\n{one},\n{one}\n]")));
}

#[test]
fn saved_profiles_come_back() {
    let profiles = vec![
        profile("Office", "Ethernet", "10.0.0.2"),
        profile("", "Wi-Fi \u{e9}\n\t\\\u{1}", "10.0.0.3"),
        profile("Office", "Ethernet", "10.0.0.2"),
    ];
    let text = save_profiles(&profiles).unwrap();
    assert_eq!(load_profiles(Some(&text)), profiles);
}

#[test]
fn incomplete_profiles_do_not_come_back() {
    let profiles = vec![
        profile("a", "", "10.0.0.2"),
        profile("b", "Ethernet", ""),
        profile("c", "Ethernet", "10.0.0.2"),
    ];
    let text = save_profiles(&profiles).unwrap();
    assert_eq!(load_profiles(Some(&text)), vec![profile("c", "Ethernet", "10.0.0.2")]);
}

#[test]
fn older_files_name_the_interface_otherwise() {
    let raw = r#"[{"name":"n","interface":"Ethernet","ip":"10.0.0.2","mask":"255.255.255.0","gateway":"10.0.0.1"}]"#;
    assert_eq!(load_profiles(Some(raw)), vec![profile("n", "Ethernet", "10.0.0.2")]);
    let both = r#"[{"interface":"Old","net_interface":"New","ip":"10.0.0.2","mask":"255.255.255.0","gateway":"10.0.0.1"}]"#;
    assert_eq!(load_profiles(Some(both)), vec![profile("", "New", "10.0.0.2")]);
    let null = r#"[{"interface":"Old","net_interface":null,"ip":"10.0.0.2","mask":"255.255.255.0","gateway":"10.0.0.1"}]"#;
    assert_eq!(load_profiles(Some(null)), vec![]);
}

#[test]
fn rows_that_are_no_profiles_are_passed_over() {
    let raw = r#"[1, "x", [], {}, {"net_interface":"Ethernet","ip":1,"mask":"m","gateway":"g"},
        {"name":5,"net_interface":"E","ip":"i","mask":"m","gateway":"g","more":[{}]}]"#;
    let profiles = load_profiles(Some(raw));
    assert_eq!(profiles.len(), 1);
    assert_eq!(profiles[0].name, "");
    assert_eq!(profiles[0].net_interface, "E");
}

#[test]
fn files_without_profiles() {
    for content in [None, Some(""), Some("{}"), Some("[]"), Some("[{]"), Some("null"), Some("3")] {
        assert_eq!(load_profiles(content), vec![]);
    }
}

#[test]
fn the_last_of_two_fields_of_a_name_counts() {
    let raw = r#"[{"net_interface":"A","ip":"i","mask":"m","gateway":"g","net_interface":"B"}]"#;
    assert_eq!(load_profiles(Some(raw))[0].net_interface, "B");
}

#[test]
fn documents_are_read() {
    let document = read_document(r#"{"a":"x","b":true,"c":7,"d":-7,"e":1.5,"f":null,"g":[1]}"#);
    let expected = Document::Single(Row::Fields(vec![
        ("a".to_string(), Field::Text("x".to_string())),
        ("b".to_string(), Field::Flag(true)),
        ("c".to_string(), Field::Count(7)),
        ("d".to_string(), Field::Other),
        ("e".to_string(), Field::Other),
        ("f".to_string(), Field::Other),
        ("g".to_string(), Field::Other),
    ]));
    assert_eq!(document, Some(expected));
    let rows = Document::Rows(vec![Row::Fields(vec![]), Row::Other]);
    assert_eq!(read_document(" [{}, 2] "), Some(rows));
    assert_eq!(read_document("3"), Some(Document::Single(Row::Other)));
    assert_eq!(read_document("{"), None);
}

#[test]
fn fields_are_found() {
    let row = Row::Fields(vec![
        ("a".to_string(), Field::Text("x".to_string())),
        ("b".to_string(), Field::Flag(true)),
        ("c".to_string(), Field::Count(7)),
        ("a".to_string(), Field::Flag(false)),
    ]);
    assert_eq!(row.field("a"), Some(&Field::Text("x".to_string())));
    assert_eq!(row.text("a").as_deref(), Some("x"));
    assert_eq!(row.text("b"), None);
    assert_eq!(row.text_or_empty("b"), "");
    assert_eq!(row.flag("b"), Some(true));
    assert_eq!(row.flag("a"), None);
    assert_eq!(row.count("c"), Some(7));
    assert_eq!(row.count("d"), None);
    assert_eq!(Row::Other.field("a"), None);
}

#[test]
fn profiles_are_taken_from_an_array_only() {
    let fields = |name: &str| {
        Row::Fields(vec![
            ("name".to_string(), Field::Text(name.to_string())),
            ("net_interface".to_string(), Field::Text("Ethernet".to_string())),
            ("ip".to_string(), Field::Text("10.0.0.2".to_string())),
            ("mask".to_string(), Field::Text("255.255.255.0".to_string())),
            ("gateway".to_string(), Field::Text("10.0.0.1".to_string())),
        ])
    };
    assert_eq!(profiles_from_document(&Document::Single(fields("a"))), vec![]);
    let rows = Document::Rows(vec![fields("a"), Row::Other, fields("b")]);
    let expected = vec![
        profile("a", "Ethernet", "10.0.0.2"),
        profile("b", "Ethernet", "10.0.0.2"),
    ];
    assert_eq!(profiles_from_document(&rows), expected);
}

#[test]
fn labels_of_profiles() {
    assert_eq!(profile_label(&profile(" Office ", "Ethernet", "i")), "Office");
    assert_eq!(profile_label(&profile(" \t", "Ethernet ", "i")), "Ethernet ");
}

#[test]
fn names_from_edits() {
    assert_eq!(normalized_name(" Office ", "Ethernet"), "Office");
    assert_eq!(normalized_name(" Ethernet ", "Ethernet"), "");
    assert_eq!(normalized_name("  ", "Ethernet"), "");
    let mut edited = profile("x", "Ethernet", "i");
    for (typed, label) in [(" Home ", "Home"), ("Ethernet", "Ethernet"), (" ", "Ethernet")] {
        edited.name = normalized_name(typed, &edited.net_interface);
        assert_eq!(profile_label(&edited), label);
    }
}

#[test]
fn profiles_are_compared_in_every_field() {
    let one = profile("a", "b", "c");
    assert!(one.same_as(&one.clone()));
    for change in 0..5 {
        let mut other = one.clone();
        match change {
            0 => other.name.push('x'),
            1 => other.net_interface.push('x'),
            2 => other.ip.push('x'),
            3 => other.mask.push('x'),
            _ => other.gateway.push('x'),
        }
        assert!(!one.same_as(&other));
    }
}
