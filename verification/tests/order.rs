use ipflip::order::{
    category_of_lowercase, drop_repeats, interface_sort_key_with_categories, sort_interfaces,
    sort_ranked, Ranked,
};
use ipflip::table::NameTable;

fn owned(list: &[&str]) -> Vec<String> {
    list.iter().map(|s| s.to_string()).collect()
}

#[test]
fn table_keeps_the_latest_value() {
    let mut table: NameTable<u8> = NameTable::new();
    assert_eq!(table.get("a"), None);
    table.insert("a".to_string(), 1);
    table.insert("b".to_string(), 2);
    table.insert("a".to_string(), 3);
    assert_eq!(table.get("a"), Some(&3));
    assert_eq!(table.get("b"), Some(&2));
    assert_eq!(table.get("A"), None);
}

#[test]
fn categories_from_names() {
    for (lower, category) in [
        ("ethernet", 0),
        ("local area connection", 2),
        ("vlan 3", 0),
        ("intel gbe", 0),
        ("gigabit 2", 0),
        ("wi-fi", 1),
        ("wifi 2", 1),
        ("wireless", 1),
        ("802.11 adapter", 1),
        ("wlan", 0),
        ("wireless lan", 0),
        ("loopback", 2),
        ("", 2),
        ("Ethernet", 2),
    ] {
        assert_eq!(category_of_lowercase(lower), category, "{lower}");
    }
}

#[test]
fn sort_keys() {
    let mut categories: NameTable<u8> = NameTable::new();
    categories.insert("Ethernet".to_string(), 2);
    let key = |name: &str| interface_sort_key_with_categories(&categories, name);
    assert_eq!(key("Ethernet"), (2, "ethernet".to_string()));
    assert_eq!(key("ETHERNET"), (0, "ethernet".to_string()));
    assert_eq!(key("Wi-Fi"), (1, "wi-fi".to_string()));
    assert_eq!(key("Loopback ÄÖ"), (2, "loopback äö".to_string()));
}

#[test]
fn interfaces_by_category_and_name() {
    let names = owned(&["Wi-Fi", "vEthernet", "Bluetooth", "Ethernet 2", "ethernet", "Wi-Fi 2"]);
    let sorted = sort_interfaces(&names, &NameTable::new());
    let expected = owned(&["ethernet", "Ethernet 2", "vEthernet", "Wi-Fi", "Wi-Fi 2", "Bluetooth"]);
    assert_eq!(sorted, expected);
}

#[test]
fn known_categories_come_before_names() {
    let mut categories: NameTable<u8> = NameTable::new();
    categories.insert("Ethernet".to_string(), 2);
    categories.insert("Bluetooth".to_string(), 0);
    let names = owned(&["Ethernet", "Wi-Fi", "Bluetooth"]);
    let sorted = sort_interfaces(&names, &categories);
    assert_eq!(sorted, owned(&["Bluetooth", "Wi-Fi", "Ethernet"]));
}

#[test]
fn names_of_one_rank_keep_their_order() {
    let names = owned(&["LAN", "b", "lan", "Lan", "B", "lan"]);
    let sorted = sort_interfaces(&names, &NameTable::new());
    assert_eq!(sorted, owned(&["LAN", "lan", "Lan", "lan", "b", "B"]));
    assert_eq!(sort_interfaces(&sorted, &NameTable::new()), sorted);
}

#[test]
fn sorting_agrees_with_a_stable_sort() {
    let mut items: Vec<(u8, String, String)> = vec![];
    for i in 0u32..60 {
        let lower = format!("{}", (i * 7) % 5);
        items.push(((i * 11 % 3) as u8, lower, format!("{i}")));
    }
    let ranked: Vec<Ranked> = items
        .iter()
        .map(|x| Ranked { category: x.0, lower: x.1.clone(), name: x.2.clone() })
        .collect();
    items.sort_by_key(|x| (x.0, x.1.clone()));
    let expected: Vec<String> = items.into_iter().map(|x| x.2).collect();
    let sorted: Vec<String> = sort_ranked(&ranked).into_iter().map(|x| x.name).collect();
    assert_eq!(sorted, expected);
}

#[test]
fn runs_are_cut() {
    assert_eq!(drop_repeats(&vec![]), Vec::<String>::new());
    assert_eq!(drop_repeats(&owned(&["a"])), owned(&["a"]));
    let names = owned(&["a", "a", "b", "a", "a", "a", "A"]);
    assert_eq!(drop_repeats(&names), owned(&["a", "b", "a", "A"]));
}
