//! The network interfaces of the system, from what its commands put out.

use vstd::prelude::*;
use vstd::utf8::{decode_utf8, valid_utf8};

use crate::command::{
    document_of_success, document_put_out, output_view, standard_text, text_of_success,
    CommandLine, CommandOutput, CommandView,
};
use crate::json::{
    field_is_there_or_not, fields_are_read_by_name_and_kind, has_field, row_views, Document,
    DocumentView, FieldView, Row, RowView,
};
use crate::order::{lowercase, to_lower};
use crate::table::NameTable;
use crate::text::{
    contains_text, has_text, is_white_space, join_from, joined, joined_words_are_its_words, occurs,
    pieces, split_at_each, split_words, starts, starts_with_text, texts, trim, trim_is_idempotent,
    trimmed, trimming_keeps_words, words, words_have_no_white_space,
};

verus! {

/// The command that lists the interfaces.
pub fn interfaces_command() -> (r: CommandLine)
    ensures
        r@ == (CommandView {
            program: "netsh"@,
            arguments: seq!["interface"@, "ipv4"@, "show"@, "interfaces"@],
        }),
{
    let mut arguments: Vec<String> = Vec::new();
    arguments.push("interface".to_owned());
    arguments.push("ipv4".to_owned());
    arguments.push("show".to_owned());
    arguments.push("interfaces".to_owned());
    assert(texts(arguments@) =~= seq!["interface"@, "ipv4"@, "show"@, "interfaces"@]);
    CommandLine { program: "netsh".to_owned(), arguments }
}

/// A command that runs a script of PowerShell.
pub open spec fn script_command(script: Seq<char>) -> CommandView {
    CommandView { program: "powershell"@, arguments: seq!["-NoProfile"@, "-Command"@, script] }
}

/// A command that runs a script of PowerShell.
pub fn powershell(script: &str) -> (r: CommandLine)
    ensures
        r@ == script_command(script@),
{
    let mut arguments: Vec<String> = Vec::new();
    arguments.push("-NoProfile".to_owned());
    arguments.push("-Command".to_owned());
    arguments.push(script.to_owned());
    assert(texts(arguments@) =~= seq!["-NoProfile"@, "-Command"@, script@]);
    CommandLine { program: "powershell".to_owned(), arguments }
}

/// The command that lists what the categories of the interfaces are told by.
pub fn categories_command() -> (r: CommandLine)
    ensures
        r@ == script_command(
            "Get-NetAdapter -IncludeHidden -ErrorAction SilentlyContinue | Select-Object Name, HardwareInterface, InterfaceDescription, NdisPhysicalMedium, PhysicalMediaType | ConvertTo-Json -Compress"@,
        ),
{
    powershell(
        "Get-NetAdapter -IncludeHidden -ErrorAction SilentlyContinue | Select-Object Name, HardwareInterface, InterfaceDescription, NdisPhysicalMedium, PhysicalMediaType | ConvertTo-Json -Compress",
    )
}

/// The command that lists the devices of the interfaces.
pub fn device_names_command() -> (r: CommandLine)
    ensures
        r@ == script_command(
            "Get-NetAdapter -IncludeHidden -ErrorAction SilentlyContinue | Select-Object Name, InterfaceDescription | ConvertTo-Json -Compress"@,
        ),
{
    powershell(
        "Get-NetAdapter -IncludeHidden -ErrorAction SilentlyContinue | Select-Object Name, InterfaceDescription | ConvertTo-Json -Compress",
    )
}

/// The name of the interface that a line of the listing tells: its words from
/// the fifth on. A heading, a rule and a line of fewer words tell none.
pub open spec fn listed_name(line: Seq<char>) -> Option<Seq<char>> {
    let stripped = trimmed(line);
    if stripped.len() == 0 || starts("Idx"@, stripped) || starts("---"@, stripped) || words(
        stripped,
    ).len() < 5 {
        None
    } else {
        Some(joined(words(stripped).skip(4), " "@))
    }
}

/// The names that some lines of the listing tell, each once, in the order in
/// which they come first.
pub open spec fn listed_names(lines: Seq<Seq<char>>) -> Seq<Seq<char>>
    decreases lines.len(),
{
    if lines.len() == 0 {
        Seq::empty()
    } else {
        let before = listed_names(lines.drop_last());
        match listed_name(lines.last()) {
            Some(name) => if before.contains(name) {
                before
            } else {
                before.push(name)
            },
            None => before,
        }
    }
}

/// The interfaces that are offered: those of the listing, and Ethernet where
/// there is no listing or it tells of none.
pub open spec fn interfaces_offered(listing: Option<Seq<char>>) -> Seq<Seq<char>> {
    let names = match listing {
        Some(text) => listed_names(pieces(text, '\n')),
        None => Seq::empty(),
    };
    if names.len() == 0 {
        seq!["Ethernet"@]
    } else {
        names
    }
}

fn name_in_line(line: &str) -> (r: Option<String>)
    ensures
        r is Some <==> listed_name(line@) is Some,
        r matches Some(name) ==> listed_name(line@) == Some(name@),
{
    let stripped = trim(line);
    if stripped.is_empty() || starts_with_text(stripped, "Idx") || starts_with_text(
        stripped,
        "---",
    ) {
        return None;
    }
    let parts = split_words(stripped);
    assert(parts@.len() == words(stripped@).len());
    if parts.len() < 5 {
        return None;
    }
    Some(join_from(&parts, 4, " "))
}

/// The interfaces that are offered, from the listing if there is one.
pub fn interfaces_from_listing(listing: Option<&str>) -> (r: Vec<String>)
    ensures
        texts(r@) == interfaces_offered(
            match listing {
                Some(text) => Some(text@),
                None => None,
            },
        ),
{
    let mut names: Vec<String> = Vec::new();
    assert(texts(names@) =~= Seq::<Seq<char>>::empty());
    match listing {
        Some(text) => {
            let lines = split_at_each(text, '\n');
            let ghost all = texts(lines@);
            let mut i: usize = 0;
            assert(all.take(0).len() == 0);
            while i < lines.len()
                invariant
                    i <= lines@.len(),
                    all == texts(lines@),
                    texts(names@) == listed_names(all.take(i as int)),
                decreases lines@.len() - i,
            {
                proof {
                    assert(all.take(i + 1).drop_last() =~= all.take(i as int));
                    assert(all.take(i + 1).last() == lines@[i as int]@);
                }
                match name_in_line(&lines[i]) {
                    Some(name) => {
                        if !has_text(&names, &name) {
                            let ghost before = texts(names@);
                            names.push(name);
                            assert(texts(names@) =~= before.push(name@));
                        }
                    },
                    None => {},
                }
                i += 1;
            }
            assert(all.take(i as int) =~= all);
        },
        None => {},
    }
    assert(texts(names@).len() == names@.len());
    if names.len() == 0 {
        names.push("Ethernet".to_owned());
        assert(texts(names@) =~= seq!["Ethernet"@]);
    }
    names
}

/// The interfaces that are offered, from what the listing command put out.
pub fn list_network_interfaces(output: Option<&CommandOutput>) -> (r: Vec<String>)
    ensures
        texts(r@) == interfaces_offered(standard_text(output_view(output))),
        output matches Some(o) ==> o.success && valid_utf8(o.stdout@) ==> texts(r@)
            == interfaces_offered(Some(decode_utf8(o.stdout@))),
{
    match text_of_success(output) {
        Some(text) => interfaces_from_listing(Some(&text)),
        None => interfaces_from_listing(None),
    }
}

proof fn lemma_word(s: Seq<char>, i: int)
    requires
        0 <= i < words(s).len(),
    ensures
        words(s)[i].len() > 0,
        forall|k: int| 0 <= k < words(s)[i].len() ==> !is_white_space(#[trigger] words(s)[i][k]),
    decreases s.len(),
{
    let before = words(s.drop_last());
    if i < before.len() {
        lemma_word(s.drop_last(), i);
    }
    if s.len() > 1 && !is_white_space(s.last()) && !is_white_space(s[s.len() - 2]) {
        lemma_words_some(s.drop_last());
    }
}

proof fn lemma_words_some(s: Seq<char>)
    requires
        s.len() > 0,
        !is_white_space(s.last()),
    ensures
        words(s).len() > 0,
    decreases s.len(),
{
    if s.len() > 1 && !is_white_space(s[s.len() - 2]) {
        lemma_words_some(s.drop_last());
    }
}

proof fn lemma_joined_ends(list: Seq<Seq<char>>, separator: Seq<char>)
    requires
        list.len() > 0,
        forall|i: int| 0 <= i < list.len() ==> (#[trigger] list[i]).len() > 0,
    ensures
        joined(list, separator).len() > 0,
        joined(list, separator)[0] == list[0][0],
        joined(list, separator).last() == list.last().last(),
    decreases list.len(),
{
    if list.len() > 1 {
        assert forall|i: int| 0 <= i < list.len() - 1 implies (
        #[trigger] list.drop_last()[i]).len() > 0 by {
            assert(list.drop_last()[i] == list[i]);
        }
        lemma_joined_ends(list.drop_last(), separator);
        assert(list.last() == list[list.len() - 1]);
    }
}

/// A name that the listing tells is not empty, and no white space is around
/// it.
pub proof fn listed_name_is_trimmed(line: Seq<char>)
    ensures
        listed_name(line) matches Some(name) ==> name.len() > 0 && trimmed(name) == name,
{
    let stripped = trimmed(line);
    if listed_name(line) is Some {
        let parts = words(stripped).skip(4);
        assert forall|i: int| 0 <= i < parts.len() implies (#[trigger] parts[i]).len() > 0 by {
            lemma_word(stripped, i + 4);
        }
        lemma_joined_ends(parts, " "@);
        lemma_word(stripped, 4);
        lemma_word(stripped, words(stripped).len() - 1);
        let name = joined(parts, " "@);
        assert(name[0] == words(stripped)[4][0]);
        let last = words(stripped).last();
        assert(name.last() == last[last.len() - 1]);
    }
}

/// No interface is offered twice, and there is always one to choose.
pub proof fn interfaces_offered_are_distinct(listing: Option<Seq<char>>)
    ensures
        interfaces_offered(listing).no_duplicates(),
        interfaces_offered(listing).len() > 0,
{
    match listing {
        Some(text) => lemma_listed_names_distinct(pieces(text, '\n')),
        None => {},
    }
}

proof fn lemma_listed_names_distinct(lines: Seq<Seq<char>>)
    ensures
        listed_names(lines).no_duplicates(),
    decreases lines.len(),
{
    if lines.len() > 0 {
        lemma_listed_names_distinct(lines.drop_last());
    }
}

/// What the kind of an adapter is told by.
pub open spec fn adapter_words(adapter: RowView) -> Seq<char> {
    joined(
        seq![
            adapter.text_or_empty("Name"@),
            adapter.text_or_empty("InterfaceDescription"@),
            adapter.text_or_empty("NdisPhysicalMedium"@),
            adapter.text_or_empty("PhysicalMediaType"@),
        ],
        " "@,
    )
}

/// Whether a text in lower case tells of a wireless adapter.
pub open spec fn tells_wireless(lower: Seq<char>) -> bool {
    occurs("wireless"@, lower) || occurs("wifi"@, lower) || occurs("wi-fi"@, lower) || occurs(
        "wlan"@,
        lower,
    ) || occurs("802.11"@, lower) || occurs("native802_11"@, lower)
}

/// The category of an adapter: 2 unless it is a physical one, 1 for a wireless
/// one, 0 for any other.
pub open spec fn adapter_category(adapter: RowView) -> u8 {
    if adapter.flag("HardwareInterface"@) != Some(true) {
        2
    } else if tells_wireless(lowercase(adapter_words(adapter))) {
        1
    } else {
        0
    }
}

/// Whether a text in lower case tells of a wireless adapter.
pub fn is_wireless_text(lower: &str) -> (r: bool)
    ensures
        r == tells_wireless(lower@),
{
    contains_text(lower, "wireless") || contains_text(lower, "wifi") || contains_text(
        lower,
        "wi-fi",
    ) || contains_text(lower, "wlan") || contains_text(lower, "802.11") || contains_text(
        lower,
        "native802_11",
    )
}

/// The category of an adapter.
pub fn categorize_interface(adapter: &Row) -> (r: u8)
    ensures
        r == adapter_category(adapter@),
{
    let is_physical = match adapter.flag("HardwareInterface") {
        Some(flag) => flag,
        None => false,
    };
    if !is_physical {
        return 2;
    }
    let mut parts: Vec<String> = Vec::new();
    parts.push(adapter.text_or_empty("Name"));
    parts.push(adapter.text_or_empty("InterfaceDescription"));
    parts.push(adapter.text_or_empty("NdisPhysicalMedium"));
    parts.push(adapter.text_or_empty("PhysicalMediaType"));
    let searchable = join_from(&parts, 0, " ");
    assert(texts(parts@).skip(0) =~= seq![
        adapter@.text_or_empty("Name"@),
        adapter@.text_or_empty("InterfaceDescription"@),
        adapter@.text_or_empty("NdisPhysicalMedium"@),
        adapter@.text_or_empty("PhysicalMediaType"@),
    ]);
    if is_wireless_text(&to_lower(&searchable)) {
        1
    } else {
        0
    }
}

/// The rows of a listing: those of an array, or the only one.
pub open spec fn listing_rows(document: DocumentView) -> Seq<RowView> {
    match document {
        DocumentView::Rows(rows) => rows,
        DocumentView::Single(row) => seq![row],
    }
}

/// The categories that some rows tell. A row without a name tells none; of
/// two rows of one name the later one counts.
pub open spec fn categories_in(rows: Seq<RowView>) -> Map<Seq<char>, u8>
    decreases rows.len(),
{
    if rows.len() == 0 {
        Map::empty()
    } else {
        let before = categories_in(rows.drop_last());
        match rows.last().text("Name"@) {
            Some(name) => before.insert(trimmed(name), adapter_category(rows.last())),
            None => before,
        }
    }
}

/// The categories that a listing tells; none if there is no listing.
pub open spec fn categories_loaded(listing: Option<DocumentView>) -> Map<Seq<char>, u8> {
    match listing {
        Some(document) => categories_in(listing_rows(document)),
        None => Map::empty(),
    }
}

fn categorize_row(table: &mut NameTable<u8>, row: &Row)
    ensures
        final(table)@ == match row@.text("Name"@) {
            Some(name) => old(table)@.insert(trimmed(name), adapter_category(row@)),
            None => old(table)@,
        },
{
    match row.text("Name") {
        Some(name) => {
            let category: u8 = categorize_interface(row);
            table.insert(trim(&name).to_owned(), category);
        },
        None => {},
    }
}

/// The categories that a listing tells.
pub fn categories_from_document(document: &Document) -> (r: NameTable<u8>)
    ensures
        r@ == categories_in(listing_rows(document@)),
{
    let mut r: NameTable<u8> = NameTable::new();
    match document {
        Document::Rows(rows) => {
            let ghost all = row_views(rows@);
            let mut i: usize = 0;
            assert(all.take(0).len() == 0);
            while i < rows.len()
                invariant
                    i <= rows@.len(),
                    all == row_views(rows@),
                    r@ == categories_in(all.take(i as int)),
                decreases rows@.len() - i,
            {
                proof {
                    assert(all.take(i + 1).drop_last() =~= all.take(i as int));
                    assert(all.take(i + 1).last() == rows@[i as int]@);
                }
                categorize_row(&mut r, &rows[i]);
                i += 1;
            }
            assert(all.take(i as int) =~= all);
        },
        Document::Single(row) => {
            proof {
                reveal_with_fuel(categories_in, 2);
                assert(seq![row@].drop_last() =~= Seq::<RowView>::empty());
            }
            categorize_row(&mut r, row);
        },
    }
    r
}

/// The categories of the interfaces, from what the command for them put out.
pub fn load_interface_categories(output: Option<&CommandOutput>) -> (r: NameTable<u8>)
    ensures
        r@ == categories_loaded(document_put_out(standard_text(output_view(output)))),
{
    match document_of_success(output) {
        Some(document) => categories_from_document(&document),
        None => NameTable::new(),
    }
}

/// The texts that a table of strings holds.
pub open spec fn table_texts(table: Map<Seq<char>, String>) -> Map<Seq<char>, Seq<char>> {
    table.map_values(|s: String| s@)
}

/// The device that a row tells of an interface, if it names both.
pub open spec fn device_in(row: RowView) -> Option<(Seq<char>, Seq<char>)> {
    match row.text("Name"@) {
        Some(name) => {
            let device = trimmed(row.text_or_empty("InterfaceDescription"@));
            if trimmed(name).len() == 0 || device.len() == 0 {
                None
            } else {
                Some((trimmed(name), device))
            }
        },
        None => None,
    }
}

/// The devices that some rows tell; of two rows of one name the later one
/// counts.
pub open spec fn device_names_in(rows: Seq<RowView>) -> Map<Seq<char>, Seq<char>>
    decreases rows.len(),
{
    if rows.len() == 0 {
        Map::empty()
    } else {
        let before = device_names_in(rows.drop_last());
        match device_in(rows.last()) {
            Some(device) => before.insert(device.0, device.1),
            None => before,
        }
    }
}

/// The devices that a listing tells; none if there is no listing.
pub open spec fn device_names_loaded(listing: Option<DocumentView>) -> Map<Seq<char>, Seq<char>> {
    match listing {
        Some(document) => device_names_in(listing_rows(document)),
        None => Map::empty(),
    }
}

fn name_device(table: &mut NameTable<String>, row: &Row)
    ensures
        table_texts(final(table)@) == match device_in(row@) {
            Some(device) => table_texts(old(table)@).insert(device.0, device.1),
            None => table_texts(old(table)@),
        },
{
    match row.text("Name") {
        Some(name) => {
            let description = row.text_or_empty("InterfaceDescription");
            let device = trim(&description);
            let interface = trim(&name);
            if !interface.is_empty() && !device.is_empty() {
                let ghost before = table@;
                table.insert(interface.to_owned(), device.to_owned());
                assert(table_texts(table@) =~= table_texts(before).insert(interface@, device@));
            }
        },
        None => {},
    }
}

/// The devices that a listing tells.
pub fn device_names_from_document(document: &Document) -> (r: NameTable<String>)
    ensures
        table_texts(r@) == device_names_in(listing_rows(document@)),
{
    let mut r: NameTable<String> = NameTable::new();
    assert(table_texts(r@) =~= Map::<Seq<char>, Seq<char>>::empty());
    match document {
        Document::Rows(rows) => {
            let ghost all = row_views(rows@);
            let mut i: usize = 0;
            assert(all.take(0).len() == 0);
            while i < rows.len()
                invariant
                    i <= rows@.len(),
                    all == row_views(rows@),
                    table_texts(r@) == device_names_in(all.take(i as int)),
                decreases rows@.len() - i,
            {
                proof {
                    assert(all.take(i + 1).drop_last() =~= all.take(i as int));
                    assert(all.take(i + 1).last() == rows@[i as int]@);
                }
                name_device(&mut r, &rows[i]);
                i += 1;
            }
            assert(all.take(i as int) =~= all);
        },
        Document::Single(row) => {
            proof {
                reveal_with_fuel(device_names_in, 2);
                assert(seq![row@].drop_last() =~= Seq::<RowView>::empty());
            }
            name_device(&mut r, row);
        },
    }
    r
}

/// The devices of the interfaces, from what the command for them put out.
pub fn load_interface_device_names(output: Option<&CommandOutput>) -> (r: NameTable<String>)
    ensures
        table_texts(r@) == device_names_loaded(
            document_put_out(standard_text(output_view(output))),
        ),
{
    match document_of_success(output) {
        Some(document) => device_names_from_document(&document),
        None => {
            let r: NameTable<String> = NameTable::new();
            assert(table_texts(r@) =~= Map::<Seq<char>, Seq<char>>::empty());
            r
        },
    }
}

/// An interface has a device only under a name that is neither empty nor
/// surrounded by white space, and so is the name of the device.
pub proof fn device_names_are_trimmed(rows: Seq<RowView>, name: Seq<char>)
    requires
        device_names_in(rows).contains_key(name),
    ensures
        name.len() > 0,
        trimmed(name) == name,
        device_names_in(rows)[name].len() > 0,
        trimmed(device_names_in(rows)[name]) == device_names_in(rows)[name],
    decreases rows.len(),
{
    let row = rows.last();
    trim_is_idempotent(row.text_or_empty("InterfaceDescription"@));
    if row.text("Name"@) is Some {
        trim_is_idempotent(row.text("Name"@)->0);
    }
    match device_in(row) {
        Some(device) => {
            if device.0 != name {
                device_names_are_trimmed(rows.drop_last(), name);
            }
        },
        None => device_names_are_trimmed(rows.drop_last(), name),
    }
}

/// A category is that of a wired adapter, a wireless one, or another.
pub proof fn categories_are_known(rows: Seq<RowView>, name: Seq<char>)
    requires
        categories_in(rows).contains_key(name),
    ensures
        categories_in(rows)[name] <= 2,
    decreases rows.len(),
{
    let row = rows.last();
    if row.text("Name"@) is None || trimmed(row.text("Name"@)->0) != name {
        categories_are_known(rows.drop_last(), name);
    }
}

/// The name that a line of the listing tells is made of all its words from the
/// fifth on, with a space between them. A line tells a name exactly if it has
/// at least five words and starts neither as the heading nor as the rule does.
pub proof fn listed_name_has_the_words_from_the_fifth(line: Seq<char>)
    ensures
        listed_name(line) matches Some(name) ==> words(name) == words(line).skip(4) && name
            == joined(words(line).skip(4), " "@),
        listed_name(line) is Some <==> words(line).len() >= 5 && !starts("Idx"@, trimmed(line))
            && !starts("---"@, trimmed(line)),
{
    let stripped = trimmed(line);
    trimming_keeps_words(line);
    if words(line).len() >= 5 {
        let parts = words(stripped).skip(4);
        assert forall|i: int| 0 <= i < parts.len() implies (#[trigger] parts[i]).len() > 0 by {
            words_have_no_white_space(stripped, i + 4);
        }
        assert forall|i: int, k: int|
            0 <= i < parts.len() && 0 <= k < parts[i].len() implies !is_white_space(
            #[trigger] parts[i][k],
        ) by {
            words_have_no_white_space(stripped, i + 4);
            assert(parts[i] == words(stripped)[i + 4]);
        }
        joined_words_are_its_words(parts);
    }
}

proof fn lemma_listed_names_are_told(lines: Seq<Seq<char>>, n: Seq<char>)
    ensures
        listed_names(lines).contains(n) <==> exists|i: int|
            0 <= i < lines.len() && listed_name(#[trigger] lines[i]) == Some(n),
    decreases lines.len(),
{
    if lines.len() > 0 {
        let rest = lines.drop_last();
        let before = listed_names(rest);
        let after = listed_names(lines);
        lemma_listed_names_are_told(rest, n);
        if exists|i: int| 0 <= i < rest.len() && listed_name(#[trigger] rest[i]) == Some(n) {
            let i = choose|i: int|
                0 <= i < rest.len() && listed_name(#[trigger] rest[i]) == Some(n);
            assert(listed_name(lines[i]) == Some(n));
        }
        if exists|i: int| 0 <= i < lines.len() && listed_name(#[trigger] lines[i]) == Some(n) {
            let i = choose|i: int|
                0 <= i < lines.len() && listed_name(#[trigger] lines[i]) == Some(n);
            if i < rest.len() {
                assert(listed_name(rest[i]) == Some(n));
            }
        }
        if listed_name(lines.last()) == Some(n) {
            assert(listed_name(lines[lines.len() - 1]) == Some(n));
        }
        if after.len() > before.len() {
            assert(after[after.len() - 1] == listed_name(lines.last())->0);
            if before.contains(n) {
                let k = choose|k: int| 0 <= k < before.len() && before[k] == n;
                assert(after[k] == n);
            }
            if after.contains(n) {
                let k = choose|k: int| 0 <= k < after.len() && after[k] == n;
                if k < before.len() {
                    assert(before[k] == n);
                }
            }
        }
    }
}

/// The interfaces that are offered are those that some line of the listing
/// tells, and no others; only where no line tells any it is Ethernet.
pub proof fn offered_interfaces_are_those_told(text: Seq<char>, n: Seq<char>)
    ensures
        ({
            let lines = pieces(text, '\n');
            let told = |m: Seq<char>|
                exists|i: int| 0 <= i < lines.len() && listed_name(#[trigger] lines[i]) == Some(m);
            &&& (exists|m: Seq<char>| #[trigger] told(m)) ==> (interfaces_offered(
                Some(text),
            ).contains(n) <==> told(n))
            &&& !(exists|m: Seq<char>| #[trigger] told(m)) ==> interfaces_offered(Some(text))
                == seq!["Ethernet"@]
        }),
        interfaces_offered(None) == seq!["Ethernet"@],
{
    let lines = pieces(text, '\n');
    let told = |m: Seq<char>|
        exists|i: int| 0 <= i < lines.len() && listed_name(#[trigger] lines[i]) == Some(m);
    lemma_listed_names_are_told(lines, n);
    if exists|m: Seq<char>| #[trigger] told(m) {
        let m = choose|m: Seq<char>| #[trigger] told(m);
        lemma_listed_names_are_told(lines, m);
    } else if listed_names(lines).len() > 0 {
        let m = listed_names(lines)[0];
        lemma_listed_names_are_told(lines, m);
        assert(listed_names(lines).contains(m));
        assert(told(m));
    }
}

/// Interfaces are offered in the order in which they are first told: further
/// lines only add to those before them.
pub proof fn further_lines_only_add(lines: Seq<Seq<char>>, more: Seq<Seq<char>>)
    ensures
        listed_names(lines).len() <= listed_names(lines + more).len(),
        listed_names(lines + more).take(listed_names(lines).len() as int) == listed_names(lines),
    decreases more.len(),
{
    if more.len() == 0 {
        assert(lines + more =~= lines);
        assert(listed_names(lines).take(listed_names(lines).len() as int) =~= listed_names(lines));
    } else {
        further_lines_only_add(lines, more.drop_last());
        assert((lines + more).drop_last() =~= lines + more.drop_last());
        let before = listed_names(lines + more.drop_last());
        let n = listed_names(lines).len() as int;
        assert(listed_names(lines + more).take(n) =~= before.take(n));
    }
}

/// The category of an adapter: another one unless it says that it is hardware;
/// a wireless one if one of the marks of that is in its four texts, in lower
/// case; a wired one if none is.
pub proof fn adapters_are_told_by_their_marks(adapter: RowView)
    ensures
        adapter_category(adapter) <= 2,
        adapter_category(adapter) == 2 <==> !has_field(
            adapter,
            "HardwareInterface"@,
            FieldView::Flag(true),
        ),
        ({
            let searchable = lowercase(
                adapter.text_or_empty("Name"@) + " "@ + adapter.text_or_empty(
                    "InterfaceDescription"@,
                ) + " "@ + adapter.text_or_empty("NdisPhysicalMedium"@) + " "@
                    + adapter.text_or_empty("PhysicalMediaType"@),
            );
            has_field(adapter, "HardwareInterface"@, FieldView::Flag(true)) ==> (adapter_category(
                adapter,
            ) == 1 <==> occurs("wireless"@, searchable) || occurs("wifi"@, searchable) || occurs(
                "wi-fi"@,
                searchable,
            ) || occurs("wlan"@, searchable) || occurs("802.11"@, searchable) || occurs(
                "native802_11"@,
                searchable,
            ))
        }),
{
    let name = "HardwareInterface"@;
    field_is_there_or_not(adapter, name);
    if has_field(adapter, name, FieldView::Flag(true)) {
        fields_are_read_by_name_and_kind(adapter, name, FieldView::Flag(true));
    }
    let parts = seq![
        adapter.text_or_empty("Name"@),
        adapter.text_or_empty("InterfaceDescription"@),
        adapter.text_or_empty("NdisPhysicalMedium"@),
        adapter.text_or_empty("PhysicalMediaType"@),
    ];
    reveal_with_fuel(joined, 4);
    assert(parts.drop_last() =~= seq![parts[0], parts[1], parts[2]]);
    assert(parts.drop_last().drop_last() =~= seq![parts[0], parts[1]]);
    assert(parts.drop_last().drop_last().drop_last() =~= seq![parts[0]]);
    assert(joined(parts, " "@) =~= parts[0] + " "@ + parts[1] + " "@ + parts[2] + " "@ + parts[3]);
}

/// Whether a row names an interface, but for the white space around the name.
pub open spec fn names_interface(row: RowView, name: Seq<char>) -> bool {
    exists|s: Seq<char>| #[trigger]
        has_field(row, "Name"@, FieldView::Text(s)) && trimmed(s) == name
}

proof fn lemma_names_interface(row: RowView, name: Seq<char>)
    ensures
        names_interface(row, name) <==> row.text("Name"@) is Some && trimmed(row.text("Name"@)->0)
            == name,
{
    field_is_there_or_not(row, "Name"@);
    if names_interface(row, name) {
        let s = choose|s: Seq<char>| #[trigger]
            has_field(row, "Name"@, FieldView::Text(s)) && trimmed(s) == name;
        fields_are_read_by_name_and_kind(row, "Name"@, FieldView::Text(s));
    }
    if row.text("Name"@) is Some {
        let s = row.text("Name"@)->0;
        assert(has_field(row, "Name"@, FieldView::Text(s)));
    }
}

/// The category that is known of an interface is that of the last row that
/// names it; none is known of an interface that no row names.
pub proof fn category_is_that_of_the_last_row(rows: Seq<RowView>, name: Seq<char>, i: int)
    ensures
        (forall|k: int| 0 <= k < rows.len() ==> !names_interface(#[trigger] rows[k], name))
            ==> !categories_in(rows).contains_key(name),
        0 <= i < rows.len() && names_interface(rows[i], name) && (forall|k: int|
            i < k < rows.len() ==> !names_interface(#[trigger] rows[k], name))
            ==> categories_in(rows).contains_key(name) && categories_in(rows)[name]
            == adapter_category(rows[i]),
    decreases rows.len(),
{
    if rows.len() > 0 {
        let rest = rows.drop_last();
        category_is_that_of_the_last_row(rest, name, i);
        lemma_names_interface(rows.last(), name);
        assert(rows.last() == rows[rows.len() - 1]);
        assert(forall|k: int| 0 <= k < rest.len() ==> rest[k] == rows[k]);
    }
}

/// The device that is known of an interface is that of the last row that names
/// both; none is known of an interface that no such row names.
pub proof fn device_is_that_of_the_last_row(rows: Seq<RowView>, name: Seq<char>, i: int)
    ensures
        ({
            let description = |k: int| trimmed(rows[k].text_or_empty("InterfaceDescription"@));
            let tells = |k: int|
                name.len() > 0 && names_interface(rows[k], name) && description(k).len() > 0;
            &&& (forall|k: int| 0 <= k < rows.len() ==> !#[trigger] tells(k))
                ==> !device_names_in(rows).contains_key(name)
            &&& 0 <= i < rows.len() && tells(i) && (forall|k: int|
                i < k < rows.len() ==> !#[trigger] tells(k)) ==> device_names_in(
                rows,
            ).contains_key(name) && device_names_in(rows)[name] == description(i)
        }),
    decreases rows.len(),
{
    if rows.len() > 0 {
        let rest = rows.drop_last();
        let description = |k: int| trimmed(rows[k].text_or_empty("InterfaceDescription"@));
        let tells = |k: int|
            name.len() > 0 && names_interface(rows[k], name) && description(k).len() > 0;
        let rest_description = |k: int|
            trimmed(rest[k].text_or_empty("InterfaceDescription"@));
        let rest_tells = |k: int|
            name.len() > 0 && names_interface(rest[k], name) && rest_description(k).len() > 0;
        device_is_that_of_the_last_row(rest, name, i);
        lemma_names_interface(rows.last(), name);
        assert forall|k: int| 0 <= k < rest.len() implies #[trigger] rest_tells(k) == tells(k) by {
            assert(rest[k] == rows[k]);
        }
        let last = rows.len() - 1;
        assert(tells(last) <==> name.len() > 0 && names_interface(rows.last(), name)
            && description(last).len() > 0);
        assert(device_in(rows.last()) is Some && (match device_in(rows.last()) {
            Some(d) => d.0 == name,
            None => false,
        }) <==> tells(last));
        if (forall|k: int| 0 <= k < rows.len() ==> !#[trigger] tells(k)) {
            assert forall|k: int| 0 <= k < rest.len() implies !#[trigger] rest_tells(k) by {
                assert(!tells(k));
            }
            assert(!tells(last));
        }
        if 0 <= i < rest.len() && tells(i) && (forall|k: int|
            i < k < rows.len() ==> !#[trigger] tells(k)) {
            assert(rest_tells(i));
            assert forall|k: int| i < k < rest.len() implies !#[trigger] rest_tells(k) by {
                assert(!tells(k));
            }
            assert(!tells(last));
            assert(rest_description(i) == description(i));
        }
    }
}

/// A listing of one adapter tells what an array of it tells; without a listing
/// nothing is told.
pub proof fn single_adapter_is_a_listing_of_one(row: RowView, rows: Seq<RowView>)
    ensures
        categories_loaded(Some(DocumentView::Single(row))) == categories_in(seq![row]),
        categories_loaded(Some(DocumentView::Rows(rows))) == categories_in(rows),
        categories_loaded(None) == Map::<Seq<char>, u8>::empty(),
        device_names_loaded(Some(DocumentView::Single(row))) == device_names_in(seq![row]),
        device_names_loaded(Some(DocumentView::Rows(rows))) == device_names_in(rows),
        device_names_loaded(None) == Map::<Seq<char>, Seq<char>>::empty(),
{
}

} // verus!
