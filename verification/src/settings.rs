//! The IPv4 settings that an interface has.

use vstd::arithmetic::power2::pow2;
use vstd::prelude::*;

use crate::adapters::{powershell, script_command};
use crate::command::{
    document_of_success, document_put_out, output_view, standard_text, CommandLine, CommandOutput,
};
use crate::ipv4::{
    dotted, dotted_has_its_numbers, is_dotted_quad, mask_is_injective, mask_is_ipv4,
    mask_is_the_value_of_the_prefix, mask_text, prefix_length_to_mask,
};
use crate::json::{
    fields_are_read_by_name_and_kind, has_field, json_quoted, lacks_field,
    missing_fields_hold_nothing, quote, Document, DocumentView, FieldView, Row, RowView,
};
use crate::text::{is_blank, trim};

verus! {

/// The IPv4 settings of an interface.
pub ghost struct SettingsView {
    pub ip: Seq<char>,
    pub mask: Seq<char>,
    pub gateway: Seq<char>,
    pub dhcp_enabled: Option<bool>,
}

/// The IPv4 settings of an interface. What it does not have is empty; whether
/// it uses DHCP may be unknown.
#[derive(Debug, PartialEq, Eq)]
pub struct InterfaceSettings {
    pub ip: String,
    pub mask: String,
    pub gateway: String,
    pub dhcp_enabled: Option<bool>,
}

impl View for InterfaceSettings {
    type V = SettingsView;

    open spec fn view(&self) -> SettingsView {
        SettingsView {
            ip: self.ip@,
            mask: self.mask@,
            gateway: self.gateway@,
            dhcp_enabled: self.dhcp_enabled,
        }
    }
}

/// The view of settings that may be missing.
pub open spec fn settings_view(settings: Option<InterfaceSettings>) -> Option<SettingsView> {
    match settings {
        Some(s) => Some(s@),
        None => None,
    }
}

/// The script that reads the settings of an interface.
pub open spec fn settings_script(interface: Seq<char>) -> Seq<char> {
    "$alias = "@ + json_quoted(interface)
        + "; $ipif = Get-NetIPInterface -InterfaceAlias $alias -AddressFamily IPv4 -ErrorAction SilentlyContinue | Select-Object -First 1; Get-NetIPConfiguration -InterfaceAlias $alias -Detailed -ErrorAction SilentlyContinue | Select-Object -First 1 -Property @(@{Name='DhcpEnabled'; Expression={ if ($ipif) { [bool]($ipif.Dhcp -eq 'Enabled') } else { $null } }}, @{Name='IPAddress'; Expression={ ($_.IPv4Address | Select-Object -First 1).IPAddress }}, @{Name='PrefixLength'; Expression={ ($_.IPv4Address | Select-Object -First 1).PrefixLength }}, @{Name='DefaultGateway'; Expression={ ($_.IPv4DefaultGateway | Select-Object -First 1).NextHop }}) | ConvertTo-Json -Compress"@
}

/// The command that reads the settings of an interface; none for a blank name.
pub fn ipv4_settings_command(interface: &str) -> (r: Option<CommandLine>)
    ensures
        r is Some <==> !is_blank(interface@),
        r matches Some(command) ==> command@ == script_command(settings_script(interface@)),
{
    if trim(interface).is_empty() {
        return None;
    }
    match quote(interface) {
        Ok(escaped) => {
            let mut script: String = "$alias = ".to_owned();
            script.append(&escaped);
            script.append(
                "; $ipif = Get-NetIPInterface -InterfaceAlias $alias -AddressFamily IPv4 -ErrorAction SilentlyContinue | Select-Object -First 1; Get-NetIPConfiguration -InterfaceAlias $alias -Detailed -ErrorAction SilentlyContinue | Select-Object -First 1 -Property @(@{Name='DhcpEnabled'; Expression={ if ($ipif) { [bool]($ipif.Dhcp -eq 'Enabled') } else { $null } }}, @{Name='IPAddress'; Expression={ ($_.IPv4Address | Select-Object -First 1).IPAddress }}, @{Name='PrefixLength'; Expression={ ($_.IPv4Address | Select-Object -First 1).PrefixLength }}, @{Name='DefaultGateway'; Expression={ ($_.IPv4DefaultGateway | Select-Object -First 1).NextHop }}) | ConvertTo-Json -Compress",
            );
            Some(powershell(&script))
        },
        Err(_) => None,
    }
}

/// The subnet mask of a prefix length that a row tells, if any: only the lower
/// 32 bits of the length count, and what they make must be the length of a
/// prefix.
pub open spec fn mask_told(prefix_length: Option<u64>) -> Seq<char> {
    match prefix_length {
        Some(n) => if n % 0x1_0000_0000 <= 32 {
            mask_text((n % 0x1_0000_0000) as int)
        } else {
            Seq::empty()
        },
        None => Seq::empty(),
    }
}

/// The settings that a row tells.
pub open spec fn settings_in(row: RowView) -> SettingsView {
    SettingsView {
        ip: row.text_or_empty("IPAddress"@),
        mask: mask_told(row.count("PrefixLength"@)),
        gateway: row.text_or_empty("DefaultGateway"@),
        dhcp_enabled: row.flag("DhcpEnabled"@),
    }
}

/// Whether settings tell nothing.
pub open spec fn tells_nothing(settings: SettingsView) -> bool {
    settings.ip.len() == 0 && settings.gateway.len() == 0 && settings.mask.len() == 0
        && settings.dhcp_enabled is None
}

/// The settings that a document tells: it must be one object, which tells
/// something.
pub open spec fn settings_told(document: DocumentView) -> Option<SettingsView> {
    match document {
        DocumentView::Single(row) => if row is Fields && !tells_nothing(settings_in(row)) {
            Some(settings_in(row))
        } else {
            None
        },
        DocumentView::Rows(_) => None,
    }
}

/// The settings of an interface, from the document that was read for it.
pub open spec fn settings_read(
    interface: Seq<char>,
    document: Option<DocumentView>,
) -> Option<SettingsView> {
    if is_blank(interface) {
        None
    } else {
        match document {
            Some(d) => settings_told(d),
            None => None,
        }
    }
}

fn mask_of_row(row: &Row) -> (r: String)
    ensures
        r@ == mask_told(row@.count("PrefixLength"@)),
{
    match row.count("PrefixLength") {
        Some(n) => {
            let low: u64 = n % 0x1_0000_0000;
            if low <= 32 {
                match prefix_length_to_mask(low as i32) {
                    Some(mask) => mask,
                    None => String::new(),
                }
            } else {
                String::new()
            }
        },
        None => String::new(),
    }
}

/// The settings that a document tells.
pub fn settings_from_document(document: &Document) -> (r: Option<InterfaceSettings>)
    ensures
        settings_view(r) == settings_told(document@),
{
    match document {
        Document::Single(row) => match row {
            Row::Fields(_) => {
                let ip = row.text_or_empty("IPAddress");
                let gateway = row.text_or_empty("DefaultGateway");
                let mask = mask_of_row(row);
                let dhcp_enabled = row.flag("DhcpEnabled");
                if ip.as_str().is_empty() && gateway.as_str().is_empty() && mask.as_str().is_empty()
                    && dhcp_enabled.is_none() {
                    return None;
                }
                Some(InterfaceSettings { ip, mask, gateway, dhcp_enabled })
            },
            Row::Other => None,
        },
        Document::Rows(_) => None,
    }
}

/// The settings of an interface, from what the command for them put out.
pub fn get_interface_ipv4_settings(interface: &str, output: Option<&CommandOutput>) -> (r: Option<
    InterfaceSettings,
>)
    ensures
        settings_view(r) == settings_read(
            interface@,
            document_put_out(standard_text(output_view(output))),
        ),
{
    if trim(interface).is_empty() {
        return None;
    }
    match document_of_success(output) {
        Some(document) => settings_from_document(&document),
        None => None,
    }
}

/// A setting as it is shown.
pub open spec fn shown(setting: Seq<char>) -> Seq<char> {
    if setting.len() == 0 {
        "Unassigned"@
    } else {
        setting
    }
}

/// The settings of an interface as they are shown.
pub open spec fn settings_message(interface: Seq<char>, settings: Option<SettingsView>) -> Seq<
    char,
> {
    match settings {
        Some(s) => {
            let mode = if s.dhcp_enabled == Some(true) {
                "DHCP"@
            } else {
                "Static"@
            };
            interface + " · "@ + mode + "\nIP "@ + shown(s.ip) + "\nMask "@ + shown(s.mask)
                + "\nGateway "@ + shown(s.gateway)
        },
        None => interface + ": unavailable"@,
    }
}

fn show(setting: &str) -> (r: String)
    ensures
        r@ == shown(setting@),
{
    if setting.is_empty() {
        "Unassigned".to_owned()
    } else {
        setting.to_owned()
    }
}

/// The settings of an interface as they are shown.
pub fn describe_settings(interface: &str, settings: &Option<InterfaceSettings>) -> (r: String)
    ensures
        r@ == settings_message(interface@, settings_view(*settings)),
{
    let mut r: String = interface.to_owned();
    match settings {
        Some(s) => {
            let uses_dhcp = match s.dhcp_enabled {
                Some(flag) => flag,
                None => false,
            };
            r.append(" · ");
            if uses_dhcp {
                r.append("DHCP");
            } else {
                r.append("Static");
            }
            r.append("\nIP ");
            r.append(&show(&s.ip));
            r.append("\nMask ");
            r.append(&show(&s.mask));
            r.append("\nGateway ");
            r.append(&show(&s.gateway));
        },
        None => {
            r.append(": unavailable");
        },
    }
    r
}

/// The mask of settings that were read is missing or an IPv4 value, and the
/// settings tell something.
pub proof fn settings_read_are_sound(interface: Seq<char>, document: Option<DocumentView>)
    ensures
        settings_read(interface, document) matches Some(s) ==> !tells_nothing(s) && (s.mask.len()
            == 0 || is_dotted_quad(s.mask)),
{
    match document {
        Some(DocumentView::Single(row)) => {
            match row.count("PrefixLength"@) {
                Some(n) => mask_is_ipv4((n % 0x1_0000_0000) as int),
                None => {},
            }
        },
        _ => {},
    }
}

/// The mask that is read is that of the prefix length of the row: the dotted
/// form of the number of 32 bits with as many leading ones. Of a length above
/// 32 bits only the lower ones count.
pub proof fn mask_read_is_that_of_the_prefix(interface: Seq<char>, row: RowView, n: u64)
    requires
        !is_blank(interface),
        has_field(row, "PrefixLength"@, FieldView::Count(n)),
    ensures
        ({
            let read = settings_read(interface, Some(DocumentView::Single(row)));
            let length = n as int % 0x1_0000_0000;
            &&& length <= 32 ==> read is Some && exists|a: u8, b: u8, c: u8, d: u8|
                read->0.mask == #[trigger] dotted(a, b, c, d) && 0x100_0000 * a + 0x1_0000 * b
                    + 0x100 * c + d == 0x1_0000_0000 - pow2((32 - length) as nat)
            &&& length <= 32 ==> read->0.mask == mask_text(length)
            &&& length > 32 && read is Some ==> read->0.mask.len() == 0
        }),
{
    fields_are_read_by_name_and_kind(row, "PrefixLength"@, FieldView::Count(n));
    let length = n as int % 0x1_0000_0000;
    if length <= 32 {
        mask_is_the_value_of_the_prefix(length);
        mask_is_ipv4(length);
        let (a, b, c, d) = choose|a: u8, b: u8, c: u8, d: u8|
            mask_text(length) == #[trigger] dotted(a, b, c, d);
        dotted_has_its_numbers(a, b, c, d);
        assert(mask_text(length).len() > 0);
    }
}

/// Rows with different prefix lengths, of up to 32 bits, are read with
/// different masks.
pub proof fn different_prefixes_are_read_differently(
    interface: Seq<char>,
    one: RowView,
    other: RowView,
    m: u64,
    n: u64,
)
    requires
        !is_blank(interface),
        has_field(one, "PrefixLength"@, FieldView::Count(m)),
        has_field(other, "PrefixLength"@, FieldView::Count(n)),
        m <= 32,
        n <= 32,
        m != n,
    ensures
        settings_read(interface, Some(DocumentView::Single(one)))->0.mask != settings_read(
            interface,
            Some(DocumentView::Single(other)),
        )->0.mask,
{
    let x = lemma_mask_read(interface, one, m);
    let y = lemma_mask_read(interface, other, n);
    lemma_masks_differ(x, y, m as int, n as int);
}

/// Whether a text is the subnet mask of a prefix.
#[verifier::opaque]
spec fn is_mask_of(mask: Seq<char>, prefix_length: int) -> bool {
    mask == mask_text(prefix_length)
}

#[verifier::spinoff_prover]
proof fn lemma_mask_read(interface: Seq<char>, row: RowView, n: u64) -> (mask: Seq<char>)
    requires
        !is_blank(interface),
        has_field(row, "PrefixLength"@, FieldView::Count(n)),
        n <= 32,
    ensures
        mask == settings_read(interface, Some(DocumentView::Single(row)))->0.mask,
        is_mask_of(mask, n as int),
{
    reveal(is_mask_of);
    mask_read_is_that_of_the_prefix(interface, row, n);
    settings_read(interface, Some(DocumentView::Single(row)))->0.mask
}

proof fn lemma_masks_differ(x: Seq<char>, y: Seq<char>, m: int, n: int)
    requires
        is_mask_of(x, m),
        is_mask_of(y, n),
        0 <= m <= 32,
        0 <= n <= 32,
        m != n,
    ensures
        x != y,
{
    reveal(is_mask_of);
    if mask_text(m) == mask_text(n) {
        mask_is_injective(m, n);
    }
}

/// The settings that are read of an interface are the fields of the row, each
/// as it is; without a prefix length there is no mask. They are read exactly if
/// the interface has a name and the one row tells one of them.
pub proof fn settings_are_the_fields_of_the_row(interface: Seq<char>, row: RowView)
    ensures
        settings_read(interface, Some(DocumentView::Single(row))) matches Some(s) ==> {
            &&& forall|t: Seq<char>|
                #![trigger has_field(row, "IPAddress"@, FieldView::Text(t))]
                has_field(row, "IPAddress"@, FieldView::Text(t)) ==> s.ip == t
            &&& forall|t: Seq<char>|
                #![trigger has_field(row, "DefaultGateway"@, FieldView::Text(t))]
                has_field(row, "DefaultGateway"@, FieldView::Text(t)) ==> s.gateway == t
            &&& forall|b: bool|
                #![trigger has_field(row, "DhcpEnabled"@, FieldView::Flag(b))]
                has_field(row, "DhcpEnabled"@, FieldView::Flag(b)) ==> s.dhcp_enabled == Some(b)
            &&& lacks_field(row, "IPAddress"@) ==> s.ip.len() == 0
            &&& lacks_field(row, "DefaultGateway"@) ==> s.gateway.len() == 0
            &&& lacks_field(row, "DhcpEnabled"@) ==> s.dhcp_enabled is None
            &&& lacks_field(row, "PrefixLength"@) ==> s.mask.len() == 0
            &&& s.ip == row.text_or_empty("IPAddress"@)
            &&& s.gateway == row.text_or_empty("DefaultGateway"@)
            &&& s.dhcp_enabled == row.flag("DhcpEnabled"@)
            &&& row.count("PrefixLength"@) is None ==> s.mask.len() == 0
        },
        settings_read(interface, Some(DocumentView::Single(row))) is Some <==> !is_blank(interface)
            && row is Fields && (row.text_or_empty("IPAddress"@).len() > 0 || row.text_or_empty(
            "DefaultGateway"@,
        ).len() > 0 || row.flag("DhcpEnabled"@) is Some || (row.count("PrefixLength"@) matches Some(
            n,
        ) && n as int % 0x1_0000_0000 <= 32)),
        forall|rows: Seq<RowView>| #[trigger]
            settings_read(interface, Some(DocumentView::Rows(rows))) is None,
        settings_read(interface, None) is None,
{
    assert forall|t: Seq<char>|
        #![trigger has_field(row, "IPAddress"@, FieldView::Text(t))]
        has_field(row, "IPAddress"@, FieldView::Text(t)) implies row.text_or_empty("IPAddress"@)
        == t by {
        fields_are_read_by_name_and_kind(row, "IPAddress"@, FieldView::Text(t));
    }
    assert forall|t: Seq<char>|
        #![trigger has_field(row, "DefaultGateway"@, FieldView::Text(t))]
        has_field(row, "DefaultGateway"@, FieldView::Text(t)) implies row.text_or_empty(
        "DefaultGateway"@,
    ) == t by {
        fields_are_read_by_name_and_kind(row, "DefaultGateway"@, FieldView::Text(t));
    }
    assert forall|b: bool|
        #![trigger has_field(row, "DhcpEnabled"@, FieldView::Flag(b))]
        has_field(row, "DhcpEnabled"@, FieldView::Flag(b)) implies row.flag("DhcpEnabled"@)
        == Some(b) by {
        fields_are_read_by_name_and_kind(row, "DhcpEnabled"@, FieldView::Flag(b));
    }
    if lacks_field(row, "IPAddress"@) {
        missing_fields_hold_nothing(row, "IPAddress"@);
    }
    if lacks_field(row, "DefaultGateway"@) {
        missing_fields_hold_nothing(row, "DefaultGateway"@);
    }
    if lacks_field(row, "DhcpEnabled"@) {
        missing_fields_hold_nothing(row, "DhcpEnabled"@);
    }
    if lacks_field(row, "PrefixLength"@) {
        missing_fields_hold_nothing(row, "PrefixLength"@);
    }
    match row.count("PrefixLength"@) {
        Some(n) => {
            let length = n as int % 0x1_0000_0000;
            if length <= 32 {
                mask_is_ipv4(length);
                let (a, b, c, d) = choose|a: u8, b: u8, c: u8, d: u8|
                    mask_text(length) == #[trigger] dotted(a, b, c, d);
                dotted_has_its_numbers(a, b, c, d);
                assert(mask_text(length).len() > 0);
            }
        },
        None => {},
    }
}

/// The scripts of two interfaces are the same but for the names, which they
/// hold quoted, after the same start.
pub proof fn scripts_differ_in_the_name_only(one: Seq<char>, other: Seq<char>)
    ensures
        exists|tail: Seq<char>|
            settings_script(one) == #[trigger] ("$alias = "@ + json_quoted(one) + tail)
                && settings_script(other) == "$alias = "@ + json_quoted(other) + tail,
{
    let tail = settings_script(one).skip(("$alias = "@ + json_quoted(one)).len() as int);
    assert(settings_script(one) =~= "$alias = "@ + json_quoted(one) + tail);
    assert(settings_script(other) =~= "$alias = "@ + json_quoted(other) + tail);
}

/// What is shown of settings: the interface, whether it uses DHCP, and the
/// address, the mask and the gateway, each after its own word; Unassigned for
/// what is empty.
pub proof fn every_setting_is_shown(interface: Seq<char>, s: SettingsView)
    ensures
        s.ip.len() > 0 && s.mask.len() > 0 && s.gateway.len() > 0 ==> settings_message(
            interface,
            Some(s),
        ) == interface + (if s.dhcp_enabled == Some(true) {
            " · "@ + "DHCP"@
        } else {
            " · "@ + "Static"@
        }) + "\nIP "@ + s.ip + "\nMask "@ + s.mask + "\nGateway "@ + s.gateway,
        s.ip.len() == 0 ==> settings_message(interface, Some(s)) == settings_message(
            interface,
            Some(SettingsView { ip: "Unassigned"@, ..s }),
        ),
        s.mask.len() == 0 ==> settings_message(interface, Some(s)) == settings_message(
            interface,
            Some(SettingsView { mask: "Unassigned"@, ..s }),
        ),
        s.gateway.len() == 0 ==> settings_message(interface, Some(s)) == settings_message(
            interface,
            Some(SettingsView { gateway: "Unassigned"@, ..s }),
        ),
        settings_message(interface, None) == interface + ": unavailable"@,
{
    reveal_strlit("Unassigned");
    assert("Unassigned"@.len() > 0);
    if s.ip.len() > 0 && s.mask.len() > 0 && s.gateway.len() > 0 {
        assert(settings_message(interface, Some(s)) =~= interface + (if s.dhcp_enabled == Some(
            true,
        ) {
            " · "@ + "DHCP"@
        } else {
            " · "@ + "Static"@
        }) + "\nIP "@ + s.ip + "\nMask "@ + s.mask + "\nGateway "@ + s.gateway);
    }
}

} // verus!
