//! Saved profiles: the static settings of an interface, under a name.

use vstd::prelude::*;

use crate::json::{
    distinct_names, document_in, document_of, field_is_there_or_not, json_array_of, json_object_of,
    json_pretty, json_read, lacks_field, lemma_lookup, missing_fields_hold_nothing, read_document,
    row_of, row_views, text_fields, text_rows, write_rows, Document, DocumentView, FieldView, Row,
    RowView,
};
use crate::text::{is_blank, same_text, trim, trim_is_idempotent, trimmed};

verus! {

/// A saved profile.
pub ghost struct ProfileView {
    pub name: Seq<char>,
    pub net_interface: Seq<char>,
    pub ip: Seq<char>,
    pub mask: Seq<char>,
    pub gateway: Seq<char>,
}

/// A saved profile: the static settings of an interface, under a name that may
/// be empty.
#[derive(Debug, PartialEq, Eq)]
pub struct IpProfile {
    pub name: String,
    pub net_interface: String,
    pub ip: String,
    pub mask: String,
    pub gateway: String,
}

impl View for IpProfile {
    type V = ProfileView;

    open spec fn view(&self) -> ProfileView {
        ProfileView {
            name: self.name@,
            net_interface: self.net_interface@,
            ip: self.ip@,
            mask: self.mask@,
            gateway: self.gateway@,
        }
    }
}

impl Clone for IpProfile {
    fn clone(&self) -> (r: Self)
        ensures
            r == *self,
    {
        IpProfile {
            name: self.name.clone(),
            net_interface: self.net_interface.clone(),
            ip: self.ip.clone(),
            mask: self.mask.clone(),
            gateway: self.gateway.clone(),
        }
    }
}

/// The views of some profiles.
pub open spec fn profile_views(profiles: Seq<IpProfile>) -> Seq<ProfileView> {
    profiles.map_values(|p: IpProfile| p@)
}

impl IpProfile {
    /// Whether two profiles are the same in every field.
    pub fn same_as(&self, other: &IpProfile) -> (r: bool)
        ensures
            r == (self@ == other@),
    {
        same_text(&self.name, &other.name) && same_text(&self.net_interface, &other.net_interface)
            && same_text(&self.ip, &other.ip) && same_text(&self.mask, &other.mask) && same_text(
            &self.gateway,
            &other.gateway,
        )
    }
}

impl ProfileView {
    /// Whether every field but the name holds something.
    pub open spec fn is_complete(self) -> bool {
        self.net_interface.len() > 0 && self.ip.len() > 0 && self.mask.len() > 0
            && self.gateway.len() > 0
    }

    /// What a profile is called: its name, or its interface where it has none.
    pub open spec fn label(self) -> Seq<char> {
        if trimmed(self.name).len() == 0 {
            self.net_interface
        } else {
            trimmed(self.name)
        }
    }
}

/// What a profile is called: its name, or its interface where it has none.
pub fn profile_label(profile: &IpProfile) -> (r: String)
    ensures
        r@ == profile@.label(),
{
    let name = trim(&profile.name);
    if name.is_empty() {
        profile.net_interface.clone()
    } else {
        name.to_owned()
    }
}

/// The name that a profile gets by an edit: what was typed, and none where
/// that is the interface.
pub open spec fn name_from_edit(typed: Seq<char>, net_interface: Seq<char>) -> Seq<char> {
    if trimmed(typed) == net_interface {
        Seq::empty()
    } else {
        trimmed(typed)
    }
}

/// The name that a profile gets by an edit.
pub fn normalized_name(typed: &str, net_interface: &str) -> (r: String)
    ensures
        r@ == name_from_edit(typed@, net_interface@),
{
    let name = trim(typed);
    if same_text(name, net_interface) {
        String::new()
    } else {
        name.to_owned()
    }
}

/// The interface that a row tells: in the field net_interface, or in the older
/// field interface where it has none.
pub open spec fn interface_in(row: RowView) -> Seq<char> {
    if row.field("net_interface"@) is Some {
        row.text_or_empty("net_interface"@)
    } else {
        row.text_or_empty("interface"@)
    }
}

/// The profile in a row, complete or not.
pub open spec fn profile_fields(row: RowView) -> ProfileView {
    ProfileView {
        name: row.text_or_empty("name"@),
        net_interface: interface_in(row),
        ip: row.text_or_empty("ip"@),
        mask: row.text_or_empty("mask"@),
        gateway: row.text_or_empty("gateway"@),
    }
}

/// The complete profiles in some rows.
pub open spec fn profiles_in_rows(rows: Seq<RowView>) -> Seq<ProfileView> {
    rows.map_values(|row: RowView| profile_fields(row)).filter(|p: ProfileView| p.is_complete())
}

/// The complete profiles in a document; none unless it is an array.
pub open spec fn profiles_in(document: DocumentView) -> Seq<ProfileView> {
    match document {
        DocumentView::Rows(rows) => profiles_in_rows(rows),
        DocumentView::Single(_) => Seq::empty(),
    }
}

/// The profiles that a file holds; none if it could not be read or is not JSON.
pub open spec fn profiles_loaded(content: Option<Seq<char>>) -> Seq<ProfileView> {
    match content {
        Some(text) => match document_in(text) {
            Some(document) => profiles_in(document),
            None => Seq::empty(),
        },
        None => Seq::empty(),
    }
}

fn profile_from_row(row: &Row) -> (r: Option<IpProfile>)
    ensures
        r is Some <==> profile_fields(row@).is_complete(),
        r matches Some(p) ==> p@ == profile_fields(row@),
{
    let name = row.text_or_empty("name");
    let net_interface = if row.field("net_interface").is_some() {
        row.text_or_empty("net_interface")
    } else {
        row.text_or_empty("interface")
    };
    let ip = row.text_or_empty("ip");
    let mask = row.text_or_empty("mask");
    let gateway = row.text_or_empty("gateway");
    if net_interface.as_str().is_empty() || ip.as_str().is_empty() || mask.as_str().is_empty()
        || gateway.as_str().is_empty() {
        return None;
    }
    Some(IpProfile { name, net_interface, ip, mask, gateway })
}

/// The complete profiles in a document.
pub fn profiles_from_document(document: &Document) -> (r: Vec<IpProfile>)
    ensures
        profile_views(r@) == profiles_in(document@),
{
    let mut r: Vec<IpProfile> = Vec::new();
    match document {
        Document::Rows(rows) => {
            let ghost all = document@->Rows_0.map_values(|row: RowView| profile_fields(row));
            let ghost complete = |p: ProfileView| p.is_complete();
            let mut i: usize = 0;
            assert(profile_views(r@) =~= all.take(0).filter(complete)) by {
                reveal(Seq::filter);
            }
            while i < rows.len()
                invariant
                    i <= rows@.len(),
                    document@ == DocumentView::Rows(row_views(rows@)),
                    all == document@->Rows_0.map_values(|row: RowView| profile_fields(row)),
                    complete == |p: ProfileView| p.is_complete(),
                    profile_views(r@) == all.take(i as int).filter(complete),
                decreases rows@.len() - i,
            {
                let ghost before = profile_views(r@);
                proof {
                    reveal(Seq::filter);
                    assert(all.take(i + 1).drop_last() =~= all.take(i as int));
                    assert(all.take(i + 1).last() == profile_fields(rows@[i as int]@));
                }
                match profile_from_row(&rows[i]) {
                    Some(p) => {
                        r.push(p);
                        assert(profile_views(r@) =~= before.push(p@));
                    },
                    None => {},
                }
                i += 1;
            }
            assert(all.take(i as int) =~= all);
        },
        Document::Single(_) => {
            assert(profile_views(r@) =~= Seq::<ProfileView>::empty());
        },
    }
    r
}

/// The profiles that a file holds, from its content; none if it could not be
/// read or is not JSON.
pub fn load_profiles(content: Option<&str>) -> (r: Vec<IpProfile>)
    ensures
        profile_views(r@) == profiles_loaded(
            match content {
                Some(text) => Some(text@),
                None => None,
            },
        ),
{
    let none: Vec<IpProfile> = Vec::new();
    assert(profile_views(none@) =~= Seq::<ProfileView>::empty());
    match content {
        Some(text) => match read_document(text) {
            Some(document) => profiles_from_document(&document),
            None => none,
        },
        None => none,
    }
}

/// The fields of a profile as they are saved.
pub open spec fn profile_row(p: ProfileView) -> Seq<(Seq<char>, Seq<char>)> {
    seq![
        ("name"@, p.name),
        ("net_interface"@, p.net_interface),
        ("ip"@, p.ip),
        ("mask"@, p.mask),
        ("gateway"@, p.gateway),
    ]
}

/// The fields of some profiles as they are saved.
pub open spec fn profile_rows(profiles: Seq<ProfileView>) -> Seq<Seq<(Seq<char>, Seq<char>)>> {
    profiles.map_values(|p: ProfileView| profile_row(p))
}

proof fn lemma_profile_row(p: ProfileView)
    ensures
        distinct_names(profile_row(p)),
        profile_fields(row_of(json_object_of(profile_row(p)))) == p,
{
    lemma_field_names();
    let row = row_of(json_object_of(profile_row(p)));
    let fields = row->Fields_0;
    assert(fields =~= seq![
        ("name"@, FieldView::Text(p.name)),
        ("net_interface"@, FieldView::Text(p.net_interface)),
        ("ip"@, FieldView::Text(p.ip)),
        ("mask"@, FieldView::Text(p.mask)),
        ("gateway"@, FieldView::Text(p.gateway)),
    ]);
    lemma_lookup(fields, 0);
    lemma_lookup(fields, 1);
    lemma_lookup(fields, 2);
    lemma_lookup(fields, 3);
    lemma_lookup(fields, 4);
}

proof fn lemma_field_names()
    ensures
        "name"@ != "net_interface"@,
        "name"@ != "ip"@,
        "name"@ != "mask"@,
        "name"@ != "gateway"@,
        "net_interface"@ != "ip"@,
        "net_interface"@ != "mask"@,
        "net_interface"@ != "gateway"@,
        "ip"@ != "mask"@,
        "ip"@ != "gateway"@,
        "mask"@ != "gateway"@,
{
    reveal_strlit("name");
    reveal_strlit("net_interface");
    reveal_strlit("ip");
    reveal_strlit("mask");
    reveal_strlit("gateway");
    assert("name"@.len() == 4 && "net_interface"@.len() == 13 && "ip"@.len() == 2);
    assert("mask"@.len() == 4 && "gateway"@.len() == 7);
    assert("name"@[0] != "mask"@[0]);
}

/// Profiles that are saved are read back as they were and in their order, but
/// for those that are not complete, which are not read back.
pub proof fn saved_profiles_are_loaded(profiles: Seq<ProfileView>, text: Seq<char>)
    requires
        json_read(text) == Some(json_array_of(profile_rows(profiles))),
    ensures
        profiles_loaded(Some(text)) == profiles.filter(|p: ProfileView| p.is_complete()),
{
    let rows = document_of(json_array_of(profile_rows(profiles)))->Rows_0;
    assert(rows.map_values(|row: RowView| profile_fields(row)) =~= profiles) by {
        assert forall|i: int| 0 <= i < profiles.len() implies profile_fields(rows[i])
            == #[trigger] profiles[i] by {
            lemma_profile_row(profiles[i]);
        }
    }
}

/// Complete profiles that are saved are read back as they were and in their
/// order.
pub proof fn complete_profiles_are_loaded(profiles: Seq<ProfileView>, text: Seq<char>)
    requires
        json_read(text) == Some(json_array_of(profile_rows(profiles))),
        forall|i: int| 0 <= i < profiles.len() ==> (#[trigger] profiles[i]).is_complete(),
    ensures
        profiles_loaded(Some(text)) == profiles,
{
    saved_profiles_are_loaded(profiles, text);
    lemma_filter_all(profiles, |p: ProfileView| p.is_complete());
}

proof fn lemma_filter_all(profiles: Seq<ProfileView>, pred: spec_fn(ProfileView) -> bool)
    requires
        forall|i: int| 0 <= i < profiles.len() ==> pred(#[trigger] profiles[i]),
    ensures
        profiles.filter(pred) == profiles,
    decreases profiles.len(),
{
    reveal(Seq::filter);
    if profiles.len() > 0 {
        assert forall|i: int| 0 <= i < profiles.len() - 1 implies pred(
            #[trigger] profiles.drop_last()[i],
        ) by {
            assert(profiles[i] == profiles.drop_last()[i]);
        }
        lemma_filter_all(profiles.drop_last(), pred);
        assert(pred(profiles[profiles.len() - 1]));
        assert(profiles.drop_last().push(profiles.last()) =~= profiles);
    }
}

fn saved_row(p: &IpProfile) -> (row: Vec<(String, String)>)
    ensures
        text_fields(row@) == profile_row(p@),
{
    let mut row: Vec<(String, String)> = Vec::new();
    row.push(("name".to_owned(), p.name.clone()));
    row.push(("net_interface".to_owned(), p.net_interface.clone()));
    row.push(("ip".to_owned(), p.ip.clone()));
    row.push(("mask".to_owned(), p.mask.clone()));
    row.push(("gateway".to_owned(), p.gateway.clone()));
    assert(text_fields(row@) =~= profile_row(p@));
    row
}

/// The content of a file that holds some profiles: a JSON array, indented, of
/// an object for each. Reading it gives the complete profiles back.
pub fn save_profiles(profiles: &[IpProfile]) -> (r: Option<String>)
    ensures
        r is Some,
        r matches Some(text) ==> {
            &&& text@ == json_pretty(profile_rows(profile_views(profiles@)))
            &&& json_read(text@) == Some(json_array_of(profile_rows(profile_views(profiles@))))
            &&& profiles_loaded(Some(text@)) == profile_views(profiles@).filter(
                |p: ProfileView| p.is_complete(),
            )
        },
{
    let mut rows: Vec<Vec<(String, String)>> = Vec::new();
    let mut i: usize = 0;
    let ghost all = profile_rows(profile_views(profiles@));
    while i < profiles.len()
        invariant
            i <= profiles@.len(),
            all == profile_rows(profile_views(profiles@)),
            text_rows(rows@) =~= all.take(i as int),
        decreases profiles@.len() - i,
    {
        let ghost before = text_rows(rows@);
        let row = saved_row(&profiles[i]);
        let ghost view = text_fields(row@);
        rows.push(row);
        proof {
            assert(text_rows(rows@) =~= before.push(view));
            assert(all[i as int] == view);
        }
        i += 1;
    }
    proof {
        assert(all.take(i as int) =~= all);
        assert forall|k: int| 0 <= k < rows@.len() implies distinct_names(
            #[trigger] text_rows(rows@)[k],
        ) by {
            assert(text_rows(rows@)[k] == all[k]);
            lemma_profile_row(profiles@[k]@);
        }
    }
    match write_rows(&rows) {
        Ok(text) => {
            proof {
                saved_profiles_are_loaded(profile_views(profiles@), text@);
            }
            Some(text)
        },
        Err(_) => None,
    }
}

/// The label of a profile after an edit of its name is what was typed, without
/// the white space around it; the interface where nothing was typed.
pub proof fn label_shows_the_edit(p: ProfileView, typed: Seq<char>)
    ensures
        (ProfileView { name: name_from_edit(typed, p.net_interface), ..p }).label() == if trimmed(
            typed,
        ).len() == 0 {
            p.net_interface
        } else {
            trimmed(typed)
        },
{
    trim_is_idempotent(typed);
}

/// Every profile that is read from a file is complete.
pub proof fn loaded_profiles_are_complete(content: Option<Seq<char>>, i: int)
    requires
        0 <= i < profiles_loaded(content).len(),
    ensures
        profiles_loaded(content)[i].is_complete(),
{
    match content {
        Some(text) => match document_in(text) {
            Some(DocumentView::Rows(rows)) => {
                let all = rows.map_values(|row: RowView| profile_fields(row));
                all.lemma_filter_pred(|p: ProfileView| p.is_complete(), i);
            },
            _ => {},
        },
        None => {},
    }
}

/// A complete profile is called something.
pub proof fn complete_profile_has_a_label(p: ProfileView)
    requires
        p.is_complete(),
    ensures
        p.label().len() > 0,
{
}

/// Whether a row is that of a profile: each field of the profile is the text
/// in the field of the row of the same name, and empty where there is no such
/// text; the interface may be in the older field instead.
pub open spec fn is_row_of(row: RowView, p: ProfileView) -> bool {
    &&& p.name == row.text_or_empty("name"@)
    &&& p.ip == row.text_or_empty("ip"@)
    &&& p.mask == row.text_or_empty("mask"@)
    &&& p.gateway == row.text_or_empty("gateway"@)
    &&& !lacks_field(row, "net_interface"@) ==> p.net_interface == row.text_or_empty(
        "net_interface"@,
    )
    &&& lacks_field(row, "net_interface"@) ==> p.net_interface == row.text_or_empty("interface"@)
}

/// An array of one row holds the profile of that row if its interface, its
/// address, its mask and its gateway are there, and no profile otherwise.
pub proof fn one_row_holds_its_profile(row: RowView, p: ProfileView)
    requires
        is_row_of(row, p),
    ensures
        p.net_interface.len() > 0 && p.ip.len() > 0 && p.mask.len() > 0 && p.gateway.len() > 0
            ==> profiles_in(DocumentView::Rows(seq![row])) == seq![p],
        p.net_interface.len() == 0 || p.ip.len() == 0 || p.mask.len() == 0 || p.gateway.len() == 0
            ==> profiles_in(DocumentView::Rows(seq![row])).len() == 0,
{
    field_is_there_or_not(row, "net_interface"@);
    if lacks_field(row, "net_interface"@) {
        missing_fields_hold_nothing(row, "net_interface"@);
    }
    assert(profile_fields(row) == p);
    reveal_with_fuel(Seq::filter, 2);
    let all = seq![row].map_values(|r: RowView| profile_fields(r));
    assert(all =~= seq![p]);
    assert(seq![p].drop_last() =~= Seq::<ProfileView>::empty());
    assert(seq![p].drop_last().filter(|x: ProfileView| x.is_complete()) =~= Seq::<
        ProfileView,
    >::empty());
    assert(profiles_in(DocumentView::Rows(seq![row])) == seq![p].filter(
        |x: ProfileView| x.is_complete(),
    ));
    if p.is_complete() {
        assert(profiles_in(DocumentView::Rows(seq![row])) =~= seq![p]);
    }
}

/// The rows of an array are read one after the other: the profiles of its first
/// rows come before those of the others, and nothing else is read. A document
/// that is no array holds no profile.
pub proof fn rows_are_read_one_after_the_other(
    rows: Seq<RowView>,
    more: Seq<RowView>,
    row: RowView,
)
    ensures
        profiles_in(DocumentView::Rows(rows + more)) == profiles_in(DocumentView::Rows(rows))
            + profiles_in(DocumentView::Rows(more)),
        profiles_in(DocumentView::Single(row)).len() == 0,
{
    let fields = |r: RowView| profile_fields(r);
    let complete = |p: ProfileView| p.is_complete();
    assert((rows + more).map_values(fields) =~= rows.map_values(fields) + more.map_values(fields));
    Seq::filter_distributes_over_add(rows.map_values(fields), more.map_values(fields), complete);
}

/// A file that could not be read or is not JSON holds no profile; any other
/// holds those of its document.
pub proof fn profiles_are_those_of_the_document(text: Seq<char>)
    ensures
        profiles_loaded(None).len() == 0,
        document_in(text) is None ==> profiles_loaded(Some(text)).len() == 0,
        document_in(text) is Some ==> profiles_loaded(Some(text)) == profiles_in(
            document_in(text)->0,
        ),
{
}

/// A profile is called by its name, without the white space around it, and by
/// its interface as it is where the name is blank.
pub proof fn profiles_are_called_by_name(p: ProfileView, other: ProfileView)
    ensures
        !is_blank(p.name) ==> p.label() == trimmed(p.name),
        is_blank(p.name) ==> p.label() == p.net_interface,
        is_blank(p.name) && is_blank(other.name) && p.net_interface == other.net_interface
            ==> p.label() == other.label(),
{
}

/// An edited name is kept without the white space around it, unless it is the
/// interface: then there is no name.
pub proof fn edited_names_are_kept(typed: Seq<char>, net_interface: Seq<char>)
    ensures
        trimmed(typed) != net_interface ==> name_from_edit(typed, net_interface) == trimmed(typed),
        trimmed(typed) == net_interface ==> name_from_edit(typed, net_interface).len() == 0,
{
}

} // verus!
