//! JSON documents, as the profile file and the adapter listings hold them.

use vstd::prelude::*;

use crate::text::{joined, same_text};

verus! {

/// A JSON value. Of a number only this is kept: its value where it is an
/// unsigned integer of 64 bits. An object is its entries in their order.
pub ghost enum JsonView {
    Null,
    Bool(bool),
    Number(Option<u64>),
    Text(Seq<char>),
    Array(Seq<JsonView>),
    Object(Seq<(Seq<char>, JsonView)>),
}

/// A JSON value of the crate serde_json.
#[verifier::external_type_specification]
#[verifier::external_body]
pub struct ExJsonValue(serde_json::Value);

/// Why serde_json could not read or write a text.
#[verifier::external_type_specification]
#[verifier::external_body]
pub struct ExJsonError(serde_json::Error);

/// What a `serde_json::Value` holds.
pub uninterp spec fn json_contents(value: serde_json::Value) -> JsonView;

/// What `serde_json::from_str` reads in a text; nothing where it fails.
pub uninterp spec fn json_read(text: Seq<char>) -> Option<JsonView>;

/// One level of a JSON value.
enum Node {
    Null,
    Bool(bool),
    Number(Option<u64>),
    Text(String),
    Array(Vec<serde_json::Value>),
    Object(Vec<(String, serde_json::Value)>),
}

impl View for Node {
    type V = JsonView;

    closed spec fn view(&self) -> JsonView {
        match self {
            Node::Null => JsonView::Null,
            Node::Bool(b) => JsonView::Bool(*b),
            Node::Number(n) => JsonView::Number(*n),
            Node::Text(s) => JsonView::Text(s@),
            Node::Array(items) => JsonView::Array(
                items@.map_values(|v: serde_json::Value| json_contents(v)),
            ),
            Node::Object(entries) => JsonView::Object(
                entries@.map_values(|e: (String, serde_json::Value)| (e.0@, json_contents(e.1))),
            ),
        }
    }
}

/// Calls `serde_json::from_str`. Claimed: whether it succeeds, and what the
/// value then holds, depends on the text alone.
#[verifier::external_body]
fn read_value(text: &str) -> (r: Result<serde_json::Value, serde_json::Error>)
    ensures
        r is Ok <==> json_read(text@) is Some,
        r matches Ok(value) ==> json_read(text@) == Some(json_contents(value)),
{
    serde_json::from_str(text)
}

/// Tells the variants of a `serde_json::Value` apart. Claimed: the node is the
/// variant, with what it holds; a number gives what `Number::as_u64` returns,
/// and an object its entries in the order in which they are walked, which is
/// that of the text, with the feature preserve_order.
#[verifier::external_body]
fn open_value(value: serde_json::Value) -> (node: Node)
    ensures
        node@ == json_contents(value),
{
    match value {
        serde_json::Value::Null => Node::Null,
        serde_json::Value::Bool(b) => Node::Bool(b),
        serde_json::Value::Number(n) => Node::Number(n.as_u64()),
        serde_json::Value::String(s) => Node::Text(s),
        serde_json::Value::Array(items) => Node::Array(items),
        serde_json::Value::Object(entries) => Node::Object(entries.into_iter().collect()),
    }
}

/// A field of a row.
pub ghost enum FieldView {
    Text(Seq<char>),
    Flag(bool),
    Count(u64),
    Other,
}

/// A row of a document.
pub ghost enum RowView {
    Fields(Seq<(Seq<char>, FieldView)>),
    Other,
}

/// A document: an array of rows, or one row.
pub ghost enum DocumentView {
    Rows(Seq<RowView>),
    Single(RowView),
}

/// A field of a row: a text, a truth value, an unsigned integer, or something
/// else.
#[derive(Debug, PartialEq, Eq)]
pub enum Field {
    Text(String),
    Flag(bool),
    Count(u64),
    Other,
}

/// A row of a document: an object with named fields, or something else.
#[derive(Debug, PartialEq, Eq)]
pub enum Row {
    Fields(Vec<(String, Field)>),
    Other,
}

/// A document: an array of rows, or one row.
#[derive(Debug, PartialEq, Eq)]
pub enum Document {
    Rows(Vec<Row>),
    Single(Row),
}

impl View for Field {
    type V = FieldView;

    open spec fn view(&self) -> FieldView {
        match self {
            Field::Text(s) => FieldView::Text(s@),
            Field::Flag(b) => FieldView::Flag(*b),
            Field::Count(n) => FieldView::Count(*n),
            Field::Other => FieldView::Other,
        }
    }
}

/// The views of some named fields.
pub open spec fn field_views(fields: Seq<(String, Field)>) -> Seq<(Seq<char>, FieldView)> {
    fields.map_values(|f: (String, Field)| (f.0@, f.1@))
}

impl View for Row {
    type V = RowView;

    open spec fn view(&self) -> RowView {
        match self {
            Row::Fields(fields) => RowView::Fields(field_views(fields@)),
            Row::Other => RowView::Other,
        }
    }
}

/// The views of some rows.
pub open spec fn row_views(rows: Seq<Row>) -> Seq<RowView> {
    rows.map_values(|r: Row| r@)
}

impl View for Document {
    type V = DocumentView;

    open spec fn view(&self) -> DocumentView {
        match self {
            Document::Rows(rows) => DocumentView::Rows(row_views(rows@)),
            Document::Single(row) => DocumentView::Single(row@),
        }
    }
}

/// A JSON value as a field.
pub open spec fn field_of(value: JsonView) -> FieldView {
    match value {
        JsonView::Text(s) => FieldView::Text(s),
        JsonView::Bool(b) => FieldView::Flag(b),
        JsonView::Number(Some(n)) => FieldView::Count(n),
        _ => FieldView::Other,
    }
}

/// A JSON value as a row.
pub open spec fn row_of(value: JsonView) -> RowView {
    match value {
        JsonView::Object(entries) => RowView::Fields(
            entries.map_values(|e: (Seq<char>, JsonView)| (e.0, field_of(e.1))),
        ),
        _ => RowView::Other,
    }
}

/// A JSON value as a document.
pub open spec fn document_of(value: JsonView) -> DocumentView {
    match value {
        JsonView::Array(items) => DocumentView::Rows(items.map_values(|v: JsonView| row_of(v))),
        _ => DocumentView::Single(row_of(value)),
    }
}

/// The document that a text holds, if it is JSON.
pub open spec fn document_in(text: Seq<char>) -> Option<DocumentView> {
    match json_read(text) {
        Some(value) => Some(document_of(value)),
        None => None,
    }
}

fn field_from(value: serde_json::Value) -> (field: Field)
    ensures
        field@ == field_of(json_contents(value)),
{
    match open_value(value) {
        Node::Text(s) => Field::Text(s),
        Node::Bool(b) => Field::Flag(b),
        Node::Number(Some(n)) => Field::Count(n),
        _ => Field::Other,
    }
}

fn row_from_node(node: Node) -> (row: Row)
    ensures
        row@ == row_of(node@),
{
    match node {
        Node::Object(entries) => {
            let ghost all = entries@;
            let mut fields: Vec<(String, Field)> = Vec::new();
            for entry in it: entries
                invariant
                    it.seq() == all,
                    fields@.len() == it.index(),
                    forall|k: int|
                        0 <= k < fields@.len() ==> #[trigger] fields@[k].0@ == all[k].0@
                            && fields@[k].1@ == field_of(json_contents(all[k].1)),
            {
                let (name, value) = entry;
                fields.push((name, field_from(value)));
            }
            assert(field_views(fields@) =~= row_of(node@)->Fields_0);
            Row::Fields(fields)
        },
        _ => Row::Other,
    }
}

fn document_from(value: serde_json::Value) -> (document: Document)
    ensures
        document@ == document_of(json_contents(value)),
{
    match open_value(value) {
        Node::Array(items) => {
            let ghost all = items@;
            let mut rows: Vec<Row> = Vec::new();
            for item in it: items
                invariant
                    it.seq() == all,
                    rows@.len() == it.index(),
                    forall|k: int|
                        0 <= k < rows@.len() ==> #[trigger] rows@[k]@ == row_of(
                            json_contents(all[k]),
                        ),
            {
                rows.push(row_from_node(open_value(item)));
            }
            assert(row_views(rows@) =~= document_of(json_contents(value))->Rows_0);
            Document::Rows(rows)
        },
        node => Document::Single(row_from_node(node)),
    }
}

/// The document that a text holds, if it is JSON.
pub fn read_document(text: &str) -> (r: Option<Document>)
    ensures
        r is Some <==> document_in(text@) is Some,
        r matches Some(document) ==> document_in(text@) == Some(document@),
{
    match read_value(text) {
        Ok(value) => Some(document_from(value)),
        Err(_) => None,
    }
}

/// The first field of a name.
pub open spec fn lookup(fields: Seq<(Seq<char>, FieldView)>, name: Seq<char>) -> Option<FieldView>
    decreases fields.len(),
{
    if fields.len() == 0 {
        None
    } else if fields[0].0 == name {
        Some(fields[0].1)
    } else {
        lookup(fields.drop_first(), name)
    }
}

/// Looking up the name of a field whose name no earlier field has gives that
/// field.
pub proof fn lemma_lookup(fields: Seq<(Seq<char>, FieldView)>, i: int)
    requires
        0 <= i < fields.len(),
        forall|k: int| 0 <= k < i ==> (#[trigger] fields[k]).0 != fields[i].0,
    ensures
        lookup(fields, fields[i].0) == Some(fields[i].1),
    decreases fields.len(),
{
    if i > 0 {
        let rest = fields.drop_first();
        assert(fields[0].0 != fields[i].0);
        assert forall|k: int| 0 <= k < i - 1 implies (#[trigger] rest[k]).0 != rest[i - 1].0 by {
            assert(rest[k] == fields[k + 1]);
        }
        lemma_lookup(rest, i - 1);
    }
}

impl RowView {
    /// The field of a name, if the row has one.
    pub open spec fn field(self, name: Seq<char>) -> Option<FieldView> {
        match self {
            RowView::Fields(fields) => lookup(fields, name),
            RowView::Other => None,
        }
    }

    /// The text in a field, if the row has that field and it is a text.
    pub open spec fn text(self, name: Seq<char>) -> Option<Seq<char>> {
        match self.field(name) {
            Some(FieldView::Text(s)) => Some(s),
            _ => None,
        }
    }

    /// The text in a field; the empty text if there is none.
    pub open spec fn text_or_empty(self, name: Seq<char>) -> Seq<char> {
        match self.text(name) {
            Some(s) => s,
            None => Seq::empty(),
        }
    }

    /// The truth value in a field, if there is one.
    pub open spec fn flag(self, name: Seq<char>) -> Option<bool> {
        match self.field(name) {
            Some(FieldView::Flag(b)) => Some(b),
            _ => None,
        }
    }

    /// The unsigned integer in a field, if there is one.
    pub open spec fn count(self, name: Seq<char>) -> Option<u64> {
        match self.field(name) {
            Some(FieldView::Count(n)) => Some(n),
            _ => None,
        }
    }
}

impl Row {
    /// The field of a name, if the row has one.
    pub fn field(&self, name: &str) -> (r: Option<&Field>)
        ensures
            r is Some <==> self@.field(name@) is Some,
            r matches Some(field) ==> self@.field(name@) == Some(field@),
    {
        match self {
            Row::Fields(fields) => {
                let ghost all = field_views(fields@);
                let mut i: usize = 0;
                assert(all.skip(0) =~= all);
                while i < fields.len()
                    invariant
                        i <= fields@.len(),
                        all == field_views(fields@),
                        self@.field(name@) == lookup(all, name@),
                        lookup(all, name@) == lookup(all.skip(i as int), name@),
                    decreases fields@.len() - i,
                {
                    let entry = &fields[i];
                    assert(all.skip(i as int)[0] == (fields@[i as int].0@, fields@[i as int].1@));
                    if same_text(&entry.0, name) {
                        return Some(&entry.1);
                    }
                    assert(all.skip(i as int).drop_first() =~= all.skip(i + 1));
                    i += 1;
                }
                None
            },
            Row::Other => None,
        }
    }

    /// The text in a field, if the row has that field and it is a text.
    pub fn text(&self, name: &str) -> (r: Option<String>)
        ensures
            r is Some <==> self@.text(name@) is Some,
            r matches Some(s) ==> self@.text(name@) == Some(s@),
    {
        match self.field(name) {
            Some(Field::Text(s)) => Some(s.clone()),
            _ => None,
        }
    }

    /// The text in a field; the empty text if there is none.
    pub fn text_or_empty(&self, name: &str) -> (r: String)
        ensures
            r@ == self@.text_or_empty(name@),
    {
        match self.text(name) {
            Some(s) => s,
            None => String::new(),
        }
    }

    /// The truth value in a field, if there is one.
    pub fn flag(&self, name: &str) -> (r: Option<bool>)
        ensures
            r == self@.flag(name@),
    {
        match self.field(name) {
            Some(Field::Flag(b)) => Some(*b),
            _ => None,
        }
    }

    /// The unsigned integer in a field, if there is one.
    pub fn count(&self, name: &str) -> (r: Option<u64>)
        ensures
            r == self@.count(name@),
    {
        match self.field(name) {
            Some(Field::Count(n)) => Some(*n),
            _ => None,
        }
    }
}

/// The views of the fields of a row of texts.
pub open spec fn text_fields(row: Seq<(String, String)>) -> Seq<(Seq<char>, Seq<char>)> {
    row.map_values(|f: (String, String)| (f.0@, f.1@))
}

/// The views of some rows of texts.
pub open spec fn text_rows(rows: Seq<Vec<(String, String)>>) -> Seq<Seq<(Seq<char>, Seq<char>)>> {
    rows.map_values(|row: Vec<(String, String)>| text_fields(row@))
}

/// An object of texts as a JSON value.
pub open spec fn json_object_of(row: Seq<(Seq<char>, Seq<char>)>) -> JsonView {
    JsonView::Object(
        row.map_values(|f: (Seq<char>, Seq<char>)| (f.0, JsonView::Text(f.1))),
    )
}

/// An array of objects of texts as a JSON value.
pub open spec fn json_array_of(rows: Seq<Seq<(Seq<char>, Seq<char>)>>) -> JsonView {
    JsonView::Array(rows.map_values(|row: Seq<(Seq<char>, Seq<char>)>| json_object_of(row)))
}

/// Whether no name comes twice in a row of texts.
pub open spec fn distinct_names(row: Seq<(Seq<char>, Seq<char>)>) -> bool {
    forall|i: int, j: int| 0 <= i < j < row.len() ==> (#[trigger] row[i]).0 != (#[trigger] row[j]).0
}

/// The digit of a number below sixteen.
pub open spec fn hex_digit(n: int) -> char {
    if n < 10 {
        ('0' as u32 + n) as char
    } else {
        ('a' as u32 + n - 10) as char
    }
}

/// A character inside a JSON string.
pub open spec fn json_escaped(c: char) -> Seq<char> {
    let n = c as u32;
    if c == '"' || c == '\\' {
        seq!['\\', c]
    } else if n == 8 {
        seq!['\\', 'b']
    } else if n == 9 {
        seq!['\\', 't']
    } else if n == 10 {
        seq!['\\', 'n']
    } else if n == 12 {
        seq!['\\', 'f']
    } else if n == 13 {
        seq!['\\', 'r']
    } else if n < 32 {
        seq!['\\', 'u', '0', '0', hex_digit(n as int / 16), hex_digit(n as int % 16)]
    } else {
        seq![c]
    }
}

/// A text as a JSON string.
pub open spec fn json_quoted(s: Seq<char>) -> Seq<char> {
    seq!['"'] + s.map_values(|c: char| json_escaped(c)).flatten() + seq!['"']
}

/// A field of an object of texts, on a line of its own.
pub open spec fn pretty_field(field: (Seq<char>, Seq<char>)) -> Seq<char> {
    "    "@ + json_quoted(field.0) + ": "@ + json_quoted(field.1)
}

/// An object of texts, indented by one level.
pub open spec fn pretty_object(row: Seq<(Seq<char>, Seq<char>)>) -> Seq<char> {
    if row.len() == 0 {
        "  {}"@
    } else {
        "  {\n"@ + joined(
            row.map_values(|field: (Seq<char>, Seq<char>)| pretty_field(field)),
            ",\n"@,
        ) + "\n  }"@
    }
}

/// An array of objects of texts as indented JSON.
pub open spec fn json_pretty(rows: Seq<Seq<(Seq<char>, Seq<char>)>>) -> Seq<char> {
    if rows.len() == 0 {
        "[]"@
    } else {
        "[\n"@ + joined(
            rows.map_values(|row: Seq<(Seq<char>, Seq<char>)>| pretty_object(row)),
            ",\n"@,
        ) + "\n]"@
    }
}

/// Calls `serde_json::to_string_pretty` on an array of objects of texts.
/// Claimed: it succeeds, since every key is a text and writing to memory does
/// not fail; it indents by two spaces for each level; the entries of a row keep
/// their order, with the feature preserve_order; and `serde_json::from_str`
/// reads the rows back from what was written.
#[verifier::external_body]
pub(crate) fn write_rows(rows: &Vec<Vec<(String, String)>>) -> (r: Result<
    String,
    serde_json::Error,
>)
    requires
        forall|i: int| 0 <= i < rows@.len() ==> distinct_names(#[trigger] text_rows(rows@)[i]),
    ensures
        r is Ok,
        r matches Ok(text) ==> text@ == json_pretty(text_rows(rows@)) && json_read(text@) == Some(
            json_array_of(text_rows(rows@)),
        ),
{
    let field = |f: &(String, String)| (f.0.clone(), serde_json::Value::String(f.1.clone()));
    let row = |r: &Vec<(String, String)>| serde_json::Value::Object(r.iter().map(field).collect());
    let values: Vec<serde_json::Value> = rows.iter().map(row).collect();
    serde_json::to_string_pretty(&values)
}

/// Calls `serde_json::to_string` on a text. Claimed: it succeeds, and writes
/// the text as a JSON string, in which quotes, backslashes and the control
/// characters below the space are escaped, and nothing else.
#[verifier::external_body]
pub(crate) fn quote(s: &str) -> (r: Result<String, serde_json::Error>)
    ensures
        r is Ok,
        r matches Ok(text) ==> text@ == json_quoted(s@),
{
    serde_json::to_string(s)
}

/// Whether a row has a field of a name with a value, and no earlier one of that
/// name.
pub open spec fn has_field(row: RowView, name: Seq<char>, value: FieldView) -> bool {
    row matches RowView::Fields(fields) && exists|i: int|
        0 <= i < fields.len() && #[trigger] fields[i] == (name, value) && forall|k: int|
            0 <= k < i ==> (#[trigger] fields[k]).0 != name
}

/// Whether a row has no field of a name.
pub open spec fn lacks_field(row: RowView, name: Seq<char>) -> bool {
    row matches RowView::Fields(fields) ==> forall|k: int|
        0 <= k < fields.len() ==> (#[trigger] fields[k]).0 != name
}

proof fn lemma_lookup_missing(fields: Seq<(Seq<char>, FieldView)>, name: Seq<char>)
    requires
        forall|k: int| 0 <= k < fields.len() ==> (#[trigger] fields[k]).0 != name,
    ensures
        lookup(fields, name) is None,
    decreases fields.len(),
{
    if fields.len() > 0 {
        let rest = fields.drop_first();
        assert(fields[0].0 != name);
        assert forall|k: int| 0 <= k < rest.len() implies (#[trigger] rest[k]).0 != name by {
            assert(rest[k] == fields[k + 1]);
        }
        lemma_lookup_missing(rest, name);
    }
}

/// What is read in a field of a row is what the first field of that name
/// holds, if that is of the kind that is asked for.
pub proof fn fields_are_read_by_name_and_kind(row: RowView, name: Seq<char>, value: FieldView)
    requires
        has_field(row, name, value),
    ensures
        row.field(name) == Some(value),
        value matches FieldView::Text(s) ==> row.text(name) == Some(s) && row.text_or_empty(name)
            == s,
        value matches FieldView::Flag(b) ==> row.flag(name) == Some(b),
        value matches FieldView::Count(n) ==> row.count(name) == Some(n),
        !(value is Text) ==> row.text(name) is None && row.text_or_empty(name).len() == 0,
        !(value is Flag) ==> row.flag(name) is None,
        !(value is Count) ==> row.count(name) is None,
{
    match row {
        RowView::Fields(fields) => {
            let i = choose|i: int|
                0 <= i < fields.len() && #[trigger] fields[i] == (name, value) && forall|k: int|
                    0 <= k < i ==> (#[trigger] fields[k]).0 != name;
            lemma_lookup(fields, i);
        },
        RowView::Other => {},
    }
}

/// Nothing is read in a field that a row does not have.
pub proof fn missing_fields_hold_nothing(row: RowView, name: Seq<char>)
    requires
        lacks_field(row, name),
    ensures
        row.field(name) is None,
        row.text(name) is None,
        row.text_or_empty(name).len() == 0,
        row.flag(name) is None,
        row.count(name) is None,
{
    match row {
        RowView::Fields(fields) => lemma_lookup_missing(fields, name),
        RowView::Other => {},
    }
}

/// A row has a field of a name or it does not, and the field has one value.
pub proof fn field_is_there_or_not(row: RowView, name: Seq<char>)
    ensures
        row.field(name) is None ==> lacks_field(row, name),
        row.field(name) is Some ==> has_field(row, name, row.field(name)->0),
{
    match row {
        RowView::Fields(fields) => lemma_found(fields, name),
        RowView::Other => {},
    }
}

proof fn lemma_found(fields: Seq<(Seq<char>, FieldView)>, name: Seq<char>)
    ensures
        lookup(fields, name) is None ==> forall|k: int|
            0 <= k < fields.len() ==> (#[trigger] fields[k]).0 != name,
        lookup(fields, name) matches Some(value) ==> exists|i: int|
            0 <= i < fields.len() && #[trigger] fields[i] == (name, value) && forall|k: int|
                0 <= k < i ==> (#[trigger] fields[k]).0 != name,
    decreases fields.len(),
{
    if fields.len() > 0 {
        let rest = fields.drop_first();
        lemma_found(rest, name);
        if fields[0].0 == name {
            assert(fields[0] == (name, fields[0].1));
        } else if lookup(fields, name) is None {
            assert forall|k: int| 0 <= k < fields.len() implies (
            #[trigger] fields[k]).0 != name by {
                if k > 0 {
                    assert(rest[k - 1] == fields[k]);
                }
            }
        } else {
            let value = lookup(fields, name)->0;
            let i = choose|i: int|
                0 <= i < rest.len() && #[trigger] rest[i] == (name, value) && forall|k: int|
                    0 <= k < i ==> (#[trigger] rest[k]).0 != name;
            assert(fields[i + 1] == (name, value));
            assert forall|k: int| 0 <= k < i + 1 implies (#[trigger] fields[k]).0 != name by {
                if k > 0 {
                    assert(rest[k - 1] == fields[k]);
                }
            }
        }
    }
}

/// A JSON array is a document of its items, any other value one of itself; an
/// object is a row of its entries, and texts, truth values and unsigned
/// integers in it are its fields, each as it is.
pub proof fn values_become_rows_and_fields(value: JsonView, i: int, k: int)
    ensures
        value matches JsonView::Array(items) ==> {
            &&& document_of(value) is Rows
            &&& document_of(value)->Rows_0.len() == items.len()
            &&& 0 <= i < items.len() && !(items[i] is Array) ==> document_of(value)->Rows_0[i]
                == document_of(items[i])->Single_0
            &&& 0 <= i < items.len() && items[i] is Array ==> document_of(value)->Rows_0[i]
                is Other
        },
        !(value is Array) ==> document_of(value) is Single,
        value matches JsonView::Object(entries) ==> {
            let row = document_of(value)->Single_0;
            &&& row is Fields
            &&& row->Fields_0.len() == entries.len()
            &&& 0 <= k < entries.len() ==> row->Fields_0[k].0 == entries[k].0
            &&& 0 <= k < entries.len() ==> match entries[k].1 {
                JsonView::Text(s) => row->Fields_0[k].1 == FieldView::Text(s),
                JsonView::Bool(b) => row->Fields_0[k].1 == FieldView::Flag(b),
                JsonView::Number(Some(n)) => row->Fields_0[k].1 == FieldView::Count(n),
                _ => row->Fields_0[k].1 is Other,
            }
        },
        !(value is Array) && !(value is Object) ==> document_of(value)->Single_0 is Other,
{
}

} // verus!
