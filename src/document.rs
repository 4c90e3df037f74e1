//! The manifest tree, edited in place through `toml_edit`, which keeps every
//! untouched key, comment and blank line as it was.
//!
//! The engine sees a document through `doc_view`: its top-level keys, the
//! entries of each top-level table, and the attributes of each entry.
use vstd::prelude::*;
use toml_edit::{Item, Value};

verus! {

#[verifier::external_type_specification]
#[verifier::external_body]
pub struct ExDocumentMut(toml_edit::DocumentMut);

#[verifier::external_type_specification]
#[verifier::external_body]
pub struct ExTomlError(toml_edit::TomlError);

/// The value of one attribute inside an attribute set, down to its leaves.
pub enum AttrView {
    Str(Seq<char>),
    Bool(bool),
    Int(int),
    /// an array of values, e.g. `features = ["x"]`
    Array(Seq<AttrView>),
    /// an inline table or a sub-table, e.g. `{ version = "1" }`
    Table(Map<Seq<char>, AttrView>),
    /// a float, a date or time, or a list of tables
    Other,
}

/// An attribute set: attribute name to value.
pub type Attrs = Map<Seq<char>, AttrView>;

/// One entry of a top-level table, classified by its shape.
pub enum EntryView {
    /// `name = "1.0"`
    VersionString(Seq<char>),
    /// `name = { version = "1.0", ... }`
    Inline(Attrs),
    /// `[table.name]` with its keys on the following lines
    Block(Attrs),
    /// `[[table.name]]`, a list of attribute blocks
    TargetList(Seq<Attrs>),
    /// any other value, e.g. `name = 1`
    Other(AttrView),
}

/// A top-level item of the document.
pub enum TopView {
    Table(Map<Seq<char>, EntryView>),
    Other,
}

/// What the engine sees of a document.
pub type DocView = Map<Seq<char>, TopView>;

/// The tree that a `toml_edit` document holds, as far as the engine reads it.
pub uninterp spec fn doc_view(d: toml_edit::DocumentMut) -> DocView;

/// Whether a top-level key holds a table.
#[derive(Clone, Copy, Debug, PartialEq, Eq, Structural)]
pub enum TableState {
    Absent,
    Table,
    NotTable,
}

/// The shape of one entry of a top-level table.
#[derive(Clone, Copy, Debug, PartialEq, Eq, Structural)]
pub enum EntryState {
    Absent,
    VersionString,
    Inline,
    Block,
    TargetList(usize),
    Other,
}

/// The value of one attribute, as far as the engine decides on it.
#[derive(Clone, Copy, Debug, PartialEq, Eq, Structural)]
pub enum AttrState {
    Absent,
    Bool(bool),
    Other,
}

/// A value to store under an attribute.
#[derive(Clone, Debug)]
pub enum AttrValue {
    Str(String),
    Bool(bool),
}

/// Where an attribute set stands: entry `name` of top-level table `table`,
/// or its `element`-th block when the entry is a list of blocks.
#[derive(Clone, Debug)]
pub struct AttrSetLoc {
    pub table: String,
    pub name: String,
    pub element: Option<usize>,
}

pub open spec fn top_state_of(v: DocView, key: Seq<char>) -> TableState {
    if !v.contains_key(key) {
        TableState::Absent
    } else {
        match v[key] {
            TopView::Table(_) => TableState::Table,
            TopView::Other => TableState::NotTable,
        }
    }
}

/// The entries of top-level table `key` (empty where it is not a table).
pub open spec fn table_of(v: DocView, key: Seq<char>) -> Map<Seq<char>, EntryView> {
    match v[key] {
        TopView::Table(m) => m,
        TopView::Other => Map::empty(),
    }
}

pub open spec fn entry_state_of(e: Option<EntryView>) -> EntryState {
    match e {
        None => EntryState::Absent,
        Some(EntryView::VersionString(_)) => EntryState::VersionString,
        Some(EntryView::Inline(_)) => EntryState::Inline,
        Some(EntryView::Block(_)) => EntryState::Block,
        Some(EntryView::TargetList(s)) => EntryState::TargetList(s.len() as usize),
        Some(EntryView::Other(_)) => EntryState::Other,
    }
}

pub open spec fn entry_of(v: DocView, table: Seq<char>, name: Seq<char>) -> Option<EntryView> {
    if table_of(v, table).contains_key(name) {
        Some(table_of(v, table)[name])
    } else {
        None
    }
}

pub open spec fn attr_state_of(a: Attrs, key: Seq<char>) -> AttrState {
    if !a.contains_key(key) {
        AttrState::Absent
    } else {
        match a[key] {
            AttrView::Bool(b) => AttrState::Bool(b),
            _ => AttrState::Other,
        }
    }
}

pub open spec fn attr_value_view(x: AttrValue) -> AttrView {
    match x {
        AttrValue::Str(s) => AttrView::Str(s@),
        AttrValue::Bool(b) => AttrView::Bool(b),
    }
}

/// The attribute set of entry `name` of top-level table `table` (of its
/// `element`-th block when the entry is a list of blocks), where there is one.
pub open spec fn attrs_in(v: DocView, table: Seq<char>, name: Seq<char>, element: Option<usize>) -> Option<Attrs> {
    if top_state_of(v, table) != TableState::Table {
        None
    } else {
        match (entry_of(v, table, name), element) {
            (Some(EntryView::Inline(a)), None) => Some(a),
            (Some(EntryView::Block(a)), None) => Some(a),
            (Some(EntryView::TargetList(s)), Some(k)) => if k < s.len() {
                Some(s[k as int])
            } else {
                None
            },
            _ => None,
        }
    }
}

/// The attribute set at `loc`, where there is one.
pub open spec fn attrs_at(v: DocView, loc: AttrSetLoc) -> Option<Attrs> {
    attrs_in(v, loc.table@, loc.name@, loc.element)
}

/// Sets entry `name` of top-level table `table` to `e`.
pub open spec fn put_entry(v: DocView, table: Seq<char>, name: Seq<char>, e: EntryView) -> DocView {
    v.insert(table, TopView::Table(table_of(v, table).insert(name, e)))
}

/// `v` with the attribute set named as in `attrs_in` replaced by `a`.
pub open spec fn put_attrs_in(v: DocView, table: Seq<char>, name: Seq<char>, element: Option<usize>, a: Attrs) -> DocView {
    let e = match (entry_of(v, table, name), element) {
        (Some(EntryView::Inline(_)), None) => EntryView::Inline(a),
        (Some(EntryView::Block(_)), None) => EntryView::Block(a),
        (Some(EntryView::TargetList(s)), Some(k)) => EntryView::TargetList(s.update(k as int, a)),
        (Some(e), _) => e,
        (None, _) => EntryView::Other(AttrView::Other),
    };
    put_entry(v, table, name, e)
}

/// `v` with the attribute set at `loc` replaced by `a`.
pub open spec fn put_attrs(v: DocView, loc: AttrSetLoc, a: Attrs) -> DocView {
    put_attrs_in(v, loc.table@, loc.name@, loc.element, a)
}

/// Replacing an attribute set twice keeps the second; reading it back gives it.
pub proof fn lemma_put_attrs(v: DocView, t: Seq<char>, n: Seq<char>, el: Option<usize>, a: Attrs, b: Attrs)
    requires
        attrs_in(v, t, n, el) is Some,
    ensures
        attrs_in(put_attrs_in(v, t, n, el, a), t, n, el) == Some(a),
        put_attrs_in(put_attrs_in(v, t, n, el, a), t, n, el, b) =~= put_attrs_in(v, t, n, el, b),
        put_attrs_in(v, t, n, el, attrs_in(v, t, n, el)->Some_0) =~= v,
{
    let w = put_attrs_in(v, t, n, el, a);
    assert(table_of(w, t) =~= table_of(v, t).insert(n, table_of(w, t)[n]));
    if let Some(k) = el {
        if let EntryView::TargetList(s) = table_of(v, t)[n] {
            assert(s.update(k as int, a).update(k as int, b) =~= s.update(k as int, b));
            assert(s.update(k as int, s[k as int]) =~= s);
        }
    }
    assert(table_of(v, t).insert(n, table_of(v, t)[n]) =~= table_of(v, t));
    assert(v.insert(t, v[t]) =~= v);
    let wb = put_attrs_in(w, t, n, el, b);
    let vb = put_attrs_in(v, t, n, el, b);
    assert(table_of(wb, t) =~= table_of(vb, t));
}

/// Setting one entry: reading it back, setting it twice, and setting it to
/// what it already is.
pub proof fn lemma_put_entry(v: DocView, t: Seq<char>, n: Seq<char>, e1: EntryView, e2: EntryView)
    requires
        top_state_of(v, t) == TableState::Table,
    ensures
        top_state_of(put_entry(v, t, n, e1), t) == TableState::Table,
        entry_of(put_entry(v, t, n, e1), t, n) == Some(e1),
        put_entry(put_entry(v, t, n, e1), t, n, e2) =~= put_entry(v, t, n, e2),
        entry_of(v, t, n) == Some(e1) ==> put_entry(v, t, n, e1) =~= v,
        entry_of(v, t, n) != Some(e1) ==> put_entry(v, t, n, e1) != v,
{
    let w = put_entry(v, t, n, e1);
    assert(table_of(w, t) =~= table_of(v, t).insert(n, e1));
    assert(table_of(put_entry(w, t, n, e2), t) =~= table_of(put_entry(v, t, n, e2), t));
    if entry_of(v, t, n) == Some(e1) {
        assert(table_of(v, t).insert(n, e1) =~= table_of(v, t));
        assert(v.insert(t, v[t]) =~= v);
    }
    if entry_of(v, t, n) != Some(e1) {
        assert(entry_of(w, t, n) != entry_of(v, t, n));
    }
}

/// The tree that parsing `text` yields, or `None` where it is not valid.
pub uninterp spec fn parsed_view(text: Seq<char>) -> Option<DocView>;

/// Relies on `DocumentMut`'s `FromStr`: parses manifest text, keeping its
/// layout; the tree depends on the text alone.
#[verifier::external_body]
pub(crate) fn parse_manifest(text: &str) -> (r: Result<toml_edit::DocumentMut, toml_edit::TomlError>)
    ensures
        r is Ok <==> parsed_view(text@) is Some,
        r is Ok ==> doc_view(r->Ok_0) == parsed_view(text@)->Some_0,
{
    text.parse::<toml_edit::DocumentMut>()
}

/// The manifest text that a document renders to.
pub uninterp spec fn rendered_text(d: toml_edit::DocumentMut) -> Seq<char>;

/// Relies on `DocumentMut`'s `Display`: the document as manifest text, which
/// depends on the document alone.
#[verifier::external_body]
pub(crate) fn render_manifest(doc: &toml_edit::DocumentMut) -> (r: String)
    ensures
        r@ == rendered_text(*doc),
{
    doc.to_string()
}

/// Relies on `Table::get` and `Item::is_table`: whether top-level `key` holds a table.
#[verifier::external_body]
pub(crate) fn top_state(doc: &toml_edit::DocumentMut, key: &str) -> (r: TableState)
    ensures
        r == top_state_of(doc_view(*doc), key@),
{
    match doc.get(key) {
        None => TableState::Absent,
        Some(item) => if item.is_table() { TableState::Table } else { TableState::NotTable },
    }
}

/// Relies on `Table::insert`: adds an empty table under a new top-level `key`.
#[verifier::external_body]
pub(crate) fn insert_top_table(doc: &mut toml_edit::DocumentMut, key: &str)
    requires
        !doc_view(*old(doc)).contains_key(key@),
    ensures
        doc_view(*final(doc)) == doc_view(*old(doc)).insert(key@, TopView::Table(Map::empty())),
{
    doc.insert(key, toml_edit::Item::Table(toml_edit::Table::new()));
}

/// Relies on `Table::get` and the variants of `Item` and `Value`: the shape of
/// entry `name` of top-level table `table`.
#[verifier::external_body]
pub(crate) fn entry_state(doc: &toml_edit::DocumentMut, table: &str, name: &str) -> (r: EntryState)
    requires
        top_state_of(doc_view(*doc), table@) == TableState::Table,
    ensures
        r == entry_state_of(entry_of(doc_view(*doc), table@, name@)),
        r matches EntryState::TargetList(n) ==> entry_of(doc_view(*doc), table@, name@)
            matches Some(EntryView::TargetList(s)) && n == s.len(),
{
    match doc.get(table).and_then(|t| t.as_table()).and_then(|t| t.get(name)) {
        None => EntryState::Absent,
        Some(Item::Value(Value::String(_))) => EntryState::VersionString,
        Some(Item::Value(Value::InlineTable(_))) => EntryState::Inline,
        Some(Item::Table(_)) => EntryState::Block,
        Some(Item::ArrayOfTables(a)) => EntryState::TargetList(a.len()),
        Some(_) => EntryState::Other,
    }
}

/// Relies on `Table::insert`: adds an empty table as entry `name` of
/// top-level table `table`.
#[verifier::external_body]
pub(crate) fn insert_entry_table(doc: &mut toml_edit::DocumentMut, table: &str, name: &str)
    requires
        top_state_of(doc_view(*old(doc)), table@) == TableState::Table,
        entry_of(doc_view(*old(doc)), table@, name@) is None,
    ensures
        doc_view(*final(doc)) == put_entry(doc_view(*old(doc)), table@, name@, EntryView::Block(Map::empty())),
{
    if let Some(t) = doc.get_mut(table).and_then(|t| t.as_table_mut()) {
        t.insert(name, toml_edit::Item::Table(toml_edit::Table::new()));
    }
}

/// Relies on `Table::insert` and `InlineTable::insert`: replaces entry `name`
/// of top-level table `table` by the inline set `{ key = true }`.
#[verifier::external_body]
pub(crate) fn replace_with_flag(doc: &mut toml_edit::DocumentMut, table: &str, name: &str, key: &str)
    requires
        top_state_of(doc_view(*old(doc)), table@) == TableState::Table,
    ensures
        doc_view(*final(doc)) == put_entry(doc_view(*old(doc)), table@, name@,
            EntryView::Inline(Map::empty().insert(key@, AttrView::Bool(true)))),
{
    let mut flag = toml_edit::InlineTable::new();
    flag.insert(key, toml_edit::Value::from(true));
    if let Some(t) = doc.get_mut(table).and_then(|t| t.as_table_mut()) {
        t.insert(name, toml_edit::Item::Value(toml_edit::Value::InlineTable(flag)));
    }
}

/// Relies on `TableLike::get` and `Item::as_bool`: the value of attribute `key`
/// in the attribute set at `loc`.
#[verifier::external_body]
pub(crate) fn attr_state(doc: &toml_edit::DocumentMut, loc: &AttrSetLoc, key: &str) -> (r: AttrState)
    requires
        attrs_at(doc_view(*doc), *loc) is Some,
    ensures
        r == attr_state_of(attrs_at(doc_view(*doc), *loc)->Some_0, key@),
{
    let entry = doc.get(&loc.table).and_then(|t| t.as_table()).and_then(|t| t.get(&loc.name));
    let item = match loc.element {
        None => entry.and_then(|e| e.as_table_like()).and_then(|s| s.get(key)),
        Some(k) => entry.and_then(|e| e.as_array_of_tables()).and_then(|a| a.get(k)).and_then(|t| t.get(key)),
    };
    match item {
        None => AttrState::Absent,
        Some(i) => i.as_bool().map_or(AttrState::Other, AttrState::Bool),
    }
}

/// Relies on `TableLike::remove`: drops attribute `key` from the attribute
/// set at `loc`.
#[verifier::external_body]
pub(crate) fn remove_attr(doc: &mut toml_edit::DocumentMut, loc: &AttrSetLoc, key: &str)
    requires
        attrs_at(doc_view(*old(doc)), *loc) is Some,
    ensures
        doc_view(*final(doc)) == put_attrs(doc_view(*old(doc)), *loc,
            attrs_at(doc_view(*old(doc)), *loc)->Some_0.remove(key@)),
{
    let entry = doc.get_mut(&loc.table).and_then(|t| t.as_table_mut()).and_then(|t| t.get_mut(&loc.name));
    let set = match loc.element {
        None => entry.and_then(|e| e.as_table_like_mut()),
        Some(k) => entry.and_then(|e| e.as_array_of_tables_mut()).and_then(|a| a.get_mut(k)).map(|t| t as &mut dyn toml_edit::TableLike),
    };
    if let Some(set) = set {
        set.remove(key);
    }
}

/// Relies on `TableLike::insert`: stores `value` under attribute `key` in the
/// attribute set at `loc`.
#[verifier::external_body]
pub(crate) fn set_attr(doc: &mut toml_edit::DocumentMut, loc: &AttrSetLoc, key: &str, value: &AttrValue)
    requires
        attrs_at(doc_view(*old(doc)), *loc) is Some,
    ensures
        doc_view(*final(doc)) == put_attrs(doc_view(*old(doc)), *loc,
            attrs_at(doc_view(*old(doc)), *loc)->Some_0.insert(key@, attr_value_view(*value))),
{
    let item = match value {
        AttrValue::Str(s) => toml_edit::value(s.as_str()),
        AttrValue::Bool(b) => toml_edit::value(*b),
    };
    let entry = doc.get_mut(&loc.table).and_then(|t| t.as_table_mut()).and_then(|t| t.get_mut(&loc.name));
    let set = match loc.element {
        None => entry.and_then(|e| e.as_table_like_mut()),
        Some(k) => entry.and_then(|e| e.as_array_of_tables_mut()).and_then(|a| a.get_mut(k)).map(|t| t as &mut dyn toml_edit::TableLike),
    };
    if let Some(set) = set {
        set.insert(key, item);
    }
}

} // verus!
