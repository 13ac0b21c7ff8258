//! TOML documents that keep their comments and layout while they are edited.
//!
//! The document type is that of the `toml_edit` crate. Its contents are opaque here; the names
//! below stand for what a document holds, and each function says over them what the crate does.

use crate::config::schema::Setting;
use crate::text::{first_at, is_word};
use toml_edit::DocumentMut;
use vstd::prelude::*;

verus! {

/// `toml_edit::DocumentMut`, an editable TOML document.
#[verifier::external_type_specification]
#[verifier::external_body]
pub struct ExDocumentMut(toml_edit::DocumentMut);

/// Values by section and name; `None` stands for a value that is no bool, whole number or text.
pub type Values = Map<(Seq<char>, Seq<char>), Option<Setting>>;

/// Texts by section and name.
pub type Spellings = Map<(Seq<char>, Seq<char>), Seq<char>>;

/// Values by name; `None` stands for a value that is no bool, whole number or text.
pub type TopValues = Map<Seq<char>, Option<Setting>>;

/// The names of sections.
pub type Sections = Set<Seq<char>>;

/// The text kept before and after the header of each section.
pub type Headers = Map<Seq<char>, (Option<Seq<char>>, Option<Seq<char>>)>;

/// The text kept before a name, between its `=` and its value, and after its value.
pub type Note = (Option<Seq<char>>, Option<Seq<char>>, Option<Seq<char>>);

/// The text kept round each name and its value, by section and name.
pub type Notes = Map<(Seq<char>, Seq<char>), Note>;

/// The names of each section that hold a value, in order.
pub type Orders = Map<Seq<char>, Seq<Seq<char>>>;

/// What a document holds under `section.name`: a bool, a whole number or a text, or `None` for
/// anything else that stands there.
pub uninterp spec fn doc_values(doc: DocumentMut) -> Values;

/// The text of each item under `section.name`, as the document spells it.
pub uninterp spec fn doc_spellings(doc: DocumentMut) -> Spellings;

/// What a document holds at its top level, read as in `doc_values`.
pub uninterp spec fn doc_top(doc: DocumentMut) -> TopValues;

/// The sections of a document that hold names: tables with a header, and inline tables.
pub uninterp spec fn doc_sections(doc: DocumentMut) -> Sections;

/// The sections that have a header of their own, with the text kept before and after it.
pub uninterp spec fn doc_headers(doc: DocumentMut) -> Headers;

/// The text kept before each name of a section that is no inline table (the lines of comments
/// above it), and before and after its value on the same line. `None` stands where the document
/// keeps none, and round anything that is no value.
pub uninterp spec fn doc_notes(doc: DocumentMut) -> Notes;

/// The names of each section that hold a value, in the order in which they stand there. A name
/// that holds a table is not among them.
pub uninterp spec fn doc_orders(doc: DocumentMut) -> Orders;

/// All that a document holds, as in the names above and in their order.
pub type Contents = (Values, Spellings, TopValues, Sections, Headers, Notes, Orders);

/// All that a document holds.
pub open spec fn contents(doc: DocumentMut) -> Contents {
    (
        doc_values(doc),
        doc_spellings(doc),
        doc_top(doc),
        doc_sections(doc),
        doc_headers(doc),
        doc_notes(doc),
        doc_orders(doc),
    )
}

/// What parsing a text as TOML gives: the contents of the document, or the parser's message.
pub uninterp spec fn parsed_toml(text: Seq<char>) -> Result<Contents, Seq<char>>;

/// The text of a document, as it would be saved.
pub uninterp spec fn doc_text(doc: DocumentMut) -> Seq<char>;

/// True when names stand only in sections that hold names, headers included.
pub open spec fn names_in_sections(values: Values, sections: Sections, headers: Headers) -> bool {
    &&& forall|key: (Seq<char>, Seq<char>)| #[trigger]
        values.contains_key(key) ==> sections.contains(key.0)
    &&& forall|section: Seq<char>| #[trigger]
        headers.contains_key(section) ==> sections.contains(section)
}

/// True for kept text that holds a comment and is written out as it stands. A carriage return
/// in it would be left out.
pub open spec fn is_comment(text: Option<Seq<char>>) -> bool {
    text matches Some(chars) && chars.contains('#') && !chars.contains('\r')
}

/// True when every comment round a header is found again, on the same side of it.
pub open spec fn header_comments_kept(before: Headers, after: Headers) -> bool {
    forall|section: Seq<char>| #[trigger]
        before.contains_key(section) ==> {
            &&& is_comment(before[section].0) ==> after.contains_key(section) && after[section].0
                == before[section].0
            &&& is_comment(before[section].1) ==> after.contains_key(section) && after[section].1
                == before[section].1
        }
}

/// True when every comment round a name and its value is found again, on the same side of them.
pub open spec fn comments_kept(before: Notes, after: Notes) -> bool {
    forall|key: (Seq<char>, Seq<char>)| #[trigger]
        before.contains_key(key) ==> {
            &&& is_comment(before[key].0) ==> after.contains_key(key) && after[key].0
                == before[key].0
            &&& is_comment(before[key].2) ==> after.contains_key(key) && after[key].2
                == before[key].2
        }
}

/// True when every bool, whole number and text at the top level is found again.
pub open spec fn top_kept(before: TopValues, after: TopValues) -> bool {
    forall|key: Seq<char>| #[trigger]
        before.contains_key(key) && before[key] is Some ==> after.contains_key(key) && after[key]
            == before[key]
}

/// True when the names of each section that holds a value come in the same order again.
pub open spec fn orders_kept(before: Orders, after: Orders) -> bool {
    forall|section: Seq<char>| #[trigger]
        before.contains_key(section) && before[section].len() > 0 ==> after.contains_key(section)
            && after[section] == before[section]
}

/// The notes after something was written under `section.name`: the text before a name that stood
/// there stays, and nothing is kept round the new value.
pub open spec fn notes_written(
    notes: Notes,
    headers: Headers,
    section: Seq<char>,
    name: Seq<char>,
) -> Notes {
    let place = (section, name);
    if !headers.contains_key(section) {
        notes
    } else if notes.contains_key(place) {
        notes.insert(place, (notes[place].0, None, None))
    } else {
        notes.insert(place, (None, None, None))
    }
}

/// The order of a section's names after one was written: a name that stood there keeps its
/// place, and a new one comes last.
pub open spec fn orders_written(orders: Orders, section: Seq<char>, name: Seq<char>) -> Orders {
    if orders[section].contains(name) {
        orders
    } else {
        orders.insert(section, orders[section].push(name))
    }
}

/// True unless a name holds a table, which has no place among the values.
pub open spec fn stands_in_order(doc: DocumentMut, section: Seq<char>, name: Seq<char>) -> bool {
    doc_values(doc).contains_key((section, name)) ==> doc_orders(doc)[section].contains(name)
}

/// Names without one of them.
pub open spec fn names_without(names: Seq<Seq<char>>, name: Seq<char>) -> Seq<Seq<char>> {
    names.filter(|other: Seq<char>| other != name)
}

/// The word for a boolean.
pub open spec fn truth_word(on: bool) -> Seq<char> {
    if on {
        "true"@
    } else {
        "false"@
    }
}

/// True for a text of spaces and tabs only.
pub open spec fn is_blank(s: Seq<char>) -> bool {
    forall|i: int| 0 <= i < s.len() ==> (#[trigger] s[i] == ' ' || s[i] == '\t')
}

/// True when a comment can hold a text: a tab is its only control character.
pub open spec fn is_printable(s: Seq<char>) -> bool {
    forall|i: int|
        0 <= i < s.len() ==> (#[trigger] s[i] == '\t' || (' ' <= s[i] && s[i] != '\u{7f}'))
}

/// True for what may follow a value on its line: spaces, tabs, and then perhaps a comment.
pub open spec fn is_trail(s: Seq<char>) -> bool {
    let k = first_at(s, '#', 0);
    is_blank(s.take(k)) && (k < s.len() ==> is_printable(s.skip(k + 1)))
}

/// True when only spaces and tabs are kept before values, and only a comment after them.
pub open spec fn notes_are_plain(notes: Notes) -> bool {
    forall|key: (Seq<char>, Seq<char>)| #[trigger]
        notes.contains_key(key) ==> {
            &&& notes[key].1 matches Some(text) ==> is_blank(text)
            &&& notes[key].2 matches Some(text) ==> is_trail(text)
        }
}

/// A line that sets a name to `true` or `false`, with a comment behind it if there is one.
pub open spec fn switch_line(
    name: Seq<char>,
    before: Seq<char>,
    after: Seq<char>,
    on: bool,
    gap: Seq<char>,
    comment: Option<Seq<char>>,
) -> Seq<char> {
    name + before + seq!['='] + after + truth_word(on) + gap + match comment {
        Some(text) => seq!['#'] + text,
        None => Seq::empty(),
    }
}

/// True when the parts of such a line are what TOML asks for: a name of letters, digits and `_`,
/// spaces and tabs between the parts, and a comment without control characters.
pub open spec fn is_switch_line(
    name: Seq<char>,
    before: Seq<char>,
    after: Seq<char>,
    gap: Seq<char>,
    comment: Option<Seq<char>>,
) -> bool {
    &&& name.len() > 0
    &&& forall|i: int| 0 <= i < name.len() ==> (is_word(#[trigger] name[i]) || name[i] == '_')
    &&& is_blank(before)
    &&& is_blank(after)
    &&& is_blank(gap)
    &&& comment matches Some(text) ==> is_printable(text)
}

/// True when the top level holds what a line says that sets a name to `true` or `false`.
pub open spec fn switch_is_read(line: Seq<char>, top: Option<TopValues>) -> bool {
    forall|
        name: Seq<char>,
        before: Seq<char>,
        after: Seq<char>,
        on: bool,
        gap: Seq<char>,
        comment: Option<Seq<char>>,
    |
        line == #[trigger] switch_line(name, before, after, on, gap, comment) && is_switch_line(
            name,
            before,
            after,
            gap,
            comment,
        ) ==> top == Some(TopValues::empty().insert(name, Some(Setting::Bool(on))))
}

/// `DocumentMut::from_str`: parses TOML, or explains why the text is none. The message is the
/// text of the crate's `TomlError`. Only tables and inline tables have anything under a name. What
/// is kept round a value in a table stands on its line. A line that sets a name to `true` or
/// `false` is read as such.
#[verifier::external_body]
pub(crate) fn parse_document(text: &str) -> (r: Result<DocumentMut, String>)
    ensures
        match r {
            Ok(doc) => parsed_toml(text@) is Ok && parsed_toml(text@)->Ok_0 == contents(doc),
            Err(message) => parsed_toml(text@) is Err && parsed_toml(text@)->Err_0 == message@,
        },
        r matches Ok(doc) ==> names_in_sections(
            doc_values(doc),
            doc_sections(doc),
            doc_headers(doc),
        ),
        r matches Ok(doc) ==> notes_are_plain(doc_notes(doc)),
        switch_is_read(
            text@,
            match r {
                Ok(doc) => Some(doc_top(doc)),
                Err(_) => None,
            },
        ),
{
    text.parse::<DocumentMut>().map_err(|err| err.to_string())
}

/// `DocumentMut::new`: a document that holds nothing.
#[verifier::external_body]
pub(crate) fn empty_document() -> (r: DocumentMut)
    ensures
        contents(r) == (
            Values::empty(),
            Spellings::empty(),
            TopValues::empty(),
            Sections::empty(),
            Headers::empty(),
            Notes::empty(),
            Orders::empty(),
        ),
{
    DocumentMut::new()
}

/// `DocumentMut::clone`: a document with the same contents.
#[verifier::external_body]
pub(crate) fn copy_document(doc: &DocumentMut) -> (r: DocumentMut)
    ensures
        contents(r) == contents(*doc),
        doc_text(r) == doc_text(*doc),
{
    doc.clone()
}

/// `DocumentMut::to_string`: the document as text. Parsing that text gives back every value
/// under a section, the plain values at the top level, the comments round names and headers, and
/// the order of the values in a section. Nothing is said of blank lines, spaces and the order of
/// the sections.
#[verifier::external_body]
pub(crate) fn document_text(doc: &DocumentMut) -> (r: String)
    ensures
        r@ == doc_text(*doc),
        parsed_toml(r@) is Ok,
        parsed_toml(r@)->Ok_0.0 == doc_values(*doc),
        top_kept(doc_top(*doc), parsed_toml(r@)->Ok_0.2),
        header_comments_kept(doc_headers(*doc), parsed_toml(r@)->Ok_0.4),
        comments_kept(doc_notes(*doc), parsed_toml(r@)->Ok_0.5),
        orders_kept(doc_orders(*doc), parsed_toml(r@)->Ok_0.6),
{
    doc.to_string()
}

/// `Item::as_bool` on what stands under `section.name`.
#[verifier::external_body]
pub(crate) fn read_bool(doc: &DocumentMut, section: &str, name: &str) -> (r: Option<bool>)
    ensures
        r == (if doc_values(*doc).contains_key((section@, name@)) {
            match doc_values(*doc)[(section@, name@)] {
                Some(Setting::Bool(value)) => Some(value),
                _ => None,
            }
        } else {
            None
        }),
{
    doc.get(section)?.get(name)?.as_bool()
}

/// `Item::as_integer` on what stands under `section.name`.
#[verifier::external_body]
pub(crate) fn read_integer(doc: &DocumentMut, section: &str, name: &str) -> (r: Option<i64>)
    ensures
        (match r {
            Some(value) => Some(Setting::Int(value as int)),
            None => None,
        }) == (if doc_values(*doc).contains_key((section@, name@)) {
            match doc_values(*doc)[(section@, name@)] {
                Some(Setting::Int(value)) => Some(Setting::Int(value)),
                _ => None,
            }
        } else {
            None
        }),
{
    doc.get(section)?.get(name)?.as_integer()
}

/// `Item::as_str` on what stands under `section.name`.
#[verifier::external_body]
pub(crate) fn read_text(doc: &DocumentMut, section: &str, name: &str) -> (r: Option<String>)
    ensures
        (match r {
            Some(value) => Some(value@),
            None => None,
        }) == (if doc_values(*doc).contains_key((section@, name@)) {
            match doc_values(*doc)[(section@, name@)] {
                Some(Setting::Text(value)) => Some(value),
                _ => None,
            }
        } else {
            None
        }),
{
    doc.get(section)?.get(name)?.as_str().map(String::from)
}

/// `Item::to_string` on what stands under `section.name`.
#[verifier::external_body]
pub(crate) fn spelling(doc: &DocumentMut, section: &str, name: &str) -> (r: Option<String>)
    ensures
        match r {
            Some(text) => doc_values(*doc).contains_key((section@, name@)) && text@
                == doc_spellings(*doc)[(section@, name@)],
            None => !doc_values(*doc).contains_key((section@, name@)),
        },
{
    Some(doc.get(section)?.get(name)?.to_string())
}

/// `Table::contains_key` at the top level.
#[verifier::external_body]
pub(crate) fn has_top(doc: &DocumentMut, key: &str) -> (r: bool)
    ensures
        r == doc_top(*doc).contains_key(key@),
{
    doc.contains_key(key)
}

/// `Item::as_bool` on what stands at the top level.
#[verifier::external_body]
pub(crate) fn top_bool(doc: &DocumentMut, key: &str) -> (r: Option<bool>)
    ensures
        r == (if doc_top(*doc).contains_key(key@) {
            match doc_top(*doc)[key@] {
                Some(Setting::Bool(value)) => Some(value),
                _ => None,
            }
        } else {
            None
        }),
{
    doc.get(key)?.as_bool()
}

/// `Item::as_str` on what stands at the top level.
#[verifier::external_body]
pub(crate) fn top_text(doc: &DocumentMut, key: &str) -> (r: Option<String>)
    ensures
        (match r {
            Some(value) => Some(value@),
            None => None,
        }) == (if doc_top(*doc).contains_key(key@) {
            match doc_top(*doc)[key@] {
                Some(Setting::Text(value)) => Some(value),
                _ => None,
            }
        } else {
            None
        }),
{
    doc.get(key)?.as_str().map(String::from)
}

/// `Item::is_table_like`: whether a section holds names.
#[verifier::external_body]
pub(crate) fn has_section(doc: &DocumentMut, section: &str) -> (r: bool)
    ensures
        r == doc_sections(*doc).contains(section@),
{
    doc.get(section).is_some_and(|item| item.is_table_like())
}

/// `Table::contains_table`: whether a section has a header of its own.
#[verifier::external_body]
pub(crate) fn has_header(doc: &DocumentMut, section: &str) -> (r: bool)
    ensures
        r == doc_headers(*doc).contains_key(section@),
{
    doc.contains_table(section)
}

/// `Decor::prefix` of a section's header: the text kept before it.
#[verifier::external_body]
pub(crate) fn header_prefix(doc: &DocumentMut, section: &str) -> (r: Option<String>)
    requires
        doc_headers(*doc).contains_key(section@),
    ensures
        (match r {
            Some(text) => Some(text@),
            None => None,
        }) == doc_headers(*doc)[section@].0,
{
    doc.get(section)?.as_table()?.decor().prefix()?.as_str().map(String::from)
}

/// `Decor::suffix` of a section's header: the text kept after it.
#[verifier::external_body]
pub(crate) fn header_suffix(doc: &DocumentMut, section: &str) -> (r: Option<String>)
    requires
        doc_headers(*doc).contains_key(section@),
    ensures
        (match r {
            Some(text) => Some(text@),
            None => None,
        }) == doc_headers(*doc)[section@].1,
{
    doc.get(section)?.as_table()?.decor().suffix()?.as_str().map(String::from)
}

/// `Table::is_empty`: whether a section with a header holds no name.
#[verifier::external_body]
pub(crate) fn section_is_empty(doc: &DocumentMut, section: &str) -> (r: bool)
    requires
        doc_headers(*doc).contains_key(section@),
    ensures
        r == (forall|name: Seq<char>|
            !(#[trigger] doc_values(*doc).contains_key((section@, name)))),
{
    doc.get(section).and_then(|item| item.as_table()).is_some_and(|table| table.is_empty())
}

/// `TableLike::remove`: drops one name from a section.
#[verifier::external_body]
pub(crate) fn remove_value(doc: &mut DocumentMut, section: &str, name: &str)
    requires
        doc_sections(*old(doc)).contains(section@),
    ensures
        doc_values(*final(doc)) == doc_values(*old(doc)).remove((section@, name@)),
        doc_spellings(*final(doc)) == doc_spellings(*old(doc)).remove((section@, name@)),
        doc_top(*final(doc)) == doc_top(*old(doc)),
        doc_sections(*final(doc)) == doc_sections(*old(doc)),
        doc_headers(*final(doc)) == doc_headers(*old(doc)),
        doc_notes(*final(doc)) == doc_notes(*old(doc)).remove((section@, name@)),
        doc_orders(*final(doc)) == doc_orders(*old(doc)).insert(
            section@,
            names_without(doc_orders(*old(doc))[section@], name@),
        ),
{
    if let Some(table) = doc.get_mut(section).and_then(|item| item.as_table_like_mut()) {
        table.remove(name);
    }
}

/// `Table::remove` at the top level: drops a whole section.
#[verifier::external_body]
pub(crate) fn remove_section(doc: &mut DocumentMut, section: &str)
    ensures
        doc_values(*final(doc)) == doc_values(*old(doc)).restrict(
            Set::new(|key: (Seq<char>, Seq<char>)| key.0 != section@),
        ),
        doc_spellings(*final(doc)) == doc_spellings(*old(doc)).restrict(
            Set::new(|key: (Seq<char>, Seq<char>)| key.0 != section@),
        ),
        doc_top(*final(doc)) == doc_top(*old(doc)).remove(section@),
        doc_sections(*final(doc)) == doc_sections(*old(doc)).remove(section@),
        doc_headers(*final(doc)) == doc_headers(*old(doc)).remove(section@),
        doc_notes(*final(doc)) == doc_notes(*old(doc)).restrict(
            Set::new(|key: (Seq<char>, Seq<char>)| key.0 != section@),
        ),
        doc_orders(*final(doc)) == doc_orders(*old(doc)).remove(section@),
{
    doc.remove(section);
}

/// `Table::insert` with `Table::new` at the top level: puts an empty section in place of
/// whatever stood under its name.
#[verifier::external_body]
pub(crate) fn insert_section(doc: &mut DocumentMut, section: &str)
    ensures
        doc_values(*final(doc)) == doc_values(*old(doc)).restrict(
            Set::new(|key: (Seq<char>, Seq<char>)| key.0 != section@),
        ),
        doc_spellings(*final(doc)) == doc_spellings(*old(doc)).restrict(
            Set::new(|key: (Seq<char>, Seq<char>)| key.0 != section@),
        ),
        doc_top(*final(doc)) == doc_top(*old(doc)).insert(section@, None),
        doc_sections(*final(doc)) == doc_sections(*old(doc)).insert(section@),
        doc_headers(*final(doc)) == doc_headers(*old(doc)).insert(section@, (None, None)),
        doc_notes(*final(doc)) == doc_notes(*old(doc)).restrict(
            Set::new(|key: (Seq<char>, Seq<char>)| key.0 != section@),
        ),
        doc_orders(*final(doc)) == doc_orders(*old(doc)).insert(section@, seq![]),
{
    doc.insert(section, toml_edit::Item::Table(toml_edit::Table::new()));
}

/// True when a value was written under `section.name`, and the rest of a document left alone.
pub open spec fn is_written(
    before: DocumentMut,
    after: DocumentMut,
    section: Seq<char>,
    name: Seq<char>,
    value: Setting,
) -> bool {
    let place = (section, name);
    &&& doc_values(after) == doc_values(before).insert(place, Some(value))
    &&& doc_spellings(after).remove(place) == doc_spellings(before).remove(place)
    &&& doc_top(after) == doc_top(before)
    &&& doc_sections(after) == doc_sections(before)
    &&& doc_headers(after) == doc_headers(before)
    &&& doc_notes(after) == notes_written(doc_notes(before), doc_headers(before), section, name)
    &&& doc_orders(after).remove(section) == doc_orders(before).remove(section)
    &&& stands_in_order(before, section, name) ==> doc_orders(after) == orders_written(
        doc_orders(before),
        section,
        name,
    )
}

/// `IndexMut` and `toml_edit::value`: writes a bool under `section.name`, with a `Decor` that keeps
/// nothing round it.
#[verifier::external_body]
pub(crate) fn write_bool(doc: &mut DocumentMut, section: &str, name: &str, value: bool)
    requires
        doc_sections(*old(doc)).contains(section@),
    ensures
        is_written(*old(doc), *final(doc), section@, name@, Setting::Bool(value)),
{
    doc[section][name] = toml_edit::value(value);
}

/// `IndexMut` and `toml_edit::value`: writes a whole number under `section.name`, with a `Decor` that keeps
/// nothing round it.
#[verifier::external_body]
pub(crate) fn write_integer(doc: &mut DocumentMut, section: &str, name: &str, value: i64)
    requires
        doc_sections(*old(doc)).contains(section@),
    ensures
        is_written(*old(doc), *final(doc), section@, name@, Setting::Int(value as int)),
{
    doc[section][name] = toml_edit::value(value);
}

/// `IndexMut` and `toml_edit::value`: writes a text under `section.name`, with a `Decor` that keeps
/// nothing round it.
#[verifier::external_body]
pub(crate) fn write_text(doc: &mut DocumentMut, section: &str, name: &str, value: &str)
    requires
        doc_sections(*old(doc)).contains(section@),
    ensures
        is_written(*old(doc), *final(doc), section@, name@, Setting::Text(value@)),
{
    doc[section][name] = toml_edit::value(value);
}

/// True when only the text kept round one value changed, to `note`.
pub open spec fn is_noted(
    before: DocumentMut,
    after: DocumentMut,
    place: (Seq<char>, Seq<char>),
    note: Note,
) -> bool {
    &&& doc_values(after) == doc_values(before)
    &&& doc_spellings(after).remove(place) == doc_spellings(before).remove(place)
    &&& doc_top(after) == doc_top(before)
    &&& doc_sections(after) == doc_sections(before)
    &&& doc_headers(after) == doc_headers(before)
    &&& doc_notes(after) == doc_notes(before).insert(place, note)
    &&& doc_orders(after) == doc_orders(before)
}

/// `Decor::prefix` of a value in a table: the text kept before it.
#[verifier::external_body]
pub(crate) fn value_prefix(doc: &DocumentMut, section: &str, name: &str) -> (r: Option<String>)
    requires
        doc_headers(*doc).contains_key(section@),
    ensures
        (match r {
            Some(text) => Some(text@),
            None => None,
        }) == (if doc_notes(*doc).contains_key((section@, name@)) {
            doc_notes(*doc)[(section@, name@)].1
        } else {
            None
        }),
{
    doc.get(section)?.get(name)?.as_value()?.decor().prefix()?.as_str().map(String::from)
}

/// `Decor::suffix` of a value in a table: the text kept after it.
#[verifier::external_body]
pub(crate) fn value_suffix(doc: &DocumentMut, section: &str, name: &str) -> (r: Option<String>)
    requires
        doc_headers(*doc).contains_key(section@),
    ensures
        (match r {
            Some(text) => Some(text@),
            None => None,
        }) == (if doc_notes(*doc).contains_key((section@, name@)) {
            doc_notes(*doc)[(section@, name@)].2
        } else {
            None
        }),
{
    doc.get(section)?.get(name)?.as_value()?.decor().suffix()?.as_str().map(String::from)
}

/// `Decor::set_prefix` of a bool, a whole number or a text in a table: has a text kept before it.
#[verifier::external_body]
pub(crate) fn set_value_prefix(doc: &mut DocumentMut, section: &str, name: &str, text: &str)
    requires
        doc_notes(*old(doc)).contains_key((section@, name@)),
        doc_values(*old(doc)).contains_key((section@, name@)),
        doc_values(*old(doc))[(section@, name@)] is Some,
        is_blank(text@),
    ensures
        is_noted(
            *old(doc),
            *final(doc),
            (section@, name@),
            (
                doc_notes(*old(doc))[(section@, name@)].0,
                Some(text@),
                doc_notes(*old(doc))[(section@, name@)].2,
            ),
        ),
{
    if let Some(value) = doc[section][name].as_value_mut() {
        value.decor_mut().set_prefix(text);
    }
}

/// `Decor::set_suffix` of a bool, a whole number or a text in a table: has a text kept after it.
#[verifier::external_body]
pub(crate) fn set_value_suffix(doc: &mut DocumentMut, section: &str, name: &str, text: &str)
    requires
        doc_notes(*old(doc)).contains_key((section@, name@)),
        doc_values(*old(doc)).contains_key((section@, name@)),
        doc_values(*old(doc))[(section@, name@)] is Some,
        is_trail(text@),
    ensures
        is_noted(
            *old(doc),
            *final(doc),
            (section@, name@),
            (
                doc_notes(*old(doc))[(section@, name@)].0,
                doc_notes(*old(doc))[(section@, name@)].1,
                Some(text@),
            ),
        ),
{
    if let Some(value) = doc[section][name].as_value_mut() {
        value.decor_mut().set_suffix(text);
    }
}

} // verus!
