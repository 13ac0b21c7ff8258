//! Reading, editing and saving `config.toml` against the schema.
//!
//! Edits go through a document rather than a rewritten file, so saving keeps the user's
//! comments, ordering and any keys that the schema does not know about.

use crate::config::builtin::builtin_rules;
use crate::config::document::{
    comments_kept, contents, copy_document, doc_headers, doc_notes, doc_orders, doc_sections,
    doc_spellings, doc_text, doc_top, doc_values, document_text, empty_document, has_header,
    has_section, header_comments_kept, header_prefix, header_suffix, insert_section, is_comment,
    names_in_sections, names_without, notes_are_plain, orders_kept, orders_written, parse_document,
    parsed_toml, read_bool, read_integer, read_text, remove_section, remove_value,
    section_is_empty, set_value_prefix, set_value_suffix, spelling, stands_in_order, top_kept,
    value_prefix, value_suffix, write_bool, write_integer, write_text, Contents, Headers, Notes,
    Sections, Spellings, Values,
};
use crate::config::expr::{answers, Formula};
use crate::config::schema::{
    check, complaint, has_menu, is_option_key, option_place, Apply, Kind, OptionDef, OptionModel,
    Schema, SchemaModel, Setting, Sort, Value,
};
use crate::text::{
    chars_of, concat3, concat5, copied, cut, first_at_is_first, has_char, integer_value, is_one_of,
    parse_integer, same, split_once, spells, string_of, trim, trimmed,
};
use toml_edit::DocumentMut;
use vstd::prelude::*;

verus! {

/// A setting that could not be accepted.
#[derive(Debug, PartialEq, Eq)]
pub struct ConfigError {
    /// The option's key, e.g. `layout.gaps`.
    pub key: String,
    /// The value as written.
    pub value: String,
    /// Why it was refused, naming the constraint.
    pub reason: String,
}

/// What an error says: the key, the value as written, and the reason.
pub type Refusal = (Seq<char>, Seq<char>, Seq<char>);

impl View for ConfigError {
    type V = Refusal;

    open spec fn view(&self) -> Refusal {
        (self.key@, self.value@, self.reason@)
    }
}

impl ConfigError {
    fn new(key: &str, value: &str, reason: &str) -> (r: Self)
        ensures
            r@ == (key@, value@, reason@),
    {
        ConfigError { key: copied(key), value: copied(value), reason: copied(reason) }
    }

    /// The message shown to a person.
    pub fn to_text(&self) -> (r: String)
        ensures
            r@ == self.key@ + " = "@ + self.value@ + ": "@ + self.reason@,
    {
        concat5(self.key.as_str(), " = ", self.value.as_str(), ": ", self.reason.as_str())
    }
}

/// Why a configuration file could not be loaded or saved.
#[derive(Debug, PartialEq, Eq)]
pub enum LoadError {
    /// Reading or writing the file failed.
    Io {
        /// The file involved.
        path: String,
        /// The underlying error.
        message: String,
    },
    /// The file is not valid TOML.
    Syntax {
        /// The file involved.
        path: String,
        /// What the parser said.
        message: String,
    },
    /// A value breaks the schema.
    Invalid(ConfigError),
}

impl LoadError {
    /// The message shown to a person.
    pub open spec fn message(self) -> Seq<char> {
        match self {
            LoadError::Io { path, message } => path@ + ": "@ + message@,
            LoadError::Syntax { path, message } => path@ + " is not valid TOML: "@ + message@,
            LoadError::Invalid(err) => err.key@ + " = "@ + err.value@ + ": "@ + err.reason@,
        }
    }

    /// The message shown to a person.
    pub fn to_text(&self) -> (r: String)
        ensures
            r@ == self.message(),
    {
        match self {
            LoadError::Io { path, message } => concat3(path.as_str(), ": ", message.as_str()),
            LoadError::Syntax { path, message } => concat3(
                path.as_str(),
                " is not valid TOML: ",
                message.as_str(),
            ),
            LoadError::Invalid(err) => err.to_text(),
        }
    }
}

/// One changed setting, as reported after a reload.
#[derive(Debug, PartialEq, Eq)]
pub struct Change {
    /// The option that changed.
    pub key: String,
    /// When the change takes effect.
    pub apply: Apply,
}

impl View for Change {
    type V = (Seq<char>, Apply);

    open spec fn view(&self) -> (Seq<char>, Apply) {
        (self.key@, self.apply)
    }
}

/// What reading a configuration file gave.
#[derive(Debug, PartialEq, Eq)]
pub enum FileText {
    /// The text of the file.
    Text(String),
    /// There is no such file.
    Missing,
    /// The file could not be read, and why.
    Failed(String),
}

/// The section and the name that a key is made of.
pub open spec fn halves(key: Seq<char>) -> (Seq<char>, Seq<char>) {
    match cut(key, '.') {
        Some(halves) => halves,
        None => (key, Seq::empty()),
    }
}

/// True when a value has the type that a kind asks for.
pub open spec fn has_type(sort: Sort, value: Setting) -> bool {
    match sort {
        Sort::Bool => value is Bool,
        Sort::Int { .. } => value is Int,
        Sort::Text { .. } => value is Text,
        Sort::Choice { .. } => value is Text,
    }
}

/// What stands under a key, if it has the type that `sort` asks for.
pub open spec fn reading(values: Values, key: Seq<char>, sort: Sort) -> Option<Setting> {
    if values.contains_key(halves(key)) {
        match values[halves(key)] {
            Some(value) => if has_type(sort, value) {
                Some(value)
            } else {
                None
            },
            None => None,
        }
    } else {
        None
    }
}

/// The value as stored: the file's value, or the default.
pub open spec fn stored_value(rules: SchemaModel, values: Values, key: Seq<char>) -> Option<
    Setting,
> {
    match rules.option(key) {
        None => None,
        Some(option) => match reading(values, key, option.kind) {
            Some(value) => Some(value),
            None => Some(option.default),
        },
    }
}

/// True when a bool is stored as on, or on because at most `n` options select it one after the
/// other, of which the first is stored as on.
pub open spec fn on_within(rules: SchemaModel, values: Values, key: Seq<char>, n: nat) -> bool
    decreases n,
{
    ||| stored_value(rules, values, key) == Some(Setting::Bool(true))
    ||| n > 0 && exists|i: int|
        0 <= i < rules.options.len() && (#[trigger] rules.options[i]).select.contains(key)
            && on_within(rules, values, rules.options[i].key, (n - 1) as nat)
}

/// True when a bool is stored as on, or selected by an option that is on.
pub open spec fn switched_on(rules: SchemaModel, values: Values, key: Seq<char>) -> bool {
    exists|n: nat| #[trigger] on_within(rules, values, key, n)
}

/// The first option at or after `from` that is on and selects `key`.
pub open spec fn forcing(
    rules: SchemaModel,
    values: Values,
    key: Seq<char>,
    from: int,
) -> Option<int>
    decreases rules.options.len() - from,
{
    if from < 0 || from >= rules.options.len() {
        None
    } else if rules.options[from].select.contains(key) && switched_on(
        rules,
        values,
        rules.options[from].key,
    ) {
        Some(from)
    } else {
        forcing(rules, values, key, from + 1)
    }
}

/// The value in effect: on while another option selects it, and else the stored value.
pub open spec fn effective_value(rules: SchemaModel, values: Values, key: Seq<char>) -> Option<
    Setting,
> {
    if forcing(rules, values, key, 0) is Some {
        Some(Setting::Bool(true))
    } else {
        stored_value(rules, values, key)
    }
}

/// The text of an option, empty where it has none.
pub open spec fn text_in(rules: SchemaModel, values: Values, key: Seq<char>) -> Seq<char> {
    match effective_value(rules, values, key) {
        Some(Setting::Text(value)) => value,
        _ => Seq::empty(),
    }
}

/// True when a bool option is on.
pub open spec fn is_on(rules: SchemaModel, values: Values, key: Seq<char>) -> bool {
    effective_value(rules, values, key) == Some(Setting::Bool(true))
}

/// The truth of a dependency; none is always satisfied.
pub open spec fn satisfied(
    rules: SchemaModel,
    values: Values,
    depends_on: Option<Formula>,
) -> bool {
    depends_on matches Some(formula) ==> formula.truth(
        |key: Seq<char>| is_on(rules, values, key),
    )
}

/// What to say when a value has the wrong type.
pub open spec fn type_reason(sort: Sort) -> Seq<char> {
    match sort {
        Sort::Bool => "expected true or false"@,
        Sort::Int { .. } => "expected a whole number"@,
        _ => "expected text in quotes"@,
    }
}

/// Why an option refuses what was found under its key; `found` is `None` for a value of the
/// wrong type, which is then quoted as it is spelled.
pub open spec fn refusal(option: OptionModel, found: Option<Setting>, spelling: Seq<char>) -> Option<
    Refusal,
> {
    match found {
        None => Some((option.key, trim(spelling), type_reason(option.kind))),
        Some(value) => match complaint(option.kind, value) {
            Some(reason) => Some((option.key, value.shown(), reason)),
            None => None,
        },
    }
}

/// The first option at or after `from` that refuses what stands under its key.
pub open spec fn first_refusal(
    rules: SchemaModel,
    values: Values,
    spellings: Spellings,
    from: int,
) -> Option<Refusal>
    decreases rules.options.len() - from,
{
    if from < 0 || from >= rules.options.len() {
        None
    } else {
        let option = rules.options[from];
        let place = halves(option.key);
        if values.contains_key(place) {
            match refusal(option, reading(values, option.key, option.kind), spellings[place]) {
                Some(refused) => Some(refused),
                None => first_refusal(rules, values, spellings, from + 1),
            }
        } else {
            first_refusal(rules, values, spellings, from + 1)
        }
    }
}

/// True when every option accepts what stands under its key.
pub open spec fn all_accepted(rules: SchemaModel, values: Values) -> bool {
    forall|i: int|
        0 <= i < rules.options.len() ==> accepted(#[trigger] rules.options[i], values)
}

/// True when an option accepts what stands under its key, or nothing stands there.
pub open spec fn accepted(option: OptionModel, values: Values) -> bool {
    values.contains_key(halves(option.key)) ==> match reading(values, option.key, option.kind) {
        None => false,
        Some(value) => complaint(option.kind, value) is None,
    }
}

/// True when the text kept round a header holds a comment.
pub open spec fn has_comment_text(header: (Option<Seq<char>>, Option<Seq<char>>)) -> bool {
    ||| header.0 matches Some(text) && text.contains('#')
    ||| header.1 matches Some(text) && text.contains('#')
}

/// The values of a document without one section.
pub open spec fn without_section(values: Values, section: Seq<char>) -> Values {
    values.restrict(Set::new(|key: (Seq<char>, Seq<char>)| key.0 != section))
}

/// The values of a document after a setting was changed: a default is not written down, and a
/// section is made where none holds names yet.
pub open spec fn values_after(
    values: Values,
    sections: Sections,
    key: Seq<char>,
    value: Setting,
    default: Setting,
) -> Values {
    let (section, name) = halves(key);
    if value == default {
        values.remove((section, name))
    } else if sections.contains(section) {
        values.insert((section, name), Some(value))
    } else {
        without_section(values, section).insert((section, name), Some(value))
    }
}

/// True when a change of `section.name` left the rest of a document alone: every other item, the
/// text kept round every name that still stands there, the top level but for the section, and
/// the order of the names. A name that is new comes last in its section.
pub open spec fn rest_kept(
    before: DocumentMut,
    after: DocumentMut,
    section: Seq<char>,
    name: Seq<char>,
    dropped: bool,
) -> bool {
    &&& forall|place: (Seq<char>, Seq<char>)| #[trigger]
        doc_spellings(before).contains_key(place) && doc_values(before).contains_key(place)
            && place != (section, name) ==> doc_spellings(after).contains_key(place)
            && doc_spellings(after)[place] == doc_spellings(before)[place]
    &&& forall|place: (Seq<char>, Seq<char>)| #[trigger]
        doc_notes(before).contains_key(place) && doc_values(before).contains_key(place) && (place
            != (section, name) || !dropped) ==> doc_notes(after).contains_key(place) && doc_notes(
            after,
        )[place] == doc_notes(before)[place]
    &&& doc_top(after).remove(section) == doc_top(before).remove(section)
    &&& doc_orders(after).remove(section) == doc_orders(before).remove(section)
    &&& if dropped {
        doc_sections(after).contains(section) ==> doc_orders(after)[section] == names_without(
            doc_orders(before)[section],
            name,
        )
    } else if doc_sections(before).contains(section) {
        stands_in_order(before, section, name) ==> doc_orders(after) == orders_written(
            doc_orders(before),
            section,
            name,
        )
    } else {
        doc_orders(after)[section] == seq![name]
    }
}

/// The notes after a value was put in the place of another: those of a name that stood there stay,
/// and a new name has none.
pub open spec fn notes_kept(
    notes: Notes,
    headers: Headers,
    section: Seq<char>,
    name: Seq<char>,
) -> Notes {
    if notes.contains_key((section, name)) || !headers.contains_key(section) {
        notes
    } else {
        notes.insert((section, name), (None, None, None))
    }
}

/// True when one setting of a document was changed, and nothing besides.
pub open spec fn changed_to(
    before: DocumentMut,
    after: DocumentMut,
    key: Seq<char>,
    value: Setting,
    default: Setting,
) -> bool {
    let (section, name) = halves(key);
    &&& doc_values(after) == values_after(
        doc_values(before),
        doc_sections(before),
        key,
        value,
        default,
    )
    &&& sections_after(
        doc_sections(before),
        doc_headers(before),
        doc_sections(after),
        doc_headers(after),
        doc_values(after),
        section,
        value == default,
    )
    &&& rest_kept(before, after, section, name, value == default)
}

/// Decides whether an option accepts what was found under its key; `found` is `None` for a
/// value of the wrong type.
pub fn accept(option: &OptionDef, found: Option<Value>, spelling: &str) -> (r: Result<
    Value,
    ConfigError,
>)
    ensures
        match r {
            Ok(value) => found matches Some(given) && value@ == given@ && refusal(
                option@,
                Some(given@),
                spelling@,
            ) is None,
            Err(err) => Some(err@) == refusal(
                option@,
                match found {
                    Some(given) => Some(given@),
                    None => None,
                },
                spelling@,
            ),
        },
{
    match found {
        None => {
            let chars = chars_of(spelling);
            let shown = trimmed(&chars);
            let shown = string_of(&shown);
            let reason = match &option.kind {
                Kind::Bool => "expected true or false",
                Kind::Int { .. } => "expected a whole number",
                _ => "expected text in quotes",
            };
            Err(ConfigError::new(option.key.as_str(), shown.as_str(), reason))
        },
        Some(value) => match check(&option.kind, &value) {
            Ok(()) => Ok(value),
            Err(reason) => {
                let shown = value.to_text();
                Err(ConfigError::new(option.key.as_str(), shown.as_str(), reason.as_str()))
            },
        },
    }
}

/// Whether the text kept round a section's header holds a comment worth keeping.
pub fn has_comment(prefix: Option<String>, suffix: Option<String>) -> (r: bool)
    ensures
        r == has_comment_text(
            (
                match prefix {
                    Some(text) => Some(text@),
                    None => None,
                },
                match suffix {
                    Some(text) => Some(text@),
                    None => None,
                },
            ),
        ),
{
    let before = match prefix {
        Some(text) => {
            let chars = chars_of(text.as_str());
            has_char(&chars, '#')
        },
        None => false,
    };
    let after = match suffix {
        Some(text) => {
            let chars = chars_of(text.as_str());
            has_char(&chars, '#')
        },
        None => false,
    };
    before || after
}

/// Reads what stands under a key as the given kind, or `None` when the type is wrong.
fn read_item(document: &DocumentMut, section: &str, name: &str, kind: &Kind) -> (r: Option<Value>)
    ensures
        (match r {
            Some(value) => Some(value@),
            None => None,
        }) == (if doc_values(*document).contains_key((section@, name@)) {
            match doc_values(*document)[(section@, name@)] {
                Some(value) => if has_type(kind@, value) {
                    Some(value)
                } else {
                    None
                },
                None => None,
            }
        } else {
            None
        }),
{
    match kind {
        Kind::Bool => match read_bool(document, section, name) {
            Some(value) => Some(Value::Bool(value)),
            None => None,
        },
        Kind::Int { .. } => match read_integer(document, section, name) {
            Some(value) => Some(Value::Int(value)),
            None => None,
        },
        _ => match read_text(document, section, name) {
            Some(value) => Some(Value::Text(value)),
            None => None,
        },
    }
}

/// The section and the name that a key is made of.
fn split_key(key: &str) -> (r: (String, String))
    ensures
        (r.0@, r.1@) == halves(key@),
{
    let chars = chars_of(key);
    match split_once(&chars, '.') {
        Some((section, name)) => (string_of(&section), string_of(&name)),
        None => (copied(key), String::new()),
    }
}

/// Configuration values, backed by an editable TOML document.
pub struct ConfigValues {
    schema: Schema,
    document: DocumentMut,
}

impl Default for ConfigValues {
    /// Every setting at its default, by the settings that Tessera has.
    fn default() -> (r: Self)
        ensures
            r.wf(),
            r.rules() == builtin_rules(),
            r.values() == Values::empty(),
    {
        Self::with_schema(Schema::builtin())
    }
}

impl Clone for ConfigValues {
    fn clone(&self) -> (r: Self)
        ensures
            r.rules() == self.rules(),
            contents(r.doc()) == contents(self.doc()),
            doc_text(r.doc()) == doc_text(self.doc()),
            self.wf() ==> r.wf(),
    {
        ConfigValues { schema: self.schema.clone(), document: copy_document(&self.document) }
    }
}

impl ConfigValues {
    /// The rules that the values follow.
    pub closed spec fn rules(&self) -> SchemaModel {
        self.schema@
    }

    /// The document behind the values.
    pub closed spec fn doc(&self) -> DocumentMut {
        self.document
    }

    /// What the document holds.
    pub open spec fn values(&self) -> Values {
        doc_values(self.doc())
    }

    /// Whether a boolean option is on.
    pub open spec fn bool_at(&self, key: Seq<char>) -> bool {
        is_on(self.rules(), self.values(), key)
    }

    /// The number of an option, zero where it has none.
    pub open spec fn integer_at(&self, key: Seq<char>) -> int {
        match effective_value(self.rules(), self.values(), key) {
            Some(Setting::Int(value)) => value as int,
            _ => 0,
        }
    }

    /// The text of an option, empty where it has none.
    pub open spec fn text_at(&self, key: Seq<char>) -> Seq<char> {
        text_in(self.rules(), self.values(), key)
    }

    /// Whether an option is to be shown.
    pub open spec fn visible_at(&self, key: Seq<char>) -> bool {
        match self.rules().option(key) {
            None => true,
            Some(option) => satisfied(self.rules(), self.values(), option.depends_on),
        }
    }

    /// The rules are consistent, and every stored value is one that they allow.
    pub open spec fn wf(&self) -> bool {
        &&& self.rules().sound()
        &&& names_in_sections(self.values(), doc_sections(self.doc()), doc_headers(self.doc()))
        &&& notes_are_plain(doc_notes(self.doc()))
        &&& all_accepted(self.rules(), self.values())
    }

    /// Values against a schema, with nothing set.
    pub fn with_schema(schema: Schema) -> (r: Self)
        requires
            schema@.sound(),
        ensures
            r.wf(),
            r.rules() == schema@,
            r.values() == Values::empty(),
    {
        ConfigValues { schema, document: empty_document() }
    }

    /// Turns what reading a file gave into values. A missing file is not an error: every option
    /// takes its default.
    pub fn load(schema: Schema, path: &str, found: FileText) -> (r: Result<Self, LoadError>)
        requires
            schema@.sound(),
        ensures
            match found {
                FileText::Missing => r matches Ok(values) && values.wf() && values.rules()
                    == schema@ && values.values() == Values::empty(),
                FileText::Failed(why) => r matches Err(LoadError::Io { path: at, message })
                    && at@ == path@ && message@ == why@,
                FileText::Text(text) => match parsed_toml(text@) {
                    Err(why) => r matches Err(LoadError::Syntax { path: at, message }) && at@
                        == path@ && message@ == why,
                    Ok(found) => match first_refusal(schema@, found.0, found.1, 0) {
                        Some(refused) => r matches Err(LoadError::Invalid(err)) && err@ == refused,
                        None => r matches Ok(values) && values.wf() && values.rules() == schema@
                            && contents(values.doc()) == found,
                    },
                },
            },
    {
        match found {
            FileText::Missing => Ok(ConfigValues::with_schema(schema)),
            FileText::Failed(message) => Err(LoadError::Io { path: copied(path), message }),
            FileText::Text(text) => match ConfigValues::parse_with(schema, text.as_str()) {
                Ok(values) => Ok(values),
                Err(LoadError::Syntax { message, .. }) => Err(
                    LoadError::Syntax { path: copied(path), message },
                ),
                Err(other) => Err(other),
            },
        }
    }

    /// Parses configuration text and checks every known key against a schema.
    ///
    /// Keys the schema does not know are left alone rather than rejected, so an older program
    /// does not choke on a newer file.
    pub fn parse_with(schema: Schema, text: &str) -> (r: Result<Self, LoadError>)
        requires
            schema@.sound(),
        ensures
            match parsed_toml(text@) {
                Err(why) => r matches Err(LoadError::Syntax { path, message }) && path@
                    == "config"@ && message@ == why,
                Ok(found) => match first_refusal(schema@, found.0, found.1, 0) {
                    Some(refused) => r matches Err(LoadError::Invalid(err)) && err@ == refused,
                    None => r matches Ok(values) && values.wf() && values.rules() == schema@
                        && contents(values.doc()) == found,
                },
            },
    {
        let document = match parse_document(text) {
            Ok(document) => document,
            Err(message) => {
                return Err(LoadError::Syntax { path: copied("config"), message });
            },
        };
        let values = ConfigValues { schema, document };
        match values.check_all() {
            Ok(()) => {
                proof {
                    unrefused_is_accepted(
                        values.rules(),
                        values.values(),
                        doc_spellings(values.doc()),
                        0,
                    );
                }
                Ok(values)
            },
            Err(err) => Err(LoadError::Invalid(err)),
        }
    }

    fn check_all(&self) -> (r: Result<(), ConfigError>)
        ensures
            match r {
                Ok(()) => first_refusal(
                    self.rules(),
                    self.values(),
                    doc_spellings(self.doc()),
                    0,
                ) is None,
                Err(err) => Some(err@) == first_refusal(
                    self.rules(),
                    self.values(),
                    doc_spellings(self.doc()),
                    0,
                ),
            },
    {
        let ghost rules = self.rules();
        let ghost vals = self.values();
        let ghost spellings = doc_spellings(self.doc());
        let mut i: usize = 0;
        while i < self.schema.options.len()
            invariant
                i <= self.schema.options.len(),
                self.rules() == rules,
                self.values() == vals,
                doc_spellings(self.doc()) == spellings,
                first_refusal(rules, vals, spellings, 0) == first_refusal(
                    rules,
                    vals,
                    spellings,
                    i as int,
                ),
            decreases self.schema.options.len() - i,
        {
            assert(rules.options[i as int] == self.schema.options@[i as int]@);
            let option = &self.schema.options[i];
            let (section, name) = split_key(option.key.as_str());
            if let Some(spelled) = spelling(&self.document, section.as_str(), name.as_str()) {
                let found = read_item(
                    &self.document,
                    section.as_str(),
                    name.as_str(),
                    &option.kind,
                );
                match accept(option, found, spelled.as_str()) {
                    Ok(_) => {},
                    Err(err) => {
                        return Err(err);
                    },
                }
            }
            i = i + 1;
        }
        Ok(())
    }

    /// Reads settings from text, as [`ConfigValues::parse_with`] does, by the settings that
    /// Tessera has.
    pub fn parse(text: &str) -> (r: Result<Self, LoadError>)
        ensures
            match parsed_toml(text@) {
                Err(why) => r matches Err(LoadError::Syntax { path, message }) && path@
                    == "config"@ && message@ == why,
                Ok(contents) => match first_refusal(builtin_rules(), contents.0, contents.1, 0) {
                    Some(refused) => r matches Err(LoadError::Invalid(err)) && err@ == refused,
                    None => r matches Ok(values) && values.wf() && values.rules()
                        == builtin_rules() && values.values() == contents.0,
                },
            },
    {
        Self::parse_with(Schema::builtin(), text)
    }

    /// The schema these values follow.
    pub fn schema(&self) -> (r: &Schema)
        ensures
            r@ == self.rules(),
    {
        &self.schema
    }

    /// The value as stored: the file's value, or the default.
    pub fn stored(&self, key: &str) -> (r: Option<Value>)
        ensures
            (match r {
                Some(value) => Some(value@),
                None => None,
            }) == stored_value(self.rules(), self.values(), key@),
    {
        match self.schema.option(key) {
            None => None,
            Some(option) => {
                let (section, name) = split_key(key);
                match read_item(&self.document, section.as_str(), name.as_str(), &option.kind) {
                    Some(value) => Some(value),
                    None => Some(option.default.clone()),
                }
            },
        }
    }

    /// An option that is selected by one that `on` marks, and not marked itself.
    fn next_selected(&self, on: &Vec<bool>) -> (r: Option<usize>)
        requires
            on@.len() == self.rules().options.len(),
        ensures
            match r {
                Some(j) => j < on@.len() && !on@[j as int] && exists|i: int|
                    0 <= i < on@.len() && on@[i] && (#[trigger] self.rules().options[i]).select
                        .contains(self.rules().options[j as int].key),
                None => closed_under_select(self.rules(), on@),
            },
    {
        let mut i: usize = 0;
        while i < self.schema.options.len()
            invariant
                i <= self.schema.options.len(),
                on@.len() == self.rules().options.len(),
                self.rules().options.len() == self.schema.options.len(),
                forall|a: int, b: int|
                    #![trigger self.rules().options[a], self.rules().options[b]]
                    0 <= a < i && 0 <= b < on@.len() && on@[a]
                        && self.rules().options[a].select.contains(self.rules().options[b].key)
                        ==> on@[b],
            decreases self.schema.options.len() - i,
        {
            assert(self.rules().options[i as int] == self.schema.options@[i as int]@);
            let mut j: usize = 0;
            while on[i] && j < self.schema.options.len()
                invariant
                    i < self.schema.options.len(),
                    j <= self.schema.options.len(),
                    on@.len() == self.rules().options.len(),
                    self.rules().options.len() == self.schema.options.len(),
                    self.rules().options[i as int] == self.schema.options@[i as int]@,
                    forall|b: int|
                        0 <= b < j && self.rules().options[i as int].select.contains(
                            (#[trigger] self.rules().options[b]).key,
                        ) ==> on@[b],
                decreases self.schema.options.len() - j,
            {
                assert(self.rules().options[j as int] == self.schema.options@[j as int]@);
                let key = self.schema.options[j].key.as_str();
                if !on[j] && is_one_of(&self.schema.options[i].select, key) {
                    return Some(j);
                }
                j = j + 1;
            }
            i = i + 1;
        }
        None
    }

    /// Which options are on, by their place in the schema; only bools ever are.
    fn switches(&self) -> (r: Vec<bool>)
        ensures
            r@.len() == self.rules().options.len(),
            forall|i: int|
                0 <= i < r@.len() ==> #[trigger] r@[i] == switched_on(
                    self.rules(),
                    self.values(),
                    self.rules().options[i].key,
                ),
    {
        let mut on: Vec<bool> = Vec::new();
        let mut i: usize = 0;
        while i < self.schema.options.len()
            invariant
                i <= self.schema.options.len(),
                on@.len() == i,
                forall|j: int|
                    0 <= j < i ==> #[trigger] on@[j] == (stored_value(
                        self.rules(),
                        self.values(),
                        self.rules().options[j].key,
                    ) == Some(Setting::Bool(true))),
            decreases self.schema.options.len() - i,
        {
            assert(self.rules().options[i as int] == self.schema.options@[i as int]@);
            on.push(
                matches!(
                    self.stored(self.schema.options[i].key.as_str()),
                    Some(Value::Bool(true))
                ),
            );
            i = i + 1;
        }
        proof {
            assert forall|j: int| 0 <= j < on@.len() && #[trigger] on@[j] implies switched_on(
                self.rules(),
                self.values(),
                self.rules().options[j].key,
            ) by {
                assert(on_within(self.rules(), self.values(), self.rules().options[j].key, 0));
            }
        }
        let mut next = self.next_selected(&on);
        while next.is_some()
            invariant
                on@.len() == self.rules().options.len(),
                forall|k: int|
                    0 <= k < on@.len() && #[trigger] on@[k] ==> switched_on(
                        self.rules(),
                        self.values(),
                        self.rules().options[k].key,
                    ),
                forall|k: int|
                    0 <= k < on@.len() && stored_value(
                        self.rules(),
                        self.values(),
                        (#[trigger] self.rules().options[k]).key,
                    ) == Some(Setting::Bool(true)) ==> on@[k],
                match next {
                    Some(j) => j < on@.len() && !on@[j as int] && exists|i: int|
                        0 <= i < on@.len() && on@[i] && (#[trigger] self.rules().options[i]).select
                            .contains(self.rules().options[j as int].key),
                    None => closed_under_select(self.rules(), on@),
                },
            decreases marks_left(on@, on@.len() as int),
        {
            let j: usize = next.unwrap();
            let ghost before = on@;
            proof {
                let i = choose|i: int|
                    0 <= i < on@.len() && on@[i] && (#[trigger] self.rules().options[i]).select
                        .contains(self.rules().options[j as int].key);
                let by = self.rules().options[i].key;
                assert(switched_on(self.rules(), self.values(), by));
                let n = choose|n: nat| #[trigger] on_within(self.rules(), self.values(), by, n);
                assert(on_within(
                    self.rules(),
                    self.values(),
                    self.rules().options[j as int].key,
                    (n + 1) as nat,
                ));
                one_mark_less(on@, j as int, on@.len() as int);
            }
            on.set(j, true);
            assert(on@ =~= before.update(j as int, true));
            next = self.next_selected(&on);
        }
        proof {
            assert forall|k: int| 0 <= k < on@.len() implies #[trigger] on@[k] == switched_on(
                self.rules(),
                self.values(),
                self.rules().options[k].key,
            ) by {
                let key = self.rules().options[k].key;
                if switched_on(self.rules(), self.values(), key) {
                    let n = choose|n: nat| #[trigger]
                        on_within(self.rules(), self.values(), key, n);
                    marks_reach(self.rules(), self.values(), on@, k, n);
                }
            }
        }
        on
    }

    fn forced_place(&self, key: &str) -> (r: Option<usize>)
        ensures
            match r {
                Some(i) => i < self.schema.options.len() && forcing(
                    self.rules(),
                    self.values(),
                    key@,
                    0,
                ) == Some(i as int),
                None => forcing(self.rules(), self.values(), key@, 0) is None,
            },
    {
        let mut i: usize = 0;
        while i < self.schema.options.len()
            invariant
                i <= self.schema.options.len(),
                forcing(self.rules(), self.values(), key@, 0) == forcing(
                    self.rules(),
                    self.values(),
                    key@,
                    i as int,
                ),
            decreases self.schema.options.len() - i,
        {
            assert(self.rules().options[i as int] == self.schema.options@[i as int]@);
            let option = &self.schema.options[i];
            if is_one_of(&option.select, key) {
                let on = self.switches();
                if on[i] {
                    return Some(i);
                }
            }
            i = i + 1;
        }
        None
    }

    /// The value in effect: the stored value, unless another option `select`s it on.
    pub fn get(&self, key: &str) -> (r: Option<Value>)
        ensures
            (match r {
                Some(value) => Some(value@),
                None => None,
            }) == effective_value(self.rules(), self.values(), key@),
    {
        if self.forced_place(key).is_some() {
            return Some(Value::Bool(true));
        }
        self.stored(key)
    }

    /// The option currently forcing `key` on, if any.
    pub fn forced_by(&self, key: &str) -> (r: Option<&str>)
        ensures
            (match r {
                Some(by) => Some(by@),
                None => None,
            }) == (match forcing(self.rules(), self.values(), key@, 0) {
                Some(i) => Some(self.rules().options[i].key),
                None => None,
            }),
    {
        match self.forced_place(key) {
            None => None,
            Some(i) => {
                assert(self.rules().options[i as int] == self.schema.options@[i as int]@);
                Some(self.schema.options[i].key.as_str())
            },
        }
    }

    /// Convenience accessor for bool options; false for unknown keys.
    pub fn bool(&self, key: &str) -> (r: bool)
        ensures
            r == self.bool_at(key@),
    {
        matches!(self.get(key), Some(Value::Bool(true)))
    }

    /// Convenience accessor for int options; 0 for unknown keys.
    pub fn integer(&self, key: &str) -> (r: i64)
        ensures
            r == self.integer_at(key@),
    {
        match self.get(key) {
            Some(Value::Int(value)) => value,
            _ => 0,
        }
    }

    /// Convenience accessor for string and choice options; empty for unknown keys.
    pub fn text(&self, key: &str) -> (r: String)
        ensures
            r@ == self.text_at(key@),
    {
        match self.get(key) {
            Some(Value::Text(value)) => value,
            _ => String::new(),
        }
    }

    fn holds(&self, depends_on: &Option<crate::config::expr::Expr>) -> (r: bool)
        ensures
            r == satisfied(
                self.rules(),
                self.values(),
                crate::config::schema::expr_view(*depends_on),
            ),
    {
        match depends_on {
            None => true,
            Some(expr) => {
                let lookup = |name: &str| -> (on: bool)
                    ensures
                        on == is_on(self.rules(), self.values(), name@),
                    { self.bool(name) };
                let ghost on = |key: Seq<char>| is_on(self.rules(), self.values(), key);
                assert(answers(lookup, on));
                let r = expr.eval(&lookup);
                assert(expr.formula().truth(on) == r);
                r
            },
        }
    }

    /// Whether an option's `depends_on` is satisfied, so it should be shown and honoured.
    pub fn visible(&self, key: &str) -> (r: bool)
        ensures
            r == self.visible_at(key@),
    {
        match self.schema.option(key) {
            None => true,
            Some(option) => self.holds(&option.depends_on),
        }
    }

    /// Whether a menu's `depends_on` is satisfied.
    pub fn menu_visible(&self, id: &str) -> (r: bool)
        ensures
            !has_menu(self.rules().menus, id@) ==> r,
            forall|i: int|
                #![trigger self.rules().menus[i]]
                0 <= i < self.rules().menus.len() && self.rules().menus[i].id == id@ && (forall|
                    j: int,
                |
                    0 <= j < i ==> (#[trigger] self.rules().menus[j]).id != id@) ==> r
                    == satisfied(self.rules(), self.values(), self.rules().menus[i].depends_on),
    {
        match self.schema.menu(id) {
            None => true,
            Some(menu) => self.holds(&menu.depends_on),
        }
    }

    /// Changes a value, refusing anything the schema does not allow.
    ///
    /// Setting a value back to its default removes it from the file, so the file only records
    /// what the user actually changed. A section left empty by that goes as well, unless a
    /// comment was written on it. Everything else in the file stays: the other keys, whether or
    /// not the schema knows them, the comments and the order of the keys.
    pub fn set(&mut self, key: &str, value: Value) -> (r: Result<(), ConfigError>)
        requires
            old(self).wf(),
        ensures
            final(self).wf(),
            final(self).rules() == old(self).rules(),
            match old(self).rules().option(key@) {
                None => r matches Err(err) && err@ == (
                    key@,
                    value@.shown(),
                    "there is no such setting"@,
                ) && final(self).doc() == old(self).doc(),
                Some(option) => match complaint(option.kind, value@) {
                    Some(reason) => r matches Err(err) && err@ == (key@, value@.shown(), reason)
                        && final(self).doc() == old(self).doc(),
                    None => {
                        &&& r is Ok
                        &&& changed_to(
                            old(self).doc(),
                            final(self).doc(),
                            key@,
                            value@,
                            option.default,
                        )
                    },
                },
            },
    {
        let (kept, default) = match self.schema.option(key) {
            None => {
                let shown = value.to_text();
                return Err(ConfigError::new(key, shown.as_str(), "there is no such setting"));
            },
            Some(option) => (check(&option.kind, &value), option.default.same(&value)),
        };
        if let Err(reason) = kept {
            let shown = value.to_text();
            return Err(ConfigError::new(key, shown.as_str(), reason.as_str()));
        }
        let (section, name) = split_key(key);
        let ghost given = value@;
        if default {
            self.forget(section.as_str(), name.as_str());
            proof {
                set_keeps_accepted(
                    old(self).rules(),
                    old(self).values(),
                    doc_sections(old(self).doc()),
                    key@,
                    value@,
                );
                assert(self.values() == values_after(
                    old(self).values(),
                    doc_sections(old(self).doc()),
                    key@,
                    value@,
                    old(self).rules().option(key@)->0.default,
                ));
                assert forall|place: (Seq<char>, Seq<char>)| #[trigger]
                    self.values().contains_key(place) implies doc_sections(self.doc()).contains(
                    place.0,
                ) by {
                    assert(old(self).values().contains_key(place));
                    assert(self.values().contains_key((place.0, place.1)));
                }
            }
            return Ok(());
        }
        if !has_section(&self.document, section.as_str()) {
            insert_section(&mut self.document, section.as_str());
        }
        let ghost spelled = doc_spellings(self.doc());
        self.put(section.as_str(), name.as_str(), &value);
        proof {
            let sections = doc_sections(old(self).doc());
            if sections.contains(section@) {
                assert(sections.insert(section@) =~= sections);
            }
            set_keeps_accepted(
                old(self).rules(),
                old(self).values(),
                sections,
                key@,
                given,
            );
            let place = (section@, name@);
            let before = doc_spellings(old(self).doc());
            let after = doc_spellings(self.doc());
            assert forall|other: (Seq<char>, Seq<char>)| #[trigger]
                before.contains_key(other) && old(self).values().contains_key(other) && other
                    != place implies after.contains_key(other) && after[other]
                == before[other] by {
                assert(sections.contains(other.0));
                assert(spelled.remove(place).contains_key(other));
                assert(after.remove(place).contains_key(other));
                assert(after.remove(place)[other] == after[other]);
            }
            assert forall|other: (Seq<char>, Seq<char>)| #[trigger]
                doc_notes(old(self).doc()).contains_key(other) && old(self).values().contains_key(
                    other,
                ) implies doc_notes(self.doc()).contains_key(other) && doc_notes(
                self.doc(),
            )[other] == doc_notes(old(self).doc())[other] by {
                assert(sections.contains(other.0));
            }
            assert(doc_top(self.doc()).remove(section@) =~= doc_top(old(self).doc()).remove(
                section@,
            ));
            assert(doc_orders(self.doc()).remove(section@) =~= doc_orders(old(self).doc()).remove(
                section@,
            ));
            assert(Seq::<Seq<char>>::empty().push(name@) =~= seq![name@]);
            assert(rest_kept(old(self).doc(), self.doc(), section@, name@, false));
        }
        Ok(())
    }

    /// Parses and sets a value typed by the user into an input box.
    pub fn set_from_text(&mut self, key: &str, text: &str) -> (r: Result<(), ConfigError>)
        requires
            old(self).wf(),
        ensures
            final(self).wf(),
            final(self).rules() == old(self).rules(),
            match old(self).rules().option(key@) {
                None => r matches Err(err) && err@ == (key@, text@, "there is no such setting"@)
                    && final(self).doc() == old(self).doc(),
                Some(option) => match typed_value(option.kind, text@) {
                    Err(reason) => r matches Err(err) && err@ == (key@, text@, reason)
                        && final(self).doc() == old(self).doc(),
                    Ok(value) => match complaint(option.kind, value) {
                        Some(reason) => r matches Err(err) && err@ == (key@, value.shown(), reason)
                            && final(self).doc() == old(self).doc(),
                        None => r is Ok && changed_to(
                            old(self).doc(),
                            final(self).doc(),
                            key@,
                            value,
                            option.default,
                        ),
                    },
                },
            },
    {
        let typed = match self.schema.option(key) {
            None => {
                return Err(ConfigError::new(key, text, "there is no such setting"));
            },
            Some(option) => read_typed(&option.kind, text),
        };
        match typed {
            Err(reason) => Err(ConfigError::new(key, text, reason.as_str())),
            Ok(value) => self.set(key, value),
        }
    }

    /// The configuration as TOML, exactly as it would be saved. Loading it back is accepted and
    /// gives the same values, the same comments and the same order of keys.
    pub fn to_toml(&self) -> (r: String)
        requires
            self.wf(),
        ensures
            r@ == doc_text(self.doc()),
            parsed_toml(r@) matches Ok(found) && found.0 == self.values() && first_refusal(
                self.rules(),
                found.0,
                found.1,
                0,
            ) is None && top_kept(doc_top(self.doc()), found.2) && header_comments_kept(
                doc_headers(self.doc()),
                found.4,
            ) && comments_kept(doc_notes(self.doc()), found.5) && orders_kept(
                doc_orders(self.doc()),
                found.6,
            ),
    {
        let text = document_text(&self.document);
        proof {
            accepted_is_unrefused(self.rules(), self.values(), parsed_toml(text@)->Ok_0.1, 0);
        }
        text
    }

    /// Every option whose effective value differs between two configurations.
    pub fn changes_from(&self, old_values: &ConfigValues) -> (r: Vec<Change>)
        ensures
            change_views(r@) == changed(
                self.rules(),
                self.values(),
                old_values.rules(),
                old_values.values(),
                self.rules().options.len() as int,
            ),
    {
        let mut out: Vec<Change> = Vec::new();
        let mut i: usize = 0;
        assert(change_views(out@) =~= seq![]);
        while i < self.schema.options.len()
            invariant
                i <= self.schema.options.len(),
                change_views(out@) == changed(
                    self.rules(),
                    self.values(),
                    old_values.rules(),
                    old_values.values(),
                    i as int,
                ),
            decreases self.schema.options.len() - i,
        {
            assert(self.rules().options[i as int] == self.schema.options@[i as int]@);
            let option = &self.schema.options[i];
            let same = match (self.get(option.key.as_str()), old_values.get(option.key.as_str())) {
                (None, None) => true,
                (Some(a), Some(b)) => a.same(&b),
                _ => false,
            };
            if !same {
                let ghost before = change_views(out@);
                out.push(Change { key: copied(option.key.as_str()), apply: option.apply });
                assert(change_views(out@) =~= before.push((option@.key, option.apply)));
            }
            i = i + 1;
        }
        out
    }

    /// Writes a value under a name, with the comment and the spaces that stood round the value
    /// there before.
    fn put(&mut self, section: &str, name: &str, value: &Value)
        requires
            doc_sections(old(self).doc()).contains(section@),
            notes_are_plain(doc_notes(old(self).doc())),
        ensures
            final(self).rules() == old(self).rules(),
            final(self).values() == old(self).values().insert((section@, name@), Some(value@)),
            doc_spellings(final(self).doc()).remove((section@, name@)) == doc_spellings(
                old(self).doc(),
            ).remove((section@, name@)),
            doc_top(final(self).doc()) == doc_top(old(self).doc()),
            doc_sections(final(self).doc()) == doc_sections(old(self).doc()),
            doc_headers(final(self).doc()) == doc_headers(old(self).doc()),
            doc_notes(final(self).doc()) == notes_kept(
                doc_notes(old(self).doc()),
                doc_headers(old(self).doc()),
                section@,
                name@,
            ),
            doc_orders(final(self).doc()).remove(section@) == doc_orders(
                old(self).doc(),
            ).remove(section@),
            stands_in_order(old(self).doc(), section@, name@) ==> doc_orders(final(self).doc())
                == orders_written(doc_orders(old(self).doc()), section@, name@),
    {
        let headed = has_header(&self.document, section);
        let mut prefix: Option<String> = None;
        let mut suffix: Option<String> = None;
        if headed {
            prefix = value_prefix(&self.document, section, name);
            suffix = value_suffix(&self.document, section, name);
        }
        match value {
            Value::Bool(value) => write_bool(&mut self.document, section, name, *value),
            Value::Int(value) => write_integer(&mut self.document, section, name, *value),
            Value::Text(value) => write_text(&mut self.document, section, name, value.as_str()),
        }
        if let Some(text) = prefix {
            set_value_prefix(&mut self.document, section, name, text.as_str());
        }
        if let Some(text) = suffix {
            set_value_suffix(&mut self.document, section, name, text.as_str());
        }
        assert(doc_notes(self.doc()) =~= notes_kept(
            doc_notes(old(self).doc()),
            doc_headers(old(self).doc()),
            section@,
            name@,
        ));
    }

    /// Drops a name from the document, and its section if that leaves it empty.
    fn forget(&mut self, section: &str, name: &str)
        requires
            old(self).wf(),
        ensures
            final(self).rules() == old(self).rules(),
            final(self).values() == old(self).values().remove((section@, name@)),
            sections_after(
                doc_sections(old(self).doc()),
                doc_headers(old(self).doc()),
                doc_sections(final(self).doc()),
                doc_headers(final(self).doc()),
                final(self).values(),
                section@,
                true,
            ),
            rest_kept(old(self).doc(), final(self).doc(), section@, name@, true),
            notes_are_plain(doc_notes(final(self).doc())),
    {
        let ghost before = self.values();
        if !has_section(&self.document, section) {
            assert(!before.contains_key((section@, name@)));
            assert(before.remove((section@, name@)) =~= before);
            return;
        }
        self.forget_in_section(section, name);
    }

    fn forget_in_section(&mut self, section: &str, name: &str)
        requires
            doc_sections(old(self).doc()).contains(section@),
            names_in_sections(
                old(self).values(),
                doc_sections(old(self).doc()),
                doc_headers(old(self).doc()),
            ),
            notes_are_plain(doc_notes(old(self).doc())),
        ensures
            final(self).rules() == old(self).rules(),
            final(self).values() == old(self).values().remove((section@, name@)),
            sections_after(
                doc_sections(old(self).doc()),
                doc_headers(old(self).doc()),
                doc_sections(final(self).doc()),
                doc_headers(final(self).doc()),
                final(self).values(),
                section@,
                true,
            ),
            rest_kept(old(self).doc(), final(self).doc(), section@, name@, true),
            notes_are_plain(doc_notes(final(self).doc())),
    {
        remove_value(&mut self.document, section, name);
        if has_header(&self.document, section) && section_is_empty(&self.document, section) {
            let prefix = header_prefix(&self.document, section);
            let suffix = header_suffix(&self.document, section);
            // Drop a section left empty, unless the user commented on it.
            if !has_comment(prefix, suffix) {
                let ghost before = self.values();
                remove_section(&mut self.document, section);
                assert forall|key: (Seq<char>, Seq<char>)| before.contains_key(key) implies key.0
                    != section@ by {
                    assert(before.contains_key((key.0, key.1)));
                }
                assert(without_section(before, section@) =~= before);
            }
        }
        proof {
            assert(doc_top(self.doc()).remove(section@) =~= doc_top(old(self).doc()).remove(
                section@,
            ));
            assert(doc_orders(self.doc()).remove(section@) =~= doc_orders(old(self).doc()).remove(
                section@,
            ));
            assert forall|other: (Seq<char>, Seq<char>)|
                #![trigger doc_values(old(self).doc()).contains_key(other)]
                doc_values(old(self).doc()).contains_key(other) && other != (
                    section@,
                    name@,
                ) implies self.values().contains_key(other) by {}
        }
    }
}

/// True when what a marked option selects is marked.
pub open spec fn closed_under_select(rules: SchemaModel, on: Seq<bool>) -> bool {
    forall|i: int, j: int|
        #![trigger rules.options[i], rules.options[j]]
        0 <= i < on.len() && 0 <= j < on.len() && on[i] && rules.options[i].select.contains(
            rules.options[j].key,
        ) ==> on[j]
}

/// How many of the first `n` are not marked.
pub open spec fn marks_left(on: Seq<bool>, n: int) -> nat
    decreases n,
{
    if n <= 0 {
        0
    } else if on[n - 1] {
        marks_left(on, n - 1)
    } else {
        marks_left(on, n - 1) + 1
    }
}

proof fn one_mark_less(on: Seq<bool>, j: int, n: int)
    requires
        0 <= j < on.len(),
        0 <= n <= on.len(),
        !on[j],
    ensures
        j < n ==> marks_left(on.update(j, true), n) + 1 == marks_left(on, n),
        n <= j ==> marks_left(on.update(j, true), n) == marks_left(on, n),
    decreases n,
{
    if n > 0 {
        one_mark_less(on, j, n - 1);
    }
}

proof fn marks_reach(rules: SchemaModel, values: Values, on: Seq<bool>, k: int, n: nat)
    requires
        on.len() == rules.options.len(),
        0 <= k < on.len(),
        closed_under_select(rules, on),
        forall|j: int|
            0 <= j < on.len() && stored_value(rules, values, (#[trigger] rules.options[j]).key)
                == Some(Setting::Bool(true)) ==> on[j],
        on_within(rules, values, rules.options[k].key, n),
    ensures
        on[k],
    decreases n,
{
    let key = rules.options[k].key;
    if stored_value(rules, values, key) != Some(Setting::Bool(true)) {
        let i = choose|i: int|
            0 <= i < rules.options.len() && (#[trigger] rules.options[i]).select.contains(key)
                && on_within(rules, values, rules.options[i].key, (n - 1) as nat);
        marks_reach(rules, values, on, i, (n - 1) as nat);
    }
}

/// The views of a list of changes.
pub open spec fn change_views(changes: Seq<Change>) -> Seq<(Seq<char>, Apply)> {
    changes.map_values(|change: Change| change@)
}

/// The options among the first `n` whose effective value differs, in schema order.
pub open spec fn changed(
    rules: SchemaModel,
    values: Values,
    old_rules: SchemaModel,
    old_values: Values,
    n: int,
) -> Seq<(Seq<char>, Apply)>
    decreases n,
{
    if n <= 0 {
        seq![]
    } else {
        let before = changed(rules, values, old_rules, old_values, n - 1);
        let option = rules.options[n - 1];
        if effective_value(rules, values, option.key) != effective_value(
            old_rules,
            old_values,
            option.key,
        ) {
            before.push((option.key, option.apply))
        } else {
            before
        }
    }
}

/// The value that a typed text stands for.
pub open spec fn typed_value(sort: Sort, text: Seq<char>) -> Result<Setting, Seq<char>> {
    let word = trim(text);
    match sort {
        Sort::Bool => if word == "true"@ || word == "y"@ || word == "yes"@ || word == "on"@ {
            Ok(Setting::Bool(true))
        } else if word == "false"@ || word == "n"@ || word == "no"@ || word == "off"@ {
            Ok(Setting::Bool(false))
        } else {
            Err("expected y or n"@)
        },
        Sort::Int { .. } => match integer_value(word) {
            Some(n) => if i64::MIN <= n <= i64::MAX {
                Ok(Setting::Int(n))
            } else {
                Err("expected a whole number"@)
            },
            None => Err("expected a whole number"@),
        },
        _ => Ok(Setting::Text(text)),
    }
}

/// Reads a value typed by the user.
pub fn read_typed(kind: &Kind, text: &str) -> (r: Result<Value, String>)
    ensures
        match r {
            Ok(value) => typed_value(kind@, text@) == Ok::<Setting, Seq<char>>(value@),
            Err(reason) => typed_value(kind@, text@) == Err::<Setting, Seq<char>>(reason@),
        },
{
    let chars = chars_of(text);
    let word = trimmed(&chars);
    match kind {
        Kind::Bool => {
            if spells(&word, "true") || spells(&word, "y") || spells(&word, "yes") || spells(
                &word,
                "on",
            ) {
                Ok(Value::Bool(true))
            } else if spells(&word, "false") || spells(&word, "n") || spells(&word, "no") || spells(
                &word,
                "off",
            ) {
                Ok(Value::Bool(false))
            } else {
                Err(copied("expected y or n"))
            }
        },
        Kind::Int { .. } => match parse_integer(&word) {
            Some(n) => Ok(Value::Int(n)),
            None => Err(copied("expected a whole number")),
        },
        _ => Ok(Value::Text(copied(text))),
    }
}

/// True when the sections changed as a write asks for. A value that is written down makes its
/// section where it is missing. A default that is dropped takes a section with it that has a
/// header, no comment, and nothing left; no other section changes.
pub open spec fn sections_after(
    sections: Sections,
    headers: Headers,
    new_sections: Sections,
    new_headers: Headers,
    new_values: Values,
    section: Seq<char>,
    dropped: bool,
) -> bool {
    if !dropped {
        &&& new_sections == sections.insert(section)
        &&& new_headers == (if sections.contains(section) {
            headers
        } else {
            headers.insert(section, (None, None))
        })
    } else if sections.contains(section) && headers.contains_key(section) && !has_comment_text(
        headers[section],
    ) && (forall|name: Seq<char>| !(#[trigger] new_values.contains_key((section, name)))) {
        &&& new_sections == sections.remove(section)
        &&& new_headers == headers.remove(section)
    } else {
        &&& new_sections == sections
        &&& new_headers == headers
    }
}

proof fn unrefused_is_accepted(
    rules: SchemaModel,
    values: Values,
    spellings: Spellings,
    from: int,
)
    requires
        0 <= from,
        first_refusal(rules, values, spellings, from) is None,
    ensures
        forall|i: int|
            from <= i < rules.options.len() ==> accepted(#[trigger] rules.options[i], values),
    decreases rules.options.len() - from,
{
    if from < rules.options.len() {
        unrefused_is_accepted(rules, values, spellings, from + 1);
    }
}

proof fn accepted_is_unrefused(
    rules: SchemaModel,
    values: Values,
    spellings: Spellings,
    from: int,
)
    requires
        0 <= from,
        all_accepted(rules, values),
    ensures
        first_refusal(rules, values, spellings, from) is None,
    decreases rules.options.len() - from,
{
    if from < rules.options.len() {
        assert(accepted(rules.options[from], values));
        accepted_is_unrefused(rules, values, spellings, from + 1);
    }
}

proof fn halves_join(key: Seq<char>)
    requires
        cut(key, '.') is Some,
    ensures
        key == halves(key).0 + seq!['.'] + halves(key).1,
{
    let j = crate::text::first_at(key, '.', 0);
    first_at_is_first(key, '.', 0);
    assert(key =~= key.take(j) + seq!['.'] + key.skip(j + 1));
}

proof fn option_keys_have_halves(key: Seq<char>)
    requires
        is_option_key(key),
    ensures
        cut(key, '.') is Some,
{
    first_at_is_first(key, '.', 0);
}

/// Two options never share a place in the file.
pub proof fn keys_have_their_own_place(a: Seq<char>, b: Seq<char>)
    requires
        is_option_key(a),
        is_option_key(b),
        halves(a) == halves(b),
    ensures
        a == b,
{
    option_keys_have_halves(a);
    option_keys_have_halves(b);
    halves_join(a);
    halves_join(b);
}

proof fn found_option(rules: SchemaModel, key: Seq<char>, from: int)
    requires
        0 <= from,
        option_place(rules.options, key, from) is Some,
    ensures
        from <= option_place(rules.options, key, from)->0 < rules.options.len(),
        rules.options[option_place(rules.options, key, from)->0].key == key,
    decreases rules.options.len() - from,
{
    if from < rules.options.len() && rules.options[from].key != key {
        found_option(rules, key, from + 1);
    }
}

proof fn set_keeps_accepted(
    rules: SchemaModel,
    values: Values,
    sections: Sections,
    key: Seq<char>,
    value: Setting,
)
    requires
        rules.sound(),
        all_accepted(rules, values),
        rules.option(key) is Some,
        complaint(rules.option(key)->0.kind, value) is None,
    ensures
        all_accepted(
            rules,
            values_after(values, sections, key, value, rules.option(key)->0.default),
        ),
{
    found_option(rules, key, 0);
    let place = option_place(rules.options, key, 0)->0;
    let option = rules.options[place];
    let after = values_after(values, sections, key, value, option.default);
    assert forall|i: int| 0 <= i < rules.options.len() implies accepted(
        #[trigger] rules.options[i],
        after,
    ) by {
        let other = rules.options[i];
        assert(crate::config::schema::sound_option(other));
        assert(crate::config::schema::sound_option(option));
        assert(accepted(other, values));
        if i != place {
            if halves(other.key) == halves(key) {
                keys_have_their_own_place(other.key, key);
                assert(rules.options[i].key != rules.options[place].key);
            }
        }
    }
}

/// A setting that was accepted reads back: right after a successful change the stored value is
/// the one that was given, whether or not it is the default.
pub proof fn what_is_set_is_stored(
    rules: SchemaModel,
    values: Values,
    sections: Sections,
    key: Seq<char>,
    value: Setting,
)
    requires
        rules.option(key) is Some,
        complaint(rules.option(key)->0.kind, value) is None,
    ensures
        stored_value(
            rules,
            values_after(values, sections, key, value, rules.option(key)->0.default),
            key,
        ) == Some(value),
{
}

/// Changing one setting leaves the stored value of every other as it was.
pub proof fn other_settings_stay(
    rules: SchemaModel,
    values: Values,
    sections: Sections,
    headers: Headers,
    key: Seq<char>,
    value: Setting,
    other: Seq<char>,
)
    requires
        rules.sound(),
        names_in_sections(values, sections, headers),
        rules.option(key) is Some,
        other != key,
    ensures
        stored_value(
            rules,
            values_after(values, sections, key, value, rules.option(key)->0.default),
            other,
        ) == stored_value(rules, values, other),
{
    if rules.option(other) is Some {
        found_option(rules, key, 0);
        found_option(rules, other, 0);
        let i = option_place(rules.options, key, 0)->0;
        let j = option_place(rules.options, other, 0)->0;
        assert(crate::config::schema::sound_option(rules.options[i]));
        assert(crate::config::schema::sound_option(rules.options[j]));
        if halves(other) == halves(key) {
            keys_have_their_own_place(other, key);
        }
        assert(values.contains_key(halves(other)) ==> sections.contains(halves(other).0));
    }
}

/// Changing one setting and saving keeps the user's comments: what was written above a name or
/// behind its value is read back from the saved text, unless the name itself went because its
/// default was set.
pub proof fn comments_survive_a_change(
    before: DocumentMut,
    after: DocumentMut,
    saved: Contents,
    key: Seq<char>,
    value: Setting,
    default: Setting,
    place: (Seq<char>, Seq<char>),
)
    requires
        changed_to(before, after, key, value, default),
        comments_kept(doc_notes(after), saved.5),
        doc_values(before).contains_key(place),
        doc_notes(before).contains_key(place),
        place != halves(key) || value != default,
    ensures
        is_comment(doc_notes(before)[place].0) ==> saved.5.contains_key(place)
            && saved.5[place].0 == doc_notes(before)[place].0,
        is_comment(doc_notes(before)[place].2) ==> saved.5.contains_key(place)
            && saved.5[place].2 == doc_notes(before)[place].2,
{
    assert(doc_notes(after).contains_key(place));
}

/// Changing one setting and saving keeps every key, known to the schema or not: what stood under
/// another name, or at the top level beside the section, is read back from the saved text.
pub proof fn other_keys_survive_a_change(
    before: DocumentMut,
    after: DocumentMut,
    saved: Contents,
    key: Seq<char>,
    value: Setting,
    default: Setting,
    place: (Seq<char>, Seq<char>),
    top: Seq<char>,
)
    requires
        names_in_sections(doc_values(before), doc_sections(before), doc_headers(before)),
        changed_to(before, after, key, value, default),
        saved.0 == doc_values(after),
        top_kept(doc_top(after), saved.2),
    ensures
        doc_values(before).contains_key(place) && place != halves(key) ==> saved.0.contains_key(
            place,
        ) && saved.0[place] == doc_values(before)[place],
        doc_top(before).contains_key(top) && doc_top(before)[top] is Some && top != halves(key).0
            ==> saved.2.contains_key(top) && saved.2[top] == doc_top(before)[top],
{
    let section = halves(key).0;
    if doc_values(before).contains_key(place) {
        assert(doc_sections(before).contains(place.0));
    }
    if doc_top(before).contains_key(top) && top != section {
        assert(doc_top(after).remove(section).contains_key(top));
        assert(doc_top(after).remove(section)[top] == doc_top(after)[top]);
        assert(doc_top(before).remove(section)[top] == doc_top(before)[top]);
        assert(doc_top(after).contains_key(top));
    }
}

proof fn nothing_forces(rules: SchemaModel, values: Values, key: Seq<char>, from: int)
    requires
        0 <= from,
        forall|i: int|
            0 <= i < rules.options.len() ==> !(#[trigger] rules.options[i]).select.contains(key),
    ensures
        forcing(rules, values, key, from) is None,
    decreases rules.options.len() - from,
{
    if from < rules.options.len() {
        nothing_forces(rules, values, key, from + 1);
    }
}

/// An option that nothing is stored for, and that no other option selects, has its default.
pub proof fn nothing_set_means_the_default(rules: SchemaModel, values: Values, key: Seq<char>)
    requires
        rules.option(key) is Some,
        !values.contains_key(halves(key)),
        forall|i: int|
            0 <= i < rules.options.len() ==> !(#[trigger] rules.options[i]).select.contains(key),
    ensures
        effective_value(rules, values, key) == Some(rules.option(key)->0.default),
{
    nothing_forces(rules, values, key, 0);
}

/// An option is on when it is stored as on, or when one that is on selects it.
proof fn on_is_switched_on(rules: SchemaModel, values: Values, key: Seq<char>)
    ensures
        is_on(rules, values, key) == switched_on(rules, values, key),
{
    if switched_on(rules, values, key) && stored_value(rules, values, key) != Some(
        Setting::Bool(true),
    ) {
        let n = choose|n: nat| #[trigger] on_within(rules, values, key, n);
        let i = choose|i: int|
            0 <= i < rules.options.len() && (#[trigger] rules.options[i]).select.contains(key)
                && on_within(rules, values, rules.options[i].key, (n - 1) as nat);
        forcing_finds(rules, values, key, i, 0);
    }
    if stored_value(rules, values, key) == Some(Setting::Bool(true)) {
        assert(on_within(rules, values, key, 0));
    }
    if forcing(rules, values, key, 0) is Some {
        forcing_is_on(rules, values, key, 0);
        let i = forcing(rules, values, key, 0)->0;
        let by = rules.options[i].key;
        let n = choose|n: nat| #[trigger] on_within(rules, values, by, n);
        assert(on_within(rules, values, key, (n + 1) as nat));
    }
}

proof fn forcing_is_on(rules: SchemaModel, values: Values, key: Seq<char>, from: int)
    requires
        0 <= from,
    ensures
        forcing(rules, values, key, from) matches Some(i) ==> from <= i < rules.options.len()
            && rules.options[i].select.contains(key) && switched_on(
            rules,
            values,
            rules.options[i].key,
        ),
    decreases rules.options.len() - from,
{
    if from < rules.options.len() {
        forcing_is_on(rules, values, key, from + 1);
    }
}

/// An option that is on without being stored as on is selected by one that is on.
pub proof fn options_are_on_for_a_reason(rules: SchemaModel, values: Values, key: Seq<char>)
    requires
        is_on(rules, values, key),
        stored_value(rules, values, key) != Some(Setting::Bool(true)),
    ensures
        forcing(rules, values, key, 0) matches Some(i) && 0 <= i < rules.options.len()
            && rules.options[i].select.contains(key) && is_on(rules, values, rules.options[i].key),
{
    forcing_is_on(rules, values, key, 0);
    let i = forcing(rules, values, key, 0)->0;
    on_is_switched_on(rules, values, rules.options[i].key);
}

/// While an option that selects another is on, be it stored so or selected itself, the other is
/// on, whatever is stored for it.
pub proof fn selected_options_are_on(
    rules: SchemaModel,
    values: Values,
    selector: int,
    key: Seq<char>,
)
    requires
        0 <= selector < rules.options.len(),
        rules.options[selector].select.contains(key),
        is_on(rules, values, rules.options[selector].key),
    ensures
        is_on(rules, values, key),
{
    on_is_switched_on(rules, values, rules.options[selector].key);
    forcing_finds(rules, values, key, selector, 0);
}

proof fn forcing_finds(
    rules: SchemaModel,
    values: Values,
    key: Seq<char>,
    selector: int,
    from: int,
)
    requires
        0 <= from <= selector < rules.options.len(),
        rules.options[selector].select.contains(key),
        switched_on(rules, values, rules.options[selector].key),
    ensures
        forcing(rules, values, key, from) is Some,
    decreases rules.options.len() - from,
{
    if from < selector {
        forcing_finds(rules, values, key, selector, from + 1);
    }
}

/// The first option in the order of the schema whose value is of the wrong type or out of its
/// bounds is the one that is told; where there is none, nothing is.
pub proof fn the_first_wrong_value_is_told(
    rules: SchemaModel,
    values: Values,
    spellings: Spellings,
    from: int,
    k: int,
)
    requires
        0 <= from <= k <= rules.options.len(),
        forall|i: int| from <= i < k ==> accepted(#[trigger] rules.options[i], values),
    ensures
        k == rules.options.len() ==> first_refusal(rules, values, spellings, from) is None,
        k < rules.options.len() && !accepted(rules.options[k], values) ==> {
            &&& first_refusal(rules, values, spellings, from) is Some
            &&& (first_refusal(rules, values, spellings, from)->0).0 == rules.options[k].key
        },
    decreases k - from,
{
    if from < k {
        assert(accepted(rules.options[from], values));
        the_first_wrong_value_is_told(rules, values, spellings, from + 1, k);
    }
}

/// The changes tell of every option whose value is another now, in the order of the schema, with
/// when it takes effect, and of no other.
pub proof fn changes_tell_what_differs(
    rules: SchemaModel,
    values: Values,
    old_rules: SchemaModel,
    old_values: Values,
)
    ensures
        changed(rules, values, old_rules, old_values, rules.options.len() as int)
            == rules.options.filter(
            |option: OptionModel|
                effective_value(rules, values, option.key) != effective_value(
                    old_rules,
                    old_values,
                    option.key,
                ),
        ).map_values(|option: OptionModel| (option.key, option.apply)),
        changed(rules, values, rules, values, rules.options.len() as int).len() == 0,
{
    changed_so_far(rules, values, old_rules, old_values, rules.options.len() as int);
    assert(rules.options.take(rules.options.len() as int) =~= rules.options);
    nothing_changed(rules, values, rules.options.len() as int);
}

proof fn nothing_changed(rules: SchemaModel, values: Values, n: int)
    requires
        0 <= n <= rules.options.len(),
    ensures
        changed(rules, values, rules, values, n).len() == 0,
    decreases n,
{
    if n > 0 {
        nothing_changed(rules, values, n - 1);
    }
}

proof fn changed_so_far(
    rules: SchemaModel,
    values: Values,
    old_rules: SchemaModel,
    old_values: Values,
    n: int,
)
    requires
        0 <= n <= rules.options.len(),
    ensures
        changed(rules, values, old_rules, old_values, n) == rules.options.take(n).filter(
            |option: OptionModel|
                effective_value(rules, values, option.key) != effective_value(
                    old_rules,
                    old_values,
                    option.key,
                ),
        ).map_values(|option: OptionModel| (option.key, option.apply)),
    decreases n,
{
    reveal(Seq::filter);
    let kept = |option: OptionModel|
        effective_value(rules, values, option.key) != effective_value(
            old_rules,
            old_values,
            option.key,
        );
    let told = |option: OptionModel| (option.key, option.apply);
    if n > 0 {
        changed_so_far(rules, values, old_rules, old_values, n - 1);
        assert(rules.options.take(n).drop_last() =~= rules.options.take(n - 1));
        assert(rules.options.take(n).last() == rules.options[n - 1]);
        let before = rules.options.take(n - 1).filter(kept);
        assert(before.push(rules.options[n - 1]).map_values(told) =~= before.map_values(told).push(
            told(rules.options[n - 1]),
        ));
    } else {
        assert(rules.options.take(0).filter(kept).map_values(told) =~= Seq::empty());
    }
}

/// Typed answers are read for what they say: yes or no in each of the four ways to say it, and
/// numbers in decimal, with spaces round them or not. Text is taken as it was typed.
pub proof fn answers_are_read_for_what_they_say(
    text: Seq<char>,
    number: i64,
    min: int,
    max: int,
    sort: Sort,
)
    ensures
        ({
            let word = trim(text);
            let yes = word == "y"@ || word == "yes"@ || word == "on"@ || word == "true"@;
            let no = word == "n"@ || word == "no"@ || word == "off"@ || word == "false"@;
            &&& typed_value(Sort::Bool, text) == Ok::<Setting, Seq<char>>(Setting::Bool(true))
                <==> yes
            &&& typed_value(Sort::Bool, text) == Ok::<Setting, Seq<char>>(Setting::Bool(false))
                <==> no
            &&& typed_value(Sort::Bool, text) is Err <==> !yes && !no
            &&& word == crate::text::decimal_int(number as int) ==> typed_value(
                Sort::Int { min, max },
                text,
            ) == Ok::<Setting, Seq<char>>(Setting::Int(number as int))
            &&& sort is Text || sort is Choice ==> typed_value(sort, text) == Ok::<
                Setting,
                Seq<char>,
            >(Setting::Text(text))
        }),
{
    reveal_strlit("true");
    reveal_strlit("y");
    reveal_strlit("yes");
    reveal_strlit("on");
    reveal_strlit("false");
    reveal_strlit("n");
    reveal_strlit("no");
    reveal_strlit("off");
    assert("y"@[0] != "n"@[0] && "yes"@[0] != "off"@[0] && "on"@[0] != "no"@[0]);
    assert("yes"@.len() == 3 && "off"@.len() == 3 && "on"@.len() == 2 && "no"@.len() == 2);
    assert("y"@.len() == 1 && "n"@.len() == 1 && "true"@.len() == 4 && "false"@.len() == 5);
    integer_reads_back(number as int);
}

proof fn integer_reads_back(n: int)
    ensures
        integer_value(crate::text::decimal_int(n)) == Some(n),
{
    crate::text::decimal_reads_back(
        if n < 0 {
            -n
        } else {
            n
        } as nat,
    );
    let s = crate::text::decimal_int(n);
    if n < 0 {
        assert(s.skip(1) =~= crate::text::decimal((-n) as nat));
    } else {
        assert(crate::text::is_digit(s[0]));
    }
}

/// An option that others depend on is shown whenever nothing is asked of it, and otherwise as
/// long as what is asked of it holds.
pub proof fn options_show_when_their_condition_holds(
    rules: SchemaModel,
    values: Values,
    formula: Formula,
    on: spec_fn(Seq<char>) -> bool,
)
    requires
        forall|key: Seq<char>|
            formula.keys().contains(key) ==> #[trigger] on(key) == (effective_value(
                rules,
                values,
                key,
            ) == Some(Setting::Bool(true))),
    ensures
        satisfied(rules, values, None),
        satisfied(rules, values, Some(formula)) <==> formula.truth(on),
{
    let is = |key: Seq<char>| is_on(rules, values, key);
    assert forall|key: Seq<char>| formula.keys().contains(key) implies on(key) == #[trigger] is(
        key,
    ) by {
        assert(on(key) == (effective_value(rules, values, key) == Some(Setting::Bool(true))));
    }
    crate::config::expr::only_the_keys_matter(formula, on, is);
}

/// A setting at its default is not written down, and any other is, in the section and under the
/// name that its key is made of.
pub proof fn defaults_are_not_written(
    values: Values,
    sections: Sections,
    section: Seq<char>,
    name: Seq<char>,
    value: Setting,
    default: Setting,
)
    requires
        !section.contains('.'),
    ensures
        ({
            let key = section.push('.') + name;
            let after = values_after(values, sections, key, value, default);
            &&& value == default ==> !after.contains_key((section, name))
            &&& value != default ==> after.contains_key((section, name)) && after[(section, name)]
                == Some(value)
        }),
{
    let key = section.push('.') + name;
    first_at_is_first(key, '.', 0);
    let j = crate::text::first_at(key, '.', 0);
    assert(key[section.len() as int] == '.');
    if j < section.len() {
        assert(section[j] == key[j]);
    }
    assert(key.take(j) =~= section);
    assert(key.skip(j + 1) =~= name);
}

/// A section goes only with its last value, and only if nobody wrote a comment on it.
pub proof fn sections_with_comments_stay(
    sections: Sections,
    headers: Headers,
    new_sections: Sections,
    new_headers: Headers,
    new_values: Values,
    section: Seq<char>,
    dropped: bool,
    other: Seq<char>,
    name: Seq<char>,
)
    requires
        sections_after(
            sections,
            headers,
            new_sections,
            new_headers,
            new_values,
            section,
            dropped,
        ),
        sections.contains(other),
    ensures
        other != section ==> new_sections.contains(other),
        !dropped ==> new_sections.contains(other),
        new_values.contains_key((section, name)) ==> new_sections.contains(other),
        headers.contains_key(section) && (headers[section].0 matches Some(text) && text.contains(
            '#',
        )) ==> new_sections.contains(other),
        headers.contains_key(section) && (headers[section].1 matches Some(text) && text.contains(
            '#',
        )) ==> new_sections.contains(other),
{
}

} // verus!
