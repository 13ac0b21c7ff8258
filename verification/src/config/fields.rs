//! The items of a schema file as lists of named fields, before they are read.

use crate::config::schema::{
    item_views, reports, schema_of, Apply, ItemModel, Pattern, Problem, RawDefault, RawItem,
    Schema, SchemaError, SchemaModel, Setting,
};
use crate::text::{concat3, copied, copied_all, opt_view, same, views};
use vstd::prelude::*;

verus! {

/// The value of a field, by its type.
#[derive(Debug, PartialEq, Eq)]
pub enum FieldValue {
    Bool(bool),
    Int(i64),
    Text(String),
    /// A list of texts.
    List(Vec<String>),
    /// A value of any other type, which no field takes.
    Other,
}

/// What the value of a field is.
pub enum FieldModel {
    Bool(bool),
    Int(i64),
    Text(Seq<char>),
    List(Seq<Seq<char>>),
    Other,
}

impl View for FieldValue {
    type V = FieldModel;

    open spec fn view(&self) -> FieldModel {
        match self {
            FieldValue::Bool(value) => FieldModel::Bool(*value),
            FieldValue::Int(value) => FieldModel::Int(*value),
            FieldValue::Text(value) => FieldModel::Text(value@),
            FieldValue::List(values) => FieldModel::List(views(values@)),
            FieldValue::Other => FieldModel::Other,
        }
    }
}

/// One field of an item.
#[derive(Debug, PartialEq, Eq)]
pub struct Field {
    pub name: String,
    pub value: FieldValue,
}

impl View for Field {
    type V = (Seq<char>, FieldModel);

    open spec fn view(&self) -> (Seq<char>, FieldModel) {
        (self.name@, self.value@)
    }
}

pub open spec fn field_views(fields: Seq<Field>) -> Seq<(Seq<char>, FieldModel)> {
    fields.map_values(|field: Field| field@)
}

/// True for the fields that hold a text of any kind.
pub open spec fn holds_text(name: Seq<char>) -> bool {
    name == "kind"@ || name == "id"@ || name == "key"@ || name == "parent"@ || name == "prompt"@
        || name == "help"@ || name == "depends_on"@
}

/// True for the fields that an item can have.
pub open spec fn is_field(name: Seq<char>) -> bool {
    holds_text(name) || name == "default"@ || name == "apply"@ || name == "min"@ || name == "max"@
        || name == "choices"@ || name == "select"@ || name == "pattern"@
}

/// True when a field takes a value.
pub open spec fn takes(name: Seq<char>, value: FieldModel) -> bool {
    if holds_text(name) {
        value is Text
    } else if name == "default"@ {
        value is Bool || value is Int || value is Text
    } else if name == "min"@ || name == "max"@ {
        value is Int
    } else if name == "choices"@ || name == "select"@ {
        value is List
    } else if name == "apply"@ {
        value == FieldModel::Text("live"@) || value == FieldModel::Text("restart"@)
    } else {
        name == "pattern"@ && value == FieldModel::Text("binding"@)
    }
}

/// What is wrong with the fields `fields[from..]`, if anything is.
pub open spec fn wrong_field(fields: Seq<(Seq<char>, FieldModel)>, from: int) -> Option<Seq<char>>
    decreases fields.len() - from,
{
    if from < 0 || from >= fields.len() {
        None
    } else if !is_field(fields[from].0) {
        Some("unknown field `"@ + fields[from].0 + "`"@)
    } else if !takes(fields[from].0, fields[from].1) {
        Some("field `"@ + fields[from].0 + "` does not take this value"@)
    } else {
        wrong_field(fields, from + 1)
    }
}

/// The value of the first of `fields[from..]` that has a name.
pub open spec fn value_of(
    fields: Seq<(Seq<char>, FieldModel)>,
    name: Seq<char>,
    from: int,
) -> Option<FieldModel>
    decreases fields.len() - from,
{
    if from < 0 || from >= fields.len() {
        None
    } else if fields[from].0 == name {
        Some(fields[from].1)
    } else {
        value_of(fields, name, from + 1)
    }
}

/// What is wrong with an item, if anything is: its first field that is unknown or has a value
/// that it does not take, else a field that every item has and this one lacks.
pub open spec fn item_fault(fields: Seq<(Seq<char>, FieldModel)>) -> Option<Seq<char>> {
    match wrong_field(fields, 0) {
        Some(fault) => Some(fault),
        None => if value_of(fields, "kind"@, 0) is None {
            Some("missing field `kind`"@)
        } else if value_of(fields, "prompt"@, 0) is None {
            Some("missing field `prompt`"@)
        } else {
            None
        },
    }
}

/// The text that a field holds.
pub open spec fn text_in_field(fields: Seq<(Seq<char>, FieldModel)>, name: Seq<char>) -> Option<
    Seq<char>,
> {
    match value_of(fields, name, 0) {
        Some(FieldModel::Text(text)) => Some(text),
        _ => None,
    }
}

/// The number that a field holds.
pub open spec fn number_in_field(fields: Seq<(Seq<char>, FieldModel)>, name: Seq<char>) -> Option<
    i64,
> {
    match value_of(fields, name, 0) {
        Some(FieldModel::Int(value)) => Some(value),
        _ => None,
    }
}

/// The list that a field holds.
pub open spec fn list_in_field(fields: Seq<(Seq<char>, FieldModel)>, name: Seq<char>) -> Option<
    Seq<Seq<char>>,
> {
    match value_of(fields, name, 0) {
        Some(FieldModel::List(values)) => Some(values),
        _ => None,
    }
}

/// What an item says, if nothing is wrong with it.
pub open spec fn item_of(fields: Seq<(Seq<char>, FieldModel)>) -> ItemModel {
    ItemModel {
        kind: text_in_field(fields, "kind"@)->0,
        id: text_in_field(fields, "id"@),
        key: text_in_field(fields, "key"@),
        parent: text_in_field(fields, "parent"@),
        prompt: text_in_field(fields, "prompt"@)->0,
        help: match text_in_field(fields, "help"@) {
            Some(help) => help,
            None => Seq::empty(),
        },
        default: match value_of(fields, "default"@, 0) {
            Some(FieldModel::Bool(value)) => Some(Setting::Bool(value)),
            Some(FieldModel::Int(value)) => Some(Setting::Int(value as int)),
            Some(FieldModel::Text(value)) => Some(Setting::Text(value)),
            _ => None,
        },
        apply: match text_in_field(fields, "apply"@) {
            Some(text) => Some(
                if text == "live"@ {
                    Apply::Live
                } else {
                    Apply::Restart
                },
            ),
            None => None,
        },
        min: number_in_field(fields, "min"@),
        max: number_in_field(fields, "max"@),
        choices: list_in_field(fields, "choices"@),
        pattern: match value_of(fields, "pattern"@, 0) {
            Some(_) => Some(Pattern::Binding),
            None => None,
        },
        depends_on: text_in_field(fields, "depends_on"@),
        select: match list_in_field(fields, "select"@) {
            Some(keys) => keys,
            None => Seq::empty(),
        },
    }
}

fn holds_any_text(name: &str) -> (r: bool)
    ensures
        r == holds_text(name@),
{
    same(name, "kind") || same(name, "id") || same(name, "key") || same(name, "parent") || same(
        name,
        "prompt",
    ) || same(name, "help") || same(name, "depends_on")
}

fn is_known(name: &str) -> (r: bool)
    ensures
        r == is_field(name@),
{
    holds_any_text(name) || same(name, "default") || same(name, "apply") || same(name, "min")
        || same(name, "max") || same(name, "choices") || same(name, "select") || same(
        name,
        "pattern",
    )
}

impl Field {
    /// Tells whether the field takes its value.
    fn fits(&self) -> (r: bool)
        ensures
            r == takes(self.name@, self.value@),
    {
        let name = self.name.as_str();
        if holds_any_text(name) {
            return matches!(self.value, FieldValue::Text(_));
        }
        if same(name, "default") {
            return matches!(self.value, FieldValue::Bool(_)) || matches!(self.value, FieldValue::Int(_))
                || matches!(self.value, FieldValue::Text(_));
        }
        if same(name, "min") || same(name, "max") {
            return matches!(self.value, FieldValue::Int(_));
        }
        if same(name, "choices") || same(name, "select") {
            return matches!(self.value, FieldValue::List(_));
        }
        match &self.value {
            FieldValue::Text(text) => if same(name, "apply") {
                same(text.as_str(), "live") || same(text.as_str(), "restart")
            } else {
                same(name, "pattern") && same(text.as_str(), "binding")
            },
            _ => false,
        }
    }
}

fn find<'a>(fields: &'a Vec<Field>, name: &str) -> (r: Option<&'a FieldValue>)
    ensures
        (match r {
            Some(value) => Some(value@),
            None => None,
        }) == value_of(field_views(fields@), name@, 0),
{
    let ghost all = field_views(fields@);
    let mut i: usize = 0;
    while i < fields.len()
        invariant
            i <= fields@.len(),
            all == field_views(fields@),
            value_of(all, name@, 0) == value_of(all, name@, i as int),
        decreases fields@.len() - i,
    {
        assert(all[i as int] == fields@[i as int]@);
        if same(fields[i].name.as_str(), name) {
            return Some(&fields[i].value);
        }
        i = i + 1;
    }
    None
}

fn find_text(fields: &Vec<Field>, name: &str) -> (r: Option<String>)
    ensures
        opt_view(r) == text_in_field(field_views(fields@), name@),
{
    match find(fields, name) {
        Some(FieldValue::Text(text)) => Some(copied(text.as_str())),
        _ => None,
    }
}

fn find_number(fields: &Vec<Field>, name: &str) -> (r: Option<i64>)
    ensures
        r == number_in_field(field_views(fields@), name@),
{
    match find(fields, name) {
        Some(FieldValue::Int(value)) => Some(*value),
        _ => None,
    }
}

fn find_list(fields: &Vec<Field>, name: &str) -> (r: Option<Vec<String>>)
    ensures
        (match r {
            Some(values) => Some(views(values@)),
            None => None,
        }) == list_in_field(field_views(fields@), name@),
{
    match find(fields, name) {
        Some(FieldValue::List(values)) => Some(copied_all(values)),
        _ => None,
    }
}

fn find_fault(fields: &Vec<Field>) -> (r: Option<String>)
    ensures
        opt_view(r) == item_fault(field_views(fields@)),
{
    let ghost all = field_views(fields@);
    let mut i: usize = 0;
    while i < fields.len()
        invariant
            i <= fields@.len(),
            all == field_views(fields@),
            wrong_field(all, 0) == wrong_field(all, i as int),
        decreases fields@.len() - i,
    {
        assert(all[i as int] == fields@[i as int]@);
        let field = &fields[i];
        if !is_known(field.name.as_str()) {
            return Some(concat3("unknown field `", field.name.as_str(), "`"));
        }
        if !field.fits() {
            return Some(concat3("field `", field.name.as_str(), "` does not take this value"));
        }
        i = i + 1;
    }
    if find(fields, "kind").is_none() {
        return Some(copied("missing field `kind`"));
    }
    if find(fields, "prompt").is_none() {
        return Some(copied("missing field `prompt`"));
    }
    None
}

/// A field that was found has a value that it takes, if no field is wrong.
proof fn values_fit(fields: Seq<(Seq<char>, FieldModel)>, name: Seq<char>, from: int)
    requires
        0 <= from,
        wrong_field(fields, from) is None,
    ensures
        value_of(fields, name, from) matches Some(value) ==> takes(name, value),
    decreases fields.len() - from,
{
    if from < fields.len() {
        values_fit(fields, name, from + 1);
    }
}

/// Reads one item.
pub fn read_item(fields: &Vec<Field>) -> (r: Result<RawItem, String>)
    ensures
        match item_fault(field_views(fields@)) {
            Some(fault) => r matches Err(why) && why@ == fault,
            None => r matches Ok(item) && item@ == item_of(field_views(fields@)),
        },
{
    let ghost all = field_views(fields@);
    if let Some(fault) = find_fault(fields) {
        return Err(fault);
    }
    proof {
        values_fit(all, "kind"@, 0);
        values_fit(all, "prompt"@, 0);
        values_fit(all, "apply"@, 0);
        values_fit(all, "pattern"@, 0);
    }
    let kind = match find_text(fields, "kind") {
        Some(kind) => kind,
        None => String::new(),
    };
    let prompt = match find_text(fields, "prompt") {
        Some(prompt) => prompt,
        None => String::new(),
    };
    let help = match find_text(fields, "help") {
        Some(help) => help,
        None => String::new(),
    };
    let default = match find(fields, "default") {
        Some(FieldValue::Bool(value)) => Some(RawDefault::Bool(*value)),
        Some(FieldValue::Int(value)) => Some(RawDefault::Int(*value)),
        Some(FieldValue::Text(value)) => Some(RawDefault::Text(copied(value.as_str()))),
        _ => None,
    };
    let apply = match find_text(fields, "apply") {
        Some(text) => Some(
            if same(text.as_str(), "live") {
                Apply::Live
            } else {
                Apply::Restart
            },
        ),
        None => None,
    };
    let pattern = match find(fields, "pattern") {
        Some(_) => Some(Pattern::Binding),
        None => None,
    };
    let select = match find_list(fields, "select") {
        Some(keys) => keys,
        None => Vec::new(),
    };
    let item = RawItem {
        kind,
        id: find_text(fields, "id"),
        key: find_text(fields, "key"),
        parent: find_text(fields, "parent"),
        prompt,
        help,
        default,
        apply,
        min: find_number(fields, "min"),
        max: find_number(fields, "max"),
        choices: find_list(fields, "choices"),
        pattern,
        depends_on: find_text(fields, "depends_on"),
        select,
    };
    proof {
        assert(item@.help =~= item_of(all).help);
        assert(item@.select =~= item_of(all).select);
        assert(item@ == item_of(all));
    }
    Ok(item)
}

/// The fields of every item.
pub open spec fn listed_fields(items: Seq<Vec<Field>>) -> Seq<Seq<(Seq<char>, FieldModel)>> {
    items.map_values(|fields: Vec<Field>| field_views(fields@))
}

/// What is wrong with the first of `items[from..]` that cannot be read.
pub open spec fn first_fault(items: Seq<Seq<(Seq<char>, FieldModel)>>, from: int) -> Option<
    Seq<char>,
>
    decreases items.len() - from,
{
    if from < 0 || from >= items.len() {
        None
    } else {
        match item_fault(items[from]) {
            Some(fault) => Some(fault),
            None => first_fault(items, from + 1),
        }
    }
}

/// What every item says, if nothing is wrong with any.
pub open spec fn items_of(items: Seq<Seq<(Seq<char>, FieldModel)>>) -> Seq<ItemModel> {
    items.map_values(|fields: Seq<(Seq<char>, FieldModel)>| item_of(fields))
}

impl Schema {
    /// Reads and validates a schema, given the fields of its items.
    pub fn parse(items: &Vec<Vec<Field>>) -> (r: Result<Self, SchemaError>)
        ensures
            match first_fault(listed_fields(items@), 0) {
                Some(fault) => r matches Err(SchemaError::Parse(why)) && why@ == fault,
                None => match r {
                    Ok(schema) => schema_of(items_of(listed_fields(items@))) == Ok::<
                        SchemaModel,
                        Problem,
                    >(schema@) && schema@.sound() && schema@.closed_under_references(),
                    Err(err) => schema_of(items_of(listed_fields(items@))) is Err && reports(
                        err,
                        schema_of(items_of(listed_fields(items@)))->Err_0,
                    ),
                },
            },
    {
        let ghost all = listed_fields(items@);
        let mut read: Vec<RawItem> = Vec::new();
        let mut i: usize = 0;
        while i < items.len()
            invariant
                i <= items@.len(),
                all == listed_fields(items@),
                first_fault(all, 0) == first_fault(all, i as int),
                read@.len() == i,
                forall|k: int| 0 <= k < i ==> (#[trigger] read@[k])@ == item_of(all[k]),
            decreases items@.len() - i,
        {
            assert(all[i as int] == field_views(items@[i as int]@));
            match read_item(&items[i]) {
                Err(fault) => {
                    return Err(SchemaError::Parse(fault));
                },
                Ok(item) => {
                    read.push(item);
                },
            }
            i = i + 1;
        }
        assert(item_views(read@) =~= items_of(all));
        Schema::build(&read)
    }
}

/// A field's value is the first one that is given for it.
pub proof fn the_first_value_counts(
    fields: Seq<(Seq<char>, FieldModel)>,
    name: Seq<char>,
    from: int,
    k: int,
)
    requires
        0 <= from <= k <= fields.len(),
        forall|i: int| from <= i < k ==> (#[trigger] fields[i]).0 != name,
    ensures
        k == fields.len() ==> value_of(fields, name, from) is None,
        k < fields.len() && fields[k].0 == name ==> value_of(fields, name, from) == Some(
            fields[k].1,
        ),
    decreases k - from,
{
    if from < k {
        the_first_value_counts(fields, name, from + 1, k);
    }
}

/// The first item that holds a field it may not have, or lacks one it must have, is told; where
/// there is none, nothing is.
pub proof fn the_first_fault_is_told(
    items: Seq<Seq<(Seq<char>, FieldModel)>>,
    from: int,
    k: int,
)
    requires
        0 <= from <= k <= items.len(),
        forall|i: int| from <= i < k ==> item_fault(#[trigger] items[i]) is None,
    ensures
        k == items.len() ==> first_fault(items, from) is None,
        k < items.len() && item_fault(items[k]) is Some ==> first_fault(items, from) == item_fault(
            items[k],
        ),
    decreases k - from,
{
    if from < k {
        the_first_fault_is_told(items, from + 1, k);
    }
}

/// An item without a kind or without a prompt is refused, and so is one with a field that is
/// not known or does not take its value.
pub proof fn faulty_items_are_refused(fields: Seq<(Seq<char>, FieldModel)>, k: int)
    ensures
        (forall|i: int| 0 <= i < fields.len() ==> (#[trigger] fields[i]).0 != "kind"@)
            ==> item_fault(fields) is Some,
        (forall|i: int| 0 <= i < fields.len() ==> (#[trigger] fields[i]).0 != "prompt"@)
            ==> item_fault(fields) is Some,
        0 <= k < fields.len() && !(is_field(fields[k].0) && takes(fields[k].0, fields[k].1))
            ==> item_fault(fields) is Some,
{
    if forall|i: int| 0 <= i < fields.len() ==> (#[trigger] fields[i]).0 != "kind"@ {
        the_first_value_counts(fields, "kind"@, 0, fields.len() as int);
    }
    if forall|i: int| 0 <= i < fields.len() ==> (#[trigger] fields[i]).0 != "prompt"@ {
        the_first_value_counts(fields, "prompt"@, 0, fields.len() as int);
    }
    if 0 <= k < fields.len() {
        right_so_far(fields, k, 0);
    }
}

proof fn right_so_far(fields: Seq<(Seq<char>, FieldModel)>, k: int, from: int)
    requires
        0 <= from <= k < fields.len(),
    ensures
        wrong_field(fields, from) is None ==> is_field(fields[k].0) && takes(
            fields[k].0,
            fields[k].1,
        ),
    decreases k - from,
{
    if from < k {
        right_so_far(fields, k, from + 1);
    }
}

/// The fields of an item: seven texts, two numbers, two lists, a default of any simple type, and
/// two with values of their own; any other name is refused.
pub proof fn fields_take_values_of_their_type(
    text: Seq<char>,
    number: i64,
    flag: bool,
    list: Seq<Seq<char>>,
    name: Seq<char>,
)
    ensures
        takes("default"@, FieldModel::Text(text)),
        takes("default"@, FieldModel::Int(number)),
        takes("default"@, FieldModel::Bool(flag)),
        !takes("default"@, FieldModel::List(list)),
        takes("min"@, FieldModel::Int(number)) && takes("max"@, FieldModel::Int(number)),
        takes("choices"@, FieldModel::List(list)) && takes("select"@, FieldModel::List(list)),
        takes("kind"@, FieldModel::Text(text)) && takes("prompt"@, FieldModel::Text(text)),
        takes("help"@, FieldModel::Text(text)) && takes("depends_on"@, FieldModel::Text(text)),
        takes("id"@, FieldModel::Text(text)) && takes("key"@, FieldModel::Text(text)),
        takes("parent"@, FieldModel::Text(text)),
        takes("apply"@, FieldModel::Text(text)) <==> text == "live"@ || text == "restart"@,
        takes("pattern"@, FieldModel::Text(text)) <==> text == "binding"@,
        takes(name, FieldModel::Bool(flag)) ==> name == "default"@,
        takes(name, FieldModel::Int(number)) ==> name == "default"@ || name == "min"@ || name
            == "max"@,
        takes(name, FieldModel::List(list)) ==> name == "choices"@ || name == "select"@,
        !takes(name, FieldModel::Other),
{
    let names = (
        "kind"@,
        "id"@,
        "key"@,
        "parent"@,
        "prompt"@,
        "help"@,
        "depends_on"@,
        "default"@,
        "apply"@,
        "min"@,
        "max"@,
        "choices"@,
        "select"@,
        "pattern"@,
    );
    reveal_strlit("kind");
    reveal_strlit("id");
    reveal_strlit("key");
    reveal_strlit("parent");
    reveal_strlit("prompt");
    reveal_strlit("help");
    reveal_strlit("depends_on");
    reveal_strlit("default");
    reveal_strlit("apply");
    reveal_strlit("min");
    reveal_strlit("max");
    reveal_strlit("choices");
    reveal_strlit("select");
    reveal_strlit("pattern");
    assert(names.0[0] == 'k' && names.1[0] == 'i' && names.2[0] == 'k' && names.3[0] == 'p'
        && names.4[0] == 'p' && names.5[0] == 'h' && names.6[0] == 'd' && names.7[0] == 'd'
        && names.8[0] == 'a' && names.9[0] == 'm' && names.10[0] == 'm' && names.11[0] == 'c'
        && names.12[0] == 's' && names.13[0] == 'p');
    assert(names.6.len() == 10 && names.7.len() == 7 && names.13.len() == 7 && names.3.len() == 6
        && names.4.len() == 6 && names.0.len() == 4 && names.2.len() == 3);
    assert(names.9[1] == 'i' && names.10[1] == 'a');
}

/// An item says what its fields say, each under its own name; without a help text it has an empty
/// one, and without a list of what it selects it selects nothing.
pub proof fn items_say_what_their_fields_say(fields: Seq<(Seq<char>, FieldModel)>)
    requires
        item_fault(fields) is None,
    ensures
        ({
            let item = item_of(fields);
            &&& value_of(fields, "kind"@, 0) == Some(FieldModel::Text(item.kind))
            &&& value_of(fields, "prompt"@, 0) == Some(FieldModel::Text(item.prompt))
            &&& value_of(fields, "help"@, 0) matches Some(help) ==> help == FieldModel::Text(
                item.help,
            )
            &&& value_of(fields, "help"@, 0) is None ==> item.help.len() == 0
            &&& item.id is Some <==> value_of(fields, "id"@, 0) is Some
            &&& item.id matches Some(id) ==> value_of(fields, "id"@, 0) == Some(
                FieldModel::Text(id),
            )
            &&& item.key is Some <==> value_of(fields, "key"@, 0) is Some
            &&& item.key matches Some(key) ==> value_of(fields, "key"@, 0) == Some(
                FieldModel::Text(key),
            )
            &&& item.parent is Some <==> value_of(fields, "parent"@, 0) is Some
            &&& item.parent matches Some(menu) ==> value_of(fields, "parent"@, 0) == Some(
                FieldModel::Text(menu),
            )
            &&& item.apply == Some(Apply::Live) <==> value_of(fields, "apply"@, 0) == Some(
                FieldModel::Text("live"@),
            )
            &&& item.apply == Some(Apply::Restart) <==> value_of(fields, "apply"@, 0) == Some(
                FieldModel::Text("restart"@),
            )
            &&& item.min matches Some(min) ==> value_of(fields, "min"@, 0) == Some(
                FieldModel::Int(min),
            )
            &&& item.max matches Some(max) ==> value_of(fields, "max"@, 0) == Some(
                FieldModel::Int(max),
            )
            &&& item.min is Some <==> value_of(fields, "min"@, 0) is Some
            &&& item.max is Some <==> value_of(fields, "max"@, 0) is Some
            &&& item.choices matches Some(choices) ==> value_of(fields, "choices"@, 0) == Some(
                FieldModel::List(choices),
            )
            &&& value_of(fields, "select"@, 0) matches Some(keys) ==> keys == FieldModel::List(
                item.select,
            )
            &&& value_of(fields, "select"@, 0) is None ==> item.select.len() == 0
            &&& item.pattern is Some <==> value_of(fields, "pattern"@, 0) is Some
            &&& item.default is Some <==> value_of(fields, "default"@, 0) is Some
        }),
{
    fields_take_values_of_their_type(Seq::empty(), 0, false, Seq::empty(), Seq::empty());
    values_fit(fields, "kind"@, 0);
    values_fit(fields, "prompt"@, 0);
    values_fit(fields, "help"@, 0);
    values_fit(fields, "id"@, 0);
    values_fit(fields, "key"@, 0);
    values_fit(fields, "parent"@, 0);
    values_fit(fields, "apply"@, 0);
    values_fit(fields, "min"@, 0);
    values_fit(fields, "max"@, 0);
    values_fit(fields, "choices"@, 0);
    values_fit(fields, "select"@, 0);
    values_fit(fields, "default"@, 0);
    distinct_names();
    reveal_strlit("live");
    reveal_strlit("restart");
    assert("live"@.len() != "restart"@.len());
}

proof fn distinct_names()
    ensures
        !holds_text("default"@) && !holds_text("apply"@) && !holds_text("min"@),
        !holds_text("max"@) && !holds_text("choices"@) && !holds_text("select"@),
        "apply"@ != "default"@ && "apply"@ != "min"@ && "apply"@ != "max"@,
        "apply"@ != "choices"@ && "apply"@ != "select"@,
        "min"@ != "default"@ && "max"@ != "default"@,
        "choices"@ != "default"@ && "choices"@ != "min"@ && "choices"@ != "max"@,
        "select"@ != "default"@ && "select"@ != "min"@ && "select"@ != "max"@,
{
    reveal_strlit("kind");
    reveal_strlit("id");
    reveal_strlit("key");
    reveal_strlit("parent");
    reveal_strlit("prompt");
    reveal_strlit("help");
    reveal_strlit("depends_on");
    reveal_strlit("default");
    reveal_strlit("apply");
    reveal_strlit("min");
    reveal_strlit("max");
    reveal_strlit("choices");
    reveal_strlit("select");
    assert("kind"@[0] == 'k' && "id"@[0] == 'i' && "key"@[0] == 'k' && "parent"@[0] == 'p'
        && "prompt"@[0] == 'p' && "help"@[0] == 'h' && "depends_on"@[0] == 'd' && "default"@[0]
        == 'd' && "apply"@[0] == 'a' && "min"@[0] == 'm' && "max"@[0] == 'm' && "choices"@[0]
        == 'c' && "select"@[0] == 's');
    assert("depends_on"@.len() == 10 && "default"@.len() == 7);
}

} // verus!
