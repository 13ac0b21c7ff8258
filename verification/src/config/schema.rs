//! What settings exist, their types, defaults and relationships.
//!
//! The schema is data, like the kernel's Kconfig: the configuration menu is generated from it,
//! and values are validated against it.

use crate::config::binding::{binding_message, chord_of, Binding};
use crate::config::expr::{formula_of, str_views, Expr, Formula};
use crate::text::{
    chars_of, concat3, concat5, copied, copied_all, copied_opt, decimal_int, integer_text,
    is_one_of, join, joined, opt_view, pieces, same, split, views,
};
use vstd::prelude::*;

verus! {

/// A setting's value.
#[derive(Debug, PartialEq, Eq)]
pub enum Value {
    /// For `bool` options.
    Bool(bool),
    /// For `int` options.
    Int(i64),
    /// For `string` and `choice` options.
    Text(String),
}

/// What a value holds.
pub enum Setting {
    Bool(bool),
    Int(int),
    Text(Seq<char>),
}

impl View for Value {
    type V = Setting;

    open spec fn view(&self) -> Setting {
        match self {
            Value::Bool(value) => Setting::Bool(*value),
            Value::Int(value) => Setting::Int(*value as int),
            Value::Text(value) => Setting::Text(value@),
        }
    }
}

impl Setting {
    /// The value as it is written.
    pub open spec fn shown(self) -> Seq<char> {
        match self {
            Setting::Bool(value) => if value {
                "true"@
            } else {
                "false"@
            },
            Setting::Int(value) => decimal_int(value),
            Setting::Text(value) => value,
        }
    }
}

impl Value {
    /// The value as text.
    pub fn to_text(&self) -> (r: String)
        ensures
            r@ == self@.shown(),
    {
        match self {
            Value::Bool(value) => if *value {
                copied("true")
            } else {
                copied("false")
            },
            Value::Int(value) => integer_text(*value),
            Value::Text(value) => copied(value.as_str()),
        }
    }

    /// True when both values are the same.
    pub fn same(&self, other: &Value) -> (r: bool)
        ensures
            r == (self@ == other@),
    {
        match (self, other) {
            (Value::Bool(a), Value::Bool(b)) => *a == *b,
            (Value::Int(a), Value::Int(b)) => *a == *b,
            (Value::Text(a), Value::Text(b)) => same(a.as_str(), b.as_str()),
            _ => false,
        }
    }
}

impl Clone for Value {
    fn clone(&self) -> (r: Self)
        ensures
            r@ == self@,
    {
        match self {
            Value::Bool(value) => Value::Bool(*value),
            Value::Int(value) => Value::Int(*value),
            Value::Text(value) => Value::Text(copied(value.as_str())),
        }
    }
}

/// When a change takes effect.
#[derive(Debug, Clone, Copy, PartialEq, Eq, Structural)]
pub enum Apply {
    /// As soon as the configuration is saved.
    Live,
    /// The next time the affected program starts.
    Restart,
}

/// Named shapes a string option must have.
#[derive(Debug, Clone, Copy, PartialEq, Eq, Structural)]
pub enum Pattern {
    /// A key binding such as `Mod+Shift+Return`.
    Binding,
}

/// What kind of value an option holds, with its constraints.
#[derive(Debug, PartialEq, Eq)]
pub enum Kind {
    /// On or off.
    Bool,
    /// A whole number within an inclusive range.
    Int {
        /// Smallest allowed value.
        min: i64,
        /// Largest allowed value.
        max: i64,
    },
    /// Free text, optionally constrained by a named pattern.
    Text {
        /// A named check.
        pattern: Option<Pattern>,
    },
    /// One of a fixed list.
    Choice {
        /// The allowed values, in menu order.
        choices: Vec<String>,
    },
}

/// What a kind allows.
pub enum Sort {
    Bool,
    Int { min: int, max: int },
    Text { pattern: Option<Pattern> },
    Choice { choices: Seq<Seq<char>> },
}

impl View for Kind {
    type V = Sort;

    open spec fn view(&self) -> Sort {
        match self {
            Kind::Bool => Sort::Bool,
            Kind::Int { min, max } => Sort::Int { min: *min as int, max: *max as int },
            Kind::Text { pattern } => Sort::Text { pattern: *pattern },
            Kind::Choice { choices } => Sort::Choice { choices: views(choices@) },
        }
    }
}

impl Clone for Kind {
    fn clone(&self) -> (r: Self)
        ensures
            r@ == self@,
    {
        match self {
            Kind::Bool => Kind::Bool,
            Kind::Int { min, max } => Kind::Int { min: *min, max: *max },
            Kind::Text { pattern } => Kind::Text { pattern: *pattern },
            Kind::Choice { choices } => Kind::Choice { choices: copied_all(choices) },
        }
    }
}

/// Why a value is not allowed, if it is not.
pub open spec fn complaint(sort: Sort, value: Setting) -> Option<Seq<char>> {
    match (sort, value) {
        (Sort::Bool, Setting::Bool(_)) => None,
        (Sort::Int { min, max }, Setting::Int(number)) => if min <= number <= max {
            None
        } else {
            Some(
                decimal_int(number) + " is outside the allowed range "@ + decimal_int(min) + "–"@
                    + decimal_int(max),
            )
        },
        (Sort::Text { pattern }, Setting::Text(text)) => match pattern {
            None => None,
            Some(Pattern::Binding) => match chord_of(text) {
                Ok(_) => None,
                Err(reason) => Some(binding_message(text, reason)),
            },
        },
        (Sort::Choice { choices }, Setting::Text(text)) => if choices.contains(text) {
            None
        } else {
            Some("`"@ + text + "` is not one of: "@ + joined(choices, ", "@) + ""@)
        },
        (Sort::Bool, other) => Some("expected on or off, got `"@ + other.shown() + "`"@),
        (Sort::Int { .. }, other) => Some(
            "expected a whole number, got `"@ + other.shown() + "`"@,
        ),
        (_, other) => Some("expected text, got `"@ + other.shown() + "`"@),
    }
}

/// Checks a value against an option's type and constraints.
///
/// The message names the constraint, so a person can fix the value without looking anything up.
pub fn check(kind: &Kind, value: &Value) -> (r: Result<(), String>)
    ensures
        match r {
            Ok(()) => complaint(kind@, value@) is None,
            Err(reason) => complaint(kind@, value@) == Some(reason@),
        },
{
    match (kind, value) {
        (Kind::Bool, Value::Bool(_)) => Ok(()),
        (Kind::Int { min, max }, Value::Int(number)) => {
            if *min <= *number && *number <= *max {
                Ok(())
            } else {
                let number = integer_text(*number);
                let min = integer_text(*min);
                let max = integer_text(*max);
                Err(
                    concat5(
                        number.as_str(),
                        " is outside the allowed range ",
                        min.as_str(),
                        "–",
                        max.as_str(),
                    ),
                )
            }
        },
        (Kind::Text { pattern }, Value::Text(text)) => match pattern {
            None => Ok(()),
            Some(Pattern::Binding) => match Binding::parse(text.as_str()) {
                Ok(_) => Ok(()),
                Err(err) => Err(err.to_text()),
            },
        },
        (Kind::Choice { choices }, Value::Text(text)) => {
            if is_one_of(choices, text.as_str()) {
                Ok(())
            } else {
                let allowed = join(choices, ", ");
                Err(concat5("`", text.as_str(), "` is not one of: ", allowed.as_str(), ""))
            }
        },
        (Kind::Bool, other) => {
            let other = other.to_text();
            Err(concat3("expected on or off, got `", other.as_str(), "`"))
        },
        (Kind::Int { .. }, other) => {
            let other = other.to_text();
            Err(concat3("expected a whole number, got `", other.as_str(), "`"))
        },
        (_, other) => {
            let other = other.to_text();
            Err(concat3("expected text, got `", other.as_str(), "`"))
        },
    }
}

/// One setting.
#[derive(Debug, PartialEq)]
pub struct OptionDef {
    /// `section.name`, which is also where it lives in config.toml.
    pub key: String,
    /// The text shown in the menu.
    pub prompt: String,
    /// Longer explanation, shown with `?`.
    pub help: String,
    /// Type and constraints.
    pub kind: Kind,
    /// Value used when config.toml does not set it.
    pub default: Value,
    /// When a change takes effect.
    pub apply: Apply,
    /// Shown only when this is true.
    pub depends_on: Option<Expr>,
    /// Bool options forced on while this one is on.
    pub select: Vec<String>,
}

/// What one setting is.
pub struct OptionModel {
    pub key: Seq<char>,
    pub prompt: Seq<char>,
    pub help: Seq<char>,
    pub kind: Sort,
    pub default: Setting,
    pub apply: Apply,
    pub depends_on: Option<Formula>,
    pub select: Seq<Seq<char>>,
}

/// What an optional expression says.
pub open spec fn expr_view(expr: Option<Expr>) -> Option<Formula> {
    match expr {
        None => None,
        Some(expr) => Some(expr@),
    }
}

impl View for OptionDef {
    type V = OptionModel;

    open spec fn view(&self) -> OptionModel {
        OptionModel {
            key: self.key@,
            prompt: self.prompt@,
            help: self.help@,
            kind: self.kind@,
            default: self.default@,
            apply: self.apply,
            depends_on: expr_view(self.depends_on),
            select: views(self.select@),
        }
    }
}

/// A submenu.
#[derive(Debug, PartialEq)]
pub struct MenuDef {
    /// Referenced by options' `parent`.
    pub id: String,
    /// The text shown in the menu.
    pub prompt: String,
    /// Longer explanation, shown with `?`.
    pub help: String,
    /// Shown only when this is true.
    pub depends_on: Option<Expr>,
}

/// What one submenu is.
pub struct MenuModel {
    pub id: Seq<char>,
    pub prompt: Seq<char>,
    pub help: Seq<char>,
    pub depends_on: Option<Formula>,
}

impl View for MenuDef {
    type V = MenuModel;

    open spec fn view(&self) -> MenuModel {
        MenuModel {
            id: self.id@,
            prompt: self.prompt@,
            help: self.help@,
            depends_on: expr_view(self.depends_on),
        }
    }
}

/// An entry in a menu: either a submenu or an option.
#[derive(Debug, Clone, Copy, PartialEq, Eq, Structural)]
pub enum Entry {
    /// A submenu, by index into [`Schema::menus`].
    Menu(usize),
    /// An option, by index into [`Schema::options`].
    Option(usize),
}

/// An entry and the menu that it stands in; `None` is the top level.
#[derive(Debug, PartialEq)]
pub struct Placed {
    pub parent: Option<String>,
    pub entry: Entry,
}

impl View for Placed {
    type V = (Option<Seq<char>>, Entry);

    open spec fn view(&self) -> (Option<Seq<char>>, Entry) {
        (opt_view(self.parent), self.entry)
    }
}

/// Why a schema is unusable.
#[derive(Debug, PartialEq)]
pub enum SchemaError {
    /// The file itself is malformed or has unknown fields.
    Parse(String),
    /// An item is inconsistent with itself or with the rest of the schema.
    Invalid {
        /// The key or menu id of the offending item.
        item: String,
        /// What is wrong.
        reason: String,
    },
}

impl SchemaError {
    /// The message shown to a person.
    pub fn to_text(&self) -> (r: String)
        ensures
            r@ == (match self {
                SchemaError::Parse(reason) => "schema.toml does not parse: "@ + reason@ + ""@,
                SchemaError::Invalid { item, reason } => "schema item `"@ + item@ + "`: "@ + reason@
                    + ""@,
            }),
    {
        match self {
            SchemaError::Parse(reason) => concat3(
                "schema.toml does not parse: ",
                reason.as_str(),
                "",
            ),
            SchemaError::Invalid { item, reason } => concat5(
                "schema item `",
                item.as_str(),
                "`: ",
                reason.as_str(),
                "",
            ),
        }
    }
}

/// Every setting, arranged into menus.
#[derive(Debug, PartialEq)]
pub struct Schema {
    /// All submenus.
    pub menus: Vec<MenuDef>,
    /// All options.
    pub options: Vec<OptionDef>,
    /// Every entry with the menu that it stands in, in file order.
    pub placed: Vec<Placed>,
}

/// What a schema holds.
#[verifier::ext_equal]
pub struct SchemaModel {
    pub menus: Seq<MenuModel>,
    pub options: Seq<OptionModel>,
    pub placed: Seq<(Option<Seq<char>>, Entry)>,
}

pub open spec fn menu_views(menus: Seq<MenuDef>) -> Seq<MenuModel> {
    menus.map_values(|menu: MenuDef| menu@)
}

pub open spec fn option_views(options: Seq<OptionDef>) -> Seq<OptionModel> {
    options.map_values(|option: OptionDef| option@)
}

pub open spec fn placed_views(placed: Seq<Placed>) -> Seq<(Option<Seq<char>>, Entry)> {
    placed.map_values(|one: Placed| one@)
}

impl View for Schema {
    type V = SchemaModel;

    open spec fn view(&self) -> SchemaModel {
        SchemaModel {
            menus: menu_views(self.menus@),
            options: option_views(self.options@),
            placed: placed_views(self.placed@),
        }
    }
}

fn copied_expr(expr: &Option<Expr>) -> (r: Option<Expr>)
    ensures
        expr_view(r) == expr_view(*expr),
{
    match expr {
        None => None,
        Some(expr) => Some(expr.clone()),
    }
}

impl Clone for OptionDef {
    fn clone(&self) -> (r: Self)
        ensures
            r@ == self@,
    {
        OptionDef {
            key: copied(self.key.as_str()),
            prompt: copied(self.prompt.as_str()),
            help: copied(self.help.as_str()),
            kind: self.kind.clone(),
            default: self.default.clone(),
            apply: self.apply,
            depends_on: copied_expr(&self.depends_on),
            select: copied_all(&self.select),
        }
    }
}

impl Clone for MenuDef {
    fn clone(&self) -> (r: Self)
        ensures
            r@ == self@,
    {
        MenuDef {
            id: copied(self.id.as_str()),
            prompt: copied(self.prompt.as_str()),
            help: copied(self.help.as_str()),
            depends_on: copied_expr(&self.depends_on),
        }
    }
}

impl Clone for Placed {
    fn clone(&self) -> (r: Self)
        ensures
            r@ == self@,
    {
        Placed { parent: copied_opt(&self.parent), entry: self.entry }
    }
}

impl Clone for Schema {
    fn clone(&self) -> (r: Self)
        ensures
            r@ == self@,
    {
        let mut menus: Vec<MenuDef> = Vec::new();
        let mut i: usize = 0;
        while i < self.menus.len()
            invariant
                i <= self.menus@.len(),
                menus@.len() == i,
                forall|j: int| 0 <= j < i ==> (#[trigger] menus@[j])@ == self.menus@[j]@,
            decreases self.menus@.len() - i,
        {
            menus.push(self.menus[i].clone());
            i = i + 1;
        }
        let mut options: Vec<OptionDef> = Vec::new();
        i = 0;
        while i < self.options.len()
            invariant
                i <= self.options@.len(),
                options@.len() == i,
                forall|j: int| 0 <= j < i ==> (#[trigger] options@[j])@ == self.options@[j]@,
            decreases self.options@.len() - i,
        {
            options.push(self.options[i].clone());
            i = i + 1;
        }
        let mut placed: Vec<Placed> = Vec::new();
        i = 0;
        while i < self.placed.len()
            invariant
                i <= self.placed@.len(),
                placed@.len() == i,
                forall|j: int| 0 <= j < i ==> (#[trigger] placed@[j])@ == self.placed@[j]@,
            decreases self.placed@.len() - i,
        {
            placed.push(self.placed[i].clone());
            i = i + 1;
        }
        let r = Schema { menus, options, placed };
        assert(r@ =~= self@);
        r
    }
}

/// A default as written, before the option's kind says how to read it.
#[derive(Debug, PartialEq, Eq)]
pub enum RawDefault {
    Bool(bool),
    Int(i64),
    Text(String),
}

impl View for RawDefault {
    type V = Setting;

    open spec fn view(&self) -> Setting {
        match self {
            RawDefault::Bool(value) => Setting::Bool(*value),
            RawDefault::Int(value) => Setting::Int(*value as int),
            RawDefault::Text(value) => Setting::Text(value@),
        }
    }
}

/// One item of a schema file, as written.
#[derive(Debug, PartialEq, Eq)]
pub struct RawItem {
    pub kind: String,
    pub id: Option<String>,
    pub key: Option<String>,
    pub parent: Option<String>,
    pub prompt: String,
    pub help: String,
    pub default: Option<RawDefault>,
    pub apply: Option<Apply>,
    pub min: Option<i64>,
    pub max: Option<i64>,
    pub choices: Option<Vec<String>>,
    pub pattern: Option<Pattern>,
    pub depends_on: Option<String>,
    pub select: Vec<String>,
}

/// What one item of a schema file says.
pub struct ItemModel {
    pub kind: Seq<char>,
    pub id: Option<Seq<char>>,
    pub key: Option<Seq<char>>,
    pub parent: Option<Seq<char>>,
    pub prompt: Seq<char>,
    pub help: Seq<char>,
    pub default: Option<Setting>,
    pub apply: Option<Apply>,
    pub min: Option<i64>,
    pub max: Option<i64>,
    pub choices: Option<Seq<Seq<char>>>,
    pub pattern: Option<Pattern>,
    pub depends_on: Option<Seq<char>>,
    pub select: Seq<Seq<char>>,
}

impl View for RawItem {
    type V = ItemModel;

    open spec fn view(&self) -> ItemModel {
        ItemModel {
            kind: self.kind@,
            id: opt_view(self.id),
            key: opt_view(self.key),
            parent: opt_view(self.parent),
            prompt: self.prompt@,
            help: self.help@,
            default: match self.default {
                None => None,
                Some(raw) => Some(raw@),
            },
            apply: self.apply,
            min: self.min,
            max: self.max,
            choices: match self.choices {
                None => None,
                Some(choices) => Some(views(choices@)),
            },
            pattern: self.pattern,
            depends_on: opt_view(self.depends_on),
            select: views(self.select@),
        }
    }
}

pub open spec fn item_views(items: Seq<RawItem>) -> Seq<ItemModel> {
    items.map_values(|item: RawItem| item@)
}

/// The item that a problem is about, and what is wrong with it.
pub type Problem = (Seq<char>, Seq<char>);

/// The kind that an item describes, or what is wrong with the description.
pub open spec fn sort_of(item: ItemModel) -> Result<Sort, Seq<char>> {
    if item.kind == "bool"@ {
        Ok(Sort::Bool)
    } else if item.kind == "int"@ {
        if item.min is None || item.max is None {
            Err("an int needs `min` and `max`"@)
        } else if item.min->0 > item.max->0 {
            Err(
                "min "@ + decimal_int(item.min->0 as int) + " is above max "@ + decimal_int(
                    item.max->0 as int,
                ) + ""@,
            )
        } else {
            Ok(Sort::Int { min: item.min->0 as int, max: item.max->0 as int })
        }
    } else if item.kind == "string"@ {
        Ok(Sort::Text { pattern: item.pattern })
    } else if item.kind == "choice"@ {
        match item.choices {
            Some(choices) => if choices.len() == 0 {
                Err("a choice needs `choices`"@)
            } else {
                Ok(Sort::Choice { choices })
            },
            None => Err("a choice needs `choices`"@),
        }
    } else {
        Err("unknown kind `"@ + item.kind + "`"@)
    }
}

/// A default that has the type which its kind asks for, or what is wrong with it.
pub open spec fn default_of(raw: Setting, sort: Sort) -> Result<Setting, Seq<char>> {
    match (sort, raw) {
        (Sort::Bool, Setting::Bool(_)) => Ok(raw),
        (Sort::Int { .. }, Setting::Int(_)) => Ok(raw),
        (Sort::Text { .. }, Setting::Text(_)) => Ok(raw),
        (Sort::Choice { .. }, Setting::Text(_)) => Ok(raw),
        _ => Err("`default` has the wrong type for this kind of option"@),
    }
}

/// True for keys written `section.name`.
pub open spec fn is_option_key(key: Seq<char>) -> bool {
    &&& pieces(key, '.', 0).len() == 2
    &&& key.len() > 0
    &&& key[0] != '.'
    &&& key.last() != '.'
}

/// The place of the option with this key, if there is one.
pub open spec fn option_place(options: Seq<OptionModel>, key: Seq<char>, from: int) -> Option<int>
    decreases options.len() - from,
{
    if from < 0 || from >= options.len() {
        None
    } else if options[from].key == key {
        Some(from)
    } else {
        option_place(options, key, from + 1)
    }
}

impl SchemaModel {
    /// A schema without settings.
    pub open spec fn empty() -> SchemaModel {
        SchemaModel { menus: seq![], options: seq![], placed: seq![] }
    }

    /// True when there is an option with this key.
    pub open spec fn has(self, key: Seq<char>) -> bool {
        option_place(self.options, key, 0) is Some
    }

    /// The option with this key.
    pub open spec fn option(self, key: Seq<char>) -> Option<OptionModel> {
        match option_place(self.options, key, 0) {
            None => None,
            Some(i) => Some(self.options[i]),
        }
    }

    /// The menu that the option with this key sits in.
    pub open spec fn parent(self, key: Seq<char>) -> Option<Seq<char>> {
        match option_place(self.options, key, 0) {
            None => None,
            Some(i) => parent_from(self.placed, Entry::Option(i as usize), 0),
        }
    }

    /// True when there is a bool option with this key.
    pub open spec fn has_bool(self, key: Seq<char>) -> bool {
        match self.option(key) {
            None => false,
            Some(option) => option.kind is Bool,
        }
    }
}

/// True when an option is consistent with itself.
pub open spec fn sound_option(option: OptionModel) -> bool {
    &&& is_option_key(option.key)
    &&& complaint(option.kind, option.default) is None
    &&& option.select.len() > 0 ==> option.kind is Bool
    &&& option.kind matches Sort::Int { min, max } ==> min <= max
    &&& option.kind matches Sort::Choice { choices } ==> choices.len() > 0
}

/// True when an entry stands for a menu or an option that is there.
pub open spec fn sound_entry(model: SchemaModel, entry: Entry) -> bool {
    match entry {
        Entry::Menu(i) => i < model.menus.len(),
        Entry::Option(i) => i < model.options.len(),
    }
}

/// True when every key is that of a bool option.
pub open spec fn all_bools(model: SchemaModel, keys: Seq<Seq<char>>) -> bool {
    forall|i: int| 0 <= i < keys.len() ==> model.has_bool(#[trigger] keys[i])
}

/// True when a dependency mentions bool options only.
pub open spec fn sound_dependency(model: SchemaModel, depends_on: Option<Formula>) -> bool {
    depends_on matches Some(formula) ==> all_bools(model, formula.keys())
}

impl SchemaModel {
    /// True when the options are consistent with themselves and no key is used twice.
    pub open spec fn sound(self) -> bool {
        &&& forall|i: int| 0 <= i < self.options.len() ==> sound_option(#[trigger] self.options[i])
        &&& forall|i: int, j: int|
            0 <= i < j < self.options.len() ==> (#[trigger] self.options[i]).key != (
            #[trigger] self.options[j]).key
        &&& forall|i: int|
            0 <= i < self.placed.len() ==> sound_entry(self, (#[trigger] self.placed[i]).1)
    }

    /// True when everything that is referred to is there.
    pub open spec fn closed_under_references(self) -> bool {
        &&& forall|i: int|
            0 <= i < self.placed.len() ==> ((#[trigger] self.placed[i]).0 matches Some(parent)
                ==> has_menu(self.menus, parent))
        &&& forall|i: int|
            0 <= i < self.options.len() ==> sound_dependency(
                self,
                (#[trigger] self.options[i]).depends_on,
            )
        &&& forall|i: int|
            0 <= i < self.menus.len() ==> sound_dependency(
                self,
                (#[trigger] self.menus[i]).depends_on,
            )
        &&& forall|i: int|
            0 <= i < self.options.len() ==> all_bools(self, (#[trigger] self.options[i]).select)
    }
}

/// The option that an item describes, or what is wrong with it.
pub open spec fn option_of(model: SchemaModel, item: ItemModel, depends_on: Option<Formula>) -> Result<
    OptionModel,
    Problem,
> {
    match item.key {
        None => Err((item.prompt, "an option needs a `key`"@)),
        Some(key) => if !is_option_key(key) {
            Err((key, "keys are written `section.name`"@))
        } else if model.has(key) {
            Err((key, "defined twice"@))
        } else {
            match sort_of(item) {
                Err(reason) => Err((key, reason)),
                Ok(kind) => match item.default {
                    None => Err((key, "an option needs a `default`"@)),
                    Some(raw) => match default_of(raw, kind) {
                        Err(reason) => Err((key, reason)),
                        Ok(default) => match complaint(kind, default) {
                            Some(reason) => Err((key, reason)),
                            None => match item.apply {
                                None => Err(
                                    (
                                        key,
                                        "an option needs `apply = \"live\"` or `\"restart\"`"@,
                                    ),
                                ),
                                Some(apply) => if item.select.len() > 0 && !(kind is Bool) {
                                    Err((key, "only bool options can `select`"@))
                                } else {
                                    Ok(
                                        OptionModel {
                                            key,
                                            prompt: item.prompt,
                                            help: item.help,
                                            kind,
                                            default,
                                            apply,
                                            depends_on,
                                            select: item.select,
                                        },
                                    )
                                },
                            },
                        },
                    },
                },
            }
        },
    }
}

/// The dependency that an item names, or what is wrong with it.
pub open spec fn dependency_of(item: ItemModel) -> Result<Option<Formula>, Problem> {
    match item.depends_on {
        None => Ok(None),
        Some(text) => match formula_of(text) {
            Ok(formula) => Ok(Some(formula)),
            Err(reason) => Err(
                (
                    match (item.key, item.id) {
                        (Some(key), _) => key,
                        (None, Some(id)) => id,
                        (None, None) => ""@,
                    },
                    "in `"@ + text + "`: "@ + reason + ""@,
                ),
            ),
        },
    }
}

/// The schema with one more item, or what is wrong with the item.
pub open spec fn with_item(model: SchemaModel, item: ItemModel) -> Result<SchemaModel, Problem> {
    match dependency_of(item) {
        Err(problem) => Err(problem),
        Ok(depends_on) => if item.kind == "menu"@ {
            match item.id {
                None => Err((item.prompt, "a menu needs an `id`"@)),
                Some(id) => Ok(
                    SchemaModel {
                        menus: model.menus.push(
                            MenuModel { id, prompt: item.prompt, help: item.help, depends_on },
                        ),
                        options: model.options,
                        placed: model.placed.push(
                            (item.parent, Entry::Menu(model.menus.len() as usize)),
                        ),
                    },
                ),
            }
        } else {
            match option_of(model, item, depends_on) {
                Err(problem) => Err(problem),
                Ok(option) => Ok(
                    SchemaModel {
                        menus: model.menus,
                        options: model.options.push(option),
                        placed: model.placed.push(
                            (item.parent, Entry::Option(model.options.len() as usize)),
                        ),
                    },
                ),
            }
        },
    }
}

/// The schema with the items `items[from..]`, or what is wrong with the first bad one.
pub open spec fn with_items(model: SchemaModel, items: Seq<ItemModel>, from: int) -> Result<
    SchemaModel,
    Problem,
>
    decreases items.len() - from,
{
    if from < 0 || from >= items.len() {
        Ok(model)
    } else {
        match with_item(model, items[from]) {
            Err(problem) => Err(problem),
            Ok(next) => with_items(next, items, from + 1),
        }
    }
}

/// True when a menu has this id.
pub open spec fn has_menu(menus: Seq<MenuModel>, id: Seq<char>) -> bool {
    exists|i: int| 0 <= i < menus.len() && (#[trigger] menus[i]).id == id
}

/// The first entry at or after `from` whose parent is no menu.
pub open spec fn parent_problem(model: SchemaModel, from: int) -> Option<Problem>
    decreases model.placed.len() - from,
{
    if from < 0 || from >= model.placed.len() {
        None
    } else {
        match model.placed[from].0 {
            Some(parent) => if !has_menu(model.menus, parent) {
                Some((parent, "used as a `parent` but no menu has that id"@))
            } else {
                parent_problem(model, from + 1)
            },
            None => parent_problem(model, from + 1),
        }
    }
}

/// The first of the keys at or after `from` that is no bool option.
pub open spec fn stray_key(model: SchemaModel, keys: Seq<Seq<char>>, from: int) -> Option<Seq<char>>
    decreases keys.len() - from,
{
    if from < 0 || from >= keys.len() {
        None
    } else if !model.has_bool(keys[from]) {
        Some(keys[from])
    } else {
        stray_key(model, keys, from + 1)
    }
}

/// What is wrong with a dependency of `item`.
pub open spec fn dependency_problem(
    model: SchemaModel,
    item: Seq<char>,
    depends_on: Option<Formula>,
) -> Option<Problem> {
    match depends_on {
        None => None,
        Some(formula) => match stray_key(model, formula.keys(), 0) {
            None => None,
            Some(key) => Some(
                (item, "`depends_on` mentions `"@ + key + "`, which is not a bool option"@),
            ),
        },
    }
}

/// The first problem with a dependency of the options at or after `from`.
pub open spec fn option_dependency_problem(model: SchemaModel, from: int) -> Option<Problem>
    decreases model.options.len() - from,
{
    if from < 0 || from >= model.options.len() {
        None
    } else {
        let option = model.options[from];
        match dependency_problem(model, option.key, option.depends_on) {
            Some(problem) => Some(problem),
            None => option_dependency_problem(model, from + 1),
        }
    }
}

/// The first problem with a dependency of the menus at or after `from`.
pub open spec fn menu_dependency_problem(model: SchemaModel, from: int) -> Option<Problem>
    decreases model.menus.len() - from,
{
    if from < 0 || from >= model.menus.len() {
        None
    } else {
        let menu = model.menus[from];
        match dependency_problem(model, menu.id, menu.depends_on) {
            Some(problem) => Some(problem),
            None => menu_dependency_problem(model, from + 1),
        }
    }
}

/// The first problem with what the options at or after `from` select.
pub open spec fn select_problem(model: SchemaModel, from: int) -> Option<Problem>
    decreases model.options.len() - from,
{
    if from < 0 || from >= model.options.len() {
        None
    } else {
        let option = model.options[from];
        match stray_key(model, option.select, 0) {
            Some(key) => Some(
                (option.key, "`select` names `"@ + key + "`, which is not a bool option"@),
            ),
            None => select_problem(model, from + 1),
        }
    }
}

/// The first thing in a schema that refers to something which is not there.
pub open spec fn reference_problem(model: SchemaModel) -> Option<Problem> {
    match parent_problem(model, 0) {
        Some(problem) => Some(problem),
        None => match option_dependency_problem(model, 0) {
            Some(problem) => Some(problem),
            None => match menu_dependency_problem(model, 0) {
                Some(problem) => Some(problem),
                None => select_problem(model, 0),
            },
        },
    }
}

/// The schema that a list of items describes, or the first thing that is wrong with it.
pub open spec fn schema_of(items: Seq<ItemModel>) -> Result<SchemaModel, Problem> {
    match with_items(SchemaModel::empty(), items, 0) {
        Err(problem) => Err(problem),
        Ok(model) => match reference_problem(model) {
            Some(problem) => Err(problem),
            None => Ok(model),
        },
    }
}

/// True when an error reports this problem.
pub open spec fn reports(err: SchemaError, problem: Problem) -> bool {
    match err {
        SchemaError::Parse(_) => false,
        SchemaError::Invalid { item, reason } => (item@, reason@) == problem,
    }
}

fn invalid(item: &str, reason: &str) -> (r: SchemaError)
    ensures
        reports(r, (item@, reason@)),
{
    SchemaError::Invalid { item: copied(item), reason: copied(reason) }
}

fn parse_default(raw: &RawDefault, kind: &Kind) -> (r: Result<Value, String>)
    ensures
        match r {
            Ok(value) => default_of(raw@, kind@) == Ok::<Setting, Seq<char>>(value@),
            Err(reason) => default_of(raw@, kind@) == Err::<Setting, Seq<char>>(reason@),
        },
{
    match (kind, raw) {
        (Kind::Bool, RawDefault::Bool(value)) => Ok(Value::Bool(*value)),
        (Kind::Int { .. }, RawDefault::Int(value)) => Ok(Value::Int(*value)),
        (Kind::Text { .. }, RawDefault::Text(value)) => Ok(Value::Text(copied(value.as_str()))),
        (Kind::Choice { .. }, RawDefault::Text(value)) => Ok(Value::Text(copied(value.as_str()))),
        _ => Err(copied("`default` has the wrong type for this kind of option")),
    }
}

fn parse_kind(item: &RawItem) -> (r: Result<Kind, String>)
    ensures
        match r {
            Ok(kind) => sort_of(item@) == Ok::<Sort, Seq<char>>(kind@),
            Err(reason) => sort_of(item@) == Err::<Sort, Seq<char>>(reason@),
        },
{
    let name = item.kind.as_str();
    if same(name, "bool") {
        Ok(Kind::Bool)
    } else if same(name, "int") {
        match (item.min, item.max) {
            (Some(min), Some(max)) => {
                if min > max {
                    let low = integer_text(min);
                    let high = integer_text(max);
                    Err(concat5("min ", low.as_str(), " is above max ", high.as_str(), ""))
                } else {
                    Ok(Kind::Int { min, max })
                }
            },
            _ => Err(copied("an int needs `min` and `max`")),
        }
    } else if same(name, "string") {
        Ok(Kind::Text { pattern: item.pattern })
    } else if same(name, "choice") {
        match &item.choices {
            Some(choices) => {
                if choices.len() == 0 {
                    Err(copied("a choice needs `choices`"))
                } else {
                    Ok(Kind::Choice { choices: copied_all(choices) })
                }
            },
            None => Err(copied("a choice needs `choices`")),
        }
    } else {
        Err(concat3("unknown kind `", name, "`"))
    }
}

fn key_is_shaped(key: &str) -> (r: bool)
    ensures
        r == is_option_key(key@),
{
    let chars = chars_of(key);
    let parts = split(&chars, '.');
    assert(parts.len() == pieces(key@, '.', 0).len());
    parts.len() == 2 && chars.len() > 0 && chars[0] != '.' && chars[chars.len() - 1] != '.'
}

fn parse_dependency(item: &RawItem) -> (r: Result<Option<Expr>, SchemaError>)
    ensures
        match r {
            Ok(expr) => dependency_of(item@) == Ok::<Option<Formula>, Problem>(expr_view(expr)),
            Err(err) => dependency_of(item@) is Err && reports(err, dependency_of(item@)->Err_0),
        },
{
    match &item.depends_on {
        None => Ok(None),
        Some(text) => match Expr::parse(text.as_str()) {
            Ok(expr) => Ok(Some(expr)),
            Err(err) => {
                let name = match (&item.key, &item.id) {
                    (Some(key), _) => key.as_str(),
                    (None, Some(id)) => id.as_str(),
                    (None, None) => "",
                };
                let reason = err.to_text();
                Err(invalid(name, reason.as_str()))
            },
        },
    }
}

impl Schema {
    /// The place of the option with this key.
    fn place(&self, key: &str) -> (r: Option<usize>)
        ensures
            match r {
                None => option_place(self@.options, key@, 0) is None,
                Some(i) => i < self.options.len() && option_place(self@.options, key@, 0) == Some(
                    i as int,
                ),
            },
    {
        let mut i: usize = 0;
        while i < self.options.len()
            invariant
                i <= self.options.len(),
                option_place(self@.options, key@, 0) == option_place(self@.options, key@, i as int),
            decreases self.options.len() - i,
        {
            assert(self@.options[i as int] == self.options@[i as int]@);
            if same(self.options[i].key.as_str(), key) {
                return Some(i);
            }
            i = i + 1;
        }
        None
    }

    /// Looks an option up by key.
    pub fn option(&self, key: &str) -> (r: Option<&OptionDef>)
        ensures
            match r {
                None => self@.option(key@) is None,
                Some(option) => self@.option(key@) == Some(option@),
            },
    {
        match self.place(key) {
            None => None,
            Some(i) => {
                assert(self@.options[i as int] == self.options@[i as int]@);
                Some(&self.options[i])
            },
        }
    }

    fn has_bool_option(&self, key: &str) -> (r: bool)
        ensures
            r == self@.has_bool(key@),
    {
        match self.option(key) {
            None => false,
            Some(option) => matches!(option.kind, Kind::Bool),
        }
    }

    fn parse_option(&self, item: &RawItem, depends_on: Option<Expr>) -> (r: Result<
        OptionDef,
        SchemaError,
    >)
        ensures
            match r {
                Ok(option) => option_of(self@, item@, expr_view(depends_on)) == Ok::<
                    OptionModel,
                    Problem,
                >(option@),
                Err(err) => {
                    let expected = option_of(self@, item@, expr_view(depends_on));
                    expected is Err && reports(err, expected->Err_0)
                },
            },
    {
        let key = match &item.key {
            None => {
                return Err(invalid(item.prompt.as_str(), "an option needs a `key`"));
            },
            Some(key) => copied(key.as_str()),
        };
        if !key_is_shaped(key.as_str()) {
            return Err(invalid(key.as_str(), "keys are written `section.name`"));
        }
        if self.place(key.as_str()).is_some() {
            return Err(invalid(key.as_str(), "defined twice"));
        }
        let kind = match parse_kind(item) {
            Ok(kind) => kind,
            Err(reason) => {
                return Err(invalid(key.as_str(), reason.as_str()));
            },
        };
        let default = match &item.default {
            None => {
                return Err(invalid(key.as_str(), "an option needs a `default`"));
            },
            Some(raw) => match parse_default(raw, &kind) {
                Ok(value) => value,
                Err(reason) => {
                    return Err(invalid(key.as_str(), reason.as_str()));
                },
            },
        };
        if let Err(reason) = check(&kind, &default) {
            return Err(invalid(key.as_str(), reason.as_str()));
        }
        let apply = match item.apply {
            None => {
                return Err(
                    invalid(
                        key.as_str(),
                        "an option needs `apply = \"live\"` or `\"restart\"`",
                    ),
                );
            },
            Some(apply) => apply,
        };
        if item.select.len() > 0 && !matches!(kind, Kind::Bool) {
            return Err(invalid(key.as_str(), "only bool options can `select`"));
        }
        Ok(
            OptionDef {
                key,
                prompt: copied(item.prompt.as_str()),
                help: copied(item.help.as_str()),
                kind,
                default,
                apply,
                depends_on,
                select: copied_all(&item.select),
            },
        )
    }

    fn add(&mut self, item: &RawItem) -> (r: Result<(), SchemaError>)
        ensures
            match r {
                Ok(()) => with_item(old(self)@, item@) == Ok::<SchemaModel, Problem>(final(self)@),
                Err(err) => with_item(old(self)@, item@) is Err && reports(
                    err,
                    with_item(old(self)@, item@)->Err_0,
                ),
            },
    {
        let ghost before = self@;
        let depends_on = match parse_dependency(item) {
            Ok(depends_on) => depends_on,
            Err(err) => {
                return Err(err);
            },
        };
        if same(item.kind.as_str(), "menu") {
            let id = match &item.id {
                None => {
                    return Err(invalid(item.prompt.as_str(), "a menu needs an `id`"));
                },
                Some(id) => copied(id.as_str()),
            };
            self.placed.push(
                Placed {
                    parent: copied_opt(&item.parent),
                    entry: Entry::Menu(self.menus.len()),
                },
            );
            self.menus.push(
                MenuDef {
                    id,
                    prompt: copied(item.prompt.as_str()),
                    help: copied(item.help.as_str()),
                    depends_on,
                },
            );
            proof {
                let after = with_item(before, item@)->Ok_0;
                assert(self@.menus =~= after.menus);
                assert(self@.options =~= after.options);
                assert(self@.placed =~= after.placed);
            }
            return Ok(());
        }
        let option = match self.parse_option(item, depends_on) {
            Ok(option) => option,
            Err(err) => {
                return Err(err);
            },
        };
        self.placed.push(
            Placed {
                parent: copied_opt(&item.parent),
                entry: Entry::Option(self.options.len()),
            },
        );
        self.options.push(option);
        proof {
            let after = with_item(before, item@)->Ok_0;
            assert(self@.menus =~= after.menus);
            assert(self@.options =~= after.options);
            assert(self@.placed =~= after.placed);
        }
        Ok(())
    }

    /// Builds and validates a schema from the items of a schema file.
    pub fn build(items: &Vec<RawItem>) -> (r: Result<Self, SchemaError>)
        ensures
            match r {
                Ok(schema) => schema_of(item_views(items@)) == Ok::<SchemaModel, Problem>(schema@)
                    && schema@.sound() && schema@.closed_under_references(),
                Err(err) => schema_of(item_views(items@)) is Err && reports(
                    err,
                    schema_of(item_views(items@))->Err_0,
                ),
            },
    {
        let mut schema = Schema { menus: Vec::new(), options: Vec::new(), placed: Vec::new() };
        let ghost all = item_views(items@);
        assert(schema@ =~= SchemaModel::empty());
        let mut i: usize = 0;
        while i < items.len()
            invariant
                i <= items.len(),
                all == item_views(items@),
                with_items(SchemaModel::empty(), all, 0) == with_items(schema@, all, i as int),
            decreases items.len() - i,
        {
            assert(all[i as int] == items@[i as int]@);
            if let Err(err) = schema.add(&items[i]) {
                return Err(err);
            }
            i = i + 1;
        }
        match schema.validate_references() {
            Ok(()) => {
                proof {
                    accepted_schemas_are_consistent(all);
                }
                Ok(schema)
            },
            Err(err) => Err(err),
        }
    }

    fn is_menu_id(&self, id: &str) -> (r: bool)
        ensures
            r == has_menu(self@.menus, id@),
    {
        self.menu(id).is_some()
    }

    fn find_stray_key(&self, keys: &Vec<&str>) -> (r: Option<String>)
        ensures
            opt_view(r) == stray_key(self@, str_views(keys@), 0),
    {
        let mut i: usize = 0;
        while i < keys.len()
            invariant
                i <= keys.len(),
                stray_key(self@, str_views(keys@), 0) == stray_key(
                    self@,
                    str_views(keys@),
                    i as int,
                ),
            decreases keys.len() - i,
        {
            assert(str_views(keys@)[i as int] == keys@[i as int]@);
            if !self.has_bool_option(keys[i]) {
                return Some(copied(keys[i]));
            }
            i = i + 1;
        }
        None
    }

    fn find_stray_selected(&self, keys: &Vec<String>) -> (r: Option<String>)
        ensures
            opt_view(r) == stray_key(self@, views(keys@), 0),
    {
        let mut i: usize = 0;
        while i < keys.len()
            invariant
                i <= keys.len(),
                stray_key(self@, views(keys@), 0) == stray_key(self@, views(keys@), i as int),
            decreases keys.len() - i,
        {
            assert(views(keys@)[i as int] == keys@[i as int]@);
            if !self.has_bool_option(keys[i].as_str()) {
                return Some(copied(keys[i].as_str()));
            }
            i = i + 1;
        }
        None
    }

    fn check_dependency(&self, item: &str, depends_on: &Option<Expr>) -> (r: Result<
        (),
        SchemaError,
    >)
        ensures
            match r {
                Ok(()) => dependency_problem(self@, item@, expr_view(*depends_on)) is None,
                Err(err) => {
                    let problem = dependency_problem(self@, item@, expr_view(*depends_on));
                    problem is Some && reports(err, problem->0)
                },
            },
    {
        match depends_on {
            None => Ok(()),
            Some(expr) => {
                let keys = expr.keys();
                match self.find_stray_key(&keys) {
                    None => Ok(()),
                    Some(key) => {
                        let reason = concat3(
                            "`depends_on` mentions `",
                            key.as_str(),
                            "`, which is not a bool option",
                        );
                        Err(invalid(item, reason.as_str()))
                    },
                }
            },
        }
    }

    /// Checks everything that refers to something else: parents, dependencies, selects.
    pub fn validate_references(&self) -> (r: Result<(), SchemaError>)
        ensures
            match r {
                Ok(()) => reference_problem(self@) is None,
                Err(err) => reference_problem(self@) is Some && reports(
                    err,
                    reference_problem(self@)->0,
                ),
            },
    {
        let mut i: usize = 0;
        while i < self.placed.len()
            invariant
                i <= self.placed.len(),
                parent_problem(self@, 0) == parent_problem(self@, i as int),
            decreases self.placed.len() - i,
        {
            assert(self@.placed[i as int] == self.placed@[i as int]@);
            if let Some(parent) = &self.placed[i].parent {
                if !self.is_menu_id(parent.as_str()) {
                    return Err(
                        invalid(
                            parent.as_str(),
                            "used as a `parent` but no menu has that id",
                        ),
                    );
                }
            }
            i = i + 1;
        }
        let mut i: usize = 0;
        while i < self.options.len()
            invariant
                i <= self.options.len(),
                parent_problem(self@, 0) is None,
                option_dependency_problem(self@, 0) == option_dependency_problem(self@, i as int),
            decreases self.options.len() - i,
        {
            assert(self@.options[i as int] == self.options@[i as int]@);
            let option = &self.options[i];
            if let Err(err) = self.check_dependency(option.key.as_str(), &option.depends_on) {
                return Err(err);
            }
            i = i + 1;
        }
        let mut i: usize = 0;
        while i < self.menus.len()
            invariant
                i <= self.menus.len(),
                parent_problem(self@, 0) is None,
                option_dependency_problem(self@, 0) is None,
                menu_dependency_problem(self@, 0) == menu_dependency_problem(self@, i as int),
            decreases self.menus.len() - i,
        {
            assert(self@.menus[i as int] == self.menus@[i as int]@);
            let menu = &self.menus[i];
            if let Err(err) = self.check_dependency(menu.id.as_str(), &menu.depends_on) {
                return Err(err);
            }
            i = i + 1;
        }
        let mut i: usize = 0;
        while i < self.options.len()
            invariant
                i <= self.options.len(),
                parent_problem(self@, 0) is None,
                option_dependency_problem(self@, 0) is None,
                menu_dependency_problem(self@, 0) is None,
                select_problem(self@, 0) == select_problem(self@, i as int),
            decreases self.options.len() - i,
        {
            assert(self@.options[i as int] == self.options@[i as int]@);
            let option = &self.options[i];
            if let Some(target) = self.find_stray_selected(&option.select) {
                let reason = concat3(
                    "`select` names `",
                    target.as_str(),
                    "`, which is not a bool option",
                );
                return Err(invalid(option.key.as_str(), reason.as_str()));
            }
            i = i + 1;
        }
        Ok(())
    }

    /// Looks a menu up by id.
    pub fn menu(&self, id: &str) -> (r: Option<&MenuDef>)
        ensures
            match r {
                None => !has_menu(self@.menus, id@),
                Some(menu) => exists|i: int|
                    {
                        &&& 0 <= i < self@.menus.len()
                        &&& #[trigger] self@.menus[i] == menu@
                        &&& menu@.id == id@
                        &&& forall|j: int| 0 <= j < i ==> (#[trigger] self@.menus[j]).id != id@
                    },
            },
    {
        let mut i: usize = 0;
        while i < self.menus.len()
            invariant
                i <= self.menus.len(),
                forall|j: int| 0 <= j < i ==> (#[trigger] self@.menus[j]).id != id@,
            decreases self.menus.len() - i,
        {
            assert(self@.menus[i as int] == self.menus@[i as int]@);
            if same(self.menus[i].id.as_str(), id) {
                return Some(&self.menus[i]);
            }
            i = i + 1;
        }
        None
    }

    /// The entries of a menu, in order. `None` is the top level.
    pub fn entries(&self, menu: Option<&str>) -> (r: Vec<Entry>)
        ensures
            r@ == entries_of(
                self@.placed,
                match menu {
                    None => None,
                    Some(id) => Some(id@),
                },
            ),
    {
        let ghost wanted = match menu {
            None => None,
            Some(id) => Some(id@),
        };
        let mut out: Vec<Entry> = Vec::new();
        let mut i: usize = 0;
        assert(self@.placed.take(0) =~= seq![]);
        while i < self.placed.len()
            invariant
                i <= self.placed.len(),
                wanted == (match menu {
                    None => None,
                    Some(id) => Some(id@),
                }),
                out@ == entries_of(self@.placed.take(i as int), wanted),
            decreases self.placed.len() - i,
        {
            assert(self@.placed[i as int] == self.placed@[i as int]@);
            assert(self@.placed.take(i + 1).drop_last() =~= self@.placed.take(i as int));
            let inside = match (&self.placed[i].parent, menu) {
                (None, None) => true,
                (Some(parent), Some(id)) => same(parent.as_str(), id),
                _ => false,
            };
            if inside {
                out.push(self.placed[i].entry);
            }
            i = i + 1;
        }
        assert(self@.placed.take(i as int) =~= self@.placed);
        out
    }

    /// The menu an option sits in, if any.
    pub fn parent_of(&self, key: &str) -> (r: Option<&str>)
        ensures
            (match r {
                None => None,
                Some(parent) => Some(parent@),
            }) == self@.parent(key@),
    {
        let place = match self.place(key) {
            None => {
                return None;
            },
            Some(place) => place,
        };
        let wanted = Entry::Option(place);
        let mut i: usize = 0;
        while i < self.placed.len()
            invariant
                i <= self.placed.len(),
                wanted == Entry::Option(place),
                option_place(self@.options, key@, 0) == Some(place as int),
                parent_from(self@.placed, wanted, 0) == parent_from(
                    self@.placed,
                    wanted,
                    i as int,
                ),
            decreases self.placed.len() - i,
        {
            assert(self@.placed[i as int] == self.placed@[i as int]@);
            if self.placed[i].entry == wanted {
                return match &self.placed[i].parent {
                    None => None,
                    Some(parent) => Some(parent.as_str()),
                };
            }
            i = i + 1;
        }
        None
    }
}

/// The entries that stand in a menu, in file order.
pub open spec fn entries_of(
    placed: Seq<(Option<Seq<char>>, Entry)>,
    menu: Option<Seq<char>>,
) -> Seq<Entry>
    decreases placed.len(),
{
    if placed.len() == 0 {
        seq![]
    } else {
        let before = entries_of(placed.drop_last(), menu);
        if placed.last().0 == menu {
            before.push(placed.last().1)
        } else {
            before
        }
    }
}

/// The menu that an entry stands in, looked for from `from` on.
pub open spec fn parent_from(
    placed: Seq<(Option<Seq<char>>, Entry)>,
    entry: Entry,
    from: int,
) -> Option<Seq<char>>
    decreases placed.len() - from,
{
    if from < 0 || from >= placed.len() {
        None
    } else if placed[from].1 == entry {
        placed[from].0
    } else {
        parent_from(placed, entry, from + 1)
    }
}

proof fn missing_key_is_new(options: Seq<OptionModel>, key: Seq<char>, from: int)
    requires
        option_place(options, key, from) is None,
        0 <= from,
    ensures
        forall|i: int| from <= i < options.len() ==> (#[trigger] options[i]).key != key,
    decreases options.len() - from,
{
    if from < options.len() {
        missing_key_is_new(options, key, from + 1);
    }
}

proof fn item_keeps_sound(model: SchemaModel, item: ItemModel)
    requires
        model.sound(),
        with_item(model, item) is Ok,
        model.menus.len() < usize::MAX,
        model.options.len() < usize::MAX,
    ensures
        with_item(model, item)->Ok_0.sound(),
{
    let after = with_item(model, item)->Ok_0;
    if item.kind == "menu"@ {
        assert forall|i: int| 0 <= i < after.placed.len() implies sound_entry(
            after,
            (#[trigger] after.placed[i]).1,
        ) by {
            if i < model.placed.len() {
                assert(sound_entry(model, model.placed[i].1));
            }
        }
    } else {
        let key = item.key->0;
        missing_key_is_new(model.options, key, 0);
        assert forall|i: int| 0 <= i < after.options.len() implies sound_option(
            #[trigger] after.options[i],
        ) by {
            if i < model.options.len() {
                assert(sound_option(model.options[i]));
            }
        }
        assert forall|i: int| 0 <= i < after.placed.len() implies sound_entry(
            after,
            (#[trigger] after.placed[i]).1,
        ) by {
            if i < model.placed.len() {
                assert(sound_entry(model, model.placed[i].1));
            }
        }
    }
}

proof fn items_keep_sound(model: SchemaModel, items: Seq<ItemModel>, from: int)
    requires
        model.sound(),
        0 <= from <= items.len(),
        model.menus.len() <= from,
        model.options.len() <= from,
        items.len() <= usize::MAX,
        with_items(model, items, from) is Ok,
    ensures
        with_items(model, items, from)->Ok_0.sound(),
    decreases items.len() - from,
{
    if from < items.len() {
        item_keeps_sound(model, items[from]);
        items_keep_sound(with_item(model, items[from])->Ok_0, items, from + 1);
    }
}

proof fn parents_are_menus(model: SchemaModel, from: int)
    requires
        0 <= from,
        parent_problem(model, from) is None,
    ensures
        forall|i: int|
            from <= i < model.placed.len() ==> ((#[trigger] model.placed[i]).0 matches Some(parent)
                ==> has_menu(model.menus, parent)),
    decreases model.placed.len() - from,
{
    if from < model.placed.len() {
        parents_are_menus(model, from + 1);
    }
}

proof fn no_stray_keys(model: SchemaModel, keys: Seq<Seq<char>>, from: int)
    requires
        0 <= from,
        stray_key(model, keys, from) is None,
    ensures
        forall|i: int| from <= i < keys.len() ==> model.has_bool(#[trigger] keys[i]),
    decreases keys.len() - from,
{
    if from < keys.len() {
        no_stray_keys(model, keys, from + 1);
    }
}

proof fn option_dependencies_are_sound(model: SchemaModel, from: int)
    requires
        0 <= from,
        option_dependency_problem(model, from) is None,
    ensures
        forall|i: int|
            from <= i < model.options.len() ==> sound_dependency(
                model,
                (#[trigger] model.options[i]).depends_on,
            ),
    decreases model.options.len() - from,
{
    if from < model.options.len() {
        option_dependencies_are_sound(model, from + 1);
        if let Some(formula) = model.options[from].depends_on {
            no_stray_keys(model, formula.keys(), 0);
        }
    }
}

proof fn menu_dependencies_are_sound(model: SchemaModel, from: int)
    requires
        0 <= from,
        menu_dependency_problem(model, from) is None,
    ensures
        forall|i: int|
            from <= i < model.menus.len() ==> sound_dependency(
                model,
                (#[trigger] model.menus[i]).depends_on,
            ),
    decreases model.menus.len() - from,
{
    if from < model.menus.len() {
        menu_dependencies_are_sound(model, from + 1);
        if let Some(formula) = model.menus[from].depends_on {
            no_stray_keys(model, formula.keys(), 0);
        }
    }
}

proof fn selects_are_sound(model: SchemaModel, from: int)
    requires
        0 <= from,
        select_problem(model, from) is None,
    ensures
        forall|i: int|
            from <= i < model.options.len() ==> all_bools(
                model,
                (#[trigger] model.options[i]).select,
            ),
    decreases model.options.len() - from,
{
    if from < model.options.len() {
        selects_are_sound(model, from + 1);
        no_stray_keys(model, model.options[from].select, 0);
    }
}

/// Every schema that is accepted is consistent: no key occurs twice, every default is allowed by
/// its own option, and everything that is referred to is there.
pub proof fn accepted_schemas_are_consistent(items: Seq<ItemModel>)
    requires
        schema_of(items) is Ok,
        items.len() <= usize::MAX,
    ensures
        schema_of(items)->Ok_0.sound(),
        schema_of(items)->Ok_0.closed_under_references(),
{
    items_keep_sound(SchemaModel::empty(), items, 0);
    let model = schema_of(items)->Ok_0;
    parents_are_menus(model, 0);
    option_dependencies_are_sound(model, 0);
    menu_dependencies_are_sound(model, 0);
    selects_are_sound(model, 0);
}

/// A value is accepted for an option of its own type only: either truth value for a switch, a
/// number within the bounds, both of them included, one of the choices, or any text, which must
/// be a binding where one is asked for.
pub proof fn values_are_accepted_within_bounds(
    sort: Sort,
    flag: bool,
    number: int,
    text: Seq<char>,
)
    ensures
        complaint(sort, Setting::Bool(flag)) is None <==> sort is Bool,
        complaint(sort, Setting::Int(number)) is None <==> (sort matches Sort::Int { min, max }
            && !(number < min) && !(number > max)),
        complaint(sort, Setting::Text(text)) is None <==> match sort {
            Sort::Text { pattern: None } => true,
            Sort::Text { pattern: Some(_) } => chord_of(text) is Ok,
            Sort::Choice { choices } => exists|i: int|
                0 <= i < choices.len() && #[trigger] choices[i] == text,
            _ => false,
        },
{
}

/// An option is found under its key, and under no other.
pub proof fn options_are_found_by_key(options: Seq<OptionModel>, key: Seq<char>, from: int)
    requires
        0 <= from <= options.len(),
    ensures
        match option_place(options, key, from) {
            Some(i) => {
                &&& from <= i < options.len()
                &&& options[i].key == key
                &&& forall|j: int| from <= j < i ==> (#[trigger] options[j]).key != key
            },
            None => forall|j: int|
                from <= j < options.len() ==> (#[trigger] options[j]).key != key,
        },
    decreases options.len() - from,
{
    if from < options.len() {
        options_are_found_by_key(options, key, from + 1);
    }
}

/// Keys of options are a section and a name with one dot between them, and neither is empty.
pub proof fn option_keys_are_section_and_name(key: Seq<char>)
    ensures
        is_option_key(key) <==> exists|section: Seq<char>, name: Seq<char>|
            section.len() > 0 && name.len() > 0 && !section.contains('.') && !name.contains('.')
                && key == #[trigger] (section.push('.') + name),
{
    crate::text::pieces_join_again(key, '.', 0);
    crate::text::cutting_is_at_the_first(key, '.');
    crate::text::first_at_is_first(key, '.', 0);
    let j = crate::text::first_at(key, '.', 0);
    let all = pieces(key, '.', 0);
    if j < key.len() {
        let rest = pieces(key, '.', j + 1);
        let section = key.take(j);
        let name = key.skip(j + 1);
        crate::text::pieces_join_again(key, '.', j + 1);
        crate::text::first_at_is_first(key, '.', j + 1);
        let k = crate::text::first_at(key, '.', j + 1);
        assert(all =~= seq![key.subrange(0, j)] + rest);
        assert(key =~= section.push('.') + name);
        if is_option_key(key) {
            assert(rest.len() == 1);
            assert(rest[0] =~= name) by {
                if k < key.len() {
                    crate::text::pieces_join_again(key, '.', k + 1);
                }
            }
            assert(!section.contains('.')) by {
                if section.contains('.') {
                    let i = choose|i: int| 0 <= i < section.len() && section[i] == '.';
                    assert(key[i] == '.');
                }
            }
            assert(section.len() > 0 && name.len() > 0);
        }
        assert forall|s: Seq<char>, n: Seq<char>|
            s.len() > 0 && n.len() > 0 && !s.contains('.') && !n.contains('.') && key == #[trigger] (
            s.push('.') + n) implies is_option_key(key) by {
            assert(key[s.len() as int] == '.');
            assert(j == s.len()) by {
                if j < s.len() {
                    assert(s[j] == key[j]);
                }
            }
            assert(name =~= n);
            if k < key.len() {
                assert(key[k] == n[k - j - 1]);
            }
            assert(rest.len() == 1);
            assert(key[0] == s[0]);
            assert(key.last() == n[n.len() - 1]);
        }
    } else {
        assert forall|s: Seq<char>, n: Seq<char>|
            key == #[trigger] (s.push('.') + n) implies key.contains('.') by {
            assert(key[s.len() as int] == '.');
        }
    }
}

/// An item becomes a menu or an option with what it says of itself, behind those before it, and
/// stands in the menu that it names.
pub proof fn items_become_menus_or_options(model: SchemaModel, item: ItemModel)
    requires
        with_item(model, item) is Ok,
        model.menus.len() < usize::MAX,
        model.options.len() < usize::MAX,
    ensures
        ({
            let after = with_item(model, item)->Ok_0;
            &&& after.placed.drop_last() == model.placed && after.placed.len() == model.placed.len()
                + 1
            &&& after.placed.last().0 == item.parent
            &&& item.kind == "menu"@ ==> {
                let menu = after.menus.last();
                &&& after.options == model.options
                &&& after.menus == model.menus.push(menu)
                &&& item.id == Some(menu.id)
                &&& menu.prompt == item.prompt && menu.help == item.help
                &&& after.placed.last().1 == Entry::Menu(model.menus.len() as usize)
            }
            &&& item.kind != "menu"@ ==> {
                let option = after.options.last();
                &&& after.menus == model.menus
                &&& after.options == model.options.push(option)
                &&& item.key == Some(option.key)
                &&& option.prompt == item.prompt && option.help == item.help
                &&& item.default == Some(option.default) && item.apply == Some(option.apply)
                &&& option.select == item.select
                &&& after.placed.last().1 == Entry::Option(model.options.len() as usize)
            }
        }),
{
    let after = with_item(model, item)->Ok_0;
    assert(after.placed.drop_last() =~= model.placed);
    if item.kind == "menu"@ {
        assert(after.menus =~= model.menus.push(after.menus.last()));
    } else {
        assert(after.options =~= model.options.push(after.options.last()));
    }
}

/// The kinds of options: a switch, a number between bounds that must both be given and not cross,
/// a text, and a choice among at least one.
pub proof fn kinds_of_options(item: ItemModel)
    ensures
        item.kind == "bool"@ ==> sort_of(item) == Ok::<Sort, Seq<char>>(Sort::Bool),
        item.kind == "string"@ ==> sort_of(item) == Ok::<Sort, Seq<char>>(
            Sort::Text { pattern: item.pattern },
        ),
        item.kind == "int"@ ==> (sort_of(item) is Ok <==> item.min is Some && item.max is Some
            && item.min->0 <= item.max->0),
        item.kind == "int"@ && sort_of(item) is Ok ==> sort_of(item)->Ok_0 == (Sort::Int {
            min: item.min->0 as int,
            max: item.max->0 as int,
        }),
        item.kind == "choice"@ ==> (sort_of(item) is Ok <==> item.choices is Some
            && item.choices->0.len() > 0),
        item.kind == "choice"@ && sort_of(item) is Ok ==> sort_of(item)->Ok_0 == (Sort::Choice {
            choices: item.choices->0,
        }),
{
    reveal_strlit("bool");
    reveal_strlit("int");
    reveal_strlit("string");
    reveal_strlit("choice");
    assert("bool"@.len() == 4 && "int"@.len() == 3 && "string"@.len() == 6 && "choice"@.len()
        == 6);
    assert("string"@[0] != "choice"@[0]);
}

/// A key counts as a switch when there is an option of that key and it is one.
pub proof fn switches_are_bool_options(model: SchemaModel, key: Seq<char>, i: int)
    requires
        model.sound(),
    ensures
        model.has_bool(key) ==> exists|j: int|
            0 <= j < model.options.len() && (#[trigger] model.options[j]).key == key
                && model.options[j].kind is Bool,
        0 <= i < model.options.len() && model.options[i].key == key ==> (model.has_bool(key)
            <==> model.options[i].kind is Bool),
        0 <= i < model.options.len() && model.options[i].key == key ==> model.option(key) == Some(
            model.options[i],
        ),
{
    options_are_found_by_key(model.options, key, 0);
}

} // verus!
