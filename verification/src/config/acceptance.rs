//! Which lists of items make a schema.

use crate::config::expr::Formula;
use crate::config::schema::{
    complaint, default_of, dependency_of, has_menu, is_option_key,
    menu_dependency_problem, option_dependency_problem, option_place, parent_problem, schema_of,
    select_problem, sort_of, stray_key, with_item, with_items, ItemModel, MenuModel, OptionModel,
    Problem, SchemaModel, Setting, Sort,
};
use vstd::prelude::*;

verus! {

/// True when nothing is wrong with an item by itself.
pub open spec fn fits(item: ItemModel) -> bool {
    &&& dependency_of(item) is Ok
    &&& if item.kind == "menu"@ {
        item.id is Some
    } else {
        &&& item.key is Some
        &&& is_option_key(item.key->0)
        &&& sort_of(item) is Ok
        &&& item.default is Some
        &&& default_of(item.default->0, sort_of(item)->Ok_0) is Ok
        &&& complaint(
            sort_of(item)->Ok_0,
            default_of(item.default->0, sort_of(item)->Ok_0)->Ok_0,
        ) is None
        &&& item.apply is Some
        &&& item.select.len() > 0 ==> sort_of(item)->Ok_0 is Bool
    }
}

/// True when an item is the menu with this id.
pub open spec fn is_menu(item: ItemModel, id: Seq<char>) -> bool {
    item.kind == "menu"@ && item.id == Some(id)
}

/// True when an item is the bool option with this key.
pub open spec fn is_bool(item: ItemModel, key: Seq<char>) -> bool {
    item.kind == "bool"@ && item.key == Some(key)
}

/// True when one of the items is the menu with this id.
pub open spec fn lists_menu(items: Seq<ItemModel>, id: Seq<char>) -> bool {
    exists|j: int| 0 <= j < items.len() && is_menu(#[trigger] items[j], id)
}

/// True when one of the items is the bool option with this key.
pub open spec fn lists_bool(items: Seq<ItemModel>, key: Seq<char>) -> bool {
    exists|j: int| 0 <= j < items.len() && is_bool(#[trigger] items[j], key)
}

/// True when every one of the keys is that of a bool option among the items.
pub open spec fn lists_bools(items: Seq<ItemModel>, keys: Seq<Seq<char>>) -> bool {
    forall|k: int| 0 <= k < keys.len() ==> lists_bool(items, #[trigger] keys[k])
}

/// True when everything that an item refers to is among the items.
pub open spec fn refers_inside(items: Seq<ItemModel>, item: ItemModel) -> bool {
    &&& item.parent matches Some(parent) ==> lists_menu(items, parent)
    &&& dependency_of(item) matches Ok(Some(formula)) ==> lists_bools(items, formula.keys())
    &&& item.kind != "menu"@ ==> lists_bools(items, item.select)
}

/// True when no two options among the items share a key.
pub open spec fn keys_differ(items: Seq<ItemModel>) -> bool {
    forall|i: int, j: int|
        0 <= i < j < items.len() && (#[trigger] items[i]).kind != "menu"@ && (
        #[trigger] items[j]).kind != "menu"@ ==> items[i].key != items[j].key
}

/// True when an option was made of an item.
spec fn made_of(option: OptionModel, item: ItemModel) -> bool {
    &&& item.kind != "menu"@
    &&& item.key == Some(option.key)
    &&& sort_of(item) is Ok
    &&& option.kind == sort_of(item)->Ok_0
    &&& item.default is Some
    &&& default_of(item.default->0, option.kind) == Ok::<Setting, Seq<char>>(option.default)
    &&& item.apply == Some(option.apply)
    &&& dependency_of(item) is Ok
    &&& option.depends_on == dependency_of(item)->Ok_0
    &&& option.select == item.select
}

/// True when a menu was made of an item.
spec fn menu_made_of(menu: MenuModel, item: ItemModel) -> bool {
    &&& is_menu(item, menu.id)
    &&& dependency_of(item) is Ok
    &&& menu.depends_on == dependency_of(item)->Ok_0
}

/// True when one of the menus was made of an item.
#[verifier::opaque]
spec fn has_menu_of(menus: Seq<MenuModel>, item: ItemModel) -> bool {
    exists|k: int| 0 <= k < menus.len() && menu_made_of(#[trigger] menus[k], item)
}

/// True when a menu was made of one of the first `n` items.
#[verifier::opaque]
spec fn is_menu_of(menu: MenuModel, items: Seq<ItemModel>, n: int) -> bool {
    exists|i: int| 0 <= i < n && menu_made_of(menu, #[trigger] items[i])
}

/// True when one of the options was made of an item.
#[verifier::opaque]
spec fn has_option_of(options: Seq<OptionModel>, item: ItemModel) -> bool {
    exists|k: int| 0 <= k < options.len() && made_of(#[trigger] options[k], item)
}

/// True when an option was made of one of the first `n` items.
#[verifier::opaque]
spec fn is_option_of(option: OptionModel, items: Seq<ItemModel>, n: int) -> bool {
    exists|i: int| 0 <= i < n && made_of(option, #[trigger] items[i])
}

/// True when one of the first `n` items names this parent.
#[verifier::opaque]
spec fn is_parent_of(parent: Option<Seq<char>>, items: Seq<ItemModel>, n: int) -> bool {
    exists|i: int| 0 <= i < n && parent == (#[trigger] items[i]).parent
}

/// True when a schema was made of the first `n` items.
spec fn follows(model: SchemaModel, items: Seq<ItemModel>, n: int) -> bool {
    &&& forall|i: int|
        0 <= i < n && (#[trigger] items[i]).kind == "menu"@ ==> has_menu_of(model.menus, items[i])
    &&& forall|i: int|
        0 <= i < n && (#[trigger] items[i]).kind != "menu"@ ==> has_option_of(
            model.options,
            items[i],
        )
    &&& forall|k: int|
        0 <= k < model.menus.len() ==> is_menu_of(#[trigger] model.menus[k], items, n)
    &&& forall|k: int|
        0 <= k < model.options.len() ==> is_option_of(#[trigger] model.options[k], items, n)
    &&& forall|k: int|
        0 <= k < model.placed.len() ==> is_parent_of((#[trigger] model.placed[k]).0, items, n)
}

proof fn menus_grow(menus: Seq<MenuModel>, menu: MenuModel, item: ItemModel)
    ensures
        has_menu_of(menus, item) ==> has_menu_of(menus.push(menu), item),
        menu_made_of(menu, item) ==> has_menu_of(menus.push(menu), item),
{
    reveal(has_menu_of);
    let after = menus.push(menu);
    assert(after[menus.len() as int] == menu);
    if has_menu_of(menus, item) {
        let k = choose|k: int| 0 <= k < menus.len() && menu_made_of(#[trigger] menus[k], item);
        assert(after[k] == menus[k]);
    }
}

proof fn options_grow(options: Seq<OptionModel>, option: OptionModel, item: ItemModel)
    ensures
        has_option_of(options, item) ==> has_option_of(options.push(option), item),
        made_of(option, item) ==> has_option_of(options.push(option), item),
{
    reveal(has_option_of);
    let after = options.push(option);
    assert(after[options.len() as int] == option);
    if has_option_of(options, item) {
        let k = choose|k: int| 0 <= k < options.len() && made_of(#[trigger] options[k], item);
        assert(after[k] == options[k]);
    }
}

proof fn items_grow(
    menu: MenuModel,
    option: OptionModel,
    parent: Option<Seq<char>>,
    items: Seq<ItemModel>,
    n: int,
)
    requires
        0 <= n < items.len(),
    ensures
        is_menu_of(menu, items, n) || menu_made_of(menu, items[n]) ==> is_menu_of(
            menu,
            items,
            n + 1,
        ),
        is_option_of(option, items, n) || made_of(option, items[n]) ==> is_option_of(
            option,
            items,
            n + 1,
        ),
        is_parent_of(parent, items, n) || parent == items[n].parent ==> is_parent_of(
            parent,
            items,
            n + 1,
        ),
{
    reveal(is_menu_of);
    reveal(is_option_of);
    reveal(is_parent_of);
}

proof fn new_key_is_missing(options: Seq<OptionModel>, key: Seq<char>, from: int)
    requires
        0 <= from,
        forall|i: int| from <= i < options.len() ==> (#[trigger] options[i]).key != key,
    ensures
        option_place(options, key, from) is None,
    decreases options.len() - from,
{
    if from < options.len() {
        new_key_is_missing(options, key, from + 1);
    }
}

proof fn one_more_item(model: SchemaModel, items: Seq<ItemModel>, n: int)
    requires
        0 <= n < items.len(),
        fits(items[n]),
        keys_differ(items),
        follows(model, items, n),
    ensures
        with_item(model, items[n]) is Ok,
        follows(with_item(model, items[n])->Ok_0, items, n + 1),
{
    let item = items[n];
    let depends_on = dependency_of(item)->Ok_0;
    if item.kind != "menu"@ {
        let key = item.key->0;
        assert forall|k: int| 0 <= k < model.options.len() implies (
        #[trigger] model.options[k]).key != key by {
            reveal(is_option_of);
            let i = choose|i: int| 0 <= i < n && made_of(model.options[k], #[trigger] items[i]);
            assert(items[i].key != items[n].key);
        }
        new_key_is_missing(model.options, key, 0);
    }
    let after = with_item(model, item)->Ok_0;
    assert forall|i: int|
        0 <= i < n + 1 && (#[trigger] items[i]).kind == "menu"@ implies has_menu_of(
        after.menus,
        items[i],
    ) by {
        menus_grow(model.menus, after.menus.last(), items[i]);
    }
    assert forall|i: int|
        0 <= i < n + 1 && (#[trigger] items[i]).kind != "menu"@ implies has_option_of(
        after.options,
        items[i],
    ) by {
        options_grow(model.options, after.options.last(), items[i]);
    }
    assert forall|k: int| 0 <= k < after.menus.len() implies is_menu_of(
        #[trigger] after.menus[k],
        items,
        n + 1,
    ) by {
        if k < model.menus.len() {
            assert(after.menus[k] == model.menus[k]);
        }
        items_grow(after.menus[k], after.options.last(), None, items, n);
    }
    assert forall|k: int| 0 <= k < after.options.len() implies is_option_of(
        #[trigger] after.options[k],
        items,
        n + 1,
    ) by {
        if k < model.options.len() {
            assert(after.options[k] == model.options[k]);
        }
        items_grow(after.menus.last(), after.options[k], None, items, n);
    }
    assert forall|k: int| 0 <= k < after.placed.len() implies is_parent_of(
        (#[trigger] after.placed[k]).0,
        items,
        n + 1,
    ) by {
        if k < model.placed.len() {
            assert(after.placed[k] == model.placed[k]);
        }
        items_grow(after.menus.last(), after.options.last(), after.placed[k].0, items, n);
    }
}

proof fn all_items_join(model: SchemaModel, items: Seq<ItemModel>, from: int)
    requires
        0 <= from <= items.len(),
        forall|i: int| 0 <= i < items.len() ==> fits(#[trigger] items[i]),
        keys_differ(items),
        follows(model, items, from),
    ensures
        with_items(model, items, from) is Ok,
        follows(with_items(model, items, from)->Ok_0, items, items.len() as int),
    decreases items.len() - from,
{
    if from < items.len() {
        one_more_item(model, items, from);
        all_items_join(with_item(model, items[from])->Ok_0, items, from + 1);
    }
}

proof fn listed_menus_are_there(model: SchemaModel, items: Seq<ItemModel>, id: Seq<char>)
    requires
        follows(model, items, items.len() as int),
        lists_menu(items, id),
    ensures
        has_menu(model.menus, id),
{
    reveal(has_menu_of);
    let j = choose|j: int| 0 <= j < items.len() && is_menu(#[trigger] items[j], id);
    let k = choose|k: int|
        0 <= k < model.menus.len() && menu_made_of(#[trigger] model.menus[k], items[j]);
    assert(model.menus[k].id == id);
}

proof fn place_is_found(model: SchemaModel, key: Seq<char>, from: int, k: int)
    requires
        0 <= from <= k < model.options.len(),
        model.options[k].key == key,
    ensures
        option_place(model.options, key, from) matches Some(p) && from <= p < model.options.len()
            && model.options[p].key == key,
    decreases model.options.len() - from,
{
    if model.options[from].key != key {
        place_is_found(model, key, from + 1, k);
    }
}

proof fn listed_bools_are_there(model: SchemaModel, items: Seq<ItemModel>, key: Seq<char>)
    requires
        follows(model, items, items.len() as int),
        keys_differ(items),
        lists_bool(items, key),
    ensures
        model.has_bool(key),
{
    reveal_strlit("menu");
    reveal_strlit("bool");
    reveal(has_option_of);
    reveal(is_option_of);
    let j = choose|j: int| 0 <= j < items.len() && is_bool(#[trigger] items[j], key);
    assert("menu"@[0] != "bool"@[0]);
    assert(items[j].kind != "menu"@);
    let k = choose|k: int|
        0 <= k < model.options.len() && made_of(#[trigger] model.options[k], items[j]);
    place_is_found(model, key, 0, k);
    let p = option_place(model.options, key, 0)->0;
    let i = choose|i: int|
        0 <= i < items.len() && made_of(model.options[p], #[trigger] items[i]);
    assert(i == j) by {
        if i < j {
            assert(items[i].key != items[j].key);
        } else if j < i {
            assert(items[j].key != items[i].key);
        }
    }
}

proof fn no_key_strays(
    model: SchemaModel,
    items: Seq<ItemModel>,
    keys: Seq<Seq<char>>,
    from: int,
)
    requires
        0 <= from,
        follows(model, items, items.len() as int),
        keys_differ(items),
        lists_bools(items, keys),
    ensures
        stray_key(model, keys, from) is None,
    decreases keys.len() - from,
{
    if from < keys.len() {
        listed_bools_are_there(model, items, keys[from]);
        no_key_strays(model, items, keys, from + 1);
    }
}

proof fn parents_are_there(model: SchemaModel, items: Seq<ItemModel>, from: int)
    requires
        0 <= from,
        follows(model, items, items.len() as int),
        forall|i: int| 0 <= i < items.len() ==> refers_inside(items, #[trigger] items[i]),
    ensures
        parent_problem(model, from) is None,
    decreases model.placed.len() - from,
{
    if from < model.placed.len() {
        reveal(is_parent_of);
        let i = choose|i: int|
            0 <= i < items.len() && model.placed[from].0 == (#[trigger] items[i]).parent;
        if let Some(parent) = model.placed[from].0 {
            listed_menus_are_there(model, items, parent);
        }
        parents_are_there(model, items, from + 1);
    }
}

proof fn option_references_are_there(model: SchemaModel, items: Seq<ItemModel>, from: int)
    requires
        0 <= from,
        follows(model, items, items.len() as int),
        keys_differ(items),
        forall|i: int| 0 <= i < items.len() ==> refers_inside(items, #[trigger] items[i]),
    ensures
        option_dependency_problem(model, from) is None,
        select_problem(model, from) is None,
    decreases model.options.len() - from,
{
    if from < model.options.len() {
        reveal(is_option_of);
        let option = model.options[from];
        let i = choose|i: int| 0 <= i < items.len() && made_of(option, #[trigger] items[i]);
        assert(refers_inside(items, items[i]));
        if let Some(formula) = option.depends_on {
            no_key_strays(model, items, formula.keys(), 0);
        }
        no_key_strays(model, items, option.select, 0);
        option_references_are_there(model, items, from + 1);
    }
}

proof fn menu_references_are_there(model: SchemaModel, items: Seq<ItemModel>, from: int)
    requires
        0 <= from,
        follows(model, items, items.len() as int),
        keys_differ(items),
        forall|i: int| 0 <= i < items.len() ==> refers_inside(items, #[trigger] items[i]),
    ensures
        menu_dependency_problem(model, from) is None,
    decreases model.menus.len() - from,
{
    if from < model.menus.len() {
        reveal(is_menu_of);
        let menu = model.menus[from];
        let i = choose|i: int| 0 <= i < items.len() && menu_made_of(menu, #[trigger] items[i]);
        assert(refers_inside(items, items[i]));
        if let Some(formula) = menu.depends_on {
            no_key_strays(model, items, formula.keys(), 0);
        }
        menu_references_are_there(model, items, from + 1);
    }
}

/// Items of which nothing is wrong with any by itself, whose keys all differ, and which refer to
/// nothing but one another, make a schema.
pub proof fn consistent_items_are_accepted(items: Seq<ItemModel>)
    requires
        forall|i: int| 0 <= i < items.len() ==> fits(#[trigger] items[i]),
        forall|i: int| 0 <= i < items.len() ==> refers_inside(items, #[trigger] items[i]),
        keys_differ(items),
    ensures
        schema_of(items) is Ok,
{
    all_items_join(SchemaModel::empty(), items, 0);
    let model = with_items(SchemaModel::empty(), items, 0)->Ok_0;
    parents_are_there(model, items, 0);
    option_references_are_there(model, items, 0);
    menu_references_are_there(model, items, 0);
}

/// Every option of a schema that was made of consistent items is found by its key, and says what
/// its item says.
pub proof fn items_are_found(items: Seq<ItemModel>, i: int)
    requires
        forall|i: int| 0 <= i < items.len() ==> fits(#[trigger] items[i]),
        forall|i: int| 0 <= i < items.len() ==> refers_inside(items, #[trigger] items[i]),
        keys_differ(items),
        0 <= i < items.len(),
        items[i].kind != "menu"@,
    ensures
        schema_of(items) is Ok,
        ({
            let found = schema_of(items)->Ok_0.option(items[i].key->0);
            &&& found is Some
            &&& sort_of(items[i]) == Ok::<Sort, Seq<char>>(found->0.kind)
            &&& items[i].default == Some(found->0.default)
            &&& items[i].apply == Some(found->0.apply)
            &&& dependency_of(items[i]) == Ok::<Option<Formula>, Problem>(found->0.depends_on)
            &&& items[i].select == found->0.select
        }),
{
    consistent_items_are_accepted(items);
    all_items_join(SchemaModel::empty(), items, 0);
    let model = schema_of(items)->Ok_0;
    reveal(has_option_of);
    reveal(is_option_of);
    let key = items[i].key->0;
    let k = choose|k: int|
        0 <= k < model.options.len() && made_of(#[trigger] model.options[k], items[i]);
    place_is_found(model, key, 0, k);
    let p = option_place(model.options, key, 0)->0;
    let j = choose|j: int| 0 <= j < items.len() && made_of(model.options[p], #[trigger] items[j]);
    assert(i == j) by {
        if i < j {
            assert(items[i].key != items[j].key);
        } else if j < i {
            assert(items[j].key != items[i].key);
        }
    }
}

/// A schema that was made of items of which none selects anything selects nothing.
pub proof fn nothing_is_selected(items: Seq<ItemModel>, k: int)
    requires
        forall|i: int| 0 <= i < items.len() ==> fits(#[trigger] items[i]),
        forall|i: int| 0 <= i < items.len() ==> refers_inside(items, #[trigger] items[i]),
        keys_differ(items),
        forall|i: int| 0 <= i < items.len() ==> (#[trigger] items[i]).select.len() == 0,
        schema_of(items) is Ok,
        0 <= k < schema_of(items)->Ok_0.options.len(),
    ensures
        schema_of(items)->Ok_0.options[k].select.len() == 0,
{
    all_items_join(SchemaModel::empty(), items, 0);
    reveal(is_option_of);
    let model = schema_of(items)->Ok_0;
    assert(is_option_of(model.options[k], items, items.len() as int));
}

} // verus!
