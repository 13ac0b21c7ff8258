//! What the menus of a schema hold: every option and every submenu, each in one place.

use crate::config::schema::{
    accepted_schemas_are_consistent, entries_of, has_menu, option_place, parent_from, schema_of,
    sound_entry, with_item, with_items, Entry, ItemModel, SchemaModel,
};
use vstd::prelude::*;

verus! {

/// True when one entry comes before another of its kind in the file.
pub open spec fn comes_before(a: Entry, b: Entry) -> bool {
    match (a, b) {
        (Entry::Menu(i), Entry::Menu(j)) => i < j,
        (Entry::Option(i), Entry::Option(j)) => i < j,
        _ => true,
    }
}

/// True when an entry is placed somewhere.
pub open spec fn is_placed(model: SchemaModel, entry: Entry) -> bool {
    exists|k: int| 0 <= k < model.placed.len() && (#[trigger] model.placed[k]).1 == entry
}

/// True when every option and every menu is placed once, in file order.
pub open spec fn well_placed(model: SchemaModel) -> bool {
    &&& forall|k: int|
        0 <= k < model.placed.len() ==> sound_entry(model, (#[trigger] model.placed[k]).1)
    &&& forall|k: int, l: int|
        0 <= k < l < model.placed.len() ==> comes_before(
            (#[trigger] model.placed[k]).1,
            (#[trigger] model.placed[l]).1,
        )
    &&& forall|entry: Entry| sound_entry(model, entry) ==> #[trigger] is_placed(model, entry)
}

proof fn item_keeps_places(model: SchemaModel, item: ItemModel)
    requires
        well_placed(model),
        with_item(model, item) is Ok,
        model.menus.len() < usize::MAX,
        model.options.len() < usize::MAX,
    ensures
        well_placed(with_item(model, item)->Ok_0),
{
    let after = with_item(model, item)->Ok_0;
    let n = model.placed.len() as int;
    assert forall|k: int| 0 <= k < after.placed.len() implies sound_entry(
        after,
        (#[trigger] after.placed[k]).1,
    ) by {
        if k < n {
            assert(sound_entry(model, model.placed[k].1));
        }
    }
    assert forall|k: int, l: int| 0 <= k < l < after.placed.len() implies comes_before(
        (#[trigger] after.placed[k]).1,
        (#[trigger] after.placed[l]).1,
    ) by {
        assert(sound_entry(model, model.placed[k].1));
        if l < n {
            assert(comes_before(model.placed[k].1, model.placed[l].1));
        }
    }
    assert forall|entry: Entry| sound_entry(after, entry) implies #[trigger] is_placed(
        after,
        entry,
    ) by {
        if sound_entry(model, entry) {
            assert(is_placed(model, entry));
            let k = choose|k: int|
                0 <= k < model.placed.len() && (#[trigger] model.placed[k]).1 == entry;
            assert(after.placed[k].1 == entry);
        } else {
            assert(after.placed[n].1 == entry);
        }
    }
}

proof fn items_keep_places(model: SchemaModel, items: Seq<ItemModel>, from: int)
    requires
        well_placed(model),
        0 <= from <= items.len(),
        model.menus.len() <= from,
        model.options.len() <= from,
        items.len() <= usize::MAX,
        with_items(model, items, from) is Ok,
    ensures
        well_placed(with_items(model, items, from)->Ok_0),
    decreases items.len() - from,
{
    if from < items.len() {
        item_keeps_places(model, items[from]);
        items_keep_places(with_item(model, items[from])->Ok_0, items, from + 1);
    }
}

proof fn accepted_schemas_are_well_placed(items: Seq<ItemModel>)
    requires
        schema_of(items) is Ok,
        items.len() <= usize::MAX,
    ensures
        well_placed(schema_of(items)->Ok_0),
{
    items_keep_places(SchemaModel::empty(), items, 0);
}

/// Where the entry at `a` of a menu is placed.
spec fn origin(
    placed: Seq<(Option<Seq<char>>, Entry)>,
    menu: Option<Seq<char>>,
    a: int,
) -> int
    decreases placed.len(),
{
    if placed.len() == 0 {
        0
    } else if a == entries_of(placed.drop_last(), menu).len() {
        placed.len() - 1
    } else {
        origin(placed.drop_last(), menu, a)
    }
}

proof fn entry_has_origin(
    placed: Seq<(Option<Seq<char>>, Entry)>,
    menu: Option<Seq<char>>,
    a: int,
)
    requires
        0 <= a < entries_of(placed, menu).len(),
    ensures
        0 <= origin(placed, menu, a) < placed.len(),
        placed[origin(placed, menu, a)] == (menu, entries_of(placed, menu)[a]),
    decreases placed.len(),
{
    let before = entries_of(placed.drop_last(), menu);
    if a != before.len() {
        entry_has_origin(placed.drop_last(), menu, a);
    }
}

proof fn origins_increase(
    placed: Seq<(Option<Seq<char>>, Entry)>,
    menu: Option<Seq<char>>,
    a: int,
    b: int,
)
    requires
        0 <= a < b < entries_of(placed, menu).len(),
    ensures
        origin(placed, menu, a) < origin(placed, menu, b),
    decreases placed.len(),
{
    let before = entries_of(placed.drop_last(), menu);
    if b == before.len() {
        entry_has_origin(placed.drop_last(), menu, a);
    } else {
        origins_increase(placed.drop_last(), menu, a, b);
    }
}

proof fn placed_is_listed(
    placed: Seq<(Option<Seq<char>>, Entry)>,
    menu: Option<Seq<char>>,
    k: int,
)
    requires
        0 <= k < placed.len(),
        placed[k].0 == menu,
    ensures
        entries_of(placed, menu).contains(placed[k].1),
    decreases placed.len(),
{
    let before = entries_of(placed.drop_last(), menu);
    let all = entries_of(placed, menu);
    if k == placed.len() - 1 {
        assert(all[before.len() as int] == placed[k].1);
    } else {
        placed_is_listed(placed.drop_last(), menu, k);
        let a = choose|a: int| 0 <= a < before.len() && before[a] == placed[k].1;
        assert(all[a] == placed[k].1);
    }
}

proof fn parent_is_found(placed: Seq<(Option<Seq<char>>, Entry)>, entry: Entry, from: int, k: int)
    requires
        0 <= from <= k < placed.len(),
        placed[k].1 == entry,
        forall|l: int| from <= l < k ==> (#[trigger] placed[l]).1 != entry,
    ensures
        parent_from(placed, entry, from) == placed[k].0,
    decreases k - from,
{
    if from < k {
        assert(placed[from].1 != entry);
        parent_is_found(placed, entry, from + 1, k);
    }
}

/// The one place of an entry, and the menu that it stands in.
proof fn entry_has_one_place(model: SchemaModel, entry: Entry) -> (k: int)
    requires
        well_placed(model),
        sound_entry(model, entry),
    ensures
        0 <= k < model.placed.len(),
        model.placed[k].1 == entry,
        forall|l: int|
            0 <= l < model.placed.len() && (#[trigger] model.placed[l]).1 == entry ==> l == k,
        parent_from(model.placed, entry, 0) == model.placed[k].0,
{
    assert(is_placed(model, entry));
    let k = choose|k: int| 0 <= k < model.placed.len() && (#[trigger] model.placed[k]).1 == entry;
    assert forall|l: int| 0 <= l < model.placed.len() && (#[trigger] model.placed[l]).1
        == entry implies l == k by {
        if l < k {
            assert(comes_before(model.placed[l].1, model.placed[k].1));
        } else if k < l {
            assert(comes_before(model.placed[k].1, model.placed[l].1));
        }
    }
    parent_is_found(model.placed, entry, 0, k);
    k
}

/// The menus together hold every option and every submenu once: an entry stands in one list, the
/// top level or that of a menu that is there, and it stands in it once.
pub proof fn every_entry_stands_in_one_menu(items: Seq<ItemModel>, entry: Entry)
    requires
        schema_of(items) is Ok,
        items.len() <= usize::MAX,
        sound_entry(schema_of(items)->Ok_0, entry),
    ensures
        ({
            let model = schema_of(items)->Ok_0;
            let home = parent_from(model.placed, entry, 0);
            &&& home matches Some(id) ==> has_menu(model.menus, id)
            &&& entries_of(model.placed, home).contains(entry)
            &&& forall|menu: Option<Seq<char>>|
                menu != home ==> !(#[trigger] entries_of(model.placed, menu)).contains(entry)
            &&& forall|a: int, b: int|
                0 <= a < b < entries_of(model.placed, home).len() ==> !(#[trigger] entries_of(
                    model.placed,
                    home,
                )[a] == entry && #[trigger] entries_of(model.placed, home)[b] == entry)
        }),
{
    let model = schema_of(items)->Ok_0;
    accepted_schemas_are_well_placed(items);
    accepted_schemas_are_consistent(items);
    let k = entry_has_one_place(model, entry);
    let home = model.placed[k].0;
    placed_is_listed(model.placed, home, k);
    assert forall|menu: Option<Seq<char>>| menu != home implies !(#[trigger] entries_of(
        model.placed,
        menu,
    )).contains(entry) by {
        let listed = entries_of(model.placed, menu);
        if listed.contains(entry) {
            let a = choose|a: int| 0 <= a < listed.len() && listed[a] == entry;
            entry_has_origin(model.placed, menu, a);
            assert(model.placed[origin(model.placed, menu, a)].1 == entry);
        }
    }
    let listed = entries_of(model.placed, home);
    assert forall|a: int, b: int| 0 <= a < b < listed.len() implies !(#[trigger] listed[a] == entry
        && #[trigger] listed[b] == entry) by {
        if listed[a] == entry && listed[b] == entry {
            entry_has_origin(model.placed, home, a);
            entry_has_origin(model.placed, home, b);
            origins_increase(model.placed, home, a, b);
            assert(model.placed[origin(model.placed, home, a)].1 == entry);
            assert(model.placed[origin(model.placed, home, b)].1 == entry);
        }
    }
}

/// A menu lists options and submenus that are there, in file order; a menu that is not there
/// lists nothing.
pub proof fn entries_come_in_file_order(items: Seq<ItemModel>, menu: Option<Seq<char>>)
    requires
        schema_of(items) is Ok,
        items.len() <= usize::MAX,
    ensures
        ({
            let model = schema_of(items)->Ok_0;
            let listed = entries_of(model.placed, menu);
            &&& forall|a: int|
                0 <= a < listed.len() ==> sound_entry(model, #[trigger] listed[a])
            &&& forall|a: int, b: int|
                0 <= a < b < listed.len() ==> comes_before(
                    #[trigger] listed[a],
                    #[trigger] listed[b],
                )
            &&& menu matches Some(id) ==> (has_menu(model.menus, id) || listed.len() == 0)
        }),
{
    let model = schema_of(items)->Ok_0;
    let listed = entries_of(model.placed, menu);
    accepted_schemas_are_well_placed(items);
    accepted_schemas_are_consistent(items);
    assert forall|a: int| 0 <= a < listed.len() implies sound_entry(
        model,
        #[trigger] listed[a],
    ) by {
        entry_has_origin(model.placed, menu, a);
        assert(sound_entry(model, model.placed[origin(model.placed, menu, a)].1));
    }
    assert forall|a: int, b: int| 0 <= a < b < listed.len() implies comes_before(
        #[trigger] listed[a],
        #[trigger] listed[b],
    ) by {
        entry_has_origin(model.placed, menu, a);
        entry_has_origin(model.placed, menu, b);
        origins_increase(model.placed, menu, a, b);
        assert(comes_before(
            model.placed[origin(model.placed, menu, a)].1,
            model.placed[origin(model.placed, menu, b)].1,
        ));
    }
    if listed.len() > 0 {
        entry_has_origin(model.placed, menu, 0);
        assert(model.placed[origin(model.placed, menu, 0)].0 == menu);
    }
}

proof fn place_of_option(model: SchemaModel, key: Seq<char>, from: int)
    requires
        0 <= from,
    ensures
        match option_place(model.options, key, from) {
            Some(i) => from <= i < model.options.len() && model.options[i].key == key,
            None => forall|i: int|
                from <= i < model.options.len() ==> (#[trigger] model.options[i]).key != key,
        },
    decreases model.options.len() - from,
{
    if from < model.options.len() {
        place_of_option(model, key, from + 1);
    }
}

/// An option sits in a menu exactly when that menu lists it; so an option at the top level, and
/// one that is not there, sit in none.
pub proof fn parents_list_their_options(items: Seq<ItemModel>, key: Seq<char>, menu: Seq<char>)
    requires
        schema_of(items) is Ok,
        items.len() <= usize::MAX,
    ensures
        schema_of(items)->Ok_0.parent(key) == Some(menu) <==> exists|i: int|
            0 <= i < schema_of(items)->Ok_0.options.len() && (#[trigger] schema_of(
                items,
            )->Ok_0.options[i]).key == key && entries_of(
                schema_of(items)->Ok_0.placed,
                Some(menu),
            ).contains(Entry::Option(i as usize)),
{
    let model = schema_of(items)->Ok_0;
    let listed = entries_of(model.placed, Some(menu));
    accepted_schemas_are_well_placed(items);
    accepted_schemas_are_consistent(items);
    options_fit(SchemaModel::empty(), items, 0);
    place_of_option(model, key, 0);
    if model.parent(key) == Some(menu) {
        let i = option_place(model.options, key, 0)->0;
        let k = entry_has_one_place(model, Entry::Option(i as usize));
        placed_is_listed(model.placed, Some(menu), k);
        assert(model.options[i].key == key && listed.contains(Entry::Option(i as usize)));
    }
    if exists|i: int|
        0 <= i < model.options.len() && (#[trigger] model.options[i]).key == key
            && listed.contains(Entry::Option(i as usize)) {
        let i = choose|i: int|
            0 <= i < model.options.len() && (#[trigger] model.options[i]).key == key
                && listed.contains(Entry::Option(i as usize));
        let entry = Entry::Option(i as usize);
        let at = option_place(model.options, key, 0)->0;
        assert(at == i) by {
            if at < i {
                assert(model.options[at].key != model.options[i].key);
            } else if i < at {
                assert(model.options[i].key != model.options[at].key);
            }
        }
        let a = choose|a: int| 0 <= a < listed.len() && listed[a] == entry;
        entry_has_origin(model.placed, Some(menu), a);
        let k = entry_has_one_place(model, entry);
        assert(model.placed[origin(model.placed, Some(menu), a)].1 == entry);
    }
}

proof fn options_fit(model: SchemaModel, items: Seq<ItemModel>, from: int)
    requires
        0 <= from <= items.len(),
        model.options.len() <= from,
        with_items(model, items, from) is Ok,
    ensures
        with_items(model, items, from)->Ok_0.options.len() <= items.len(),
    decreases items.len() - from,
{
    if from < items.len() {
        options_fit(with_item(model, items[from])->Ok_0, items, from + 1);
    }
}

} // verus!
