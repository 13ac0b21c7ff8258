//! The settings that Tessera has.

use crate::config::acceptance::{
    consistent_items_are_accepted, fits, is_bool, is_menu, items_are_found, keys_differ,
    lists_bool, lists_menu, nothing_is_selected, refers_inside,
};
use crate::config::binding::{chord_of, shown_bindings_parse, Chord};
use crate::config::document::Values;
use crate::config::expr::{formula_of, shown_formulas_parse_back, Formula};
use crate::config::schema::{
    is_option_key, item_views, schema_of, Apply, ItemModel, Pattern, Problem, RawDefault, RawItem,
    Schema, SchemaModel, Setting,
};
use crate::config::values::{effective_value, nothing_set_means_the_default, text_in};
use crate::text::{
    before_spaces, copied, first_at, first_at_is_first, is_space, pieces, skip_spaces, views,
};
use vstd::prelude::*;

verus! {

/// A menu at the top level.
pub open spec fn menu_item(id: Seq<char>, prompt: Seq<char>, help: Seq<char>) -> ItemModel {
    ItemModel {
        kind: "menu"@,
        id: Some(id),
        key: None,
        parent: None,
        prompt,
        help,
        default: None,
        apply: None,
        min: None,
        max: None,
        choices: None,
        pattern: None,
        depends_on: None,
        select: Seq::empty(),
    }
}

/// An option without further conditions.
pub open spec fn option_item(
    kind: Seq<char>,
    key: Seq<char>,
    parent: Seq<char>,
    prompt: Seq<char>,
    help: Seq<char>,
    default: Setting,
    apply: Apply,
) -> ItemModel {
    ItemModel {
        kind,
        id: None,
        key: Some(key),
        parent: Some(parent),
        prompt,
        help,
        default: Some(default),
        apply: Some(apply),
        min: None,
        max: None,
        choices: None,
        pattern: None,
        depends_on: None,
        select: Seq::empty(),
    }
}

/// The settings, menu by menu.
pub open spec fn builtin_items() -> Seq<ItemModel> {
    seq![
        menu_item("general"@, "General"@, "Programs, themes and the modifier key."@),
        menu_item("display"@, "Display"@, "What the screens show."@),
        menu_item("bindings"@, "Key bindings"@, "Keys that can be chosen. Movement and workspace keys are fixed."@),
        menu_item("layout"@, "Layout"@, "How tiles are spaced."@),
        menu_item("focus"@, "Focus"@, "Which window gets the keyboard."@),
        menu_item("launcher"@, "Launcher"@, "How the launcher looks and where it opens."@),
        option_item("string"@, "general.terminal"@, "general"@, "Terminal"@, "The terminal program, with arguments if it needs any."@, Setting::Text("foot"@), Apply::Live),
        ItemModel { choices: Some(seq!["auto"@, "alt"@, "super"@]), ..option_item("choice"@, "general.mod_key"@, "general"@, "Modifier key"@, "Automatic is Alt while nested in another desktop, and Super otherwise."@, Setting::Text("auto"@), Apply::Live) },
        option_item("string"@, "general.qt_platform_theme"@, "general"@, "Qt platform theme"@, "Handed to programs as QT_QPA_PLATFORMTHEME. Empty leaves it unset."@, Setting::Text(""@), Apply::Live),
        option_item("string"@, "general.gtk_theme"@, "general"@, "GTK theme"@, "Handed to programs as GTK_THEME. Empty leaves it unset."@, Setting::Text(""@), Apply::Live),
        option_item("string"@, "display.mode"@, "display"@, "Display mode"@, "preferred, or a size such as 1920x1080 or 1920x1080@60."@, Setting::Text("preferred"@), Apply::Live),
        ItemModel { pattern: Some(Pattern::Binding), ..option_item("string"@, "bindings.launcher"@, "bindings"@, "Open the launcher"@, ""@, Setting::Text("Mod+space"@), Apply::Live) },
        ItemModel { pattern: Some(Pattern::Binding), ..option_item("string"@, "bindings.launcher_alt"@, "bindings"@, "Open the launcher, second key"@, "For desktops that keep the first key for themselves."@, Setting::Text("Mod+backslash"@), Apply::Live) },
        ItemModel { pattern: Some(Pattern::Binding), ..option_item("string"@, "bindings.apps"@, "bindings"@, "Open the application overlay"@, ""@, Setting::Text("Mod+a"@), Apply::Live) },
        ItemModel { pattern: Some(Pattern::Binding), ..option_item("string"@, "bindings.terminal"@, "bindings"@, "Open a terminal"@, ""@, Setting::Text("Mod+Return"@), Apply::Live) },
        ItemModel { pattern: Some(Pattern::Binding), ..option_item("string"@, "bindings.close"@, "bindings"@, "Close the focused window"@, ""@, Setting::Text("Mod+q"@), Apply::Live) },
        ItemModel { pattern: Some(Pattern::Binding), ..option_item("string"@, "bindings.quit"@, "bindings"@, "Quit"@, ""@, Setting::Text("Mod+Shift+e"@), Apply::Live) },
        ItemModel { min: Some(0), max: Some(64), ..option_item("int"@, "layout.gaps"@, "layout"@, "Gaps"@, "Pixels between tiles, and between tiles and the screen edge."@, Setting::Int(8), Apply::Live) },
        option_item("bool"@, "layout.smart_gaps"@, "layout"@, "Smart gaps"@, "No gaps when a workspace holds a single window."@, Setting::Bool(false), Apply::Live),
        option_item("bool"@, "layout.snap_to_cells"@, "layout"@, "Snap to cells"@, "Shrink tiles to whole cells of the launcher's font."@, Setting::Bool(false), Apply::Live),
        option_item("bool"@, "focus.new_windows"@, "focus"@, "New windows take focus"@, ""@, Setting::Bool(true), Apply::Live),
        option_item("bool"@, "focus.follows_mouse"@, "focus"@, "Focus follows the mouse"@, ""@, Setting::Bool(false), Apply::Live),
        ItemModel { depends_on: Some("focus.follows_mouse"@), ..option_item("bool"@, "focus.follows_mouse_skips_launcher"@, "focus"@, "Skip the launcher"@, "Passing over the launcher leaves the focus where it is."@, Setting::Bool(true), Apply::Live) },
        option_item("string"@, "launcher.font"@, "launcher"@, "Font"@, "A monospace font family."@, Setting::Text("JetBrains Mono"@), Apply::Restart),
        ItemModel { min: Some(6), max: Some(72), ..option_item("int"@, "launcher.font_size"@, "launcher"@, "Font size"@, "In pixels."@, Setting::Int(16), Apply::Restart) },
        ItemModel { min: Some(10), max: Some(90), ..option_item("int"@, "launcher.beside_share"@, "launcher"@, "Share of a terminal beside the launcher"@, "In percent of the launcher's tile."@, Setting::Int(60), Apply::Live) },
        ItemModel { choices: Some(seq!["left"@, "right"@, "above"@, "below"@]), ..option_item("choice"@, "launcher.side"@, "launcher"@, "Side"@, "Which side of the focused window the launcher opens on."@, Setting::Text("left"@), Apply::Live) },
    ]
}

fn menu(id: &str, prompt: &str, help: &str) -> (r: RawItem)
    ensures
        r@ == menu_item(id@, prompt@, help@),
{
    let r = RawItem {
        kind: copied("menu"),
        id: Some(copied(id)),
        key: None,
        parent: None,
        prompt: copied(prompt),
        help: copied(help),
        default: None,
        apply: None,
        min: None,
        max: None,
        choices: None,
        pattern: None,
        depends_on: None,
        select: Vec::new(),
    };
    assert(views(r.select@) =~= Seq::empty());
    r
}

fn option(
    kind: &str,
    key: &str,
    parent: &str,
    prompt: &str,
    help: &str,
    default: RawDefault,
    apply: Apply,
) -> (r: RawItem)
    ensures
        r@ == option_item(kind@, key@, parent@, prompt@, help@, default@, apply),
{
    let r = RawItem {
        kind: copied(kind),
        id: None,
        key: Some(copied(key)),
        parent: Some(copied(parent)),
        prompt: copied(prompt),
        help: copied(help),
        default: Some(default),
        apply: Some(apply),
        min: None,
        max: None,
        choices: None,
        pattern: None,
        depends_on: None,
        select: Vec::new(),
    };
    assert(views(r.select@) =~= Seq::empty());
    r
}

fn texts3(a: &str, b: &str, c: &str) -> (r: Vec<String>)
    ensures
        views(r@) == seq![a@, b@, c@],
{
    let mut out: Vec<String> = Vec::new();
    out.push(copied(a));
    out.push(copied(b));
    out.push(copied(c));
    assert(views(out@) =~= seq![a@, b@, c@]);
    out
}

fn texts4(a: &str, b: &str, c: &str, d: &str) -> (r: Vec<String>)
    ensures
        views(r@) == seq![a@, b@, c@, d@],
{
    let mut out: Vec<String> = Vec::new();
    out.push(copied(a));
    out.push(copied(b));
    out.push(copied(c));
    out.push(copied(d));
    assert(views(out@) =~= seq![a@, b@, c@, d@]);
    out
}

fn items() -> (r: Vec<RawItem>)
    ensures
        item_views(r@) == builtin_items(),
{
    let mut items: Vec<RawItem> = Vec::new();
    items.push(menu("general", "General", "Programs, themes and the modifier key."));
    items.push(menu("display", "Display", "What the screens show."));
    items.push(menu("bindings", "Key bindings", "Keys that can be chosen. Movement and workspace keys are fixed."));
    items.push(menu("layout", "Layout", "How tiles are spaced."));
    items.push(menu("focus", "Focus", "Which window gets the keyboard."));
    items.push(menu("launcher", "Launcher", "How the launcher looks and where it opens."));
    items.push(option("string", "general.terminal", "general", "Terminal", "The terminal program, with arguments if it needs any.", RawDefault::Text(copied("foot")), Apply::Live));
    let mut item = option("choice", "general.mod_key", "general", "Modifier key", "Automatic is Alt while nested in another desktop, and Super otherwise.", RawDefault::Text(copied("auto")), Apply::Live);
    item.choices = Some(texts3("auto", "alt", "super"));
    items.push(item);
    items.push(option("string", "general.qt_platform_theme", "general", "Qt platform theme", "Handed to programs as QT_QPA_PLATFORMTHEME. Empty leaves it unset.", RawDefault::Text(copied("")), Apply::Live));
    items.push(option("string", "general.gtk_theme", "general", "GTK theme", "Handed to programs as GTK_THEME. Empty leaves it unset.", RawDefault::Text(copied("")), Apply::Live));
    items.push(option("string", "display.mode", "display", "Display mode", "preferred, or a size such as 1920x1080 or 1920x1080@60.", RawDefault::Text(copied("preferred")), Apply::Live));
    let mut item = option("string", "bindings.launcher", "bindings", "Open the launcher", "", RawDefault::Text(copied("Mod+space")), Apply::Live);
    item.pattern = Some(Pattern::Binding);
    items.push(item);
    let mut item = option("string", "bindings.launcher_alt", "bindings", "Open the launcher, second key", "For desktops that keep the first key for themselves.", RawDefault::Text(copied("Mod+backslash")), Apply::Live);
    item.pattern = Some(Pattern::Binding);
    items.push(item);
    let mut item = option("string", "bindings.apps", "bindings", "Open the application overlay", "", RawDefault::Text(copied("Mod+a")), Apply::Live);
    item.pattern = Some(Pattern::Binding);
    items.push(item);
    let mut item = option("string", "bindings.terminal", "bindings", "Open a terminal", "", RawDefault::Text(copied("Mod+Return")), Apply::Live);
    item.pattern = Some(Pattern::Binding);
    items.push(item);
    let mut item = option("string", "bindings.close", "bindings", "Close the focused window", "", RawDefault::Text(copied("Mod+q")), Apply::Live);
    item.pattern = Some(Pattern::Binding);
    items.push(item);
    let mut item = option("string", "bindings.quit", "bindings", "Quit", "", RawDefault::Text(copied("Mod+Shift+e")), Apply::Live);
    item.pattern = Some(Pattern::Binding);
    items.push(item);
    let mut item = option("int", "layout.gaps", "layout", "Gaps", "Pixels between tiles, and between tiles and the screen edge.", RawDefault::Int(8), Apply::Live);
    item.min = Some(0);
    item.max = Some(64);
    items.push(item);
    items.push(option("bool", "layout.smart_gaps", "layout", "Smart gaps", "No gaps when a workspace holds a single window.", RawDefault::Bool(false), Apply::Live));
    items.push(option("bool", "layout.snap_to_cells", "layout", "Snap to cells", "Shrink tiles to whole cells of the launcher's font.", RawDefault::Bool(false), Apply::Live));
    items.push(option("bool", "focus.new_windows", "focus", "New windows take focus", "", RawDefault::Bool(true), Apply::Live));
    items.push(option("bool", "focus.follows_mouse", "focus", "Focus follows the mouse", "", RawDefault::Bool(false), Apply::Live));
    let mut item = option("bool", "focus.follows_mouse_skips_launcher", "focus", "Skip the launcher", "Passing over the launcher leaves the focus where it is.", RawDefault::Bool(true), Apply::Live);
    item.depends_on = Some(copied("focus.follows_mouse"));
    items.push(item);
    items.push(option("string", "launcher.font", "launcher", "Font", "A monospace font family.", RawDefault::Text(copied("JetBrains Mono")), Apply::Restart));
    let mut item = option("int", "launcher.font_size", "launcher", "Font size", "In pixels.", RawDefault::Int(16), Apply::Restart);
    item.min = Some(6);
    item.max = Some(72);
    items.push(item);
    let mut item = option("int", "launcher.beside_share", "launcher", "Share of a terminal beside the launcher", "In percent of the launcher's tile.", RawDefault::Int(60), Apply::Live);
    item.min = Some(10);
    item.max = Some(90);
    items.push(item);
    let mut item = option("choice", "launcher.side", "launcher", "Side", "Which side of the focused window the launcher opens on.", RawDefault::Text(copied("left")), Apply::Live);
    item.choices = Some(texts4("left", "right", "above", "below"));
    items.push(item);
    assert(item_views(items@) =~= builtin_items());
    items
}

/// The key of an item.
spec fn key_at(i: int) -> Seq<char> {
    builtin_items()[i].key->0
}

/// The length of every key and its eleventh character, by which the keys are told apart.
spec fn marks() -> Seq<(int, char)> {
    seq![
        (16, 'r'),
        (15, 'd'),
        (25, '_'),
        (17, 'k'),
        (12, 'd'),
        (17, 'a'),
        (21, 'a'),
        (13, 'p'),
        (17, 'e'),
        (14, 'l'),
        (13, 'u'),
        (11, 's'),
        (17, 'r'),
        (20, 'p'),
        (17, 'w'),
        (19, 'o'),
        (34, 'o'),
        (13, 'o'),
        (18, 'o'),
        (21, 'e'),
        (13, 'i'),
    ]
}

/// A key with one dot, inside it, is written as keys are.
proof fn one_dot(key: Seq<char>, dot: int)
    requires
        0 < dot,
        dot + 1 < key.len(),
        first_at(key, '.', 0) == dot,
        first_at(key, '.', dot + 1) == key.len(),
    ensures
        is_option_key(key),
{
    first_at_is_first(key, '.', 0);
    first_at_is_first(key, '.', dot + 1);
    assert(pieces(key, '.', dot + 1) =~= seq![key.subrange(dot + 1, key.len() as int)]);
    assert(pieces(key, '.', 0).len() == 2);
}

#[verifier::rlimit(60)]
proof fn keys_are_written(i: int)
    requires
        6 <= i < 27,
    ensures
        is_option_key(key_at(i)),
        marks()[i - 6] == (key_at(i).len() as int, key_at(i)[10]),
{
    reveal_with_fuel(first_at, 36);
    if i == 6 {
        reveal_strlit("general.terminal");
    } else if i == 7 {
        reveal_strlit("general.mod_key");
    } else if i == 8 {
        reveal_strlit("general.qt_platform_theme");
    } else if i == 9 {
        reveal_strlit("general.gtk_theme");
    } else if i == 10 {
        reveal_strlit("display.mode");
    } else if i == 11 {
        reveal_strlit("bindings.launcher");
    } else if i == 12 {
        reveal_strlit("bindings.launcher_alt");
    } else if i == 13 {
        reveal_strlit("bindings.apps");
    } else if i == 14 {
        reveal_strlit("bindings.terminal");
    } else if i == 15 {
        reveal_strlit("bindings.close");
    } else if i == 16 {
        reveal_strlit("bindings.quit");
    } else if i == 17 {
        reveal_strlit("layout.gaps");
    } else if i == 18 {
        reveal_strlit("layout.smart_gaps");
    } else if i == 19 {
        reveal_strlit("layout.snap_to_cells");
    } else if i == 20 {
        reveal_strlit("focus.new_windows");
    } else if i == 21 {
        reveal_strlit("focus.follows_mouse");
    } else if i == 22 {
        reveal_strlit("focus.follows_mouse_skips_launcher");
    } else if i == 23 {
        reveal_strlit("launcher.font");
    } else if i == 24 {
        reveal_strlit("launcher.font_size");
    } else if i == 25 {
        reveal_strlit("launcher.beside_share");
    } else if i == 26 {
        reveal_strlit("launcher.side");
    }
    one_dot(key_at(i), first_at(key_at(i), '.', 0));
}

proof fn marks_differ(i: int, j: int)
    requires
        0 <= i < j < 21,
    ensures
        marks()[i] != marks()[j],
{
}

proof fn kinds_differ()
    ensures
        "menu"@ != "bool"@,
        "menu"@ != "int"@,
        "menu"@ != "string"@,
        "menu"@ != "choice"@,
        "bool"@ != "int"@,
        "bool"@ != "string"@,
        "bool"@ != "choice"@,
        "int"@ != "string"@,
        "int"@ != "choice"@,
        "string"@ != "choice"@,
{
    reveal_strlit("menu");
    reveal_strlit("bool");
    reveal_strlit("int");
    reveal_strlit("string");
    reveal_strlit("choice");
    assert("menu"@[0] == 'm' && "bool"@[0] == 'b' && "int"@[0] == 'i' && "string"@[0] == 's'
        && "choice"@[0] == 'c');
}

/// A binding of Mod, perhaps Shift, and a key.
proof fn default_binding(text: Seq<char>, shift: bool, key: Seq<char>)
    requires
        text == (Chord { mod_key: true, shift, ctrl: false, key }).shown(),
        key.len() > 0,
        !key.contains('+'),
        !is_space(key[0]),
        !is_space(key.last()),
    ensures
        chord_of(text) == Ok::<Chord, Seq<char>>(
            Chord { mod_key: true, shift, ctrl: false, key },
        ),
{
    assert(skip_spaces(key, 0) == 0);
    assert(before_spaces(key, 0, key.len() as int) == key.len());
    assert(key.subrange(0, key.len() as int) =~= key);
    shown_bindings_parse(Chord { mod_key: true, shift, ctrl: false, key });
}

/// The default bindings, as they parse.
pub proof fn default_bindings_parse()
    ensures
        chord_of("Mod+space"@) == Ok::<Chord, Seq<char>>(
            Chord { mod_key: true, shift: false, ctrl: false, key: "space"@ },
        ),
        chord_of("Mod+backslash"@) == Ok::<Chord, Seq<char>>(
            Chord { mod_key: true, shift: false, ctrl: false, key: "backslash"@ },
        ),
        chord_of("Mod+a"@) == Ok::<Chord, Seq<char>>(
            Chord { mod_key: true, shift: false, ctrl: false, key: "a"@ },
        ),
        chord_of("Mod+Return"@) == Ok::<Chord, Seq<char>>(
            Chord { mod_key: true, shift: false, ctrl: false, key: "Return"@ },
        ),
        chord_of("Mod+q"@) == Ok::<Chord, Seq<char>>(
            Chord { mod_key: true, shift: false, ctrl: false, key: "q"@ },
        ),
        chord_of("Mod+Shift+e"@) == Ok::<Chord, Seq<char>>(
            Chord { mod_key: true, shift: true, ctrl: false, key: "e"@ },
        ),
{
    reveal_strlit("Mod");
    reveal_strlit("+");
    reveal_strlit("");
    reveal_strlit("+Shift");
    reveal_strlit("space");
    reveal_strlit("Mod+space");
    reveal_strlit("backslash");
    reveal_strlit("Mod+backslash");
    reveal_strlit("a");
    reveal_strlit("Mod+a");
    reveal_strlit("Return");
    reveal_strlit("Mod+Return");
    reveal_strlit("q");
    reveal_strlit("Mod+q");
    reveal_strlit("e");
    reveal_strlit("Mod+Shift+e");
    let plain = Chord { mod_key: true, shift: false, ctrl: false, key: seq![] };
    assert("Mod+space"@ =~= (Chord { key: "space"@, ..plain }).shown());
    default_binding("Mod+space"@, false, "space"@);
    assert("Mod+backslash"@ =~= (Chord { key: "backslash"@, ..plain }).shown());
    default_binding("Mod+backslash"@, false, "backslash"@);
    assert("Mod+a"@ =~= (Chord { key: "a"@, ..plain }).shown());
    default_binding("Mod+a"@, false, "a"@);
    assert("Mod+Return"@ =~= (Chord { key: "Return"@, ..plain }).shown());
    default_binding("Mod+Return"@, false, "Return"@);
    assert("Mod+q"@ =~= (Chord { key: "q"@, ..plain }).shown());
    default_binding("Mod+q"@, false, "q"@);
    assert("Mod+Shift+e"@ =~= (Chord { key: "e"@, shift: true, ..plain }).shown());
    default_binding("Mod+Shift+e"@, true, "e"@);
}

/// The dependency of one item on another reads as that key.
proof fn dependency_parses()
    ensures
        formula_of("focus.follows_mouse"@) == Ok::<Formula, Seq<char>>(
            Formula::Key("focus.follows_mouse"@),
        ),
{
    reveal_strlit("focus.follows_mouse");
    let key = "focus.follows_mouse"@;
    let formula = Formula::Key(key);
    assert(formula.shown() == key);
    assert(formula.well_named());
    shown_formulas_parse_back(formula);
}

#[verifier::rlimit(60)]
proof fn items_fit(i: int)
    requires
        0 <= i < 27,
    ensures
        fits(builtin_items()[i]),
        i < 6 ==> builtin_items()[i].kind == "menu"@,
        i >= 6 ==> builtin_items()[i].kind != "menu"@ && builtin_items()[i].key is Some,
{
    kinds_differ();
    if i >= 6 {
        keys_are_written(i);
    }
    default_bindings_parse();
    dependency_parses();
    let three = seq!["auto"@, "alt"@, "super"@];
    assert(three[0] == "auto"@);
    let four = seq!["left"@, "right"@, "above"@, "below"@];
    assert(four[0] == "left"@);
}

/// The menus, in their order.
spec fn menu_ids() -> Seq<Seq<char>> {
    seq!["general"@, "display"@, "bindings"@, "layout"@, "focus"@, "launcher"@]
}

proof fn menus_are_listed(k: int)
    requires
        0 <= k < 6,
    ensures
        lists_menu(builtin_items(), menu_ids()[k]),
{
    let items = builtin_items();
    assert(is_menu(items[k], menu_ids()[k]));
}

#[verifier::rlimit(60)]
proof fn items_refer_inside(i: int)
    requires
        0 <= i < 27,
    ensures
        refers_inside(builtin_items(), builtin_items()[i]),
{
    let items = builtin_items();
    kinds_differ();
    dependency_parses();
    menus_are_listed(0);
    menus_are_listed(1);
    menus_are_listed(2);
    menus_are_listed(3);
    menus_are_listed(4);
    menus_are_listed(5);
    assert(is_bool(items[21], "focus.follows_mouse"@));
    assert(lists_bool(items, "focus.follows_mouse"@));
}

proof fn item_keys_differ()
    ensures
        keys_differ(builtin_items()),
{
    let items = builtin_items();
    assert forall|i: int, j: int|
        0 <= i < j < items.len() && (#[trigger] items[i]).kind != "menu"@ && (
        #[trigger] items[j]).kind != "menu"@ implies items[i].key != items[j].key by {
        items_fit(i);
        items_fit(j);
        keys_are_written(i);
        keys_are_written(j);
        marks_differ(i - 6, j - 6);
    }
}

proof fn items_are_consistent()
    ensures
        forall|i: int|
            0 <= i < builtin_items().len() ==> fits(#[trigger] builtin_items()[i])
                && refers_inside(builtin_items(), builtin_items()[i]),
        keys_differ(builtin_items()),
{
    let items = builtin_items();
    assert forall|i: int| 0 <= i < items.len() implies fits(#[trigger] items[i]) && refers_inside(
        items,
        items[i],
    ) by {
        items_fit(i);
        items_refer_inside(i);
    }
    item_keys_differ();
}

/// The settings that Tessera has make a schema: every default is allowed by its own option, no
/// key occurs twice, and everything that is referred to is there.
pub proof fn builtin_items_are_accepted()
    ensures
        schema_of(builtin_items()) is Ok,
{
    items_are_consistent();
    consistent_items_are_accepted(builtin_items());
}

/// The rules of the settings that Tessera has.
pub open spec fn builtin_rules() -> SchemaModel {
    schema_of(builtin_items())->Ok_0
}

/// With nothing set, every setting has the default that its item names.
pub proof fn nothing_set_means_the_defaults(i: int)
    requires
        0 <= i < builtin_items().len(),
        builtin_items()[i].kind != "menu"@,
    ensures
        effective_value(builtin_rules(), Values::empty(), builtin_items()[i].key->0)
            == builtin_items()[i].default,
        builtin_items()[i].default is Some,
{
    let items = builtin_items();
    let rules = builtin_rules();
    let key = items[i].key->0;
    items_are_consistent();
    items_are_found(items, i);
    assert forall|k: int| 0 <= k < rules.options.len() implies !(
    #[trigger] rules.options[k]).select.contains(key) by {
        nothing_is_selected(items, k);
    }
    nothing_set_means_the_default(rules, Values::empty(), key);
}

/// With nothing set, the terminal and the keys are these.
pub proof fn default_texts()
    ensures
        text_in(builtin_rules(), Values::empty(), "general.terminal"@) == "foot"@,
        text_in(builtin_rules(), Values::empty(), "bindings.launcher"@) == "Mod+space"@,
        text_in(builtin_rules(), Values::empty(), "bindings.launcher_alt"@) == "Mod+backslash"@,
        text_in(builtin_rules(), Values::empty(), "bindings.apps"@) == "Mod+a"@,
        text_in(builtin_rules(), Values::empty(), "bindings.terminal"@) == "Mod+Return"@,
        text_in(builtin_rules(), Values::empty(), "bindings.close"@) == "Mod+q"@,
        text_in(builtin_rules(), Values::empty(), "bindings.quit"@) == "Mod+Shift+e"@,
{
    kinds_differ();
    nothing_set_means_the_defaults(6);
    nothing_set_means_the_defaults(11);
    nothing_set_means_the_defaults(12);
    nothing_set_means_the_defaults(13);
    nothing_set_means_the_defaults(14);
    nothing_set_means_the_defaults(15);
    nothing_set_means_the_defaults(16);
}

impl Schema {
    /// The settings that Tessera has.
    pub fn builtin() -> (r: Self)
        ensures
            schema_of(builtin_items()) == Ok::<SchemaModel, Problem>(r@),
            r@ == builtin_rules(),
            r@.sound(),
            r@.closed_under_references(),
    {
        let items = items();
        proof {
            builtin_items_are_accepted();
        }
        match Schema::build(&items) {
            Ok(schema) => schema,
            Err(_) => vstd::pervasive::unreached(),
        }
    }
}

} // verus!
