//! Applying settings to the running session.
//!
//! Everything is checked before anything is changed: a reload either takes effect completely or
//! leaves the session exactly as it was.

use crate::config::builtin::{builtin_rules, default_bindings_parse, default_texts};
use crate::config::command::{
    command_words, is_plain_word, plain_words_split_back, split_command,
};
use crate::config::document::Values;
use crate::config::schema::{Apply, SchemaModel};
use crate::config::values::{change_views, changed, text_in, Change, ConfigValues, LoadError};
use crate::ipc::Response;
use crate::layout::tree::LayoutOptions;
use crate::session::input::{configured, fixed_table, symbol_of, Bindings, KeyName, ModKey};
use crate::text::{copied, joined, same, views};
use vstd::prelude::*;

verus! {

/// Settings read on every event rather than looked up in [`ConfigValues`].
#[derive(Debug, PartialEq, Eq)]
pub struct Behaviour {
    /// Program and arguments of the terminal.
    pub terminal: Vec<String>,
    /// No gaps when a workspace holds a single window.
    pub smart_gaps: bool,
    /// New windows take keyboard focus.
    pub focus_new_windows: bool,
    /// Focus the window under the pointer as it moves.
    pub focus_follows_mouse: bool,
    /// ...but not when the pointer is over the launcher.
    pub follows_mouse_skips_launcher: bool,
    /// `QT_QPA_PLATFORMTHEME` for programs that are started; empty leaves it unset.
    pub qt_platform_theme: String,
    /// `GTK_THEME` for programs that are started; empty leaves it unset.
    pub gtk_theme: String,
}

/// Settings read on every event.
#[verifier::ext_equal]
pub struct BehaviourModel {
    pub terminal: Seq<Seq<char>>,
    pub smart_gaps: bool,
    pub focus_new_windows: bool,
    pub focus_follows_mouse: bool,
    pub follows_mouse_skips_launcher: bool,
    pub qt_platform_theme: Seq<char>,
    pub gtk_theme: Seq<char>,
}

impl View for Behaviour {
    type V = BehaviourModel;

    open spec fn view(&self) -> BehaviourModel {
        BehaviourModel {
            terminal: views(self.terminal@),
            smart_gaps: self.smart_gaps,
            focus_new_windows: self.focus_new_windows,
            focus_follows_mouse: self.focus_follows_mouse,
            follows_mouse_skips_launcher: self.follows_mouse_skips_launcher,
            qt_platform_theme: self.qt_platform_theme@,
            gtk_theme: self.gtk_theme@,
        }
    }
}

/// What holds on every event before any settings were read.
pub open spec fn first_behaviour() -> BehaviourModel {
    BehaviourModel {
        terminal: seq!["foot"@],
        smart_gaps: false,
        focus_new_windows: true,
        focus_follows_mouse: false,
        follows_mouse_skips_launcher: true,
        qt_platform_theme: ""@,
        gtk_theme: ""@,
    }
}

impl Default for Behaviour {
    fn default() -> (r: Self)
        ensures
            r@ == first_behaviour(),
    {
        let mut terminal: Vec<String> = Vec::new();
        terminal.push(copied("foot"));
        assert(views(terminal@) =~= seq!["foot"@]);
        Behaviour {
            terminal,
            smart_gaps: false,
            focus_new_windows: true,
            focus_follows_mouse: false,
            follows_mouse_skips_launcher: true,
            qt_platform_theme: copied(""),
            gtk_theme: copied(""),
        }
    }
}

/// What settings ask for on every event.
pub open spec fn behaviour_of(values: ConfigValues) -> BehaviourModel {
    BehaviourModel {
        terminal: command_words(values.text_at("general.terminal"@)),
        smart_gaps: values.bool_at("layout.smart_gaps"@),
        focus_new_windows: values.bool_at("focus.new_windows"@),
        focus_follows_mouse: values.bool_at("focus.follows_mouse"@),
        follows_mouse_skips_launcher: values.visible_at("focus.follows_mouse_skips_launcher"@)
            && values.bool_at("focus.follows_mouse_skips_launcher"@),
        qt_platform_theme: values.text_at("general.qt_platform_theme"@),
        gtk_theme: values.text_at("general.gtk_theme"@),
    }
}

/// The modifier that settings ask for.
pub open spec fn mod_key_of(values: ConfigValues, nested: bool) -> ModKey {
    let name = values.text_at("general.mod_key"@);
    if name == "alt"@ {
        ModKey::Alt
    } else if name == "super"@ {
        ModKey::Super
    } else if nested {
        ModKey::Alt
    } else {
        ModKey::Super
    }
}

/// The gaps and the cell grid that settings ask for, where the launcher's cells have this size.
pub open spec fn layout_of(values: ConfigValues, cell: Option<(i32, i32)>) -> LayoutOptions {
    LayoutOptions {
        gaps: (values.integer_at("layout.gaps"@) as i64) as i32,
        snap: if values.bool_at("layout.snap_to_cells"@) {
            cell
        } else {
            None
        },
    }
}

/// Why settings cannot be applied, if they cannot.
pub open spec fn unusable(
    rules: SchemaModel,
    values: Values,
    names: Seq<KeyName>,
) -> Option<Seq<char>> {
    match configured(rules, values, names, fixed_table(), 0) {
        Err(message) => Some(message),
        Ok(_) => if command_words(text_in(rules, values, "general.terminal"@)).len() == 0 {
            Some("general.terminal is empty; set it to a terminal such as foot"@)
        } else {
            None
        },
    }
}

/// Tells whether the launcher's cells have to be measured, because tiles snap to them.
pub fn wants_snap(values: &ConfigValues) -> (r: bool)
    ensures
        r == values.bool_at("layout.snap_to_cells"@),
{
    values.bool("layout.snap_to_cells")
}

/// The settings in effect.
pub struct Settings {
    /// The configuration.
    pub values: ConfigValues,
    /// The modifier that every binding uses.
    pub mod_key: ModKey,
    /// Gaps and cell snapping.
    pub layout_opts: LayoutOptions,
    /// Settings consulted on every event.
    pub behaviour: Behaviour,
    /// Running as a window inside another desktop.
    pub nested: bool,
}

/// The keys of the changes that take effect at a given time.
pub open spec fn keys_applied(changes: Seq<(Seq<char>, Apply)>, apply: Apply, n: int) -> Seq<
    Seq<char>,
>
    decreases n,
{
    if n <= 0 {
        Seq::empty()
    } else {
        let before = keys_applied(changes, apply, n - 1);
        if changes[n - 1].1 == apply {
            before.push(changes[n - 1].0)
        } else {
            before
        }
    }
}

/// True when a response lists changes by when they take effect.
pub open spec fn lists_changes(response: Response, changes: Seq<(Seq<char>, Apply)>) -> bool {
    response matches Response::ConfigApplied { live, needs_restart } && views(live@)
        == keys_applied(changes, Apply::Live, changes.len() as int) && views(needs_restart@)
        == keys_applied(changes, Apply::Restart, changes.len() as int)
}

fn report(changes: &Vec<Change>) -> (r: Response)
    ensures
        lists_changes(r, change_views(changes@)),
{
    let ghost all = change_views(changes@);
    let mut live: Vec<String> = Vec::new();
    let mut needs_restart: Vec<String> = Vec::new();
    let mut i: usize = 0;
    proof {
        assert(views(live@) =~= Seq::empty());
        assert(views(needs_restart@) =~= Seq::empty());
    }
    while i < changes.len()
        invariant
            i <= changes@.len(),
            all == change_views(changes@),
            views(live@) == keys_applied(all, Apply::Live, i as int),
            views(needs_restart@) == keys_applied(all, Apply::Restart, i as int),
        decreases changes@.len() - i,
    {
        let change = &changes[i];
        let key = copied(change.key.as_str());
        assert(all[i as int] == change@);
        let ghost known = key@;
        match change.apply {
            Apply::Live => {
                let ghost before = live@;
                live.push(key);
                assert(views(live@) =~= views(before).push(known));
            },
            Apply::Restart => {
                let ghost before = needs_restart@;
                needs_restart.push(key);
                assert(views(needs_restart@) =~= views(before).push(known));
            },
        }
        i = i + 1;
    }
    Response::ConfigApplied { live, needs_restart }
}

impl Settings {
    /// True when the settings in effect are what a configuration asks for.
    pub open spec fn follow(
        self,
        values: ConfigValues,
        nested: bool,
        cell: Option<(i32, i32)>,
    ) -> bool {
        &&& self.values == values
        &&& self.nested == nested
        &&& self.mod_key == mod_key_of(values, nested)
        &&& self.layout_opts == layout_of(values, cell)
        &&& self.behaviour@ == behaviour_of(values)
    }

    /// The settings before any configuration was read.
    pub fn new(nested: bool) -> (r: Self)
        ensures
            r.nested == nested,
            r.layout_opts == (LayoutOptions { gaps: 8, snap: None }),
            r.mod_key == if nested {
                ModKey::Alt
            } else {
                ModKey::Super
            },
            r.values.wf(),
            r.values.rules() == builtin_rules(),
            r.values.values() == Values::empty(),
            r.behaviour@ == first_behaviour(),
    {
        Settings {
            values: ConfigValues::default(),
            mod_key: ModKey::for_backend(nested),
            layout_opts: LayoutOptions { gaps: 8, snap: None },
            behaviour: Behaviour::default(),
            nested,
        }
    }

    /// Makes a configuration the running one.
    ///
    /// Everything that can fail (key names, the terminal command) is checked first, so an error
    /// leaves the settings in effect untouched.
    pub fn apply_config(
        &mut self,
        values: ConfigValues,
        names: &Vec<KeyName>,
        cell: Option<(i32, i32)>,
    ) -> (r: Result<(), String>)
        ensures
            match unusable(values.rules(), values.values(), names@) {
                Some(message) => r matches Err(why) && why@ == message
                    && *final(self) == *old(self),
                None => r is Ok && final(self).follow(values, old(self).nested, cell),
            },
    {
        if let Err(message) = Bindings::from_config(&values, names) {
            return Err(message);
        }
        let text = values.text("general.terminal");
        let terminal = split_command(text.as_str());
        if terminal.len() == 0 {
            return Err(copied("general.terminal is empty; set it to a terminal such as foot"));
        }
        let name = values.text("general.mod_key");
        let mod_key = if same(name.as_str(), "alt") {
            ModKey::Alt
        } else if same(name.as_str(), "super") {
            ModKey::Super
        } else {
            ModKey::for_backend(self.nested)
        };
        let snap = if values.bool("layout.snap_to_cells") {
            cell
        } else {
            None
        };
        let gaps: i32 = #[verifier::truncate] (values.integer("layout.gaps") as i32);
        // Nothing below can fail.
        self.mod_key = mod_key;
        self.layout_opts = LayoutOptions { gaps, snap };
        self.behaviour =
        Behaviour {
            terminal,
            smart_gaps: values.bool("layout.smart_gaps"),
            focus_new_windows: values.bool("focus.new_windows"),
            focus_follows_mouse: values.bool("focus.follows_mouse"),
            follows_mouse_skips_launcher: values.visible("focus.follows_mouse_skips_launcher")
                && values.bool("focus.follows_mouse_skips_launcher"),
            qt_platform_theme: values.text("general.qt_platform_theme"),
            gtk_theme: values.text("general.gtk_theme"),
        };
        self.values = values;
        assert(self.behaviour@ =~= behaviour_of(values));
        Ok(())
    }

    /// Handles a request to reload: takes over what was read, and reports what took effect.
    pub fn reload_config(
        &mut self,
        loaded: Result<ConfigValues, LoadError>,
        names: &Vec<KeyName>,
        cell: Option<(i32, i32)>,
    ) -> (r: Response)
        ensures
            match loaded {
                Err(err) => r matches Response::Error { message } && message@ == err.message()
                    && *final(self) == *old(self),
                Ok(values) => match unusable(values.rules(), values.values(), names@) {
                    Some(why) => r matches Response::Error { message } && message@ == why
                        && *final(self) == *old(self),
                    None => final(self).follow(values, old(self).nested, cell) && lists_changes(
                        r,
                        changed(
                            values.rules(),
                            values.values(),
                            old(self).values.rules(),
                            old(self).values.values(),
                            values.rules().options.len() as int,
                        ),
                    ),
                },
            },
    {
        let values = match loaded {
            Ok(values) => values,
            Err(err) => {
                return Response::Error { message: err.to_text() };
            },
        };
        let changes = values.changes_from(&self.values);
        match self.apply_config(values, names, cell) {
            Err(message) => Response::Error { message },
            Ok(()) => report(&changes),
        }
    }

    /// Takes over the configuration that was read when the session starts. One that cannot be
    /// read or applied gives way to the defaults, so that a typo never stops the session from
    /// starting. Tells why, if not even the defaults can be applied.
    pub fn load_initial_config(
        &mut self,
        loaded: Result<ConfigValues, LoadError>,
        names: &Vec<KeyName>,
        cell: Option<(i32, i32)>,
        default_cell: Option<(i32, i32)>,
    ) -> (r: Result<(), String>)
        ensures
            match loaded {
                Ok(values) => unusable(values.rules(), values.values(), names@) is None ==> r is Ok && final(self).follow(
                    values,
                    old(self).nested,
                    cell,
                ),
                Err(_) => true,
            },
            loaded is Err || unusable(
                loaded->Ok_0.rules(),
                loaded->Ok_0.values(),
                names@,
            ) is Some ==> match unusable(builtin_rules(), Values::empty(), names@) {
                Some(message) => r matches Err(why) && why@ == message
                    && *final(self) == *old(self),
                None => r is Ok && final(self).values.rules() == builtin_rules()
                    && final(self).values.values() == Values::empty() && final(self).follow(
                    final(self).values,
                    old(self).nested,
                    default_cell,
                ),
            },
    {
        if let Ok(values) = loaded {
            if self.apply_config(values, names, cell).is_ok() {
                return Ok(());
            }
        }
        let defaults = ConfigValues::default();
        self.apply_config(defaults, names, default_cell)
    }
}

/// True when the keyboard knows the keys of the default bindings.
pub open spec fn knows_default_keys(names: Seq<KeyName>) -> bool {
    &&& symbol_of(names, "space"@) is Some
    &&& symbol_of(names, "backslash"@) is Some
    &&& symbol_of(names, "a"@) is Some
    &&& symbol_of(names, "Return"@) is Some
    &&& symbol_of(names, "q"@) is Some
    &&& symbol_of(names, "e"@) is Some
}

/// The default settings can always be applied, where the keyboard knows their keys: a session
/// starts on them when nothing else can be used.
pub proof fn the_defaults_always_apply(names: Seq<KeyName>)
    requires
        knows_default_keys(names),
    ensures
        unusable(builtin_rules(), Values::empty(), names) is None,
{
    default_texts();
    default_bindings_parse();
    reveal_with_fuel(configured, 7);
    let words = seq!["foot"@];
    reveal_strlit("foot");
    assert(is_plain_word("foot"@));
    plain_words_split_back(words);
    reveal_with_fuel(joined, 2);
    assert(joined(words, " "@) =~= "foot"@);
}

/// Every change is reported once: as in effect, or as waiting for a restart.
pub proof fn changes_are_reported_once(changes: Seq<(Seq<char>, Apply)>, n: int)
    requires
        0 <= n <= changes.len(),
    ensures
        keys_applied(changes, Apply::Live, n).len() + keys_applied(changes, Apply::Restart, n).len()
            == n,
        forall|i: int|
            0 <= i < n ==> keys_applied(changes, (#[trigger] changes[i]).1, n).contains(
                changes[i].0,
            ),
    decreases n,
{
    if n > 0 {
        changes_are_reported_once(changes, n - 1);
        assert forall|i: int| 0 <= i < n implies keys_applied(
            changes,
            (#[trigger] changes[i]).1,
            n,
        ).contains(changes[i].0) by {
            let before = keys_applied(changes, changes[i].1, n - 1);
            let after = keys_applied(changes, changes[i].1, n);
            if i == n - 1 {
                assert(after[after.len() - 1] == changes[i].0);
            } else {
                let k = choose|k: int| 0 <= k < before.len() && before[k] == changes[i].0;
                assert(after[k] == before[k]);
            }
        }
    }
}

/// True when a setting names a key that the keyboard has.
pub open spec fn names_a_key(
    rules: SchemaModel,
    values: Values,
    names: Seq<KeyName>,
    setting: Seq<char>,
) -> bool {
    match crate::config::binding::chord_of(text_in(rules, values, setting)) {
        Ok(chord) => symbol_of(names, chord.key) is Some,
        Err(_) => false,
    }
}

/// Settings can be used when each of the six configurable bindings names a key and a terminal is
/// set, and only then.
pub proof fn usable_settings_have_keys_and_a_terminal(
    rules: SchemaModel,
    values: Values,
    names: Seq<KeyName>,
)
    ensures
        unusable(rules, values, names) is None <==> {
            &&& names_a_key(rules, values, names, "bindings.launcher"@)
            &&& names_a_key(rules, values, names, "bindings.launcher_alt"@)
            &&& names_a_key(rules, values, names, "bindings.apps"@)
            &&& names_a_key(rules, values, names, "bindings.terminal"@)
            &&& names_a_key(rules, values, names, "bindings.close"@)
            &&& names_a_key(rules, values, names, "bindings.quit"@)
            &&& command_words(text_in(rules, values, "general.terminal"@)).len() > 0
        },
{
    reveal_with_fuel(configured, 7);
}

/// The keys of the changes that take effect alike stand in the order of the changes.
pub proof fn reported_keys_come_in_order(changes: Seq<(Seq<char>, Apply)>, apply: Apply)
    ensures
        keys_applied(changes, apply, changes.len() as int) == changes.filter(
            |change: (Seq<char>, Apply)| change.1 == apply,
        ).map_values(|change: (Seq<char>, Apply)| change.0),
{
    applied_so_far(changes, apply, changes.len() as int);
    assert(changes.take(changes.len() as int) =~= changes);
}

proof fn applied_so_far(changes: Seq<(Seq<char>, Apply)>, apply: Apply, n: int)
    requires
        0 <= n <= changes.len(),
    ensures
        keys_applied(changes, apply, n) == changes.take(n).filter(
            |change: (Seq<char>, Apply)| change.1 == apply,
        ).map_values(|change: (Seq<char>, Apply)| change.0),
    decreases n,
{
    reveal(Seq::filter);
    let kept = |change: (Seq<char>, Apply)| change.1 == apply;
    let key = |change: (Seq<char>, Apply)| change.0;
    if n > 0 {
        applied_so_far(changes, apply, n - 1);
        assert(changes.take(n).drop_last() =~= changes.take(n - 1));
        assert(changes.take(n).last() == changes[n - 1]);
        let before = changes.take(n - 1).filter(kept);
        assert(before.push(changes[n - 1]).map_values(key) =~= before.map_values(key).push(
            changes[n - 1].0,
        ));
    } else {
        assert(changes.take(0).filter(kept).map_values(key) =~= Seq::empty());
    }
}

/// The modifier is the one that is set. Where neither is, it is the one that the desktop around
/// a nested session leaves free, or the logo key of a session of its own.
pub proof fn the_modifier_is_the_one_set(values: ConfigValues, nested: bool)
    ensures
        ({
            let name = values.text_at("general.mod_key"@);
            &&& name == "alt"@ ==> mod_key_of(values, nested) is Alt
            &&& name == "super"@ ==> mod_key_of(values, nested) is Super
            &&& name != "alt"@ && name != "super"@ ==> (mod_key_of(values, nested) is Alt
                <==> nested)
        }),
{
    reveal_strlit("alt");
    reveal_strlit("super");
    assert("alt"@.len() != "super"@.len());
}

/// Each setting of behaviour has its own part in it, and gaps and cells theirs in the layout; what
/// is said of the launcher under the pointer counts only while that setting is shown.
pub proof fn settings_decide_the_behaviour(values: ConfigValues, cell: Option<(i32, i32)>)
    ensures
        ({
            let after = behaviour_of(values);
            let layout = layout_of(values, cell);
            &&& after.smart_gaps <==> values.bool_at("layout.smart_gaps"@)
            &&& after.focus_new_windows <==> values.bool_at("focus.new_windows"@)
            &&& after.focus_follows_mouse <==> values.bool_at("focus.follows_mouse"@)
            &&& after.follows_mouse_skips_launcher ==> values.visible_at(
                "focus.follows_mouse_skips_launcher"@,
            ) && values.bool_at("focus.follows_mouse_skips_launcher"@)
            &&& values.visible_at("focus.follows_mouse_skips_launcher"@) && values.bool_at(
                "focus.follows_mouse_skips_launcher"@,
            ) ==> after.follows_mouse_skips_launcher
            &&& after.terminal == command_words(values.text_at("general.terminal"@))
            &&& after.gtk_theme == values.text_at("general.gtk_theme"@)
            &&& after.qt_platform_theme == values.text_at("general.qt_platform_theme"@)
            &&& 0 <= values.integer_at("layout.gaps"@) <= i32::MAX ==> layout.gaps
                == values.integer_at("layout.gaps"@)
            &&& values.bool_at("layout.snap_to_cells"@) ==> layout.snap == cell
            &&& !values.bool_at("layout.snap_to_cells"@) ==> layout.snap is None
        }),
{
}

/// A reload answers with the keys that changed: those that take effect at once, and apart from
/// them those that need a restart.
pub proof fn reloads_answer_with_both_lists(
    live: Vec<String>,
    needs_restart: Vec<String>,
    changes: Seq<(Seq<char>, Apply)>,
    key: Seq<char>,
)
    requires
        lists_changes(Response::ConfigApplied { live, needs_restart }, changes),
    ensures
        changes.contains((key, Apply::Live)) <==> views(live@).contains(key),
        changes.contains((key, Apply::Restart)) <==> views(needs_restart@).contains(key),
{
    keys_are_applied(changes, Apply::Live, changes.len() as int, key);
    keys_are_applied(changes, Apply::Restart, changes.len() as int, key);
}

proof fn keys_are_applied(changes: Seq<(Seq<char>, Apply)>, apply: Apply, n: int, key: Seq<char>)
    requires
        0 <= n <= changes.len(),
    ensures
        keys_applied(changes, apply, n).contains(key) <==> exists|i: int|
            0 <= i < n && #[trigger] changes[i] == (key, apply),
    decreases n,
{
    if n > 0 {
        keys_are_applied(changes, apply, n - 1, key);
        let before = keys_applied(changes, apply, n - 1);
        let all = keys_applied(changes, apply, n);
        if before.contains(key) {
            let k = choose|k: int| 0 <= k < before.len() && before[k] == key;
            assert(all[k] == key);
        }
        if changes[n - 1] == (key, apply) {
            assert(all.last() == key);
        }
        if all.contains(key) && !before.contains(key) {
            let k = choose|k: int| 0 <= k < all.len() && all[k] == key;
            if k < before.len() {
                assert(before[k] == key);
            }
            assert(changes[n - 1] == (key, apply));
        }
    }
}

/// Until settings are read a session has one terminal, keeps its gaps, gives new windows the
/// focus and leaves the pointer alone; the themes are those of the programs.
pub proof fn sessions_begin_plainly()
    ensures
        ({
            let start = first_behaviour();
            &&& start.terminal.len() == 1 && start.terminal[0].len() > 0
            &&& !start.smart_gaps
            &&& start.focus_new_windows
            &&& !start.focus_follows_mouse && start.follows_mouse_skips_launcher
            &&& start.qt_platform_theme.len() == 0 && start.gtk_theme.len() == 0
        }),
{
    reveal_strlit("foot");
    reveal_strlit("");
}

} // verus!
