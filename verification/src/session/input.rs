//! Key bindings: which keys belong to the window manager, and what they do.

use crate::config::binding::{binding_message, chord_of, Binding};
use crate::config::builtin::builtin_rules;
use crate::config::document::Values;
use crate::config::schema::SchemaModel;
use crate::config::values::{text_in, ConfigValues};
use crate::layout::geometry::Direction;
use crate::text::{
    chars_of, comes_before, concat3, concat5, copied, decimal, decimal_int, integer_text, join,
    joined, lowercase, number_text, precedes, same, to_lowercase, views,
};
use vstd::prelude::*;

verus! {

/// How far one resize step moves a split edge, in millionths.
pub const RESIZE_STEP: i32 = 50_000;

/// The launcher program.
pub const LAUNCHER: &'static str = "tessera-launcher";

/// How many workspaces there are, one per number key.
pub const WORKSPACE_COUNT: usize = 9;

/// The modifier used by every binding.
#[derive(Debug, Clone, Copy, PartialEq, Eq, Structural)]
pub enum ModKey {
    /// Used while nested, because host desktops keep Super for themselves.
    Alt,
    /// Used when the session is ours.
    Super,
}

/// The modifiers that are down.
#[derive(Debug, Clone, Copy, PartialEq, Eq, Structural)]
pub struct ModifiersState {
    pub alt: bool,
    pub logo: bool,
    pub shift: bool,
    pub ctrl: bool,
}

impl ModKey {
    /// Host desktops grab Super while we run nested inside them, so nested runs use Alt.
    pub fn for_backend(nested: bool) -> (r: Self)
        ensures
            r == if nested {
                ModKey::Alt
            } else {
                ModKey::Super
            },
    {
        if nested {
            ModKey::Alt
        } else {
            ModKey::Super
        }
    }

    /// Whether this modifier is down.
    pub open spec fn held(self, mods: ModifiersState) -> bool {
        match self {
            ModKey::Alt => mods.alt,
            ModKey::Super => mods.logo,
        }
    }

    /// Whether this modifier is currently down.
    pub fn is_held(self, mods: &ModifiersState) -> (r: bool)
        ensures
            r == self.held(*mods),
    {
        match self {
            ModKey::Alt => mods.alt,
            ModKey::Super => mods.logo,
        }
    }
}

/// What a binding does.
#[derive(Debug, Clone, Copy, PartialEq, Eq, Structural)]
pub enum Action {
    Quit,
    CloseWindow,
    SpawnTerminal,
    ToggleLauncher,
    /// Open or close the application overlay.
    ToggleAppsOverlay,
    Focus(Direction),
    Swap(Direction),
    Resize(Direction),
    Workspace(usize),
    MoveToWorkspace(usize),
    /// Run the script at this place in the script list.
    RunScript(usize),
    /// Switch to this virtual terminal.
    SwitchVt(i32),
}

impl Action {
    /// What the binding does, in words.
    pub open spec fn description(self) -> Seq<char> {
        match self {
            Action::Quit => "quit Tessera"@,
            Action::CloseWindow => "close the focused window"@,
            Action::SpawnTerminal => "open a terminal"@,
            Action::ToggleLauncher => "open the launcher"@,
            Action::ToggleAppsOverlay => "open the application overlay"@,
            Action::Focus(_) => "move focus"@,
            Action::Swap(_) => "swap windows"@,
            Action::Resize(_) => "resize a split"@,
            Action::Workspace(index) => "switch to workspace "@ + decimal((index + 1) as nat),
            Action::MoveToWorkspace(index) => "move a window to workspace "@ + decimal(
                (index + 1) as nat,
            ),
            Action::RunScript(_) => "run another script"@,
            Action::SwitchVt(vt) => "switch to virtual terminal "@ + decimal_int(vt as int),
        }
    }

    /// True unless the number of a workspace is too large to count from one.
    pub open spec fn countable(self) -> bool {
        match self {
            Action::Workspace(index) => index < usize::MAX,
            Action::MoveToWorkspace(index) => index < usize::MAX,
            _ => true,
        }
    }

    /// What the binding does, for explaining a clash.
    pub fn describe(self) -> (r: String)
        requires
            self.countable(),
        ensures
            r@ == self.description(),
    {
        match self {
            Action::Quit => copied("quit Tessera"),
            Action::CloseWindow => copied("close the focused window"),
            Action::SpawnTerminal => copied("open a terminal"),
            Action::ToggleLauncher => copied("open the launcher"),
            Action::ToggleAppsOverlay => copied("open the application overlay"),
            Action::Focus(_) => copied("move focus"),
            Action::Swap(_) => copied("swap windows"),
            Action::Resize(_) => copied("resize a split"),
            Action::Workspace(index) => {
                let number = number_text((index + 1) as u64);
                let mut out = copied("switch to workspace ");
                out.append(number.as_str());
                out
            },
            Action::MoveToWorkspace(index) => {
                let number = number_text((index + 1) as u64);
                let mut out = copied("move a window to workspace ");
                out.append(number.as_str());
                out
            },
            Action::RunScript(_) => copied("run another script"),
            Action::SwitchVt(vt) => {
                let number = integer_text(vt as i64);
                let mut out = copied("switch to virtual terminal ");
                out.append(number.as_str());
                out
            },
        }
    }
}

/// A script's `bind` header.
#[derive(Debug, PartialEq, Eq)]
pub struct ScriptBinding {
    /// Place in the script list.
    pub index: usize,
    /// The script's name, for messages.
    pub name: String,
    /// The binding as written, e.g. `Mod+Shift+N`.
    pub text: String,
}

/// The modifier combination of a binding.
#[derive(Debug, Clone, Copy, PartialEq, Eq, Hash, Structural)]
pub struct Mods {
    pub mod_key: bool,
    pub shift: bool,
    pub ctrl: bool,
}

impl Mods {
    /// A combination of modifiers.
    pub fn new(mod_key: bool, shift: bool, ctrl: bool) -> (r: Self)
        ensures
            r == (Mods { mod_key, shift, ctrl }),
    {
        Self { mod_key, shift, ctrl }
    }

    /// The combination that is down.
    pub open spec fn of_state(mod_key: ModKey, state: ModifiersState) -> Mods {
        Mods { mod_key: mod_key.held(state), shift: state.shift, ctrl: state.ctrl }
    }

    /// The combination that is down.
    pub fn from_state(mod_key: ModKey, state: &ModifiersState) -> (r: Self)
        ensures
            r == Mods::of_state(mod_key, *state),
    {
        Self::new(mod_key.is_held(state), state.shift, state.ctrl)
    }
}

/// What the keyboard library knows a key name by: the symbol of the name as it is written, and
/// the symbol of the name whatever its case. Zero stands for no symbol.
#[derive(Debug, PartialEq, Eq)]
pub struct KeyName {
    pub name: String,
    pub exact: u32,
    pub any_case: u32,
}

/// The name under which a key is looked up. Single letters are looked up in lower case, because
/// bindings are held against the symbol without Shift.
pub open spec fn looked_up(name: Seq<char>) -> Seq<char> {
    if name.len() == 1 {
        lowercase(name)
    } else {
        name
    }
}

/// The name under which the key of a binding has to be looked up.
pub fn name_to_look_up(name: &str) -> (r: String)
    ensures
        r@ == looked_up(name@),
{
    let chars = chars_of(name);
    if chars.len() == 1 {
        to_lowercase(name)
    } else {
        copied(name)
    }
}

/// The symbol of a name among `names[from..]`.
pub open spec fn symbol_among(names: Seq<KeyName>, name: Seq<char>, from: int) -> Option<u32>
    decreases names.len() - from,
{
    if from < 0 || from >= names.len() {
        None
    } else if names[from].name@ == name {
        if names[from].exact != 0 {
            Some(names[from].exact)
        } else if names[from].any_case != 0 {
            Some(names[from].any_case)
        } else {
            None
        }
    } else {
        symbol_among(names, name, from + 1)
    }
}

/// The symbol of a key name.
pub open spec fn symbol_of(names: Seq<KeyName>, name: Seq<char>) -> Option<u32> {
    symbol_among(names, looked_up(name), 0)
}

/// Looks a key up by its name: as it is written, and failing that whatever its case.
pub fn keysym_named(names: &Vec<KeyName>, name: &str) -> (r: Option<u32>)
    ensures
        r == symbol_of(names@, name@),
{
    let wanted = name_to_look_up(name);
    let mut i: usize = 0;
    while i < names.len()
        invariant
            i <= names.len(),
            wanted@ == looked_up(name@),
            symbol_of(names@, name@) == symbol_among(names@, wanted@, i as int),
        decreases names.len() - i,
    {
        let known = &names[i];
        if same(known.name.as_str(), wanted.as_str()) {
            return if known.exact != 0 {
                Some(known.exact)
            } else if known.any_case != 0 {
                Some(known.any_case)
            } else {
                None
            };
        }
        i = i + 1;
    }
    None
}

/// A key with the modifiers held.
pub type KeyCombo = (Mods, u32);

/// What each key with its modifiers does.
pub type KeyTable = Map<KeyCombo, Action>;

/// The direction of a movement key: the symbols of `h`, `j`, `k` and `l`.
pub open spec fn direction_of(sym: int) -> Option<Direction> {
    if sym == 0x68 {
        Some(Direction::Left)
    } else if sym == 0x6a {
        Some(Direction::Down)
    } else if sym == 0x6b {
        Some(Direction::Up)
    } else if sym == 0x6c {
        Some(Direction::Right)
    } else {
        None
    }
}

/// The workspace of a number key: the symbols of `1` to `9`.
pub open spec fn workspace_of(sym: int) -> Option<usize> {
    if 0x31 <= sym <= 0x39 {
        Some((sym - 0x31) as usize)
    } else {
        None
    }
}

/// The fixed movement and workspace keys. They are systematic sets, not individual keys, so no
/// setting moves them.
pub open spec fn fixed_action(key: KeyCombo) -> Option<Action> {
    let (mods, sym) = key;
    if !mods.mod_key || (mods.shift && mods.ctrl) {
        None
    } else if direction_of(sym as int) is Some {
        let dir = direction_of(sym as int)->0;
        Some(
            if mods.shift {
                Action::Swap(dir)
            } else if mods.ctrl {
                Action::Resize(dir)
            } else {
                Action::Focus(dir)
            },
        )
    } else if workspace_of(sym as int) is Some && !mods.ctrl {
        let index = workspace_of(sym as int)->0;
        Some(
            if mods.shift {
                Action::MoveToWorkspace(index)
            } else {
                Action::Workspace(index)
            },
        )
    } else {
        None
    }
}

/// The table of the fixed keys.
pub open spec fn fixed_table() -> KeyTable {
    Map::new(|key: KeyCombo| fixed_action(key) is Some, |key: KeyCombo| fixed_action(key)->0)
}

fn fixed(mods: Mods, sym: u32) -> (r: Option<Action>)
    ensures
        r == fixed_action((mods, sym)),
{
    if !mods.mod_key || (mods.shift && mods.ctrl) {
        return None;
    }
    let dir = match sym {
        0x68 => Some(Direction::Left),
        0x6a => Some(Direction::Down),
        0x6b => Some(Direction::Up),
        0x6c => Some(Direction::Right),
        _ => None,
    };
    if let Some(dir) = dir {
        return Some(
            if mods.shift {
                Action::Swap(dir)
            } else if mods.ctrl {
                Action::Resize(dir)
            } else {
                Action::Focus(dir)
            },
        );
    }
    if 0x31 <= sym && sym <= 0x39 && !mods.ctrl {
        let index: usize = (sym - 0x31) as usize;
        return Some(
            if mods.shift {
                Action::MoveToWorkspace(index)
            } else {
                Action::Workspace(index)
            },
        );
    }
    None
}

/// The setting of a configurable binding.
pub open spec fn setting_of(i: int) -> Seq<char> {
    if i == 0 {
        "bindings.launcher"@
    } else if i == 1 {
        "bindings.launcher_alt"@
    } else if i == 2 {
        "bindings.apps"@
    } else if i == 3 {
        "bindings.terminal"@
    } else if i == 4 {
        "bindings.close"@
    } else {
        "bindings.quit"@
    }
}

/// What a configurable binding does.
pub open spec fn action_of(i: int) -> Action {
    if i <= 1 {
        Action::ToggleLauncher
    } else if i == 2 {
        Action::ToggleAppsOverlay
    } else if i == 3 {
        Action::SpawnTerminal
    } else if i == 4 {
        Action::CloseWindow
    } else {
        Action::Quit
    }
}

/// How many bindings can be configured.
pub const CONFIGURABLE: usize = 6;

/// The setting of a configurable binding, and what the binding does.
pub fn configurable(i: usize) -> (r: (&'static str, Action))
    ensures
        r.0@ == setting_of(i as int),
        r.1 == action_of(i as int),
{
    if i == 0 {
        ("bindings.launcher", Action::ToggleLauncher)
    } else if i == 1 {
        ("bindings.launcher_alt", Action::ToggleLauncher)
    } else if i == 2 {
        ("bindings.apps", Action::ToggleAppsOverlay)
    } else if i == 3 {
        ("bindings.terminal", Action::SpawnTerminal)
    } else if i == 4 {
        ("bindings.close", Action::CloseWindow)
    } else {
        ("bindings.quit", Action::Quit)
    }
}

/// The key that a binding names, or why it names none.
pub open spec fn combo_of(
    names: Seq<KeyName>,
    text: Seq<char>,
    hint: Seq<char>,
) -> Result<KeyCombo, Seq<char>> {
    match chord_of(text) {
        Err(reason) => Err(binding_message(text, reason)),
        Ok(chord) => match symbol_of(names, chord.key) {
            None => Err("`"@ + chord.key + "` is not a key name xkb knows"@ + hint),
            Some(sym) => Ok((Mods { mod_key: true, shift: chord.shift, ctrl: chord.ctrl }, sym)),
        },
    }
}

fn find_combo(names: &Vec<KeyName>, text: &str, hint: &str) -> (r: Result<KeyCombo, String>)
    ensures
        match r {
            Ok(key) => combo_of(names@, text@, hint@) == Ok::<KeyCombo, Seq<char>>(key),
            Err(reason) => combo_of(names@, text@, hint@) == Err::<KeyCombo, Seq<char>>(reason@),
        },
{
    match Binding::parse(text) {
        Err(err) => Err(err.to_text()),
        Ok(binding) => match keysym_named(names, binding.key.as_str()) {
            None => {
                let mut out = concat3(
                    "`",
                    binding.key.as_str(),
                    "` is not a key name xkb knows",
                );
                out.append(hint);
                Err(out)
            },
            Some(sym) => Ok((Mods::new(true, binding.shift, binding.ctrl), sym)),
        },
    }
}

/// The table after the settings `from..` were read, or what is wrong with the first that cannot
/// be used.
pub open spec fn configured(
    rules: SchemaModel,
    values: Values,
    names: Seq<KeyName>,
    table: KeyTable,
    from: int,
) -> Result<KeyTable, Seq<char>>
    decreases CONFIGURABLE - from,
{
    if from < 0 || from >= CONFIGURABLE {
        Ok(table)
    } else {
        let key = setting_of(from);
        match combo_of(names, text_in(rules, values, key), " (try Return, space, backslash, F1)"@) {
            Err(reason) => Err(key + ": "@ + reason),
            Ok(combo) => configured(
                rules,
                values,
                names,
                table.insert(combo, action_of(from)),
                from + 1,
            ),
        }
    }
}

/// The table of the settings; failing that of the defaults; failing that of the fixed keys.
pub open spec fn usable_table(
    rules: SchemaModel,
    values: Values,
    names: Seq<KeyName>,
) -> KeyTable {
    match configured(rules, values, names, fixed_table(), 0) {
        Ok(table) => table,
        Err(_) => match configured(builtin_rules(), Values::empty(), names, fixed_table(), 0) {
            Ok(table) => table,
            Err(_) => fixed_table(),
        },
    }
}

/// The key that a script claims, or why it claims none.
pub open spec fn claim(names: Seq<KeyName>, script: ScriptBinding) -> Result<
    KeyCombo,
    Seq<char>,
> {
    combo_of(names, script.text@, ""@)
}

/// True when script `i` claims a key.
pub open spec fn claims(
    names: Seq<KeyName>,
    scripts: Seq<ScriptBinding>,
    key: KeyCombo,
    i: int,
) -> bool {
    0 <= i < scripts.len() && claim(names, scripts[i]) == Ok::<KeyCombo, Seq<char>>(key)
}

/// True when script `i` claims a key, and no other does.
pub open spec fn claims_alone(
    names: Seq<KeyName>,
    scripts: Seq<ScriptBinding>,
    key: KeyCombo,
    i: int,
) -> bool {
    claims(names, scripts, key, i) && forall|j: int| #[trigger]
        claims(names, scripts, key, j) ==> j == i
}

/// True when one of the first `n` scripts claims a key, and no other script does.
pub open spec fn claimed_once(
    names: Seq<KeyName>,
    scripts: Seq<ScriptBinding>,
    key: KeyCombo,
    n: int,
) -> bool {
    exists|i: int| i < n && #[trigger] claims_alone(names, scripts, key, i)
}

/// The script that claims a key alone.
pub open spec fn sole_claimant(
    names: Seq<KeyName>,
    scripts: Seq<ScriptBinding>,
    key: KeyCombo,
) -> int {
    choose|i: int| claims_alone(names, scripts, key, i)
}

/// The table once the first `n` scripts have their keys. A script never takes a key that is
/// taken, and a key that several scripts claim goes to none of them.
pub open spec fn with_scripts(
    table: KeyTable,
    names: Seq<KeyName>,
    scripts: Seq<ScriptBinding>,
    n: int,
) -> KeyTable {
    Map::new(
        |key: KeyCombo| table.contains_key(key) || claimed_once(names, scripts, key, n),
        |key: KeyCombo|
            if table.contains_key(key) {
                table[key]
            } else {
                Action::RunScript(scripts[sole_claimant(names, scripts, key)].index)
            },
    )
}

/// The names of those of the first `n` scripts that claim a key and stand elsewhere in the list.
pub open spec fn other_claimants(
    names: Seq<KeyName>,
    scripts: Seq<ScriptBinding>,
    key: KeyCombo,
    index: usize,
    n: int,
) -> Seq<Seq<char>>
    decreases n,
{
    if n <= 0 {
        Seq::empty()
    } else {
        let before = other_claimants(names, scripts, key, index, n - 1);
        if claims(names, scripts, key, n - 1) && scripts[n - 1].index != index {
            before.push(scripts[n - 1].name@)
        } else {
            before
        }
    }
}

/// Why script `i` does not get the key that it asks for.
pub open spec fn script_problem(
    table: KeyTable,
    names: Seq<KeyName>,
    scripts: Seq<ScriptBinding>,
    i: int,
) -> Option<Seq<char>> {
    let script = scripts[i];
    match claim(names, script) {
        Err(reason) => Some("bind: "@ + reason),
        Ok(key) => if table.contains_key(key) {
            Some(
                "bind: "@ + script.text@ + " already does \""@ + table[key].description()
                    + "\"; the script's binding is ignored"@,
            )
        } else if claims_alone(names, scripts, key, i) {
            None
        } else {
            Some(
                "bind: "@ + script.text@ + " is also claimed by "@ + joined(
                    other_claimants(names, scripts, key, script.index, scripts.len() as int),
                    ", "@,
                ) + "; both are ignored"@,
            )
        },
    }
}

/// A script by its place in the list, and what is wrong with its binding.
pub type Problem = (usize, Seq<char>);

/// What is wrong with the bindings of the first `n` scripts.
pub open spec fn script_problems(
    table: KeyTable,
    names: Seq<KeyName>,
    scripts: Seq<ScriptBinding>,
    n: int,
) -> Seq<Problem>
    decreases n,
{
    if n <= 0 {
        Seq::empty()
    } else {
        let before = script_problems(table, names, scripts, n - 1);
        match script_problem(table, names, scripts, n - 1) {
            None => before,
            Some(problem) => before.push((scripts[n - 1].index, problem)),
        }
    }
}

/// The order of problems: by script, then by text.
pub open spec fn problem_precedes(a: Problem, b: Problem) -> bool {
    a.0 < b.0 || (a.0 == b.0 && precedes(a.1, b.1))
}

/// Where a problem goes in a sorted list: behind those of `list[..n]` that it does not precede.
pub open spec fn problem_place(list: Seq<Problem>, problem: Problem, n: int) -> int
    decreases n,
{
    if n <= 0 {
        0
    } else if problem_precedes(problem, list[n - 1]) {
        problem_place(list, problem, n - 1)
    } else {
        n
    }
}

/// Problems in their order.
pub open spec fn sorted_problems(list: Seq<Problem>) -> Seq<Problem>
    decreases list.len(),
{
    if list.len() == 0 {
        Seq::empty()
    } else {
        let rest = sorted_problems(list.drop_last());
        rest.insert(problem_place(rest, list.last(), rest.len() as int), list.last())
    }
}

/// What problems hold.
pub open spec fn problem_views(list: Seq<(usize, String)>) -> Seq<Problem> {
    Seq::new(list.len(), |i: int| (list[i].0, list[i].1@))
}

fn precedes_problem(a: &(usize, String), b: &(usize, String)) -> (r: bool)
    ensures
        r == problem_precedes((a.0, a.1@), (b.0, b.1@)),
{
    if a.0 != b.0 {
        return a.0 < b.0;
    }
    let first = chars_of(a.1.as_str());
    let second = chars_of(b.1.as_str());
    comes_before(&first, &second)
}

proof fn problem_place_is_inside(list: Seq<Problem>, problem: Problem, n: int)
    requires
        0 <= n <= list.len(),
    ensures
        0 <= problem_place(list, problem, n) <= n,
    decreases n,
{
    if n > 0 && problem_precedes(problem, list[n - 1]) {
        problem_place_is_inside(list, problem, n - 1);
    }
}

fn add_problem(list: &mut Vec<(usize, String)>, index: usize, text: String)
    ensures
        problem_views(final(list)@) == problem_views(old(list)@).insert(
            problem_place(
                problem_views(old(list)@),
                (index, text@),
                old(list)@.len() as int,
            ),
            (index, text@),
        ),
{
    let ghost before = problem_views(list@);
    let ghost problem = (index, text@);
    let item = (index, text);
    let mut at: usize = list.len();
    while at > 0 && precedes_problem(&item, &list[at - 1])
        invariant
            at <= list@.len(),
            before == problem_views(list@),
            (item.0, item.1@) == problem,
            problem_place(before, problem, list@.len() as int) == problem_place(
                before,
                problem,
                at as int,
            ),
        decreases at,
    {
        assert(before[at - 1] == (list@[at - 1].0, list@[at - 1].1@));
        at = at - 1;
    }
    proof {
        if at > 0 {
            assert(before[at - 1] == (list@[at - 1].0, list@[at - 1].1@));
        }
    }
    let ghost listed = list@;
    list.insert(at, item);
    assert(problem_views(list@) =~= before.insert(at as int, problem));
}

/// One binding.
#[derive(Debug, Clone, Copy, PartialEq, Eq, Structural)]
pub struct BoundKey {
    pub mods: Mods,
    pub sym: u32,
    pub action: Action,
}

/// The table of the fixed keys and of bindings, of which later ones replace earlier ones.
pub open spec fn bound(entries: Seq<BoundKey>) -> KeyTable
    decreases entries.len(),
{
    if entries.len() == 0 {
        fixed_table()
    } else {
        let last = entries.last();
        bound(entries.drop_last()).insert((last.mods, last.sym), last.action)
    }
}

/// Modifier and key to action.
#[derive(Debug)]
pub struct Bindings {
    entries: Vec<BoundKey>,
}

impl View for Bindings {
    type V = KeyTable;

    closed spec fn view(&self) -> KeyTable {
        bound(self.entries@)
    }
}

/// True when every binding of a table can be described.
pub open spec fn all_countable(table: KeyTable) -> bool {
    forall|key: KeyCombo| table.contains_key(key) ==> (#[trigger] table[key]).countable()
}

impl Bindings {
    /// The fixed movement and workspace keys alone.
    pub fn fixed() -> (r: Self)
        ensures
            r@ == fixed_table(),
            all_countable(r@),
    {
        Self { entries: Vec::new() }
    }

    fn insert(&mut self, key: KeyCombo, action: Action)
        ensures
            final(self)@ == old(self)@.insert(key, action),
    {
        let ghost before = self.entries@;
        self.entries.push(BoundKey { mods: key.0, sym: key.1, action });
        assert(self.entries@.drop_last() =~= before);
    }

    fn look_up(&self, key: KeyCombo) -> (r: Option<Action>)
        ensures
            r == (if self@.contains_key(key) {
                Some(self@[key])
            } else {
                None
            }),
    {
        let mut i: usize = self.entries.len();
        assert(self.entries@.take(i as int) =~= self.entries@);
        while i > 0
            invariant
                i <= self.entries@.len(),
                bound(self.entries@).contains_key(key) == bound(
                    self.entries@.take(i as int),
                ).contains_key(key),
                bound(self.entries@).contains_key(key) ==> bound(self.entries@)[key] == bound(
                    self.entries@.take(i as int),
                )[key],
            decreases i,
        {
            let entry = self.entries[i - 1];
            assert(self.entries@.take(i as int).drop_last() =~= self.entries@.take(i - 1));
            assert(self.entries@.take(i as int).last() == entry);
            if entry.mods == key.0 && entry.sym == key.1 {
                return Some(entry.action);
            }
            i = i - 1;
        }
        assert(self.entries@.take(0) =~= Seq::empty());
        fixed(key.0, key.1)
    }

    /// Builds the table: the fixed movement and workspace keys, plus the bindings of the
    /// settings. Fails if a key name is unknown.
    pub fn from_config(values: &ConfigValues, names: &Vec<KeyName>) -> (r: Result<Self, String>)
        ensures
            match r {
                Ok(bindings) => configured(
                    values.rules(),
                    values.values(),
                    names@,
                    fixed_table(),
                    0,
                ) == Ok::<KeyTable, Seq<char>>(bindings@) && all_countable(bindings@),
                Err(message) => configured(
                    values.rules(),
                    values.values(),
                    names@,
                    fixed_table(),
                    0,
                ) == Err::<KeyTable, Seq<char>>(message@),
            },
    {
        let mut bindings = Self::fixed();
        let mut i: usize = 0;
        while i < CONFIGURABLE
            invariant
                i <= CONFIGURABLE,
                all_countable(bindings@),
                configured(values.rules(), values.values(), names@, fixed_table(), 0)
                    == configured(
                    values.rules(),
                    values.values(),
                    names@,
                    bindings@,
                    i as int,
                ),
            decreases CONFIGURABLE - i,
        {
            let (key, action) = configurable(i);
            let text = values.text(key);
            match find_combo(names, text.as_str(), " (try Return, space, backslash, F1)") {
                Err(reason) => {
                    return Err(concat3(key, ": ", reason.as_str()));
                },
                Ok(combo) => {
                    bindings.insert(combo, action);
                },
            }
            i = i + 1;
        }
        Ok(bindings)
    }

    /// The bindings of the settings; failing that those of the defaults; failing that the fixed
    /// keys.
    pub fn usable(values: &ConfigValues, names: &Vec<KeyName>) -> (r: Self)
        ensures
            r@ == usable_table(values.rules(), values.values(), names@),
            all_countable(r@),
    {
        match Self::from_config(values, names) {
            Ok(bindings) => bindings,
            Err(_) => {
                let defaults = ConfigValues::default();
                match Self::from_config(&defaults, names) {
                    Ok(bindings) => bindings,
                    Err(_) => Self::fixed(),
                }
            },
        }
    }

    /// Adds the scripts' bindings and returns, per script left out, why.
    ///
    /// A script never takes a key that is taken: a clash with another binding drops the
    /// script's. Scripts that claim the same key are all dropped, because none has a better
    /// claim.
    pub fn add_scripts(&mut self, scripts: &Vec<ScriptBinding>, names: &Vec<KeyName>) -> (r: Vec<
        (usize, String),
    >)
        requires
            all_countable(old(self)@),
        ensures
            final(self)@ == with_scripts(
                old(self)@,
                names@,
                scripts@,
                scripts@.len() as int,
            ),
            all_countable(final(self)@),
            problem_views(r@) == sorted_problems(
                script_problems(old(self)@, names@, scripts@, scripts@.len() as int),
            ),
    {
        let ghost table = self@;
        let mut keys: Vec<Result<KeyCombo, String>> = Vec::new();
        let mut i: usize = 0;
        while i < scripts.len()
            invariant
                i <= scripts.len(),
                keys@.len() == i,
                forall|j: int|
                    0 <= j < i ==> match #[trigger] keys@[j] {
                        Ok(key) => claim(names@, scripts@[j]) == Ok::<KeyCombo, Seq<char>>(key),
                        Err(reason) => claim(names@, scripts@[j]) == Err::<KeyCombo, Seq<char>>(
                            reason@,
                        ),
                    },
            decreases scripts.len() - i,
        {
            keys.push(find_combo(names, scripts[i].text.as_str(), ""));
            i = i + 1;
        }
        let mut problems: Vec<(usize, String)> = Vec::new();
        let mut added: Vec<BoundKey> = Vec::new();
        i = 0;
        proof {
            assert(problem_views(problems@) =~= Seq::empty());
            assert(with_scripts(table, names@, scripts@, 0) =~= table) by {
                assert forall|key: KeyCombo| !claimed_once(names@, scripts@, key, 0) by {}
            }
            assert(extended(table, added@) =~= table);
        }
        while i < scripts.len()
            invariant
                i <= scripts.len(),
                keys@.len() == scripts@.len(),
                self@ == table,
                all_countable(table),
                forall|j: int|
                    0 <= j < scripts@.len() ==> match #[trigger] keys@[j] {
                        Ok(key) => claim(names@, scripts@[j]) == Ok::<KeyCombo, Seq<char>>(key),
                        Err(reason) => claim(names@, scripts@[j]) == Err::<KeyCombo, Seq<char>>(
                            reason@,
                        ),
                    },
                problem_views(problems@) == sorted_problems(
                    script_problems(table, names@, scripts@, i as int),
                ),
                extended(table, added@) == with_scripts(table, names@, scripts@, i as int),
            decreases scripts.len() - i,
        {
            let ghost noted = script_problems(table, names@, scripts@, i as int);
            let script = &scripts[i];
            match &keys[i] {
                Err(reason) => {
                    let text = concat3("bind: ", reason.as_str(), "");
                    proof {
                        reveal_strlit("");
                        assert(text@ =~= "bind: "@ + reason@);
                        assert(noted.push((script.index, text@)).drop_last() =~= noted);
                        no_claim_changes_nothing(table, names@, scripts@, i as int);
                    }
                    add_problem(&mut problems, script.index, text);
                },
                Ok(combo) => {
                    let key = *combo;
                    match self.look_up(key) {
                        Some(existing) => {
                            let doing = existing.describe();
                            let text = concat5(
                                "bind: ",
                                script.text.as_str(),
                                " already does \"",
                                doing.as_str(),
                                "\"; the script's binding is ignored",
                            );
                            proof {
                                assert(noted.push((script.index, text@)).drop_last() =~= noted);
                                taken_key_changes_nothing(table, names@, scripts@, i as int, key);
                            }
                            add_problem(&mut problems, script.index, text);
                        },
                        None => {
                            let others = other_names(&keys, scripts, names, key, script.index);
                            let alone = is_alone(&keys, scripts, names, key, i);
                            if alone {
                                let ghost before = added@;
                                added.push(
                                    BoundKey {
                                        mods: key.0,
                                        sym: key.1,
                                        action: Action::RunScript(script.index),
                                    },
                                );
                                proof {
                                    sole_claim_is_added(table, names@, scripts@, i as int, key);
                                    assert(added@.drop_last() =~= before);
                                    assert(extended(table, added@) =~= with_scripts(
                                        table,
                                        names@,
                                        scripts@,
                                        i + 1,
                                    ));
                                }
                            } else {
                                let list = join(&others, ", ");
                                let text = concat5(
                                    "bind: ",
                                    script.text.as_str(),
                                    " is also claimed by ",
                                    list.as_str(),
                                    "; both are ignored",
                                );
                                proof {
                                    assert(noted.push((script.index, text@)).drop_last()
                                        =~= noted);
                                    shared_claim_changes_nothing(
                                        table,
                                        names@,
                                        scripts@,
                                        i as int,
                                        key,
                                    );
                                }
                                add_problem(&mut problems, script.index, text);
                            }
                        },
                    }
                },
            }
            i = i + 1;
        }
        let ghost entries = self.entries@;
        let mut k: usize = 0;
        assert(extended(table, added@.take(0)) =~= table) by {
            assert(added@.take(0) =~= Seq::empty());
        }
        while k < added.len()
            invariant
                k <= added@.len(),
                self@ == extended(table, added@.take(k as int)),
            decreases added@.len() - k,
        {
            let entry = added[k];
            self.insert((entry.mods, entry.sym), entry.action);
            assert(added@.take(k + 1).drop_last() =~= added@.take(k as int));
            assert(added@.take(k + 1).last() == entry);
            k = k + 1;
        }
        assert(added@.take(added@.len() as int) =~= added@);
        proof {
            let all = with_scripts(table, names@, scripts@, scripts@.len() as int);
            assert forall|key: KeyCombo| all.contains_key(key) implies (
            #[trigger] all[key]).countable() by {
                if table.contains_key(key) {
                    assert(table[key].countable());
                }
            }
        }
        problems
    }

    /// What a key does. Without the modifier it belongs to the focused program.
    pub fn get(&self, mods: Mods, sym: Option<u32>) -> (r: Option<Action>)
        ensures
            r == found_action(self@, mods, sym),
    {
        if !mods.mod_key {
            return None;
        }
        match sym {
            None => None,
            Some(sym) => self.look_up((mods, sym)),
        }
    }
}

/// What a key does. Without the modifier it belongs to the focused program.
pub open spec fn found_action(table: KeyTable, mods: Mods, sym: Option<u32>) -> Option<Action> {
    if !mods.mod_key || sym is None {
        None
    } else if table.contains_key((mods, sym->0)) {
        Some(table[(mods, sym->0)])
    } else {
        None
    }
}

/// A table with bindings added, of which later ones replace earlier ones.
pub open spec fn extended(table: KeyTable, added: Seq<BoundKey>) -> KeyTable
    decreases added.len(),
{
    if added.len() == 0 {
        table
    } else {
        let last = added.last();
        extended(table, added.drop_last()).insert((last.mods, last.sym), last.action)
    }
}

/// What is known of the keys that scripts claim.
spec fn keys_known(
    keys: Seq<Result<KeyCombo, String>>,
    names: Seq<KeyName>,
    scripts: Seq<ScriptBinding>,
) -> bool {
    &&& keys.len() == scripts.len()
    &&& forall|j: int|
        0 <= j < scripts.len() ==> match #[trigger] keys[j] {
            Ok(key) => claim(names, scripts[j]) == Ok::<KeyCombo, Seq<char>>(key),
            Err(reason) => claim(names, scripts[j]) == Err::<KeyCombo, Seq<char>>(reason@),
        }
}

fn is_alone(
    keys: &Vec<Result<KeyCombo, String>>,
    scripts: &Vec<ScriptBinding>,
    names: &Vec<KeyName>,
    key: KeyCombo,
    i: usize,
) -> (r: bool)
    requires
        keys_known(keys@, names@, scripts@),
        claims(names@, scripts@, key, i as int),
    ensures
        r == claims_alone(names@, scripts@, key, i as int),
{
    let mut j: usize = 0;
    while j < keys.len()
        invariant
            j <= keys@.len(),
            keys_known(keys@, names@, scripts@),
            forall|k: int|
                0 <= k < j && #[trigger] claims(names@, scripts@, key, k) ==> k == i,
        decreases keys@.len() - j,
    {
        if j != i {
            if let Ok(other) = &keys[j] {
                if other.0 == key.0 && other.1 == key.1 {
                    assert(claims(names@, scripts@, key, j as int));
                    return false;
                }
            }
        }
        j = j + 1;
    }
    true
}

fn other_names(
    keys: &Vec<Result<KeyCombo, String>>,
    scripts: &Vec<ScriptBinding>,
    names: &Vec<KeyName>,
    key: KeyCombo,
    index: usize,
) -> (r: Vec<String>)
    requires
        keys_known(keys@, names@, scripts@),
    ensures
        views(r@) == other_claimants(names@, scripts@, key, index, scripts@.len() as int),
{
    let mut out: Vec<String> = Vec::new();
    let mut j: usize = 0;
    assert(views(out@) =~= Seq::empty());
    while j < scripts.len()
        invariant
            j <= scripts@.len(),
            keys_known(keys@, names@, scripts@),
            views(out@) == other_claimants(names@, scripts@, key, index, j as int),
        decreases scripts@.len() - j,
    {
        let claimed = match &keys[j] {
            Ok(other) => other.0 == key.0 && other.1 == key.1,
            Err(_) => false,
        };
        if claimed && scripts[j].index != index {
            let ghost before = out@;
            out.push(copied(scripts[j].name.as_str()));
            assert(views(out@) =~= views(before).push(scripts@[j as int].name@));
        }
        j = j + 1;
    }
    out
}

proof fn no_claim_changes_nothing(
    table: KeyTable,
    names: Seq<KeyName>,
    scripts: Seq<ScriptBinding>,
    i: int,
)
    requires
        0 <= i < scripts.len(),
        claim(names, scripts[i]) is Err,
    ensures
        with_scripts(table, names, scripts, i + 1) == with_scripts(table, names, scripts, i),
{
    assert forall|key: KeyCombo|
        claimed_once(names, scripts, key, i + 1) == claimed_once(names, scripts, key, i) by {
        assert(!claims(names, scripts, key, i));
        if claimed_once(names, scripts, key, i + 1) {
            let k = choose|k: int| k < i + 1 && #[trigger] claims_alone(names, scripts, key, k);
            assert(k != i);
        }
    }
    assert(with_scripts(table, names, scripts, i + 1) =~= with_scripts(table, names, scripts, i));
}

proof fn taken_key_changes_nothing(
    table: KeyTable,
    names: Seq<KeyName>,
    scripts: Seq<ScriptBinding>,
    i: int,
    key: KeyCombo,
)
    requires
        0 <= i < scripts.len(),
        claims(names, scripts, key, i),
        table.contains_key(key),
    ensures
        with_scripts(table, names, scripts, i + 1) == with_scripts(table, names, scripts, i),
{
    assert forall|other: KeyCombo| !table.contains_key(other) implies claimed_once(
        names,
        scripts,
        other,
        i + 1,
    ) == claimed_once(names, scripts, other, i) by {
        assert(!claims(names, scripts, other, i));
        if claimed_once(names, scripts, other, i + 1) {
            let k = choose|k: int| k < i + 1 && #[trigger] claims_alone(names, scripts, other, k);
            assert(k != i);
        }
    }
    assert(with_scripts(table, names, scripts, i + 1) =~= with_scripts(table, names, scripts, i));
}

proof fn shared_claim_changes_nothing(
    table: KeyTable,
    names: Seq<KeyName>,
    scripts: Seq<ScriptBinding>,
    i: int,
    key: KeyCombo,
)
    requires
        0 <= i < scripts.len(),
        claims(names, scripts, key, i),
        !claims_alone(names, scripts, key, i),
    ensures
        with_scripts(table, names, scripts, i + 1) == with_scripts(table, names, scripts, i),
{
    assert forall|other: KeyCombo|
        claimed_once(names, scripts, other, i + 1) == claimed_once(
            names,
            scripts,
            other,
            i,
        ) by {
        if claimed_once(names, scripts, other, i + 1) {
            let k = choose|k: int| k < i + 1 && #[trigger] claims_alone(names, scripts, other, k);
            if k == i {
                assert(other == key);
            }
        }
    }
    assert(with_scripts(table, names, scripts, i + 1) =~= with_scripts(table, names, scripts, i));
}

proof fn sole_claim_is_added(
    table: KeyTable,
    names: Seq<KeyName>,
    scripts: Seq<ScriptBinding>,
    i: int,
    key: KeyCombo,
)
    requires
        0 <= i < scripts.len(),
        claims_alone(names, scripts, key, i),
        !table.contains_key(key),
    ensures
        with_scripts(table, names, scripts, i + 1) == with_scripts(
            table,
            names,
            scripts,
            i,
        ).insert(key, Action::RunScript(scripts[i].index)),
{
    let before = with_scripts(table, names, scripts, i);
    let after = with_scripts(table, names, scripts, i + 1);
    let k = sole_claimant(names, scripts, key);
    assert(claims_alone(names, scripts, key, k));
    assert(claims(names, scripts, key, k) && k == i);
    assert(claimed_once(names, scripts, key, i + 1));
    assert forall|other: KeyCombo| other != key implies claimed_once(
        names,
        scripts,
        other,
        i + 1,
    ) == claimed_once(names, scripts, other, i) by {
        if claimed_once(names, scripts, other, i + 1) {
            let k = choose|k: int| k < i + 1 && #[trigger] claims_alone(names, scripts, other, k);
            if k == i {
                assert(claims(names, scripts, other, i));
            }
        }
    }
    assert(after =~= before.insert(key, Action::RunScript(scripts[i].index)));
}

/// A script never takes a key from the window manager: every binding that was there stays.
pub proof fn scripts_never_take_a_key(
    table: KeyTable,
    names: Seq<KeyName>,
    scripts: Seq<ScriptBinding>,
    key: KeyCombo,
)
    requires
        table.contains_key(key),
    ensures
        with_scripts(table, names, scripts, scripts.len() as int).contains_key(key),
        with_scripts(table, names, scripts, scripts.len() as int)[key] == table[key],
{
}

/// A free key that two scripts claim goes to neither of them, and both are told.
pub proof fn shared_keys_go_to_nobody(
    table: KeyTable,
    names: Seq<KeyName>,
    scripts: Seq<ScriptBinding>,
    key: KeyCombo,
    i: int,
    j: int,
)
    requires
        i != j,
        !table.contains_key(key),
        claims(names, scripts, key, i),
        claims(names, scripts, key, j),
    ensures
        !with_scripts(table, names, scripts, scripts.len() as int).contains_key(key),
        script_problem(table, names, scripts, i) is Some,
        script_problem(table, names, scripts, j) is Some,
{
    if claimed_once(names, scripts, key, scripts.len() as int) {
        let k = choose|k: int|
            k < scripts.len() && #[trigger] claims_alone(names, scripts, key, k);
        assert(k == i && k == j);
    }
}

/// A script that is told of no problem has its key, and one that is told of a problem has none.
pub proof fn a_script_has_its_key_or_a_problem(
    table: KeyTable,
    names: Seq<KeyName>,
    scripts: Seq<ScriptBinding>,
    i: int,
)
    requires
        0 <= i < scripts.len(),
    ensures
        script_problem(table, names, scripts, i) is None ==> {
            &&& claim(names, scripts[i]) is Ok
            &&& with_scripts(table, names, scripts, scripts.len() as int).contains_key(
                claim(names, scripts[i])->Ok_0,
            )
            &&& with_scripts(
                table,
                names,
                scripts,
                scripts.len() as int,
            )[claim(names, scripts[i])->Ok_0] == Action::RunScript(scripts[i].index)
        },
        script_problem(table, names, scripts, i) is Some && claim(names, scripts[i]) is Ok
            && !table.contains_key(claim(names, scripts[i])->Ok_0) ==> !with_scripts(
            table,
            names,
            scripts,
            scripts.len() as int,
        ).contains_key(claim(names, scripts[i])->Ok_0),
{
    if claim(names, scripts[i]) is Ok {
        let key = claim(names, scripts[i])->Ok_0;
        assert(claims(names, scripts, key, i));
        let n = scripts.len() as int;
        if script_problem(table, names, scripts, i) is None {
            assert(claims_alone(names, scripts, key, i));
            let k = sole_claimant(names, scripts, key);
            assert(claims_alone(names, scripts, key, k));
            assert(claims(names, scripts, key, k));
            assert(claimed_once(names, scripts, key, n));
        } else if !table.contains_key(key) && claimed_once(names, scripts, key, n) {
            let k = choose|k: int| k < n && #[trigger] claims_alone(names, scripts, key, k);
            assert(k == i);
        }
    }
}

/// Keys without the modifier are never bound, so no key is taken from the focused program.
pub proof fn bare_keys_are_forwarded(table: KeyTable, mods: Mods, sym: Option<u32>)
    requires
        !mods.mod_key,
    ensures
        found_action(table, mods, sym) is None,
{
}

/// The number of a function key, for switching virtual terminals: the symbols of `F1` to `F12`.
pub open spec fn terminal_of(sym: int) -> Option<i32> {
    if 0xffbe <= sym <= 0xffc9 {
        Some((sym - 0xffbe + 1) as i32)
    } else {
        None
    }
}

/// The number of a function key, for switching virtual terminals.
pub fn function_key(sym: u32) -> (r: Option<i32>)
    ensures
        r == terminal_of(sym as int),
{
    if 0xffbe <= sym && sym <= 0xffc9 {
        Some((sym - 0xffbe) as i32 + 1)
    } else {
        None
    }
}

/// What a key event does, if it is not for the focused program. Ctrl+Alt and a function key
/// belong to the session, whatever is bound: it is how you get back to a terminal when something
/// is wrong. Only presses count.
pub open spec fn key_action(
    table: KeyTable,
    mod_key: ModKey,
    pressed: bool,
    state: ModifiersState,
    sym: Option<u32>,
) -> Option<Action> {
    if !pressed {
        None
    } else if state.ctrl && state.alt && sym is Some && terminal_of(sym->0 as int) is Some {
        Some(Action::SwitchVt(terminal_of(sym->0 as int)->0))
    } else {
        found_action(table, Mods::of_state(mod_key, state), sym)
    }
}

/// What a key event does, or nothing if it is for the focused program.
pub fn on_keyboard(
    bindings: &Bindings,
    mod_key: ModKey,
    pressed: bool,
    state: &ModifiersState,
    sym: Option<u32>,
) -> (r: Option<Action>)
    ensures
        r == key_action(bindings@, mod_key, pressed, *state, sym),
{
    if !pressed {
        return None;
    }
    if state.ctrl && state.alt {
        if let Some(sym) = sym {
            if let Some(vt) = function_key(sym) {
                return Some(Action::SwitchVt(vt));
            }
        }
    }
    bindings.get(Mods::from_state(mod_key, state), sym)
}

/// The letter of a direction, as on the row under the right hand: `h`, `j`, `k` and `l`.
pub open spec fn letter_of(dir: Direction) -> char {
    match dir {
        Direction::Left => 'h',
        Direction::Down => 'j',
        Direction::Up => 'k',
        Direction::Right => 'l',
    }
}

/// The keys that cannot be configured: with the modifier a direction's letter moves the focus,
/// with Shift too it swaps, with Ctrl instead it resizes; and a digit shows the workspace of that
/// number, with Shift too it sends the window there. Nothing else is fixed.
pub proof fn fixed_keys_are_letters_and_digits(mods: Mods, sym: u32, dir: Direction, n: usize)
    requires
        1 <= n <= 9,
    ensures
        ({
            let action = fixed_action((mods, sym));
            let plain = mods == Mods { mod_key: true, shift: false, ctrl: false };
            let shifted = mods == Mods { mod_key: true, shift: true, ctrl: false };
            let with_ctrl = mods == Mods { mod_key: true, shift: false, ctrl: true };
            let is_letter = sym == letter_of(dir) as u32;
            let is_digit = sym == '0' as u32 + n;
            &&& action == Some(Action::Focus(dir)) <==> plain && is_letter
            &&& action == Some(Action::Swap(dir)) <==> shifted && is_letter
            &&& action == Some(Action::Resize(dir)) <==> with_ctrl && is_letter
            &&& action == Some(Action::Workspace((n - 1) as usize)) <==> plain && is_digit
            &&& action == Some(Action::MoveToWorkspace((n - 1) as usize)) <==> shifted && is_digit
            &&& match action {
                None => true,
                Some(Action::Focus(_)) => true,
                Some(Action::Swap(_)) => true,
                Some(Action::Resize(_)) => true,
                Some(Action::Workspace(index)) => index < 9,
                Some(Action::MoveToWorkspace(index)) => index < 9,
                Some(_) => false,
            }
        }),
{
}

/// A key does something only when it is pressed. Ctrl, Alt and a function key switch to the
/// terminal of its number, whatever is bound. Every other key needs the modifier of the session,
/// and does what is bound to it with Shift and Ctrl as they are held; the other modifier does
/// not matter.
pub proof fn keys_do_what_is_bound(
    table: KeyTable,
    mod_key: ModKey,
    state: ModifiersState,
    sym: u32,
    n: i32,
)
    requires
        1 <= n <= 12,
    ensures
        ({
            let action = key_action(table, mod_key, true, state, Some(sym));
            let f1: int = 0xffbe;
            let is_function_key = f1 <= sym < f1 + 12;
            let held = if mod_key is Alt {
                state.alt
            } else {
                state.logo
            };
            let key = (Mods { mod_key: true, shift: state.shift, ctrl: state.ctrl }, sym);
            &&& key_action(table, mod_key, false, state, Some(sym)) is None
            &&& key_action(table, mod_key, true, state, None) is None
            &&& state.ctrl && state.alt && sym == f1 + n - 1 ==> action == Some(
                Action::SwitchVt(n),
            )
            &&& !(state.ctrl && state.alt && is_function_key) ==> {
                &&& !held ==> action is None
                &&& held && table.contains_key(key) ==> action == Some(table[key])
                &&& held && !table.contains_key(key) ==> action is None
            }
        }),
{
}

/// A single letter means the same key in either case; a longer name is taken as it is written.
pub proof fn single_letters_ignore_case(names: Seq<KeyName>, one: Seq<char>, two: Seq<char>)
    ensures
        one.len() == 1 && two.len() == 1 && lowercase(one) == lowercase(two) ==> symbol_of(
            names,
            one,
        ) == symbol_of(names, two),
        forall|i: int|
            0 <= i < names.len() && one.len() > 1 && (#[trigger] names[i]).name@ == one && (forall|
                j: int,
            |
                0 <= j < i ==> (#[trigger] names[j]).name@ != one) ==> symbol_of(names, one)
                == if names[i].exact != 0 {
                Some(names[i].exact)
            } else if names[i].any_case != 0 {
                Some(names[i].any_case)
            } else {
                None
            },
        (forall|i: int|
            0 <= i < names.len() ==> (#[trigger] names[i]).name@ != looked_up(one)) ==> symbol_of(
            names,
            one,
        ) is None,
{
    assert forall|i: int|
        0 <= i < names.len() && one.len() > 1 && (#[trigger] names[i]).name@ == one && (forall|
            j: int,
        |
            0 <= j < i ==> (#[trigger] names[j]).name@ != one) implies symbol_of(names, one) == (
    if names[i].exact != 0 {
        Some(names[i].exact)
    } else if names[i].any_case != 0 {
        Some(names[i].any_case)
    } else {
        None
    }) by {
        symbol_found(names, one, i, 0);
    }
    if forall|i: int| 0 <= i < names.len() ==> (#[trigger] names[i]).name@ != looked_up(one) {
        symbol_missing(names, looked_up(one), 0);
    }
}

proof fn symbol_found(names: Seq<KeyName>, name: Seq<char>, i: int, from: int)
    requires
        0 <= from <= i < names.len(),
        names[i].name@ == name,
        forall|j: int| 0 <= j < i ==> (#[trigger] names[j]).name@ != name,
    ensures
        symbol_among(names, name, from) == symbol_among(names, name, i),
    decreases i - from,
{
    if from < i {
        symbol_found(names, name, i, from + 1);
    }
}

proof fn symbol_missing(names: Seq<KeyName>, name: Seq<char>, from: int)
    requires
        0 <= from <= names.len(),
        forall|j: int| 0 <= j < names.len() ==> (#[trigger] names[j]).name@ != name,
    ensures
        symbol_among(names, name, from) is None,
    decreases names.len() - from,
{
    if from < names.len() {
        symbol_missing(names, name, from + 1);
    }
}

/// The key that a setting names in the values, if it names one.
pub open spec fn key_set(
    rules: SchemaModel,
    values: Values,
    names: Seq<KeyName>,
    setting: Seq<char>,
) -> KeyCombo {
    combo_of(names, text_in(rules, values, setting), " (try Return, space, backslash, F1)"@)->Ok_0
}

/// Once the settings are read each of them does its own thing: its key quits, closes the focused
/// window, opens a terminal, the applications or the launcher, unless a setting further down has
/// the same key. Every other key does what it did.
pub proof fn settings_do_their_own_thing(
    rules: SchemaModel,
    values: Values,
    names: Seq<KeyName>,
    before: KeyTable,
    other: KeyCombo,
)
    requires
        configured(rules, values, names, before, 0) is Ok,
    ensures
        ({
            let table = configured(rules, values, names, before, 0)->Ok_0;
            let quit = key_set(rules, values, names, "bindings.quit"@);
            let close = key_set(rules, values, names, "bindings.close"@);
            let terminal = key_set(rules, values, names, "bindings.terminal"@);
            let apps = key_set(rules, values, names, "bindings.apps"@);
            let second = key_set(rules, values, names, "bindings.launcher_alt"@);
            let first = key_set(rules, values, names, "bindings.launcher"@);
            let later1 = set![quit];
            let later2 = later1.insert(close);
            let later3 = later2.insert(terminal);
            let later4 = later3.insert(apps);
            &&& table.contains_key(quit) && table[quit] == Action::Quit
            &&& table.contains_key(close)
            &&& !later1.contains(close) ==> table[close] == Action::CloseWindow
            &&& table.contains_key(terminal)
            &&& !later2.contains(terminal) ==> table[terminal] == Action::SpawnTerminal
            &&& table.contains_key(apps)
            &&& !later3.contains(apps) ==> table[apps] == Action::ToggleAppsOverlay
            &&& table.contains_key(second)
            &&& !later4.contains(second) ==> table[second] == Action::ToggleLauncher
            &&& table.contains_key(first)
            &&& !later4.contains(first) ==> table[first] == Action::ToggleLauncher
            &&& !later4.contains(other) && other != first && other != second ==> {
                &&& table.contains_key(other) == before.contains_key(other)
                &&& before.contains_key(other) ==> table[other] == before[other]
            }
        }),
{
    reveal_with_fuel(configured, 7);
}

/// A key combination that a text names always has the modifier, and Shift and Ctrl as the text
/// has them.
pub proof fn named_keys_have_the_modifier(names: Seq<KeyName>, text: Seq<char>, hint: Seq<char>)
    ensures
        combo_of(names, text, hint) is Ok <==> chord_of(text) is Ok && symbol_of(
            names,
            chord_of(text)->Ok_0.key,
        ) is Some,
        combo_of(names, text, hint) matches Ok(key) ==> {
            &&& key.0.mod_key
            &&& key.0.shift == chord_of(text)->Ok_0.shift
            &&& key.0.ctrl == chord_of(text)->Ok_0.ctrl
            &&& Some(key.1) == symbol_of(names, chord_of(text)->Ok_0.key)
        },
{
}

proof fn place_keeps_order(list: Seq<Problem>, problem: Problem, n: int)
    requires
        0 <= n <= list.len(),
        forall|i: int, j: int|
            0 <= i < j < list.len() ==> !problem_precedes(#[trigger] list[j], #[trigger] list[i]),
    ensures
        0 <= problem_place(list, problem, n) <= n,
        forall|i: int|
            0 <= i < problem_place(list, problem, n) ==> !problem_precedes(
                problem,
                #[trigger] list[i],
            ),
        forall|i: int|
            problem_place(list, problem, n) <= i < n ==> problem_precedes(
                problem,
                #[trigger] list[i],
            ),
    decreases n,
{
    if n > 0 {
        if problem_precedes(problem, list[n - 1]) {
            place_keeps_order(list, problem, n - 1);
        } else {
            assert forall|i: int| 0 <= i < n implies !problem_precedes(
                problem,
                #[trigger] list[i],
            ) by {
                if i < n - 1 && problem_precedes(problem, list[i]) {
                    assert(!problem_precedes(list[n - 1], list[i]));
                    problems_are_ordered(problem, list[i], list[n - 1]);
                }
            }
        }
    }
}

proof fn problems_are_ordered(a: Problem, b: Problem, c: Problem)
    ensures
        !(problem_precedes(a, b) && problem_precedes(b, a)),
        problem_precedes(a, b) && !problem_precedes(c, b) ==> problem_precedes(a, c),
{
    crate::text::texts_are_ordered(a.1, b.1, c.1);
    crate::text::texts_are_ordered(b.1, c.1, a.1);
    crate::text::texts_are_ordered(c.1, b.1, a.1);
}

/// The problems of the scripts' keys are listed by script, those of one script by their text,
/// and every problem stands in the list as often as it was found.
pub proof fn problems_come_in_order(list: Seq<Problem>, i: int, j: int)
    ensures
        sorted_problems(list).len() == list.len(),
        sorted_problems(list).to_multiset() == list.to_multiset(),
        0 <= i < j < list.len() ==> {
            let (one, two) = (sorted_problems(list)[i], sorted_problems(list)[j]);
            one.0 < two.0 || (one.0 == two.0 && !precedes(two.1, one.1))
        },
{
    problems_sorted(list);
    if 0 <= i < j < list.len() {
        let (one, two) = (sorted_problems(list)[i], sorted_problems(list)[j]);
        assert(!problem_precedes(two, one));
    }
}

proof fn problems_sorted(list: Seq<Problem>)
    ensures
        sorted_problems(list).len() == list.len(),
        sorted_problems(list).to_multiset() == list.to_multiset(),
        forall|i: int, j: int|
            0 <= i < j < list.len() ==> !problem_precedes(
                #[trigger] sorted_problems(list)[j],
                #[trigger] sorted_problems(list)[i],
            ),
    decreases list.len(),
{
    broadcast use vstd::seq_lib::group_to_multiset_ensures;

    if list.len() > 0 {
        let less = list.drop_last();
        let rest = sorted_problems(less);
        let problem = list.last();
        problems_sorted(less);
        place_keeps_order(rest, problem, rest.len() as int);
        let at = problem_place(rest, problem, rest.len() as int);
        let all = rest.insert(at, problem);
        assert(less.push(problem) =~= list);
        vstd::seq_lib::to_multiset_insert(rest, at, problem);
        assert forall|i: int, j: int| 0 <= i < j < list.len() implies !problem_precedes(
            #[trigger] all[j],
            #[trigger] all[i],
        ) by {
            if i == at {
                assert(all[j] == rest[j - 1]);
                problems_are_ordered(problem, rest[j - 1], problem);
            } else if j == at {
                assert(all[i] == rest[i]);
            } else {
                assert(all[i] == rest[if i < at { i } else { i - 1 }]);
                assert(all[j] == rest[if j < at { j } else { j - 1 }]);
            }
        }
    }
}

/// The scripts that a problem names are the others that claim the key, in their order.
pub proof fn the_other_claimants_are_named(
    names: Seq<KeyName>,
    scripts: Seq<ScriptBinding>,
    key: KeyCombo,
    index: usize,
)
    ensures
        other_claimants(names, scripts, key, index, scripts.len() as int) == scripts.filter(
            |script: ScriptBinding|
                claim(names, script) == Ok::<KeyCombo, Seq<char>>(key) && script.index != index,
        ).map_values(|script: ScriptBinding| script.name@),
{
    claimants_so_far(names, scripts, key, index, scripts.len() as int);
    assert(scripts.take(scripts.len() as int) =~= scripts);
}

proof fn claimants_so_far(
    names: Seq<KeyName>,
    scripts: Seq<ScriptBinding>,
    key: KeyCombo,
    index: usize,
    n: int,
)
    requires
        0 <= n <= scripts.len(),
    ensures
        other_claimants(names, scripts, key, index, n) == scripts.take(n).filter(
            |script: ScriptBinding|
                claim(names, script) == Ok::<KeyCombo, Seq<char>>(key) && script.index != index,
        ).map_values(|script: ScriptBinding| script.name@),
    decreases n,
{
    reveal(Seq::filter);
    let kept = |script: ScriptBinding|
        claim(names, script) == Ok::<KeyCombo, Seq<char>>(key) && script.index != index;
    let name = |script: ScriptBinding| script.name@;
    if n > 0 {
        claimants_so_far(names, scripts, key, index, n - 1);
        assert(scripts.take(n).drop_last() =~= scripts.take(n - 1));
        assert(scripts.take(n).last() == scripts[n - 1]);
        let before = scripts.take(n - 1).filter(kept);
        assert(before.push(scripts[n - 1]).map_values(name) =~= before.map_values(name).push(
            scripts[n - 1].name@,
        ));
    } else {
        assert(scripts.take(0).filter(kept).map_values(name) =~= Seq::empty());
    }
}

/// Settings with a binding that cannot be used count for nothing: the keys are then those of the
/// defaults.
pub proof fn wrong_bindings_mean_the_defaults(
    rules: SchemaModel,
    values: Values,
    names: Seq<KeyName>,
)
    ensures
        ({
            let read = configured(rules, values, names, fixed_table(), 0);
            &&& read is Ok ==> usable_table(rules, values, names) == read->Ok_0
            &&& read is Err ==> usable_table(rules, values, names) == usable_table(
                builtin_rules(),
                Values::empty(),
                names,
            )
        }),
{
}

/// Every problem is that of the script it is told of, and every script's problem is told.
pub proof fn problems_are_those_of_their_script(
    table: KeyTable,
    names: Seq<KeyName>,
    scripts: Seq<ScriptBinding>,
    n: int,
)
    requires
        0 <= n <= scripts.len(),
    ensures
        forall|i: int|
            0 <= i < n && script_problem(table, names, scripts, i) is Some ==> script_problems(
                table,
                names,
                scripts,
                n,
            ).contains(
                (
                    (#[trigger] scripts[i]).index,
                    script_problem(table, names, scripts, i)->0,
                ),
            ),
        forall|k: int|
            0 <= k < script_problems(table, names, scripts, n).len() ==> exists|i: int|
                0 <= i < n && #[trigger] script_problems(table, names, scripts, n)[k] == (
                    (#[trigger] scripts[i]).index,
                    script_problem(table, names, scripts, i)->0,
                ) && script_problem(table, names, scripts, i) is Some,
    decreases n,
{
    if n > 0 {
        problems_are_those_of_their_script(table, names, scripts, n - 1);
        let before = script_problems(table, names, scripts, n - 1);
        let all = script_problems(table, names, scripts, n);
        assert forall|i: int|
            0 <= i < n && script_problem(table, names, scripts, i) is Some implies all.contains(
            ((#[trigger] scripts[i]).index, script_problem(table, names, scripts, i)->0),
        ) by {
            let told = (scripts[i].index, script_problem(table, names, scripts, i)->0);
            if i < n - 1 {
                let k = choose|k: int| 0 <= k < before.len() && before[k] == told;
                assert(all[k] == told);
            } else {
                assert(all.last() == told);
            }
        }
        assert forall|k: int| 0 <= k < all.len() implies exists|i: int|
            0 <= i < n && #[trigger] all[k] == (
                (#[trigger] scripts[i]).index,
                script_problem(table, names, scripts, i)->0,
            ) && script_problem(table, names, scripts, i) is Some by {
            if k < before.len() {
                assert(all[k] == before[k]);
                let i = choose|i: int|
                    0 <= i < n - 1 && #[trigger] before[k] == (
                        (#[trigger] scripts[i]).index,
                        script_problem(table, names, scripts, i)->0,
                    ) && script_problem(table, names, scripts, i) is Some;
                assert(all[k] == (
                    scripts[i].index,
                    script_problem(table, names, scripts, i)->0,
                ));
            } else {
                assert(all[k] == (
                    scripts[n - 1].index,
                    script_problem(table, names, scripts, n - 1)->0,
                ));
            }
        }
    }
}

/// Before anything is configured the keys do what is fixed, and no other key does anything.
pub proof fn the_table_begins_with_the_fixed_keys(key: KeyCombo, dir: Direction, n: usize)
    requires
        1 <= n <= 9,
    ensures
        ({
            let plain = Mods { mod_key: true, shift: false, ctrl: false };
            let letter = (plain, letter_of(dir) as u32);
            let digit = (plain, ('0' as u32 + n) as u32);
            let table = fixed_table();
            &&& table.contains_key(letter) && table[letter] == Action::Focus(dir)
            &&& table.contains_key(digit) && table[digit] == Action::Workspace((n - 1) as usize)
            &&& table.contains_key(key) ==> key.0.mod_key
            &&& table.contains_key(key) ==> match table[key] {
                Action::Focus(_) => true,
                Action::Swap(_) => true,
                Action::Resize(_) => true,
                Action::Workspace(_) => true,
                Action::MoveToWorkspace(_) => true,
                _ => false,
            }
        }),
{
}

} // verus!
