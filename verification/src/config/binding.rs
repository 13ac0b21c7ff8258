//! Key bindings written as text: `Mod+Shift+Return`.
//!
//! This only checks the *shape*. Whether `Return` names a real key is decided where keyboard
//! layouts are known.

use crate::text::{
    before_spaces, char_views, chars_of, concat3, concat5, copied, first_at, first_at_is_first,
    is_space, lowered, pieces, skip_spaces, spells, split, string_of, to_lower, trim, trimmed,
};
use vstd::prelude::*;

verus! {

/// A parsed binding.
#[derive(Debug, PartialEq, Eq)]
pub struct Binding {
    /// Held with the configured modifier key.
    pub mod_key: bool,
    /// Held with Shift.
    pub shift: bool,
    /// Held with Ctrl.
    pub ctrl: bool,
    /// The xkb key name, e.g. `Return`, `backslash`, `e`.
    pub key: String,
}

/// What a binding says: the modifiers that are held, and the name of the key.
#[verifier::ext_equal]
pub struct Chord {
    pub mod_key: bool,
    pub shift: bool,
    pub ctrl: bool,
    pub key: Seq<char>,
}

impl View for Binding {
    type V = Chord;

    open spec fn view(&self) -> Chord {
        Chord { mod_key: self.mod_key, shift: self.shift, ctrl: self.ctrl, key: self.key@ }
    }
}

impl Clone for Binding {
    fn clone(&self) -> (r: Self)
        ensures
            r@ == self@,
    {
        Binding {
            mod_key: self.mod_key,
            shift: self.shift,
            ctrl: self.ctrl,
            key: copied(self.key.as_str()),
        }
    }
}

/// Why a binding string is malformed.
#[derive(Debug, PartialEq, Eq)]
pub struct BindingError {
    /// The string as written.
    pub text: String,
    /// What is wrong with it.
    pub reason: String,
}

/// The message of a binding error.
pub open spec fn binding_message(text: Seq<char>, reason: Seq<char>) -> Seq<char> {
    "`"@ + text + "` is not a binding: "@ + reason + ". Write it like Mod+Shift+Return"@
}

impl BindingError {
    /// The message shown to a person.
    pub fn to_text(&self) -> (r: String)
        ensures
            r@ == binding_message(self.text@, self.reason@),
    {
        concat5(
            "`",
            self.text.as_str(),
            "` is not a binding: ",
            self.reason.as_str(),
            ". Write it like Mod+Shift+Return",
        )
    }
}

/// One more modifier held, or the reason why it cannot be.
pub open spec fn hold(held: Chord, modifier: Seq<char>) -> Result<Chord, Seq<char>> {
    let name = lowered(modifier);
    let twice = "`"@ + modifier + "` appears twice"@;
    if name == "mod"@ {
        if held.mod_key {
            Err(twice)
        } else {
            Ok(Chord { mod_key: true, ..held })
        }
    } else if name == "shift"@ {
        if held.shift {
            Err(twice)
        } else {
            Ok(Chord { shift: true, ..held })
        }
    } else if name == "ctrl"@ || name == "control"@ {
        if held.ctrl {
            Err(twice)
        } else {
            Ok(Chord { ctrl: true, ..held })
        }
    } else if name == ""@ {
        Err("it has an empty part between two +"@)
    } else {
        Err("`"@ + name + "` is not a modifier; use Mod, Shift or Ctrl"@)
    }
}

/// The modifiers `parts[from..]` held as well, or the reason why the first bad one cannot be.
pub open spec fn hold_all(held: Chord, parts: Seq<Seq<char>>, from: int) -> Result<
    Chord,
    Seq<char>,
>
    decreases parts.len() - from,
{
    if from < 0 || from >= parts.len() {
        Ok(held)
    } else {
        match hold(held, trim(parts[from])) {
            Ok(next) => hold_all(next, parts, from + 1),
            Err(reason) => Err(reason),
        }
    }
}

/// The binding that a text stands for, or the reason why it stands for none: modifiers in any
/// order and case, Mod among them, none twice, and the key last.
pub open spec fn chord_of(s: Seq<char>) -> Result<Chord, Seq<char>> {
    let parts = pieces(s, '+', 0);
    let key = trim(parts.last());
    if key.len() == 0 {
        Err("it has no key after the last +"@)
    } else {
        let bare = Chord { mod_key: false, shift: false, ctrl: false, key };
        match hold_all(bare, parts.drop_last(), 0) {
            Err(reason) => Err(reason),
            Ok(held) => if held.mod_key {
                Ok(held)
            } else {
                Err("every binding needs Mod"@)
            },
        }
    }
}

impl Chord {
    /// The binding as it is written: `Mod`, then the other modifiers, then the key.
    pub open spec fn shown(self) -> Seq<char> {
        "Mod"@ + (if self.ctrl {
            "+Ctrl"@
        } else {
            ""@
        }) + (if self.shift {
            "+Shift"@
        } else {
            ""@
        }) + "+"@ + self.key
    }
}

impl Binding {
    /// Parses `Mod+Shift+Return`. Modifiers are case-insensitive and may come in any order; the
    /// key comes last. Every binding must use `Mod`, so no key is ever stolen from the focused
    /// program.
    pub fn parse(text: &str) -> (r: Result<Self, BindingError>)
        ensures
            match r {
                Ok(binding) => chord_of(text@) == Ok::<Chord, Seq<char>>(binding@)
                    && binding.mod_key,
                Err(err) => err.text@ == text@ && chord_of(text@) == Err::<Chord, Seq<char>>(
                    err.reason@,
                ),
            },
    {
        let chars = chars_of(text);
        let mut parts = split(&chars, '+');
        let ghost all = char_views(parts@);
        let last = match parts.pop() {
            Some(last) => last,
            None => Vec::new(),
        };
        assert(char_views(parts@) =~= all.drop_last());
        assert(last@ == all.last());
        let key = trimmed(&last);
        if key.len() == 0 {
            return Err(
                BindingError {
                    text: copied(text),
                    reason: copied("it has no key after the last +"),
                },
            );
        }
        let mut binding = Binding {
            mod_key: false,
            shift: false,
            ctrl: false,
            key: string_of(&key),
        };
        let ghost mods = char_views(parts@);
        let ghost bare = binding@;
        let mut i: usize = 0;
        while i < parts.len()
            invariant
                i <= parts.len(),
                mods == char_views(parts@),
                hold_all(bare, mods, 0) == hold_all(binding@, mods, i as int),
                ({
                    let parts = pieces(text@, '+', 0);
                    &&& mods == parts.drop_last()
                    &&& trim(parts.last()).len() > 0
                    &&& bare == Chord {
                        mod_key: false,
                        shift: false,
                        ctrl: false,
                        key: trim(parts.last()),
                    }
                }),
            decreases parts.len() - i,
        {
            assert(mods[i as int] == parts@[i as int]@);
            let modifier = trimmed(&parts[i]);
            let name = to_lower(&modifier);
            let ghost next = hold(binding@, modifier@);
            let twice = if spells(&name, "mod") {
                let twice = binding.mod_key;
                binding.mod_key = true;
                twice
            } else if spells(&name, "shift") {
                let twice = binding.shift;
                binding.shift = true;
                twice
            } else if spells(&name, "ctrl") || spells(&name, "control") {
                let twice = binding.ctrl;
                binding.ctrl = true;
                twice
            } else if spells(&name, "") {
                return Err(
                    BindingError {
                        text: copied(text),
                        reason: copied("it has an empty part between two +"),
                    },
                );
            } else {
                let other = string_of(&name);
                return Err(
                    BindingError {
                        text: copied(text),
                        reason: concat3(
                            "`",
                            other.as_str(),
                            "` is not a modifier; use Mod, Shift or Ctrl",
                        ),
                    },
                );
            };
            if twice {
                let modifier = string_of(&modifier);
                return Err(
                    BindingError {
                        text: copied(text),
                        reason: concat3("`", modifier.as_str(), "` appears twice"),
                    },
                );
            }
            assert(next == Ok::<Chord, Seq<char>>(binding@));
            i = i + 1;
        }
        if !binding.mod_key {
            return Err(
                BindingError { text: copied(text), reason: copied("every binding needs Mod") },
            );
        }
        Ok(binding)
    }

    /// The binding as it is written: `Mod`, then the other modifiers, then the key.
    pub fn to_text(&self) -> (r: String)
        ensures
            r@ == self@.shown(),
    {
        let ctrl = if self.ctrl {
            "+Ctrl"
        } else {
            ""
        };
        let shift = if self.shift {
            "+Shift"
        } else {
            ""
        };
        concat5("Mod", ctrl, shift, "+", self.key.as_str())
    }
}

proof fn first_at_of_suffix(a: Seq<char>, b: Seq<char>, c: char, i: int)
    requires
        0 <= i <= b.len(),
    ensures
        first_at(a + b, c, a.len() + i) == a.len() + first_at(b, c, i),
    decreases b.len() - i,
{
    if i < b.len() {
        assert((a + b)[a.len() + i] == b[i]);
        if b[i] != c {
            first_at_of_suffix(a, b, c, i + 1);
        }
    }
}

proof fn pieces_of_suffix(a: Seq<char>, b: Seq<char>, c: char, i: int)
    requires
        0 <= i <= b.len(),
    ensures
        pieces(a + b, c, a.len() + i) == pieces(b, c, i),
    decreases b.len() - i,
{
    first_at_of_suffix(a, b, c, i);
    first_at_is_first(b, c, i);
    let j = first_at(b, c, i);
    let n = a.len() as int;
    if j < b.len() {
        assert((a + b).subrange(n + i, n + j) =~= b.subrange(i, j));
        pieces_of_suffix(a, b, c, j + 1);
    } else {
        assert((a + b).subrange(n + i, n + b.len()) =~= b.subrange(i, b.len() as int));
    }
}

proof fn first_at_past(word: Seq<char>, rest: Seq<char>, c: char, i: int)
    requires
        0 <= i <= word.len(),
        !word.contains(c),
        rest.len() == 0 || rest[0] == c,
    ensures
        first_at(word + rest, c, i) == word.len(),
    decreases word.len() - i,
{
    if i < word.len() {
        assert(word.contains(word[i]));
        first_at_past(word, rest, c, i + 1);
    }
}

proof fn first_piece(word: Seq<char>, rest: Seq<char>)
    requires
        !word.contains('+'),
    ensures
        pieces(word + ("+"@ + rest), '+', 0) == seq![word] + pieces(rest, '+', 0),
        pieces(word, '+', 0) == seq![word],
{
    reveal_strlit("+");
    let tail = "+"@ + rest;
    let s = word + tail;
    first_at_past(word, tail, '+', 0);
    assert(s.subrange(0, word.len() as int) =~= word);
    assert(s =~= (word + "+"@) + rest);
    pieces_of_suffix(word + "+"@, rest, '+', 0);
    first_at_past(word, Seq::<char>::empty(), '+', 0);
    assert(word + Seq::<char>::empty() =~= word);
    assert(word.subrange(0, word.len() as int) =~= word);
}

proof fn no_plus(s: Seq<char>, from: int)
    requires
        0 <= from <= s.len(),
    ensures
        forall|i: int|
            0 <= i < pieces(s, '+', from).len() ==> !(#[trigger] pieces(s, '+', from)[i]).contains(
                '+',
            ),
        pieces(s, '+', from).len() > 0,
    decreases s.len() - from,
{
    first_at_is_first(s, '+', from);
    let j = first_at(s, '+', from);
    let all = pieces(s, '+', from);
    if j < s.len() {
        no_plus(s, j + 1);
        let rest = pieces(s, '+', j + 1);
        assert forall|i: int| 0 <= i < all.len() implies !(#[trigger] all[i]).contains('+') by {
            if i > 0 {
                assert(all[i] == rest[i - 1]);
            }
        }
    }
}

proof fn skip_spaces_stops(s: Seq<char>, from: int)
    requires
        0 <= from <= s.len(),
    ensures
        from <= skip_spaces(s, from) <= s.len(),
        skip_spaces(s, from) < s.len() ==> !is_space(s[skip_spaces(s, from)]),
    decreases s.len() - from,
{
    if from < s.len() && is_space(s[from]) {
        skip_spaces_stops(s, from + 1);
    }
}

proof fn before_spaces_stops(s: Seq<char>, from: int, to: int)
    requires
        0 <= from <= to <= s.len(),
    ensures
        from <= before_spaces(s, from, to) <= to,
        before_spaces(s, from, to) > from ==> !is_space(s[before_spaces(s, from, to) - 1]),
    decreases to - from,
{
    if to > from && is_space(s[to - 1]) {
        before_spaces_stops(s, from, to - 1);
    }
}

proof fn trim_of_trimmed(s: Seq<char>)
    ensures
        trim(trim(s)) == trim(s),
        forall|c: char| trim(s).contains(c) ==> s.contains(c),
{
    skip_spaces_stops(s, 0);
    let from = skip_spaces(s, 0);
    before_spaces_stops(s, from, s.len() as int);
    let to = before_spaces(s, from, s.len() as int);
    let t = trim(s);
    if t.len() > 0 {
        assert(t[0] == s[from]);
        assert(t[t.len() - 1] == s[to - 1]);
        assert(to > from);
    }
    assert(skip_spaces(t, 0) == 0);
    assert(before_spaces(t, 0, t.len() as int) == t.len());
    assert(t.subrange(0, t.len() as int) =~= t);
    assert forall|c: char| t.contains(c) implies s.contains(c) by {
        let i = choose|i: int| 0 <= i < t.len() && t[i] == c;
        assert(s[from + i] == c);
    }
}

proof fn hold_all_keeps_key(held: Chord, parts: Seq<Seq<char>>, from: int)
    ensures
        hold_all(held, parts, from) matches Ok(after) ==> after.key == held.key,
    decreases parts.len() - from,
{
    if 0 <= from < parts.len() {
        if let Ok(next) = hold(held, trim(parts[from])) {
            hold_all_keeps_key(next, parts, from + 1);
        }
    }
}

proof fn plain_word(word: Seq<char>)
    requires
        word == "Mod"@ || word == "Ctrl"@ || word == "Shift"@,
    ensures
        trim(word) == word,
        !word.contains('+'),
        word == "Mod"@ ==> lowered(word) == "mod"@,
        word == "Ctrl"@ ==> lowered(word) == "ctrl"@,
        word == "Shift"@ ==> lowered(word) == "shift"@,
{
    reveal_strlit("Mod");
    reveal_strlit("Ctrl");
    reveal_strlit("Shift");
    reveal_strlit("mod");
    reveal_strlit("ctrl");
    reveal_strlit("shift");
    assert(skip_spaces(word, 0) == 0);
    assert(before_spaces(word, 0, word.len() as int) == word.len());
    assert(word.subrange(0, word.len() as int) =~= word);
    if word == "Mod"@ {
        assert(lowered(word) =~= "mod"@);
    }
    if word == "Ctrl"@ {
        assert(lowered(word) =~= "ctrl"@);
    }
    if word == "Shift"@ {
        assert(lowered(word) =~= "shift"@);
    }
}

proof fn modifier_names_differ()
    ensures
        "mod"@ != "shift"@,
        "mod"@ != "ctrl"@,
        "mod"@ != "control"@,
        "shift"@ != "ctrl"@,
        "shift"@ != "control"@,
{
    reveal_strlit("mod");
    reveal_strlit("shift");
    reveal_strlit("ctrl");
    reveal_strlit("control");
    assert("mod"@[0] == 'm' && "shift"@[0] == 's' && "ctrl"@[0] == 'c' && "control"@[0] == 'c');
}

/// A binding with Mod, whose key is no blank and holds no plus sign, parses from what is shown.
pub proof fn shown_bindings_parse(chord: Chord)
    requires
        chord.mod_key,
        chord.key.len() > 0,
        !chord.key.contains('+'),
        trim(chord.key) == chord.key,
    ensures
        chord_of(chord.shown()) == Ok::<Chord, Seq<char>>(chord),
{
    let key = chord.key;
    plain_word("Mod"@);
    plain_word("Ctrl"@);
    plain_word("Shift"@);
    modifier_names_differ();
    reveal_strlit("+");
    reveal_strlit("");
    reveal_strlit("+Ctrl");
    reveal_strlit("+Shift");
    reveal_strlit("Ctrl");
    reveal_strlit("Shift");
    assert("+Ctrl"@ =~= "+"@ + "Ctrl"@);
    assert("+Shift"@ =~= "+"@ + "Shift"@);
    first_piece(key, Seq::empty());
    let bare = Chord { mod_key: false, shift: false, ctrl: false, key };
    let with_mod = Chord { mod_key: true, ..bare };
    let shown = chord.shown();
    let all = pieces(shown, '+', 0);
    assert(hold(bare, "Mod"@) == Ok::<Chord, Seq<char>>(with_mod));
    if chord.ctrl && chord.shift {
        let tail1 = "Shift"@ + ("+"@ + key);
        let tail2 = "Ctrl"@ + ("+"@ + tail1);
        assert(shown =~= "Mod"@ + ("+"@ + tail2));
        first_piece("Shift"@, key);
        first_piece("Ctrl"@, tail1);
        first_piece("Mod"@, tail2);
        assert(all =~= seq!["Mod"@, "Ctrl"@, "Shift"@, key]);
        let mods = all.drop_last();
        assert(mods =~= seq!["Mod"@, "Ctrl"@, "Shift"@]);
        let with_ctrl = Chord { ctrl: true, ..with_mod };
        let with_shift = Chord { shift: true, ..with_ctrl };
        assert(hold_all(with_shift, mods, 3) == Ok::<Chord, Seq<char>>(with_shift));
        assert(hold_all(with_ctrl, mods, 2) == Ok::<Chord, Seq<char>>(with_shift));
        assert(hold_all(with_mod, mods, 1) == Ok::<Chord, Seq<char>>(with_shift));
        assert(hold_all(bare, mods, 0) == Ok::<Chord, Seq<char>>(with_shift));
    } else if chord.ctrl {
        let tail1 = "Ctrl"@ + ("+"@ + key);
        assert(shown =~= "Mod"@ + ("+"@ + tail1));
        first_piece("Ctrl"@, key);
        first_piece("Mod"@, tail1);
        assert(all =~= seq!["Mod"@, "Ctrl"@, key]);
        let mods = all.drop_last();
        assert(mods =~= seq!["Mod"@, "Ctrl"@]);
        let with_ctrl = Chord { ctrl: true, ..with_mod };
        assert(hold_all(with_ctrl, mods, 2) == Ok::<Chord, Seq<char>>(with_ctrl));
        assert(hold_all(with_mod, mods, 1) == Ok::<Chord, Seq<char>>(with_ctrl));
        assert(hold_all(bare, mods, 0) == Ok::<Chord, Seq<char>>(with_ctrl));
    } else if chord.shift {
        let tail1 = "Shift"@ + ("+"@ + key);
        assert(shown =~= "Mod"@ + ("+"@ + tail1));
        first_piece("Shift"@, key);
        first_piece("Mod"@, tail1);
        assert(all =~= seq!["Mod"@, "Shift"@, key]);
        let mods = all.drop_last();
        assert(mods =~= seq!["Mod"@, "Shift"@]);
        let with_shift = Chord { shift: true, ..with_mod };
        assert(hold_all(with_shift, mods, 2) == Ok::<Chord, Seq<char>>(with_shift));
        assert(hold_all(with_mod, mods, 1) == Ok::<Chord, Seq<char>>(with_shift));
        assert(hold_all(bare, mods, 0) == Ok::<Chord, Seq<char>>(with_shift));
    } else {
        assert(shown =~= "Mod"@ + ("+"@ + key));
        first_piece("Mod"@, key);
        assert(all =~= seq!["Mod"@, key]);
        let mods = all.drop_last();
        assert(mods =~= seq!["Mod"@]);
        assert(hold_all(with_mod, mods, 1) == Ok::<Chord, Seq<char>>(with_mod));
        assert(hold_all(bare, mods, 0) == Ok::<Chord, Seq<char>>(with_mod));
    }
}

/// Parsing a binding as it is shown gives the binding back.
pub proof fn shown_bindings_parse_back(s: Seq<char>, chord: Chord)
    requires
        chord_of(s) == Ok::<Chord, Seq<char>>(chord),
    ensures
        chord_of(chord.shown()) == Ok::<Chord, Seq<char>>(chord),
{
    let parts = pieces(s, '+', 0);
    no_plus(s, 0);
    trim_of_trimmed(parts.last());
    hold_all_keeps_key(
        Chord { mod_key: false, shift: false, ctrl: false, key: trim(parts.last()) },
        parts.drop_last(),
        0,
    );
    assert(!parts[parts.len() - 1].contains('+'));
    shown_bindings_parse(chord);
}

/// Which modifier a part of a binding names: `Mod`, `Shift`, `Ctrl` (or `Control`), or none.
pub open spec fn modifier_named(part: Seq<char>) -> int {
    let name = lowered(trim(part));
    if name == "mod"@ {
        1
    } else if name == "shift"@ {
        2
    } else if name == "ctrl"@ || name == "control"@ {
        3
    } else {
        0
    }
}

/// True when one of the parts from `from` on names a modifier.
pub open spec fn names(parts: Seq<Seq<char>>, from: int, modifier: int) -> bool {
    exists|i: int| from <= i < parts.len() && #[trigger] modifier_named(parts[i]) == modifier
}

/// True when every part from `from` on names a modifier, and none that another names.
pub open spec fn all_different(parts: Seq<Seq<char>>, from: int) -> bool {
    &&& forall|i: int| from <= i < parts.len() ==> #[trigger] modifier_named(parts[i]) != 0
    &&& forall|i: int, j: int|
        from <= i < j < parts.len() ==> #[trigger] modifier_named(parts[i])
            != #[trigger] modifier_named(parts[j])
}

spec fn is_held(held: Chord, modifier: int) -> bool {
    ||| modifier == 1 && held.mod_key
    ||| modifier == 2 && held.shift
    ||| modifier == 3 && held.ctrl
}

proof fn names_from(parts: Seq<Seq<char>>, from: int, modifier: int)
    requires
        0 <= from < parts.len(),
    ensures
        names(parts, from, modifier) == (modifier_named(parts[from]) == modifier || names(
            parts,
            from + 1,
            modifier,
        )),
{
    if names(parts, from, modifier) && modifier_named(parts[from]) != modifier {
        let i = choose|i: int|
            from <= i < parts.len() && #[trigger] modifier_named(parts[i]) == modifier;
        assert(from + 1 <= i < parts.len() && modifier_named(parts[i]) == modifier);
    }
}

proof fn holding(held: Chord, parts: Seq<Seq<char>>, from: int)
    requires
        0 <= from <= parts.len(),
    ensures
        hold_all(held, parts, from) is Ok <==> {
            &&& all_different(parts, from)
            &&& forall|i: int|
                from <= i < parts.len() ==> !is_held(held, #[trigger] modifier_named(parts[i]))
        },
        hold_all(held, parts, from) is Ok ==> {
            let all = hold_all(held, parts, from)->Ok_0;
            &&& all.mod_key == (held.mod_key || names(parts, from, 1))
            &&& all.shift == (held.shift || names(parts, from, 2))
            &&& all.ctrl == (held.ctrl || names(parts, from, 3))
            &&& all.key == held.key
        },
    decreases parts.len() - from,
{
    reveal_strlit("mod");
    reveal_strlit("shift");
    reveal_strlit("ctrl");
    reveal_strlit("control");
    if from < parts.len() {
        let m = modifier_named(parts[from]);
        names_from(parts, from, 1);
        names_from(parts, from, 2);
        names_from(parts, from, 3);
        match hold(held, trim(parts[from])) {
            Ok(next) => {
                holding(next, parts, from + 1);
                assert(m != 0 && !is_held(held, m));
                assert(forall|k: int|
                    1 <= k <= 3 ==> #[trigger] is_held(next, k) == (is_held(held, k) || k == m));
                if hold_all(next, parts, from + 1) is Ok {
                    assert forall|i: int, j: int| from <= i < j < parts.len() implies
                        #[trigger] modifier_named(parts[i]) != #[trigger] modifier_named(
                        parts[j],
                    ) by {
                        if i == from {
                            assert(!is_held(next, modifier_named(parts[j])));
                        }
                    }
                } else {
                    if all_different(parts, from) && forall|i: int|
                        from <= i < parts.len() ==> !is_held(
                            held,
                            #[trigger] modifier_named(parts[i]),
                        ) {
                        assert forall|i: int| from + 1 <= i < parts.len() implies !is_held(
                            next,
                            #[trigger] modifier_named(parts[i]),
                        ) by {
                            assert(modifier_named(parts[from]) != modifier_named(parts[i]));
                        }
                        assert(all_different(parts, from + 1));
                        assert(false);
                    }
                }
            },
            Err(_) => {
                assert(m == 0 || is_held(held, m));
            },
        }
    }
}

/// A text is a binding when its last part names a key and the parts before it name different
/// modifiers, `Mod` among them; the binding then holds the modifiers that are named, no others,
/// and the key that is named.
pub proof fn bindings_hold_what_they_name(text: Seq<char>)
    ensures
        ({
            let parts = pieces(text, '+', 0);
            let mods = parts.drop_last();
            let key = trim(parts.last());
            &&& chord_of(text) is Ok <==> {
                &&& key.len() > 0
                &&& all_different(mods, 0)
                &&& names(mods, 0, 1)
            }
            &&& chord_of(text) is Ok ==> {
                &&& chord_of(text)->Ok_0.key == key
                &&& chord_of(text)->Ok_0.shift == names(mods, 0, 2)
                &&& chord_of(text)->Ok_0.ctrl == names(mods, 0, 3)
            }
        }),
{
    let parts = pieces(text, '+', 0);
    let mods = parts.drop_last();
    let key = trim(parts.last());
    holding(Chord { mod_key: false, shift: false, ctrl: false, key }, mods, 0);
}

} // verus!
