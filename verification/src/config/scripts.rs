//! User scripts: the header that describes them.
//!
//! A script is any executable file in the scripts folder. An optional header in its first
//! [`HEADER_LINES`] lines gives it a name, a key binding and a run mode, as comments, so the
//! script still runs fine on its own:
//!
//! ```text
//! #!/bin/sh
//! # tessera: name = "Sync notes"
//! # tessera: description = "Push ~/notes to the remote and pull changes"
//! # tessera: mode = "background"        # background | terminal
//! # tessera: bind = "Mod+Shift+N"
//! # tessera: autostart = false
//! ```

use crate::config::binding::{binding_message, chord_of, Binding};
use crate::config::document::{
    has_top, is_blank, is_printable, is_switch_line, parse_document, parsed_toml, switch_line,
    top_bool, top_text, truth_word,
};
use crate::config::schema::Setting;
use crate::text::{
    begins, char_views, chars_of, concat3, concat5, concat_all, concatenated, copied, cut, decimal,
    extend, extend_str, find, first_at, first_at_is_first, has_char, has_prefix, is_space,
    is_space_char, is_word, is_word_char, number_text, opt_view, part, pieces, same, spells, split,
    split_once, string_of, trim, trim_start, trimmed, trimmed_start, views,
};
use vstd::prelude::*;

verus! {

/// Only this many lines at the top of a script are searched for a header.
pub const HEADER_LINES: usize = 20;

/// The marker that starts a header line, after the comment character.
pub open spec fn marker() -> Seq<char> {
    "tessera:"@
}

/// How a script runs when nothing says otherwise.
#[derive(Debug, Clone, Copy, PartialEq, Eq, Structural)]
pub enum Mode {
    /// In the background, with its output captured.
    Background,
    /// In a terminal tiled beside the launcher, showing its own output.
    Terminal,
}

impl Default for Mode {
    fn default() -> (r: Self)
        ensures
            r == Mode::Background,
    {
        Mode::Background
    }
}

/// What a script's header says about it. Every field is optional in the file.
#[derive(Debug, PartialEq, Eq)]
pub struct Header {
    /// Display name; the file name is used when absent.
    pub name: Option<String>,
    /// One line saying what the script does.
    pub description: Option<String>,
    /// How it runs by default.
    pub mode: Mode,
    /// Key binding, already checked for shape (`Mod+Shift+N`).
    pub bind: Option<String>,
    /// Run once when the session starts.
    pub autostart: bool,
    /// Lines that looked like header lines but could not be understood, each explained. The
    /// rest of the header still applies.
    pub problems: Vec<String>,
}

/// What a header says.
#[verifier::ext_equal]
pub struct HeaderModel {
    pub name: Option<Seq<char>>,
    pub description: Option<Seq<char>>,
    pub mode: Mode,
    pub bind: Option<Seq<char>>,
    pub autostart: bool,
    pub problems: Seq<Seq<char>>,
}

impl View for Header {
    type V = HeaderModel;

    open spec fn view(&self) -> HeaderModel {
        HeaderModel {
            name: opt_view(self.name),
            description: opt_view(self.description),
            mode: self.mode,
            bind: opt_view(self.bind),
            autostart: self.autostart,
            problems: views(self.problems@),
        }
    }
}

/// The header of a script that says nothing.
pub open spec fn no_header() -> HeaderModel {
    HeaderModel {
        name: None,
        description: None,
        mode: Mode::Background,
        bind: None,
        autostart: false,
        problems: seq![],
    }
}

impl Default for Header {
    fn default() -> (r: Self)
        ensures
            r@ == no_header(),
    {
        let r = Header {
            name: None,
            description: None,
            mode: Mode::Background,
            bind: None,
            autostart: false,
            problems: Vec::new(),
        };
        assert(r@ =~= no_header());
        r
    }
}

/// A header value: text or a boolean.
#[derive(Debug, PartialEq, Eq)]
pub enum HeaderValue {
    Text(String),
    Bool(bool),
}

/// What a header value holds.
pub enum HeaderSetting {
    Text(Seq<char>),
    Bool(bool),
}

impl View for HeaderValue {
    type V = HeaderSetting;

    open spec fn view(&self) -> HeaderSetting {
        match self {
            HeaderValue::Text(text) => HeaderSetting::Text(text@),
            HeaderValue::Bool(on) => HeaderSetting::Bool(*on),
        }
    }
}

/// What a TOML reader found under a name.
#[derive(Debug, PartialEq, Eq)]
pub enum Found {
    /// The line is no TOML, or does not set the name.
    Nothing,
    /// A text.
    Text(String),
    /// A boolean.
    Bool(bool),
    /// A value of another type.
    Other,
}

/// What a TOML reader found, in the abstract.
pub enum Finding {
    Nothing,
    Text(Seq<char>),
    Bool(bool),
    Other,
}

impl View for Found {
    type V = Finding;

    open spec fn view(&self) -> Finding {
        match self {
            Found::Nothing => Finding::Nothing,
            Found::Text(text) => Finding::Text(text@),
            Found::Bool(on) => Finding::Bool(*on),
            Found::Other => Finding::Other,
        }
    }
}

/// What TOML says that a line sets a name to.
pub open spec fn toml_finding(line: Seq<char>, name: Seq<char>) -> Finding {
    match parsed_toml(line) {
        Err(_) => Finding::Nothing,
        Ok(contents) => if contents.2.contains_key(name) {
            match contents.2[name] {
                Some(Setting::Text(text)) => Finding::Text(text),
                Some(Setting::Bool(on)) => Finding::Bool(on),
                _ => Finding::Other,
            }
        } else {
            Finding::Nothing
        },
    }
}

/// True when a line sets a name to `true` or `false` as TOML does.
pub open spec fn is_switch(line: Seq<char>, name: Seq<char>, on: bool) -> bool {
    exists|before: Seq<char>, after: Seq<char>, gap: Seq<char>, comment: Option<Seq<char>>|
        line == #[trigger] switch_line(name, before, after, on, gap, comment) && is_switch_line(
            name,
            before,
            after,
            gap,
            comment,
        )
}

/// The part of a header line after `# tessera:`, if this is a header line.
pub open spec fn body_of(line: Seq<char>) -> Option<Seq<char>> {
    let start = trim_start(line);
    if start.len() == 0 || start[0] != '#' {
        None
    } else {
        let rest = trim_start(start.skip(1));
        if begins(rest, marker()) {
            Some(trim(rest.skip(marker().len() as int)))
        } else {
            None
        }
    }
}

/// The part of a header line after `# tessera:`, if this is a header line.
fn header_body(line: &Vec<char>) -> (r: Option<Vec<char>>)
    ensures
        match r {
            Some(body) => body_of(line@) == Some(body@),
            None => body_of(line@) is None,
        },
{
    let start = trimmed_start(line);
    if start.len() == 0 || start[0] != '#' {
        return None;
    }
    let rest = part(&start, 1, start.len());
    assert(rest@ =~= start@.skip(1));
    let rest = trimmed_start(&rest);
    if !has_prefix(&rest, "tessera:") {
        return None;
    }
    proof {
        reveal_strlit("tessera:");
    }
    let body = part(&rest, 8, rest.len());
    assert(body@ =~= rest@.skip(marker().len() as int));
    Some(trimmed(&body))
}

/// True for the characters that the name of a header key is made of.
pub open spec fn is_name_char(c: char) -> bool {
    is_word(c) || c == '_'
}

/// True when a text can be the name of a header key.
pub open spec fn is_key_name(name: Seq<char>) -> bool {
    name.len() > 0 && forall|i: int| 0 <= i < name.len() ==> is_name_char(#[trigger] name[i])
}

fn key_name(name: &Vec<char>) -> (r: bool)
    ensures
        r == is_key_name(name@),
{
    let mut i: usize = 0;
    while i < name.len()
        invariant
            i <= name.len(),
            forall|j: int| 0 <= j < i ==> is_name_char(#[trigger] name@[j]),
        decreases name.len() - i,
    {
        if !(is_word_char(name[i]) || name[i] == '_') {
            assert(!is_name_char(name@[i as int]));
            return false;
        }
        i = i + 1;
    }
    name.len() > 0
}

/// True when a text holds white space.
pub open spec fn has_space(s: Seq<char>) -> bool {
    exists|i: int| 0 <= i < s.len() && is_space(#[trigger] s[i])
}

fn any_space(chars: &Vec<char>) -> (r: bool)
    ensures
        r == has_space(chars@),
{
    let mut i: usize = 0;
    while i < chars.len()
        invariant
            i <= chars.len(),
            forall|j: int| 0 <= j < i ==> !is_space(#[trigger] chars@[j]),
        decreases chars.len() - i,
    {
        if is_space_char(chars[i]) {
            assert(is_space(chars@[i as int]));
            return true;
        }
        i = i + 1;
    }
    false
}

/// True when a text can be a value without quotes: one word.
pub open spec fn is_bare_word(s: Seq<char>) -> bool {
    s.len() > 0 && !has_space(s) && !s.contains('"')
}

/// The name of the key that a line sets, or why there is none.
pub open spec fn assigned_key(body: Seq<char>) -> Result<Seq<char>, Seq<char>> {
    match cut(body, '=') {
        None => Err("`"@ + body + "` is not `key = value`"@),
        Some((before, _)) => {
            let key = trim(before);
            if is_key_name(key) {
                Ok(key)
            } else {
                Err("`"@ + key + "` is not a key name"@)
            }
        },
    }
}

/// The value of a line without quotes: what stands between `=` and a comment.
pub open spec fn bare_value(body: Seq<char>) -> Seq<char> {
    match cut(body, '=') {
        None => Seq::empty(),
        Some((_, after)) => trim(pieces(after, '#', 0)[0]),
    }
}

/// What `key = value` says, given what TOML found in it: quoted text, `true`, `false`, or a
/// bare word, optionally followed by a `#` comment.
pub open spec fn assignment(body: Seq<char>, found: Finding) -> Result<
    (Seq<char>, HeaderSetting),
    Seq<char>,
> {
    match assigned_key(body) {
        Err(reason) => Err(reason),
        Ok(key) => match found {
            Finding::Text(text) => Ok((key, HeaderSetting::Text(text))),
            Finding::Bool(on) => Ok((key, HeaderSetting::Bool(on))),
            Finding::Other => Err("`"@ + key + "` should be text in quotes, true or false"@),
            Finding::Nothing => if is_bare_word(bare_value(body)) {
                Ok((key, HeaderSetting::Text(bare_value(body))))
            } else {
                Err(
                    "could not read the value of `"@ + key + "`; put text in double quotes"@,
                )
            },
        },
    }
}

/// Reads `key = value`, given what TOML found in it.
pub fn read_assignment(body: &str, found: Found) -> (r: Result<(String, HeaderValue), String>)
    ensures
        match r {
            Ok((key, value)) => assignment(body@, found@) == Ok::<
                (Seq<char>, HeaderSetting),
                Seq<char>,
            >((key@, value@)),
            Err(reason) => assignment(body@, found@) == Err::<
                (Seq<char>, HeaderSetting),
                Seq<char>,
            >(reason@),
        },
{
    let chars = chars_of(body);
    let (before, after) = match split_once(&chars, '=') {
        None => {
            return Err(concat3("`", body, "` is not `key = value`"));
        },
        Some(halves) => halves,
    };
    let key = trimmed(&before);
    let name = string_of(&key);
    if !key_name(&key) {
        return Err(concat3("`", name.as_str(), "` is not a key name"));
    }
    match found {
        Found::Text(text) => Ok((name, HeaderValue::Text(text))),
        Found::Bool(on) => Ok((name, HeaderValue::Bool(on))),
        Found::Other => Err(
            concat3("`", name.as_str(), "` should be text in quotes, true or false"),
        ),
        Found::Nothing => {
            let parts = split(&after, '#');
            assert(char_views(parts@)[0] == parts@[0]@);
            let bare = trimmed(&parts[0]);
            if bare.len() > 0 && !any_space(&bare) && !has_char(&bare, '"') {
                Ok((name, HeaderValue::Text(string_of(&bare))))
            } else {
                Err(
                    concat3(
                        "could not read the value of `",
                        name.as_str(),
                        "`; put text in double quotes",
                    ),
                )
            }
        },
    }
}

fn find_in_toml(line: &str, name: &str) -> (r: Found)
    ensures
        r@ == toml_finding(line@, name@),
        forall|on: bool| #[trigger] is_switch(line@, name@, on) ==> r@ == Finding::Bool(on),
{
    match parse_document(line) {
        Err(_) => Found::Nothing,
        Ok(document) => {
            if let Some(text) = top_text(&document, name) {
                return Found::Text(text);
            }
            if let Some(on) = top_bool(&document, name) {
                return Found::Bool(on);
            }
            if has_top(&document, name) {
                Found::Other
            } else {
                Found::Nothing
            }
        },
    }
}

/// What TOML finds in a line that sets a well-named key; nothing is looked for in another line.
pub open spec fn line_finding(body: Seq<char>) -> Finding {
    match assigned_key(body) {
        Ok(key) => toml_finding(body, key),
        Err(_) => Finding::Nothing,
    }
}

/// Looks a header line up as TOML, which already knows about quotes, escapes and trailing
/// comments.
fn find_line(body: &str) -> (r: Found)
    ensures
        r@ == line_finding(body@),
        forall|on: bool|
            assigned_key(body@) is Ok && #[trigger] is_switch(body@, assigned_key(body@)->Ok_0, on)
                ==> r@ == Finding::Bool(on),
{
    let chars = chars_of(body);
    match split_once(&chars, '=') {
        None => Found::Nothing,
        Some((before, _)) => {
            let key = trimmed(&before);
            if key_name(&key) {
                let name = string_of(&key);
                find_in_toml(body, name.as_str())
            } else {
                Found::Nothing
            }
        },
    }
}

/// The header after one more setting, or why it does not fit.
pub open spec fn with_setting(header: HeaderModel, key: Seq<char>, value: HeaderSetting) -> Result<
    HeaderModel,
    Seq<char>,
> {
    let not_text = "`"@ + key + "` should be text in quotes"@;
    if key == "name"@ {
        match value {
            HeaderSetting::Text(text) => Ok(HeaderModel { name: Some(text), ..header }),
            HeaderSetting::Bool(_) => Err(not_text),
        }
    } else if key == "description"@ {
        match value {
            HeaderSetting::Text(text) => Ok(HeaderModel { description: Some(text), ..header }),
            HeaderSetting::Bool(_) => Err(not_text),
        }
    } else if key == "mode"@ {
        match value {
            HeaderSetting::Text(text) => if text == "background"@ {
                Ok(HeaderModel { mode: Mode::Background, ..header })
            } else if text == "terminal"@ {
                Ok(HeaderModel { mode: Mode::Terminal, ..header })
            } else {
                Err("mode `"@ + text + "` is not one of background, terminal"@)
            },
            HeaderSetting::Bool(_) => Err(not_text),
        }
    } else if key == "bind"@ {
        match value {
            HeaderSetting::Text(text) => match chord_of(text) {
                Ok(_) => Ok(HeaderModel { bind: Some(text), ..header }),
                Err(reason) => Err(binding_message(text, reason)),
            },
            HeaderSetting::Bool(_) => Err(not_text),
        }
    } else if key == "autostart"@ {
        match value {
            HeaderSetting::Bool(on) => Ok(HeaderModel { autostart: on, ..header }),
            HeaderSetting::Text(_) => Err("autostart should be true or false"@),
        }
    } else {
        Err(
            "`"@ + key
                + "` is not a header key (name, description, mode, bind, autostart)"@,
        )
    }
}

/// The header after one more header line, given what TOML found in it. A line that cannot be
/// understood is noted under its number and changes nothing else.
pub open spec fn with_line(
    header: HeaderModel,
    line_no: nat,
    body: Seq<char>,
    found: Finding,
) -> HeaderModel {
    let outcome = match assignment(body, found) {
        Err(reason) => Err(reason),
        Ok((key, value)) => with_setting(header, key, value),
    };
    match outcome {
        Ok(after) => after,
        Err(reason) => HeaderModel {
            problems: header.problems.push("line "@ + decimal(line_no) + ": "@ + reason + ""@),
            ..header
        },
    }
}

/// The lines of a text with their line ends, from `from` on.
pub open spec fn chunks(s: Seq<char>, from: int) -> Seq<Seq<char>>
    decreases s.len() - from,
{
    if from < 0 || from >= s.len() {
        seq![]
    } else {
        let j = first_at(s, '\n', from);
        if j < from || j >= s.len() {
            seq![s.subrange(from, s.len() as int)]
        } else {
            seq![s.subrange(from, j + 1)] + chunks(s, j + 1)
        }
    }
}

/// A line without its line end.
pub open spec fn line_text(chunk: Seq<char>) -> Seq<char> {
    if chunk.len() > 0 && chunk.last() == '\n' {
        let line = chunk.drop_last();
        if line.len() > 0 && line.last() == '\r' {
            line.drop_last()
        } else {
            line
        }
    } else {
        chunk
    }
}

/// The header after the header lines among `lines[from..]`, of which only the first
/// [`HEADER_LINES`] count.
pub open spec fn header_from(header: HeaderModel, lines: Seq<Seq<char>>, from: int) -> HeaderModel
    decreases lines.len() - from,
{
    if from < 0 || from >= lines.len() || from >= HEADER_LINES {
        header
    } else {
        match body_of(line_text(lines[from])) {
            None => header_from(header, lines, from + 1),
            Some(body) => header_from(
                with_line(header, (from + 1) as nat, body, line_finding(body)),
                lines,
                from + 1,
            ),
        }
    }
}

/// What the header of a script says.
pub open spec fn header_of(text: Seq<char>) -> HeaderModel {
    header_from(no_header(), chunks(text, 0), 0)
}

/// Splits a text into lines, keeping their line ends.
pub(crate) fn split_lines(chars: &Vec<char>) -> (r: Vec<Vec<char>>)
    ensures
        char_views(r@) == chunks(chars@, 0),
{
    let mut out: Vec<Vec<char>> = Vec::new();
    let mut from: usize = 0;
    assert(char_views(out@) =~= seq![]);
    assert(seq![] + chunks(chars@, 0) =~= chunks(chars@, 0));
    while from < chars.len()
        invariant
            from <= chars.len(),
            char_views(out@) + chunks(chars@, from as int) == chunks(chars@, 0),
        decreases chars.len() - from,
    {
        let j: usize = find(chars, '\n', from);
        let end: usize = if j < chars.len() {
            j + 1
        } else {
            j
        };
        let line = part(chars, from, end);
        let ghost done = char_views(out@);
        out.push(line);
        assert(char_views(out@) =~= done.push(line@));
        assert(done + (seq![line@] + chunks(chars@, end as int)) =~= done.push(line@) + chunks(
            chars@,
            end as int,
        ));
        assert(seq![line@] + seq![] =~= seq![line@]);
        from = end;
    }
    assert(char_views(out@) + seq![] =~= char_views(out@));
    out
}

pub(crate) fn without_line_end(chunk: &Vec<char>) -> (r: Vec<char>)
    ensures
        r@ == line_text(chunk@),
{
    let mut end: usize = chunk.len();
    if end > 0 && chunk[end - 1] == '\n' {
        end = end - 1;
        if end > 0 && chunk[end - 1] == '\r' {
            end = end - 1;
        }
    }
    let line = part(chunk, 0, end);
    assert(line@ =~= line_text(chunk@));
    line
}

impl Header {
    fn note(&mut self, line_no: usize, reason: &str)
        ensures
            final(self)@ == (HeaderModel {
                problems: old(self)@.problems.push(
                    "line "@ + decimal(line_no as nat) + ": "@ + reason@ + ""@,
                ),
                ..old(self)@
            }),
    {
        let number = number_text(line_no as u64);
        self.problems.push(concat5("line ", number.as_str(), ": ", reason, ""));
        assert(self@.problems =~= old(self)@.problems.push(
            "line "@ + decimal(line_no as nat) + ": "@ + reason@ + ""@,
        ));
    }

    fn apply(&mut self, key: &str, value: HeaderValue) -> (r: Result<(), String>)
        ensures
            match r {
                Ok(()) => with_setting(old(self)@, key@, value@) == Ok::<HeaderModel, Seq<char>>(
                    final(self)@,
                ),
                Err(reason) => with_setting(old(self)@, key@, value@) == Err::<
                    HeaderModel,
                    Seq<char>,
                >(reason@) && final(self)@ == old(self)@,
            },
    {
        if same(key, "autostart") && !same(key, "name") && !same(key, "description") && !same(
            key,
            "mode",
        ) && !same(key, "bind") {
            return match value {
                HeaderValue::Bool(on) => {
                    self.autostart = on;
                    Ok(())
                },
                HeaderValue::Text(_) => Err(copied("autostart should be true or false")),
            };
        }
        let known = same(key, "name") || same(key, "description") || same(key, "mode") || same(
            key,
            "bind",
        );
        if !known {
            return Err(
                concat3(
                    "`",
                    key,
                    "` is not a header key (name, description, mode, bind, autostart)",
                ),
            );
        }
        let text = match value {
            HeaderValue::Text(text) => text,
            HeaderValue::Bool(_) => {
                return Err(concat3("`", key, "` should be text in quotes"));
            },
        };
        if same(key, "name") {
            self.name = Some(text);
        } else if same(key, "description") {
            self.description = Some(text);
        } else if same(key, "mode") {
            if same(text.as_str(), "background") {
                self.mode = Mode::Background;
            } else if same(text.as_str(), "terminal") {
                self.mode = Mode::Terminal;
            } else {
                return Err(
                    concat3("mode `", text.as_str(), "` is not one of background, terminal"),
                );
            }
        } else {
            match Binding::parse(text.as_str()) {
                Ok(_) => {
                    self.bind = Some(text);
                },
                Err(err) => {
                    return Err(err.to_text());
                },
            }
        }
        Ok(())
    }

    /// Takes in one header line, given what TOML found in it.
    pub fn take_line(&mut self, line_no: usize, body: &str, found: Found)
        ensures
            final(self)@ == with_line(old(self)@, line_no as nat, body@, found@),
    {
        match read_assignment(body, found) {
            Err(reason) => self.note(line_no, reason.as_str()),
            Ok((key, value)) => match self.apply(key.as_str(), value) {
                Ok(()) => {},
                Err(reason) => self.note(line_no, reason.as_str()),
            },
        }
    }

    /// Reads the header from a script's text.
    ///
    /// Never fails: a malformed line is recorded in [`Header::problems`] and skipped, so one
    /// typo does not hide a script. The last line that sets `autostart` decides it.
    pub fn parse(text: &str) -> (r: Self)
        ensures
            r@ == header_of(text@),
            forall|place: int, on: bool| #[trigger]
                autostart_decided(text@, place, on) ==> r.autostart == on,
    {
        let chars = chars_of(text);
        let lines = split_lines(&chars);
        let ghost all = chunks(text@, 0);
        let mut header = Header::default();
        let mut i: usize = 0;
        while i < lines.len() && i < HEADER_LINES
            invariant
                i <= lines.len(),
                all == char_views(lines@),
                header_from(no_header(), all, 0) == header_from(header@, all, i as int),
                forall|j: int, on: bool|
                    0 <= j < i && #[trigger] sets_autostart_to(all[j], on) ==> toml_finding(
                        body_of(line_text(all[j]))->0,
                        "autostart"@,
                    ) == Finding::Bool(on),
            decreases lines.len() - i,
        {
            assert(all[i as int] == lines@[i as int]@);
            let line = without_line_end(&lines[i]);
            if let Some(body) = header_body(&line) {
                let body = string_of(&body);
                let found = find_line(body.as_str());
                header.take_line(i + 1, body.as_str(), found);
            }
            i = i + 1;
        }
        proof {
            assert forall|place: int, on: bool| #[trigger]
                autostart_decided(text@, place, on) implies header.autostart == on by {
                last_autostart_line_decides(text@, place, on);
            }
        }
        header
    }
}

/// True when a line is a header line that sets `autostart` to `on` as TOML does.
pub open spec fn sets_autostart_to(line: Seq<char>, on: bool) -> bool {
    body_of(line_text(line)) matches Some(body) && assigned_key(body) == Ok::<
        Seq<char>,
        Seq<char>,
    >("autostart"@) && is_switch(body, "autostart"@, on)
}

/// True when a line among those that count sets `autostart` to `on`, and no later one sets it.
pub open spec fn autostart_decided(text: Seq<char>, place: int, on: bool) -> bool {
    &&& 0 <= place < chunks(text, 0).len()
    &&& place < HEADER_LINES
    &&& sets_autostart_to(chunks(text, 0)[place], on)
    &&& forall|i: int|
        place < i < chunks(text, 0).len() && i < HEADER_LINES ==> (body_of(
            line_text(#[trigger] chunks(text, 0)[i]),
        ) matches Some(body) ==> assigned_key(body) != Ok::<Seq<char>, Seq<char>>("autostart"@))
}

/// True when a line is the header line that sets `autostart`.
pub open spec fn is_autostart_line(line: Seq<char>) -> bool {
    match body_of(line) {
        None => false,
        Some(body) => match cut(body, '=') {
            None => false,
            Some((key, _)) => trim(key) == "autostart"@,
        },
    }
}

/// The last of the first `n` lines, among those that count, that sets `autostart`.
pub open spec fn autostart_place(lines: Seq<Seq<char>>, n: int) -> Option<int>
    decreases n,
{
    if n <= 0 {
        None
    } else if n <= lines.len() && n <= HEADER_LINES && is_autostart_line(lines[n - 1]) {
        Some(n - 1)
    } else {
        autostart_place(lines, n - 1)
    }
}

/// The place behind the last header line among the first `n` that count.
pub open spec fn behind_headers(lines: Seq<Seq<char>>, n: int) -> Option<int>
    decreases n,
{
    if n <= 0 {
        None
    } else if n <= lines.len() && n <= HEADER_LINES && body_of(lines[n - 1]) is Some {
        Some(n)
    } else {
        behind_headers(lines, n - 1)
    }
}

/// An `autostart` line with its value replaced: everything up to the `=` stays, and so does a
/// comment behind the value.
pub open spec fn rewritten_line(line: Seq<char>, on: bool) -> Seq<char> {
    let (before, after) = cut(line, '=')->0;
    let ended = after.len() > 0 && after.last() == '\n';
    let value = if ended {
        after.drop_last()
    } else {
        after
    };
    let comment = match cut(value, '#') {
        None => Seq::empty(),
        Some((_, comment)) => "  #"@ + comment,
    };
    let ending = if ended {
        "\n"@
    } else {
        Seq::empty()
    };
    before + "= "@ + truth_word(on) + comment + ending
}

/// A new `autostart` line.
pub open spec fn new_autostart_line(on: bool) -> Seq<char> {
    "# tessera: autostart = "@ + truth_word(on) + "\n"@
}

/// Where a new line goes: behind the last header line, or behind the `#!` line, or at the top.
pub open spec fn autostart_slot(lines: Seq<Seq<char>>) -> int {
    match behind_headers(lines, lines.len() as int) {
        Some(place) => place,
        None => if lines.len() > 0 && begins(lines[0], "#!"@) {
            1
        } else {
            0
        },
    }
}

/// The lines with the one before `place` ended by a line end.
pub open spec fn ended_before(lines: Seq<Seq<char>>, place: int) -> Seq<Seq<char>> {
    if place > 0 && !(lines[place - 1].len() > 0 && lines[place - 1].last() == '\n') {
        lines.update(place - 1, lines[place - 1].push('\n'))
    } else {
        lines
    }
}

/// The lines with every `autostart` line rewritten, among those that count.
pub open spec fn rewritten_lines(lines: Seq<Seq<char>>, on: bool) -> Seq<Seq<char>> {
    Seq::new(
        lines.len(),
        |i: int|
            if i < HEADER_LINES && is_autostart_line(lines[i]) {
                rewritten_line(lines[i], on)
            } else {
                lines[i]
            },
    )
}

/// The lines of a script with `autostart` set.
pub open spec fn autostart_lines(lines: Seq<Seq<char>>, on: bool) -> Seq<Seq<char>> {
    match autostart_place(lines, lines.len() as int) {
        Some(_) => rewritten_lines(lines, on),
        None => ended_before(lines, autostart_slot(lines)).insert(
            autostart_slot(lines),
            new_autostart_line(on),
        ),
    }
}

fn sets_autostart(body: &Vec<char>) -> (r: bool)
    ensures
        r == (match cut(body@, '=') {
            None => false,
            Some((key, _)) => trim(key) == "autostart"@,
        }),
{
    match split_once(body, '=') {
        None => false,
        Some((key, _)) => {
            let key = trimmed(&key);
            spells(&key, "autostart")
        },
    }
}

fn rewrite_line(line: &Vec<char>, on: bool) -> (r: Vec<char>)
    requires
        cut(line@, '=') is Some,
    ensures
        r@ == rewritten_line(line@, on),
{
    let (before, after) = match split_once(line, '=') {
        Some(halves) => halves,
        None => (Vec::new(), Vec::new()),
    };
    let ended = after.len() > 0 && after[after.len() - 1] == '\n';
    let end: usize = if ended {
        after.len() - 1
    } else {
        after.len()
    };
    let value = part(&after, 0, end);
    proof {
        if ended {
            assert(value@ =~= after@.drop_last());
        } else {
            assert(value@ =~= after@);
        }
    }
    let mut out: Vec<char> = Vec::new();
    extend(&mut out, &before);
    extend_str(&mut out, "= ");
    extend_str(
        &mut out,
        if on {
            "true"
        } else {
            "false"
        },
    );
    if let Some((_, comment)) = split_once(&value, '#') {
        extend_str(&mut out, "  #");
        extend(&mut out, &comment);
    }
    if ended {
        extend_str(&mut out, "\n");
    }
    assert(out@ =~= rewritten_line(line@, on));
    out
}

fn new_line(on: bool) -> (r: Vec<char>)
    ensures
        r@ == new_autostart_line(on),
{
    let mut out = chars_of("# tessera: autostart = ");
    extend_str(
        &mut out,
        if on {
            "true"
        } else {
            "false"
        },
    );
    extend_str(&mut out, "\n");
    out
}

proof fn autostart_lines_have_an_equals_sign(line: Seq<char>)
    requires
        is_autostart_line(line),
    ensures
        cut(line, '=') is Some,
{
    let start = trim_start(line);
    let rest = trim_start(start.skip(1));
    let body = body_of(line)->0;
    let j = first_at(body, '=', 0);
    first_at_is_first(body, '=', 0);
    let a = crate::text::skip_spaces(line, 0);
    let b = crate::text::skip_spaces(start.skip(1), 0);
    let tail = rest.skip(marker().len() as int);
    let c = crate::text::skip_spaces(tail, 0);
    skip_spaces_bounds(line, 0);
    skip_spaces_bounds(start.skip(1), 0);
    skip_spaces_bounds(tail, 0);
    before_spaces_bounds(tail, c, tail.len() as int);
    assert(body[j] == tail[c + j]);
    assert(tail[c + j] == rest[marker().len() + c + j]);
    assert(rest[marker().len() + c + j] == start[1 + b + marker().len() + c + j]);
    let k = a + 1 + b + marker().len() + c + j;
    assert(line[k] == '=');
    first_at_is_first(line, '=', 0);
}

proof fn skip_spaces_bounds(s: Seq<char>, from: int)
    requires
        0 <= from <= s.len(),
    ensures
        from <= crate::text::skip_spaces(s, from) <= s.len(),
    decreases s.len() - from,
{
    if from < s.len() && is_space(s[from]) {
        skip_spaces_bounds(s, from + 1);
    }
}

proof fn before_spaces_bounds(s: Seq<char>, from: int, to: int)
    requires
        0 <= from <= to <= s.len(),
    ensures
        from <= crate::text::before_spaces(s, from, to) <= to,
    decreases to - from,
{
    if to > from && is_space(s[to - 1]) {
        before_spaces_bounds(s, from, to - 1);
    }
}

/// Returns the script text with its `autostart` header set to `on`.
///
/// Every `autostart` line in the header is rewritten in place, keeping its indentation and any
/// trailing comment, so that the last one, which decides, says the same as the others. Otherwise a line is added after the last header line, or after the `#!` line, or at
/// the very top.
pub fn set_autostart(text: &str, on: bool) -> (r: String)
    ensures
        r@ == concatenated(autostart_lines(chunks(text@, 0), on)),
{
    let chars = chars_of(text);
    let mut lines = split_lines(&chars);
    let ghost all = char_views(lines@);
    let mut found = false;
    let mut behind: Option<usize> = None;
    let mut i: usize = 0;
    while i < lines.len() && i < HEADER_LINES
        invariant
            i <= lines.len(),
            i <= HEADER_LINES,
            lines@.len() == all.len(),
            all == chunks(text@, 0),
            forall|j: int|
                0 <= j < i && is_autostart_line(#[trigger] all[j]) ==> lines@[j]@ == rewritten_line(
                    all[j],
                    on,
                ),
            forall|j: int|
                0 <= j < all.len() && !(j < i && is_autostart_line(#[trigger] all[j]))
                    ==> lines@[j]@ == all[j],
            found == (autostart_place(all, i as int) is Some),
            match behind {
                None => behind_headers(all, i as int) is None,
                Some(place) => place <= i && place > 0 && behind_headers(all, i as int) == Some(
                    place as int,
                ),
            },
        decreases lines.len() - i,
    {
        assert(all[i as int] == lines@[i as int]@);
        if let Some(body) = header_body(&lines[i]) {
            behind = Some(i + 1);
            if sets_autostart(&body) {
                proof {
                    autostart_lines_have_an_equals_sign(all[i as int]);
                }
                found = true;
                let line = rewrite_line(&lines[i], on);
                lines.set(i, line);
            }
        }
        i = i + 1;
    }
    proof {
        behind_headers_stops(all, i as int, all.len() as int);
        autostart_place_stops(all, i as int, all.len() as int);
    }
    if found {
        assert(char_views(lines@) =~= autostart_lines(all, on));
        let out = concat_all(&lines);
        return string_of(&out);
    }
    proof {
        no_place_no_lines(all, i as int);
        assert(char_views(lines@) =~= all);
    }
    let slot: usize = match behind {
        Some(place) => place,
        None => {
            if lines.len() > 0 && has_prefix(&lines[0], "#!") {
                1
            } else {
                0
            }
        },
    };
    assert(lines.len() > 0 ==> all[0] == lines@[0]@);
    assert(slot == autostart_slot(all));
    // Adding after a final line with no line end would glue the two together.
    if slot > 0 {
        assert(all[slot - 1] == lines@[slot - 1]@);
        if !(lines[slot - 1].len() > 0 && lines[slot - 1][lines[slot - 1].len() - 1] == '\n') {
            let mut previous = part(&lines[slot - 1], 0, lines[slot - 1].len());
            assert(previous@ =~= all[slot - 1]);
            previous.push('\n');
            lines.set(slot - 1, previous);
        }
    }
    assert(char_views(lines@) =~= ended_before(all, slot as int));
    let line = new_line(on);
    lines.insert(slot, line);
    assert(char_views(lines@) =~= autostart_lines(all, on));
    let out = concat_all(&lines);
    string_of(&out)
}

proof fn autostart_place_stops(lines: Seq<Seq<char>>, n: int, m: int)
    requires
        0 <= n <= m <= lines.len(),
        n == lines.len() || n >= HEADER_LINES,
    ensures
        autostart_place(lines, m) == autostart_place(lines, n),
    decreases m,
{
    if n < m {
        autostart_place_stops(lines, n, m - 1);
    }
}

proof fn behind_headers_stops(lines: Seq<Seq<char>>, n: int, m: int)
    requires
        0 <= n <= m <= lines.len(),
        n == lines.len() || n >= HEADER_LINES,
    ensures
        behind_headers(lines, m) == behind_headers(lines, n),
    decreases m,
{
    if n < m {
        behind_headers_stops(lines, n, m - 1);
    }
}

/// True when a list of lines could come from a text: every line but the last ends in its only
/// line end, and none is empty.
pub open spec fn are_lines(lines: Seq<Seq<char>>) -> bool {
    forall|i: int| 0 <= i < lines.len() ==> is_line(#[trigger] lines[i], i == lines.len() - 1)
}

/// True when a text is one line; only the last may lack its line end.
pub open spec fn is_line(line: Seq<char>, last: bool) -> bool {
    &&& line.len() > 0
    &&& forall|j: int| 0 <= j < line.len() - 1 ==> #[trigger] line[j] != '\n'
    &&& !last ==> line.last() == '\n'
}

proof fn chunks_of_suffix(a: Seq<char>, b: Seq<char>, i: int)
    requires
        0 <= i <= b.len(),
    ensures
        chunks(a + b, a.len() + i) == chunks(b, i),
    decreases b.len() - i,
{
    if i < b.len() {
        let n = a.len() as int;
        newline_of_suffix(a, b, i);
        first_at_is_first(b, '\n', i);
        let j = first_at(b, '\n', i);
        if j < b.len() {
            assert((a + b).subrange(n + i, n + j + 1) =~= b.subrange(i, j + 1));
            chunks_of_suffix(a, b, j + 1);
        } else {
            assert((a + b).subrange(n + i, n + b.len()) =~= b.subrange(i, b.len() as int));
        }
    }
}

proof fn newline_of_suffix(a: Seq<char>, b: Seq<char>, i: int)
    requires
        0 <= i <= b.len(),
    ensures
        first_at(a + b, '\n', a.len() + i) == a.len() + first_at(b, '\n', i),
    decreases b.len() - i,
{
    if i < b.len() {
        assert((a + b)[a.len() + i] == b[i]);
        if b[i] != '\n' {
            newline_of_suffix(a, b, i + 1);
        }
    }
}

proof fn newline_of_line(line: Seq<char>, rest: Seq<char>, i: int)
    requires
        0 <= i < line.len(),
        is_line(line, false),
    ensures
        first_at(line + rest, '\n', i) == line.len() - 1,
    decreases line.len() - i,
{
    if i < line.len() - 1 {
        newline_of_line(line, rest, i + 1);
    }
}

proof fn newline_of_last(line: Seq<char>, i: int)
    requires
        0 <= i <= line.len(),
        forall|j: int| 0 <= j < line.len() ==> #[trigger] line[j] != '\n',
    ensures
        first_at(line, '\n', i) == line.len(),
    decreases line.len() - i,
{
    if i < line.len() {
        newline_of_last(line, i + 1);
    }
}

proof fn concatenated_splits(first: Seq<char>, rest: Seq<Seq<char>>)
    ensures
        concatenated(seq![first] + rest) == first + concatenated(rest),
    decreases rest.len(),
{
    let all = seq![first] + rest;
    if rest.len() == 0 {
        reveal_with_fuel(concatenated, 2);
        assert(all.drop_last() =~= seq![]);
        assert(concatenated(all) =~= first + concatenated(rest));
    } else {
        concatenated_splits(first, rest.drop_last());
        assert(all.drop_last() =~= seq![first] + rest.drop_last());
        assert(concatenated(all) =~= first + concatenated(rest));
    }
}

/// Splitting a text into lines and putting them together again loses nothing, and lines that
/// are put together split into the same lines.
pub proof fn lines_split_again(lines: Seq<Seq<char>>)
    requires
        are_lines(lines),
    ensures
        chunks(concatenated(lines), 0) == lines,
    decreases lines.len(),
{
    if lines.len() == 0 {
    } else {
        let first = lines[0];
        let rest = lines.skip(1);
        let tail = concatenated(rest);
        let s = concatenated(lines);
        assert(lines =~= seq![first] + rest);
        concatenated_splits(first, rest);
        assert(is_line(lines[0], 0 == lines.len() - 1));
        assert forall|i: int| 0 <= i < rest.len() implies is_line(
            #[trigger] rest[i],
            i == rest.len() - 1,
        ) by {
            assert(is_line(lines[i + 1], i + 1 == lines.len() - 1));
        }
        lines_split_again(rest);
        if first.last() == '\n' {
            newline_of_line(first, tail, 0);
            assert(s.subrange(0, first.len() as int) =~= first);
            chunks_of_suffix(first, tail, 0);
            assert(chunks(s, 0) =~= lines);
        } else {
            assert(lines.len() == 1);
            assert(tail =~= seq![]);
            assert(s =~= first);
            newline_of_last(first, 0);
            assert(s.subrange(0, s.len() as int) =~= first);
            assert(chunks(s, 0) =~= lines);
        }
    }
}

/// The lines of a text are lines.
pub proof fn chunks_are_lines(s: Seq<char>, from: int)
    requires
        0 <= from <= s.len(),
    ensures
        are_lines(chunks(s, from)),
    decreases s.len() - from,
{
    if from < s.len() {
        first_at_is_first(s, '\n', from);
        let j = first_at(s, '\n', from);
        let all = chunks(s, from);
        if j < s.len() {
            chunks_are_lines(s, j + 1);
            let rest = chunks(s, j + 1);
            assert forall|i: int| 0 <= i < all.len() implies is_line(
                #[trigger] all[i],
                i == all.len() - 1,
            ) by {
                if i > 0 {
                    assert(all[i] == rest[i - 1]);
                    assert(is_line(rest[i - 1], i - 1 == rest.len() - 1));
                }
            }
        }
    }
}

proof fn rewritten_is_line(line: Seq<char>, on: bool, last: bool)
    requires
        is_line(line, last),
        cut(line, '=') is Some,
    ensures
        is_line(rewritten_line(line, on), last),
{
    reveal_strlit("true");
    reveal_strlit("false");
    reveal_strlit("= ");
    reveal_strlit("  #");
    reveal_strlit("\n");
    first_at_is_first(line, '=', 0);
    let j = first_at(line, '=', 0);
    let (before, after) = cut(line, '=')->0;
    let ended = after.len() > 0 && after.last() == '\n';
    let value = if ended {
        after.drop_last()
    } else {
        after
    };
    assert(forall|i: int| 0 <= i < before.len() ==> #[trigger] before[i] == line[i]);
    assert(forall|i: int| 0 <= i < after.len() ==> #[trigger] after[i] == line[j + 1 + i]);
    assert(forall|i: int| 0 <= i < value.len() ==> #[trigger] value[i] != '\n');
    let comment = match cut(value, '#') {
        None => Seq::empty(),
        Some((_, comment)) => "  #"@ + comment,
    };
    assert(forall|i: int| 0 <= i < comment.len() ==> #[trigger] comment[i] != '\n') by {
        first_at_is_first(value, '#', 0);
        let h = first_at(value, '#', 0);
        if h < value.len() {
            let c = value.skip(h + 1);
            assert(forall|i: int| 0 <= i < c.len() ==> #[trigger] c[i] == value[h + 1 + i]);
        }
    }
    let word = truth_word(on);
    assert(forall|i: int| 0 <= i < word.len() ==> #[trigger] word[i] != '\n');
    let front = before + "= "@ + word + comment;
    assert(forall|i: int| 0 <= i < front.len() ==> #[trigger] front[i] != '\n');
    let out = rewritten_line(line, on);
    if ended {
        assert(out =~= front + "\n"@);
        assert(out.len() == front.len() + 1);
        assert(forall|i: int| 0 <= i < out.len() - 1 ==> #[trigger] out[i] == front[i]);
    } else {
        assert(out =~= front);
        assert(line.last() != '\n') by {
            if after.len() > 0 {
                assert(after.last() == line.last());
            } else {
                assert(line.last() == '=');
            }
        }
    }
}

proof fn autostart_place_is_line(lines: Seq<Seq<char>>, n: int)
    requires
        0 <= n <= lines.len(),
        autostart_place(lines, n) is Some,
    ensures
        0 <= autostart_place(lines, n)->0 < n,
        autostart_place(lines, n)->0 < HEADER_LINES,
        is_autostart_line(lines[autostart_place(lines, n)->0]),
        forall|i: int|
            autostart_place(lines, n)->0 < i < n && i < HEADER_LINES ==> !is_autostart_line(
                #[trigger] lines[i],
            ),
    decreases n,
{
    if !(n <= HEADER_LINES && is_autostart_line(lines[n - 1])) {
        autostart_place_is_line(lines, n - 1);
    }
}

proof fn behind_headers_is_inside(lines: Seq<Seq<char>>, n: int)
    requires
        0 <= n <= lines.len(),
    ensures
        behind_headers(lines, n) matches Some(place) ==> 0 < place <= n,
    decreases n,
{
    if n > 0 {
        behind_headers_is_inside(lines, n - 1);
    }
}

/// The place of the line that decides the setting after it was changed.
pub open spec fn set_place(lines: Seq<Seq<char>>) -> int {
    match autostart_place(lines, lines.len() as int) {
        Some(place) => place,
        None => autostart_slot(lines),
    }
}

/// Setting `autostart` touches no other lines: the lines of the new text are the old ones, with
/// the `autostart` lines replaced, or with one line added and the line before it ended.
pub proof fn set_autostart_keeps_other_lines(text: Seq<char>, on: bool)
    ensures
        chunks(concatenated(autostart_lines(chunks(text, 0), on)), 0) == autostart_lines(
            chunks(text, 0),
            on,
        ),
        0 <= set_place(chunks(text, 0)) < autostart_lines(chunks(text, 0), on).len(),
{
    let lines = chunks(text, 0);
    chunks_are_lines(text, 0);
    let after = autostart_lines(lines, on);
    match autostart_place(lines, lines.len() as int) {
        Some(_) => {
            autostart_place_is_line(lines, lines.len() as int);
            assert forall|i: int| 0 <= i < after.len() implies is_line(
                #[trigger] after[i],
                i == after.len() - 1,
            ) by {
                assert(is_line(lines[i], i == lines.len() - 1));
                if i < HEADER_LINES && is_autostart_line(lines[i]) {
                    autostart_lines_have_an_equals_sign(lines[i]);
                    rewritten_is_line(lines[i], on, i == lines.len() - 1);
                }
            }
        },
        None => {
            behind_headers_is_inside(lines, lines.len() as int);
            let slot = autostart_slot(lines);
            let ended = ended_before(lines, slot);
            let line = new_autostart_line(on);
            new_line_is_line(on);
            assert(0 <= slot <= lines.len());
            assert(after =~= ended.insert(slot, line));
            assert forall|i: int| 0 <= i < after.len() implies is_line(
                #[trigger] after[i],
                i == after.len() - 1,
            ) by {
                if i < slot {
                    assert(is_line(lines[i], i == lines.len() - 1));
                    assert(after[i] == ended[i]);
                    if i == slot - 1 && ended[i] != lines[i] {
                        let grown = lines[i].push('\n');
                        assert(ended[i] == grown);
                        assert(lines[i].last() == lines[i][lines[i].len() - 1]);
                        assert forall|j: int| 0 <= j < grown.len() - 1 implies #[trigger] grown[j]
                            != '\n' by {
                            assert(grown[j] == lines[i][j]);
                        }
                    } else if i == slot - 1 {
                        assert(lines[i].last() == '\n');
                    } else {
                        assert(ended[i] == lines[i]);
                        assert(i < lines.len() - 1);
                    }
                } else if i == slot {
                    assert(after[i] == line);
                } else {
                    assert(after[i] == ended[i - 1]);
                    assert(ended[i - 1] == lines[i - 1]);
                    assert(is_line(lines[i - 1], i - 1 == lines.len() - 1));
                }
            }
        },
    }
    lines_split_again(after);
}

proof fn new_line_is_line(on: bool)
    ensures
        is_line(new_autostart_line(on), false),
        is_line(new_autostart_line(on), true),
{
    reveal_strlit("# tessera: autostart = ");
    reveal_strlit("true");
    reveal_strlit("false");
    reveal_strlit("\n");
    let line = new_autostart_line(on);
    let a = "# tessera: autostart = "@;
    let w = truth_word(on);
    assert(forall|i: int| 0 <= i < a.len() ==> #[trigger] a[i] != '\n');
    assert(forall|i: int| 0 <= i < w.len() ==> #[trigger] w[i] != '\n');
    assert forall|j: int| 0 <= j < line.len() - 1 implies #[trigger] line[j] != '\n' by {
        if j < a.len() {
            assert(line[j] == a[j]);
        } else {
            assert(line[j] == w[j - a.len()]);
        }
    }
}

proof fn later_lines_keep_autostart(header: HeaderModel, lines: Seq<Seq<char>>, from: int)
    requires
        0 <= from,
        forall|i: int|
            from <= i < lines.len() && i < HEADER_LINES ==> (body_of(line_text(#[trigger] lines[i]))
                matches Some(body) ==> assigned_key(body) != Ok::<Seq<char>, Seq<char>>(
                "autostart"@,
            )),
    ensures
        header_from(header, lines, from).autostart == header.autostart,
    decreases lines.len() - from,
{
    if from < lines.len() && from < HEADER_LINES {
        match body_of(line_text(lines[from])) {
            None => later_lines_keep_autostart(header, lines, from + 1),
            Some(body) => {
                let next = with_line(header, (from + 1) as nat, body, line_finding(body));
                later_lines_keep_autostart(next, lines, from + 1);
            },
        }
    }
}

proof fn header_reaches(header: HeaderModel, lines: Seq<Seq<char>>, from: int, place: int) -> (at:
    HeaderModel)
    requires
        0 <= from <= place < lines.len(),
        place < HEADER_LINES,
    ensures
        header_from(header, lines, from) == header_from(at, lines, place),
    decreases place - from,
{
    if from == place {
        header
    } else {
        match body_of(line_text(lines[from])) {
            None => header_reaches(header, lines, from + 1, place),
            Some(body) => header_reaches(
                with_line(header, (from + 1) as nat, body, line_finding(body)),
                lines,
                from + 1,
                place,
            ),
        }
    }
}

/// A header says what its last `autostart` line says: where TOML reads that line as `on`, and
/// no later line that counts sets it again, the header has `autostart` set to `on`.
pub proof fn last_autostart_line_decides(text: Seq<char>, place: int, on: bool)
    requires
        0 <= place < chunks(text, 0).len(),
        place < HEADER_LINES,
        body_of(line_text(chunks(text, 0)[place])) matches Some(body) && assigned_key(body) == Ok::<
            Seq<char>,
            Seq<char>,
        >("autostart"@) && toml_finding(body, "autostart"@) == Finding::Bool(on),
        forall|i: int|
            place < i < chunks(text, 0).len() && i < HEADER_LINES ==> (body_of(
                line_text(#[trigger] chunks(text, 0)[i]),
            ) matches Some(body) ==> assigned_key(body) != Ok::<Seq<char>, Seq<char>>(
                "autostart"@,
            )),
    ensures
        header_of(text).autostart == on,
{
    let lines = chunks(text, 0);
    let at = header_reaches(no_header(), lines, 0, place);
    let body = body_of(line_text(lines[place]))->0;
    let next = with_line(at, (place + 1) as nat, body, line_finding(body));
    reveal_strlit("autostart");
    reveal_strlit("name");
    reveal_strlit("description");
    reveal_strlit("mode");
    reveal_strlit("bind");
    assert("autostart"@[0] == 'a' && "name"@[0] == 'n' && "description"@[0] == 'd' && "mode"@[0]
        == 'm' && "bind"@[0] == 'b');
    assert(next.autostart == on);
    later_lines_keep_autostart(next, lines, place + 1);
}

/// True when a text is white space only.
pub open spec fn only_spaces(s: Seq<char>) -> bool {
    forall|i: int| 0 <= i < s.len() ==> is_space(#[trigger] s[i])
}

proof fn skip_over(a: Seq<char>, rest: Seq<char>, i: int)
    requires
        only_spaces(a),
        0 <= i <= a.len(),
        rest.len() > 0,
        !is_space(rest[0]),
    ensures
        crate::text::skip_spaces(a + rest, i) == a.len(),
        i == 0 ==> trim_start(a + rest) == rest,
    decreases a.len() - i,
{
    if i < a.len() {
        assert(is_space(a[i]));
        skip_over(a, rest, i + 1);
    }
    assert((a + rest).subrange(a.len() as int, (a + rest).len() as int) =~= rest);
}

/// The end of a text without trailing white space.
pub open spec fn text_end(s: Seq<char>) -> int {
    crate::text::before_spaces(s, 0, s.len() as int)
}

proof fn end_of_suffix(a: Seq<char>, b: Seq<char>, to: int)
    requires
        0 <= to <= b.len(),
    ensures
        crate::text::before_spaces(a + b, a.len() as int, a.len() + to) == a.len()
            + crate::text::before_spaces(b, 0, to),
    decreases to,
{
    if to > 0 {
        assert((a + b)[a.len() + to - 1] == b[to - 1]);
        if is_space(b[to - 1]) {
            end_of_suffix(a, b, to - 1);
        }
    }
}

proof fn end_is_past(s: Seq<char>, k: int, to: int)
    requires
        0 <= k < to <= s.len(),
        !is_space(s[k]),
    ensures
        k + 1 <= crate::text::before_spaces(s, 0, to) <= to,
    decreases to,
{
    if is_space(s[to - 1]) {
        end_is_past(s, k, to - 1);
    }
}

proof fn trim_of_padded(c: Seq<char>, y: Seq<char>)
    requires
        only_spaces(c),
        y.len() > 0,
        !is_space(y[0]),
    ensures
        trim(c + y) == y.take(text_end(y)),
{
    skip_over(c, y, 0);
    end_of_suffix(c, y, y.len() as int);
    before_spaces_bounds(y, 0, y.len() as int);
    assert((c + y).subrange(c.len() as int, c.len() + text_end(y)) =~= y.take(text_end(y)));
}

/// A header line, put together from its parts: `a`, `b` and `c` are white space, `key` is the
/// text before the `=`, and `value` the text after it.
pub open spec fn header_line(
    a: Seq<char>,
    b: Seq<char>,
    c: Seq<char>,
    key: Seq<char>,
    value: Seq<char>,
) -> Seq<char> {
    a + (seq!['#'] + (b + (marker() + (c + (key + (seq!['='] + value))))))
}

/// True when the parts of a header line are what they should be.
pub open spec fn are_line_parts(
    a: Seq<char>,
    b: Seq<char>,
    c: Seq<char>,
    key: Seq<char>,
) -> bool {
    &&& only_spaces(a)
    &&& only_spaces(b)
    &&& only_spaces(c)
    &&& key.len() > 0
    &&& !is_space(key[0])
    &&& !key.contains('=')
}

proof fn parts_make_a_body(
    a: Seq<char>,
    b: Seq<char>,
    c: Seq<char>,
    key: Seq<char>,
    value: Seq<char>,
) -> (v: int)
    requires
        are_line_parts(a, b, c, key),
    ensures
        0 <= v <= value.len(),
        v == 0 || !is_space(value[v - 1]),
        forall|i: int| v <= i < value.len() ==> is_space(#[trigger] value[i]),
        body_of(header_line(a, b, c, key, value)) == Some(key + seq!['='] + value.take(v)),
        cut(key + seq!['='] + value.take(v), '=') == Some((key, value.take(v))),
{
    let y = key + (seq!['='] + value);
    let e = text_end(y);
    let line = header_line(a, b, c, key, value);
    assert(body_of(line) == Some(y.take(e))) by {
        marked_lines_have_a_body(a, b, c, y);
    }
    assert(y[key.len() as int] == '=');
    end_is_past(y, key.len() as int, y.len() as int);
    let v = e - key.len() - 1;
    spaces_behind_end(y, y.len() as int);
    assert forall|i: int| v <= i < value.len() implies is_space(#[trigger] value[i]) by {
        assert(value[i] == y[key.len() + 1 + i]);
    }
    let body = key + seq!['='] + value.take(v);
    assert(y.take(e) =~= body);
    assert(cut(body, '=') == Some((key, value.take(v)))) by {
        first_equals(key, seq!['='] + value.take(v), 0);
        assert(body =~= key + (seq!['='] + value.take(v)));
        assert(body.take(key.len() as int) =~= key);
        assert(body.skip(key.len() as int + 1) =~= value.take(v));
    }
    v
}

proof fn marked_lines_have_a_body(a: Seq<char>, b: Seq<char>, c: Seq<char>, y: Seq<char>)
    requires
        only_spaces(a),
        only_spaces(b),
        only_spaces(c),
        y.len() > 0,
        !is_space(y[0]),
    ensures
        body_of(a + (seq!['#'] + (b + (marker() + (c + y))))) == Some(y.take(text_end(y))),
{
    reveal_strlit("tessera:");
    let after_marker = c + y;
    let x = marker() + after_marker;
    let start = seq!['#'] + (b + x);
    skip_over(a, start, 0);
    assert(trim_start(a + start) == start);
    assert(start.skip(1) =~= b + x);
    assert(x[0] == 't');
    skip_over(b, x, 0);
    assert(x.take(marker().len() as int) =~= marker());
    assert(x.skip(marker().len() as int) =~= after_marker);
    trim_of_padded(c, y);
}

proof fn spaces_behind_end(s: Seq<char>, to: int)
    requires
        0 <= to <= s.len(),
    ensures
        forall|i: int|
            crate::text::before_spaces(s, 0, to) <= i < to ==> is_space(#[trigger] s[i]),
        0 <= crate::text::before_spaces(s, 0, to) <= to,
        crate::text::before_spaces(s, 0, to) > 0 ==> !is_space(
            s[crate::text::before_spaces(s, 0, to) - 1],
        ),
    decreases to,
{
    if to > 0 && is_space(s[to - 1]) {
        spaces_behind_end(s, to - 1);
    }
}

proof fn first_equals(key: Seq<char>, rest: Seq<char>, i: int)
    requires
        !key.contains('='),
        rest.len() > 0,
        rest[0] == '=',
        0 <= i <= key.len(),
    ensures
        first_at(key + rest, '=', i) == key.len(),
    decreases key.len() - i,
{
    if i < key.len() {
        assert(key.contains(key[i]));
        first_equals(key, rest, i + 1);
    }
}

proof fn first_hash(front: Seq<char>, rest: Seq<char>, i: int)
    requires
        forall|j: int| 0 <= j < front.len() ==> #[trigger] front[j] != '#',
        rest.len() == 0 || rest[0] == '#',
        0 <= i <= front.len(),
    ensures
        first_at(front + rest, '#', i) == front.len(),
    decreases front.len() - i,
{
    if i < front.len() {
        assert(front[i] != '#');
        first_hash(front, rest, i + 1);
    }
}

/// True when a text is a value followed by nothing, or by a comment.
pub open spec fn is_value_text(value: Seq<char>, on: bool) -> bool {
    ||| value == seq![' '] + truth_word(on)
    ||| {
        let front = seq![' '] + truth_word(on) + seq![' ', ' '];
        &&& value.len() > front.len()
        &&& value.take(front.len() as int) == front
        &&& value[front.len() as int] == '#'
    }
}

proof fn value_text_reads(value: Seq<char>, on: bool, v: int)
    requires
        is_value_text(value, on),
        0 <= v <= value.len(),
        forall|i: int| v <= i < value.len() ==> is_space(#[trigger] value[i]),
    ensures
        trim(pieces(value.take(v), '#', 0)[0]) == truth_word(on),
{
    reveal_strlit("true");
    reveal_strlit("false");
    let w = truth_word(on);
    let t = value.take(v);
    if value == seq![' '] + w {
        assert(value[w.len() as int] == w[w.len() - 1]);
        assert(!is_space(value[w.len() as int]));
        assert(v == value.len());
        assert(t =~= value);
        assert forall|j: int| 0 <= j < t.len() implies #[trigger] t[j] != '#' by {
            if j > 0 {
                assert(t[j] == w[j - 1]);
            }
        }
        first_hash(t, Seq::empty(), 0);
        assert(t + Seq::<char>::empty() =~= t);
        assert(t.subrange(0, t.len() as int) =~= t);
        trim_of_padded(seq![' '], w);
        assert(text_end(w) == w.len());
        assert(w.take(w.len() as int) =~= w);
    } else {
        let front = seq![' '] + w + seq![' ', ' '];
        let n = front.len() as int;
        assert(!is_space(value[n]));
        assert(v > n);
        let rest = t.skip(n);
        assert(t =~= front + rest);
        assert(rest[0] == '#');
        assert forall|j: int| 0 <= j < front.len() implies #[trigger] front[j] != '#' by {
            if 0 < j <= w.len() {
                assert(front[j] == w[j - 1]);
            }
        }
        first_hash(front, rest, 0);
        assert(t.subrange(0, n) =~= front);
        let y = w + seq![' ', ' '];
        assert(front =~= seq![' '] + y);
        trim_of_padded(seq![' '], y);
        reveal_with_fuel(crate::text::before_spaces, 4);
        assert(y[y.len() - 1] == ' ' && y[y.len() - 2] == ' ' && y[w.len() - 1] == w[w.len() - 1]);
        assert(text_end(y) == w.len());
        assert(y.take(w.len() as int) =~= w);
    }
}

proof fn reads_as_set(
    a: Seq<char>,
    b: Seq<char>,
    c: Seq<char>,
    key: Seq<char>,
    value: Seq<char>,
    on: bool,
)
    requires
        are_line_parts(a, b, c, key),
        trim(key) == "autostart"@,
        is_value_text(value, on),
    ensures
        body_of(header_line(a, b, c, key, value)) matches Some(body) && assigned_key(body) == Ok::<
            Seq<char>,
            Seq<char>,
        >("autostart"@) && bare_value(body) == truth_word(on),
{
    let v = parts_make_a_body(a, b, c, key, value);
    value_text_reads(value, on, v);
    reveal_strlit("autostart");
    assert(is_key_name("autostart"@));
}

proof fn spaces_skipped(s: Seq<char>, from: int)
    requires
        0 <= from <= s.len(),
    ensures
        from <= crate::text::skip_spaces(s, from) <= s.len(),
        forall|i: int|
            from <= i < crate::text::skip_spaces(s, from) ==> is_space(#[trigger] s[i]),
        crate::text::skip_spaces(s, from) < s.len() ==> !is_space(
            s[crate::text::skip_spaces(s, from)],
        ),
    decreases s.len() - from,
{
    if from < s.len() && is_space(s[from]) {
        spaces_skipped(s, from + 1);
    }
}

/// The parts of a header line that sets `autostart`.
pub open spec fn line_front(a: Seq<char>, b: Seq<char>, c: Seq<char>, key: Seq<char>) -> Seq<
    char,
> {
    a + (seq!['#'] + (b + (marker() + (c + key))))
}

proof fn front_has_no_equals(a: Seq<char>, b: Seq<char>, c: Seq<char>, key: Seq<char>)
    requires
        are_line_parts(a, b, c, key),
    ensures
        !line_front(a, b, c, key).contains('='),
{
    reveal_strlit("tessera:");
    let front = line_front(a, b, c, key);
    let p1 = a.len() + 1;
    let p2 = p1 + b.len();
    let p3 = p2 + marker().len();
    let p4 = p3 + c.len();
    assert forall|i: int| 0 <= i < front.len() implies #[trigger] front[i] != '=' by {
        if i < a.len() {
            assert(front[i] == a[i]);
            assert(is_space(a[i]));
        } else if i < p1 {
            assert(front[i] == '#');
        } else if i < p2 {
            assert(front[i] == b[i - p1]);
            assert(is_space(b[i - p1]));
        } else if i < p3 {
            assert(front[i] == marker()[i - p2]);
        } else if i < p4 {
            assert(front[i] == c[i - p3]);
            assert(is_space(c[i - p3]));
        } else {
            assert(front[i] == key[i - p4]);
            assert(key.contains(key[i - p4]));
        }
    }
}

proof fn header_line_splits(line: Seq<char>) -> (parts: (Seq<char>, Seq<char>, Seq<char>))
    requires
        body_of(line) is Some,
    ensures
        only_spaces(parts.0),
        only_spaces(parts.1),
        line == parts.0 + (seq!['#'] + (parts.1 + (marker() + parts.2))),
        body_of(line) == Some(trim(parts.2)),
{
    let a = leading_spaces(line);
    let start = trim_start(line);
    let inner = start.skip(1);
    let b = leading_spaces(inner);
    let rest = trim_start(inner);
    let m = marker().len() as int;
    let tail = rest.skip(m);
    assert(rest == marker() + tail) by {
        assert(rest.take(m) == marker());
        assert(rest =~= rest.take(m) + rest.skip(m));
    }
    assert(start == seq!['#'] + inner) by {
        assert(start =~= seq!['#'] + inner);
    }
    (a, b, tail)
}

proof fn leading_spaces(s: Seq<char>) -> (a: Seq<char>)
    ensures
        only_spaces(a),
        s == a + trim_start(s),
{
    let i = crate::text::skip_spaces(s, 0);
    spaces_skipped(s, 0);
    let a = s.take(i);
    assert(forall|k: int| 0 <= k < a.len() ==> #[trigger] a[k] == s[k]);
    assert(s =~= a + trim_start(s));
    a
}

proof fn tail_splits(tail: Seq<char>) -> (parts: (Seq<char>, Seq<char>, Seq<char>))
    requires
        cut(trim(tail), '=') matches Some((key, _)) && trim(key) == "autostart"@,
    ensures
        only_spaces(parts.0),
        parts.1.len() > 0,
        !is_space(parts.1[0]),
        !parts.1.contains('='),
        trim(parts.1) == "autostart"@,
        tail == parts.0 + (parts.1 + (seq!['='] + parts.2)),
{
    let ic = crate::text::skip_spaces(tail, 0);
    spaces_skipped(tail, 0);
    before_spaces_bounds(tail, ic, tail.len() as int);
    let body = trim(tail);
    let j = first_at(body, '=', 0);
    first_at_is_first(body, '=', 0);
    let c = tail.take(ic);
    let key = body.take(j);
    assert(forall|i: int| 0 <= i < c.len() ==> #[trigger] c[i] == tail[i]);
    if j == 0 {
        reveal_strlit("autostart");
        assert(key =~= Seq::empty());
        assert(trim(key).len() == 0);
    }
    assert(key[0] == tail[ic]);
    assert(!key.contains('=')) by {
        if key.contains('=') {
            let i = choose|i: int| 0 <= i < key.len() && key[i] == '=';
            assert(body[i] == '=');
        }
    }
    assert(body[j] == tail[ic + j]);
    let after = tail.skip(ic + j + 1);
    assert(tail =~= c + (key + (seq!['='] + after)));
    (c, key, after)
}

proof fn autostart_line_parts(line: Seq<char>) -> (parts: (
    Seq<char>,
    Seq<char>,
    Seq<char>,
    Seq<char>,
))
    requires
        is_autostart_line(line),
    ensures
        are_line_parts(parts.0, parts.1, parts.2, parts.3),
        trim(parts.3) == "autostart"@,
        cut(line, '=') is Some,
        (cut(line, '=')->0).0 == line_front(parts.0, parts.1, parts.2, parts.3),
{
    let (a, b, tail) = header_line_splits(line);
    let (c, key, after) = tail_splits(tail);
    let front = line_front(a, b, c, key);
    front_has_no_equals(a, b, c, key);
    assert(line =~= front + (seq!['='] + after));
    first_equals(front, seq!['='] + after, 0);
    assert(line.take(front.len() as int) =~= front);
    (a, b, c, key)
}

/// The value of a line after it was set, with the comment that it keeps.
pub open spec fn kept_value(value: Seq<char>, on: bool) -> Seq<char> {
    seq![' '] + truth_word(on) + match cut(value, '#') {
        None => Seq::empty(),
        Some((_, comment)) => "  #"@ + comment,
    }
}

proof fn kept_value_is_value(value: Seq<char>, on: bool)
    ensures
        is_value_text(kept_value(value, on), on),
        kept_value(value, on).last() == '\r' ==> is_value_text(
            kept_value(value, on).drop_last(),
            on,
        ),
        kept_value(value, on).len() > 0,
        kept_value(value, on).last() == '\n' ==> value.contains('\n'),
{
    reveal_strlit("true");
    reveal_strlit("false");
    reveal_strlit("  #");
    let w = truth_word(on);
    let full = kept_value(value, on);
    match cut(value, '#') {
        None => {
            assert(full =~= seq![' '] + w);
            assert(full.last() == w.last());
        },
        Some((_, comment)) => {
            let head = seq![' '] + w + seq![' ', ' '];
            assert(full =~= head + (seq!['#'] + comment));
            assert(full.take(head.len() as int) =~= head);
            assert(full[head.len() as int] == '#');
            if comment.len() == 0 {
                assert(full.last() == '#');
            } else {
                assert(full.last() == comment.last());
                let short = full.drop_last();
                assert(short.take(head.len() as int) =~= head);
                assert(short[head.len() as int] == '#');
                first_at_is_first(value, '#', 0);
                assert(comment.last() == value.last());
                if full.last() == '\n' {
                    assert(value[value.len() - 1] == '\n');
                }
            }
        },
    }
}

/// The value of a line, without the newline that ends it.
pub open spec fn line_value(line: Seq<char>) -> Seq<char> {
    let after = (cut(line, '=')->0).1;
    if after.len() > 0 && after.last() == '\n' {
        after.drop_last()
    } else {
        after
    }
}

/// The value that a line shows once it was set.
spec fn set_value(line: Seq<char>, on: bool) -> Seq<char> {
    let after = (cut(line, '=')->0).1;
    let full = kept_value(line_value(line), on);
    if after.len() > 0 && after.last() == '\n' && full.last() == '\r' {
        full.drop_last()
    } else {
        full
    }
}

proof fn value_is_on_one_line(line: Seq<char>, last: bool)
    requires
        is_line(line, last),
        cut(line, '=') is Some,
    ensures
        !line_value(line).contains('\n'),
{
    first_at_is_first(line, '=', 0);
    let j = first_at(line, '=', 0);
    let after = (cut(line, '=')->0).1;
    let value = line_value(line);
    if value.contains('\n') {
        let i = choose|i: int| 0 <= i < value.len() && value[i] == '\n';
        assert(line[j + 1 + i] == '\n');
        assert(after[i] == '\n');
    }
}

proof fn set_line_shows(line: Seq<char>, on: bool, last: bool)
    requires
        is_line(line, last),
        cut(line, '=') is Some,
    ensures
        line_text(rewritten_line(line, on)) == (cut(line, '=')->0).0 + (seq!['='] + set_value(
            line,
            on,
        )),
{
    reveal_strlit("= ");
    reveal_strlit("\n");
    let (before, after) = cut(line, '=')->0;
    let ended = after.len() > 0 && after.last() == '\n';
    value_is_on_one_line(line, last);
    kept_value_is_value(line_value(line), on);
    let full = kept_value(line_value(line), on);
    let front = before + (seq!['='] + full);
    let new = rewritten_line(line, on);
    if ended {
        assert(new =~= front.push('\n'));
        assert(new.drop_last() =~= front);
    } else {
        assert(new =~= front);
    }
    assert(front.last() == full.last());
    assert(line_text(new) =~= before + (seq!['='] + set_value(line, on)));
}

proof fn set_line_reads(line: Seq<char>, on: bool, last: bool)
    requires
        is_autostart_line(line),
        is_line(line, last),
    ensures
        body_of(line_text(rewritten_line(line, on))) matches Some(body) && assigned_key(body)
            == Ok::<Seq<char>, Seq<char>>("autostart"@) && bare_value(body) == truth_word(on),
{
    let (a, b, c, key) = autostart_line_parts(line);
    set_line_shows(line, on, last);
    value_is_on_one_line(line, last);
    kept_value_is_value(line_value(line), on);
    let shown = set_value(line, on);
    assert(line_front(a, b, c, key) + (seq!['='] + shown) == header_line(a, b, c, key, shown)) by {
        assert(line_front(a, b, c, key) + (seq!['='] + shown) =~= header_line(
            a,
            b,
            c,
            key,
            shown,
        ));
    }
    reads_as_set(a, b, c, key, shown, on);
}

proof fn added_line_reads(on: bool)
    ensures
        body_of(line_text(new_autostart_line(on))) matches Some(body) && assigned_key(body) == Ok::<
            Seq<char>,
            Seq<char>,
        >("autostart"@) && bare_value(body) == truth_word(on),
{
    reveal_strlit("# tessera: autostart = ");
    reveal_strlit("tessera:");
    reveal_strlit("autostart");
    reveal_strlit("true");
    reveal_strlit("false");
    reveal_strlit("\n");
    let w = truth_word(on);
    let new = new_autostart_line(on);
    let front = "# tessera: autostart = "@ + w;
    assert(new.drop_last() =~= front);
    assert(front.last() == w.last());
    let key = "autostart"@ + seq![' '];
    let empty = Seq::<char>::empty();
    assert(front =~= header_line(empty, seq![' '], seq![' '], key, seq![' '] + w));
    assert(!key.contains('='));
    reveal_with_fuel(crate::text::before_spaces, 3);
    assert(empty + key =~= key);
    trim_of_padded(empty, key);
    assert(key[9] == ' ' && key[8] == 't');
    assert(text_end(key) == 9);
    assert(key.take(9) =~= "autostart"@);
    reads_as_set(empty, seq![' '], seq![' '], key, seq![' '] + w, on);
}

/// After `autostart` was set, its line is a header line that says so: a well-formed
/// `autostart` assignment whose value is `true` or `false` as asked.
pub proof fn set_autostart_writes_the_setting(text: Seq<char>, on: bool)
    ensures
        ({
            let after = autostart_lines(chunks(text, 0), on);
            let place = set_place(chunks(text, 0));
            &&& 0 <= place < after.len()
            &&& body_of(line_text(after[place])) matches Some(body) && assigned_key(body) == Ok::<
                Seq<char>,
                Seq<char>,
            >("autostart"@) && bare_value(body) == truth_word(on)
        }),
{
    let lines = chunks(text, 0);
    set_autostart_keeps_other_lines(text, on);
    match autostart_place(lines, lines.len() as int) {
        Some(place) => {
            autostart_place_is_line(lines, lines.len() as int);
            chunks_are_lines(text, 0);
            assert(is_line(lines[place], place == lines.len() - 1));
            set_line_reads(lines[place], on, place == lines.len() - 1);
        },
        None => {
            behind_headers_is_inside(lines, lines.len() as int);
            added_line_reads(on);
        },
    }
}

/// The lines that count.
pub open spec fn top_lines(lines: Seq<Seq<char>>) -> Seq<Seq<char>> {
    if lines.len() <= HEADER_LINES {
        lines
    } else {
        lines.take(HEADER_LINES as int)
    }
}

proof fn top_lines_have_the_header(header: HeaderModel, lines: Seq<Seq<char>>, from: int)
    requires
        0 <= from,
    ensures
        header_from(header, lines, from) == header_from(header, top_lines(lines), from),
    decreases lines.len() - from,
{
    if from < HEADER_LINES && from < lines.len() {
        match body_of(line_text(lines[from])) {
            None => top_lines_have_the_header(header, lines, from + 1),
            Some(body) => top_lines_have_the_header(
                with_line(header, (from + 1) as nat, body, line_finding(body)),
                lines,
                from + 1,
            ),
        }
    }
}

/// Only the first [`HEADER_LINES`] lines count: scripts that agree on them have the same header,
/// whatever comes later.
pub proof fn later_lines_do_not_count(a: Seq<char>, b: Seq<char>)
    requires
        top_lines(chunks(a, 0)) == top_lines(chunks(b, 0)),
    ensures
        header_of(a) == header_of(b),
{
    top_lines_have_the_header(no_header(), chunks(a, 0), 0);
    top_lines_have_the_header(no_header(), chunks(b, 0), 0);
}

/// True when TOML can read a line that sets `autostart`, whatever its value: only spaces and tabs
/// stand between the name and the `=`, and a comment behind the value has no control character.
pub open spec fn is_plain_line(line: Seq<char>) -> bool {
    let (before, _) = cut(line, '=')->0;
    &&& is_blank(before.skip(text_end(before)))
    &&& cut(line_value(line), '#') matches Some((_, comment)) ==> is_printable(
        comment.take(text_end(comment)),
    )
}

proof fn end_of_both(front: Seq<char>, key: Seq<char>, to: int)
    requires
        0 < to <= key.len(),
        !is_space(key[0]),
    ensures
        crate::text::before_spaces(front + key, 0, front.len() + to) == front.len()
            + crate::text::before_spaces(key, 0, to),
    decreases to,
{
    assert((front + key)[front.len() + to - 1] == key[to - 1]);
    if is_space(key[to - 1]) {
        end_of_both(front, key, to - 1);
    }
}

proof fn key_is_autostart(key: Seq<char>)
    requires
        key.len() > 0,
        !is_space(key[0]),
        trim(key) == "autostart"@,
    ensures
        key == "autostart"@ + key.skip(text_end(key)),
{
    let empty = Seq::<char>::empty();
    assert(empty + key =~= key);
    trim_of_padded(empty, key);
    spaces_behind_end(key, key.len() as int);
    assert(key =~= key.take(text_end(key)) + key.skip(text_end(key)));
}

proof fn value_is_switch(key: Seq<char>, value: Seq<char>, on: bool, v: int)
    requires
        key.len() > 0,
        !is_space(key[0]),
        trim(key) == "autostart"@,
        is_blank(key.skip(text_end(key))),
        is_value_text(value, on),
        0 <= v <= value.len(),
        v == 0 || !is_space(value[v - 1]),
        forall|i: int| v <= i < value.len() ==> is_space(#[trigger] value[i]),
        v >= truth_word(on).len() + 4 ==> is_printable(
            value.subrange(truth_word(on).len() + 4int, v),
        ),
    ensures
        is_switch(key + seq!['='] + value.take(v), "autostart"@, on),
{
    reveal_strlit("true");
    reveal_strlit("false");
    reveal_strlit("autostart");
    let w = truth_word(on);
    let before = key.skip(text_end(key));
    let body = key + seq!['='] + value.take(v);
    key_is_autostart(key);
    assert(is_blank(seq![' ']));
    if value == seq![' '] + w {
        assert(value[w.len() as int] == w[w.len() - 1]);
        assert(v == value.len());
        let none = Seq::<char>::empty();
        assert(value.take(v) =~= seq![' '] + w);
        assert(body =~= switch_line("autostart"@, before, seq![' '], on, none, None));
        assert(is_switch_line("autostart"@, before, seq![' '], none, None));
    } else {
        let front = seq![' '] + w + seq![' ', ' '];
        let n = front.len() as int;
        assert(!is_space(value[n]));
        assert(v > n);
        let text = value.subrange(n + 1, v);
        let gap = seq![' ', ' '];
        assert(value.take(v) =~= front + (seq!['#'] + text)) by {
            assert(value.take(v).take(n) =~= value.take(n));
            assert(value.take(v) =~= value.take(n) + value.subrange(n, v));
            assert(value.subrange(n, v) =~= seq!['#'] + text);
        }
        assert(body =~= switch_line("autostart"@, before, seq![' '], on, gap, Some(text)));
        assert(is_switch_line("autostart"@, before, seq![' '], gap, Some(text)));
    }
}

proof fn kept_comment_is_printable(line: Seq<char>, on: bool, v: int)
    requires
        cut(line, '=') is Some,
        is_plain_line(line),
        0 <= v <= set_value(line, on).len(),
        v == 0 || !is_space(set_value(line, on)[v - 1]),
        v >= truth_word(on).len() + 4,
    ensures
        is_printable(set_value(line, on).subrange(truth_word(on).len() + 4int, v)),
{
    reveal_strlit("true");
    reveal_strlit("false");
    reveal_strlit("  #");
    let value = line_value(line);
    let shown = set_value(line, on);
    let n = truth_word(on).len() + 4int;
    let text = shown.subrange(n, v);
    if v > n {
        let comment = (cut(value, '#')->0).1;
        assert(cut(value, '#') is Some);
        assert forall|i: int| n <= i < v implies #[trigger] shown[i] == comment[i - n] by {
            assert(kept_value(value, on)[i] == comment[i - n]);
        }
        assert(shown[v - 1] == comment[v - 1 - n]);
        end_is_past(comment, v - 1 - n, comment.len() as int);
        let kept = comment.take(text_end(comment));
        assert forall|i: int| 0 <= i < text.len() implies (#[trigger] text[i] == '\t' || (' '
            <= text[i] && text[i] != '\u{7f}')) by {
            assert(text[i] == shown[n + i]);
            assert(kept[i] == comment[i]);
        }
    }
}

proof fn set_line_is_switch(line: Seq<char>, on: bool, last: bool)
    requires
        is_autostart_line(line),
        is_line(line, last),
        is_plain_line(line),
    ensures
        sets_autostart_to(rewritten_line(line, on), on),
{
    let (a, b, c, key) = autostart_line_parts(line);
    set_line_shows(line, on, last);
    value_is_on_one_line(line, last);
    kept_value_is_value(line_value(line), on);
    let shown = set_value(line, on);
    let front = a + (seq!['#'] + (b + (marker() + c)));
    assert(line_front(a, b, c, key) =~= front + key);
    assert(line_front(a, b, c, key) + (seq!['='] + shown) =~= header_line(a, b, c, key, shown));
    end_of_both(front, key, key.len() as int);
    before_spaces_bounds(key, 0, key.len() as int);
    assert((front + key).skip(text_end(front + key)) =~= key.skip(text_end(key)));
    let v = parts_make_a_body(a, b, c, key, shown);
    if v >= truth_word(on).len() + 4 {
        kept_comment_is_printable(line, on, v);
    }
    value_is_switch(key, shown, on, v);
    set_line_reads(line, on, last);
}

proof fn added_line_is_switch(on: bool)
    ensures
        sets_autostart_to(new_autostart_line(on), on),
{
    reveal_strlit("# tessera: autostart = ");
    reveal_strlit("tessera:");
    reveal_strlit("autostart");
    reveal_strlit("true");
    reveal_strlit("false");
    reveal_strlit("\n");
    let w = truth_word(on);
    let new = new_autostart_line(on);
    let front = "# tessera: autostart = "@ + w;
    assert(new.drop_last() =~= front);
    assert(front.last() == w.last());
    let key = "autostart"@ + seq![' '];
    let empty = Seq::<char>::empty();
    assert(front =~= header_line(empty, seq![' '], seq![' '], key, seq![' '] + w));
    assert(!key.contains('='));
    reveal_with_fuel(crate::text::before_spaces, 3);
    assert(empty + key =~= key);
    trim_of_padded(empty, key);
    assert(key[9] == ' ' && key[8] == 't');
    assert(text_end(key) == 9);
    assert(key.take(9) =~= "autostart"@);
    assert(key.skip(9) =~= seq![' ']);
    let v = parts_make_a_body(empty, seq![' '], seq![' '], key, seq![' '] + w);
    value_is_switch(key, seq![' '] + w, on, v);
    added_line_reads(on);
}

proof fn trim_start_of_ended(x: Seq<char>, e: Seq<char>, i: int)
    requires
        only_spaces(e),
        0 <= i <= x.len(),
    ensures
        crate::text::skip_spaces(x, i) < x.len() ==> crate::text::skip_spaces(x + e, i)
            == crate::text::skip_spaces(x, i),
        crate::text::skip_spaces(x, i) >= x.len() ==> crate::text::skip_spaces(x + e, i)
            == x.len() + e.len(),
        i == 0 && crate::text::skip_spaces(x, 0) < x.len() ==> trim_start(x + e) == trim_start(x)
            + e,
        i == 0 && crate::text::skip_spaces(x, 0) >= x.len() ==> trim_start(x + e).len() == 0
            && trim_start(x).len() == 0,
    decreases x.len() - i,
{
    if i < x.len() {
        assert((x + e)[i] == x[i]);
        if is_space(x[i]) {
            trim_start_of_ended(x, e, i + 1);
        }
    } else {
        all_spaces_skipped(x + e, i);
    }
    if i == 0 {
        spaces_skipped(x, 0);
        if crate::text::skip_spaces(x, 0) < x.len() {
            assert(trim_start(x + e) =~= trim_start(x) + e);
        }
    }
}

proof fn all_spaces_skipped(s: Seq<char>, from: int)
    requires
        0 <= from <= s.len(),
        forall|i: int| from <= i < s.len() ==> is_space(#[trigger] s[i]),
    ensures
        crate::text::skip_spaces(s, from) == s.len(),
    decreases s.len() - from,
{
    if from < s.len() {
        assert(is_space(s[from]));
        all_spaces_skipped(s, from + 1);
    }
}

proof fn trim_of_ended(x: Seq<char>, e: Seq<char>)
    requires
        only_spaces(e),
    ensures
        trim(x + e) == trim(x),
{
    let i = crate::text::skip_spaces(x, 0);
    trim_start_of_ended(x, e, 0);
    spaces_skipped(x, 0);
    if i < x.len() {
        end_before_spaces(x, e, i, e.len() as int);
        before_spaces_bounds(x, i, x.len() as int);
        assert(trim(x + e) =~= trim(x));
    } else {
        assert(trim(x + e) =~= Seq::empty());
        assert(trim(x) =~= Seq::empty());
    }
}

proof fn end_before_spaces(x: Seq<char>, e: Seq<char>, from: int, n: int)
    requires
        only_spaces(e),
        0 <= from < x.len(),
        0 <= n <= e.len(),
    ensures
        crate::text::before_spaces(x + e, from, x.len() + n) == crate::text::before_spaces(
            x,
            from,
            x.len() as int,
        ),
    decreases n,
{
    if n > 0 {
        assert((x + e)[x.len() + n - 1] == e[n - 1]);
        end_before_spaces(x, e, from, n - 1);
    } else {
        same_end(x, e, from, x.len() as int);
    }
}

proof fn same_end(x: Seq<char>, e: Seq<char>, from: int, to: int)
    requires
        0 <= from <= to <= x.len(),
    ensures
        crate::text::before_spaces(x + e, from, to) == crate::text::before_spaces(x, from, to),
    decreases to - from,
{
    if to > from {
        assert((x + e)[to - 1] == x[to - 1]);
        if is_space(x[to - 1]) {
            same_end(x, e, from, to - 1);
        }
    }
}

proof fn body_of_ended(x: Seq<char>, e: Seq<char>)
    requires
        only_spaces(e),
    ensures
        body_of(x + e) == body_of(x),
{
    trim_start_of_ended(x, e, 0);
    spaces_skipped(x, 0);
    let start = trim_start(x);
    if start.len() > 0 {
        assert((start + e)[0] == start[0]);
        if start[0] == '#' {
            let inner = start.skip(1);
            assert((start + e).skip(1) =~= inner + e);
            trim_start_of_ended(inner, e, 0);
            spaces_skipped(inner, 0);
            let rest = trim_start(inner);
            if rest.len() > 0 {
                marker_of_ended(rest, e);
                let m = marker().len() as int;
                if begins(rest, marker()) {
                    assert((rest + e).skip(m) =~= rest.skip(m) + e);
                    trim_of_ended(rest.skip(m), e);
                }
            } else {
                reveal_strlit("tessera:");
            }
        }
    }
}

proof fn marker_of_ended(rest: Seq<char>, e: Seq<char>)
    requires
        only_spaces(e),
    ensures
        begins(rest + e, marker()) == begins(rest, marker()),
{
    reveal_strlit("tessera:");
    let m = marker().len() as int;
    if begins(rest, marker()) {
        assert((rest + e).take(m) =~= rest.take(m));
    } else if begins(rest + e, marker()) {
        if rest.len() >= m {
            assert((rest + e).take(m) =~= rest.take(m));
        } else {
            let i = rest.len() as int;
            assert((rest + e).take(m)[i] == e[0]);
            assert(is_space(e[0]));
            assert(marker()[i] == e[0]);
        }
    }
}

/// The end of a line makes no difference to what its header says.
proof fn line_ends_do_not_count(line: Seq<char>)
    ensures
        body_of(line_text(line)) == body_of(line),
{
    let text = line_text(line);
    let e = line.skip(text.len() as int);
    assert(line =~= text + e);
    assert(only_spaces(e));
    body_of_ended(text, e);
}

proof fn other_line_sets_nothing(line: Seq<char>)
    requires
        !is_autostart_line(line),
    ensures
        body_of(line_text(line)) matches Some(body) ==> assigned_key(body) != Ok::<
            Seq<char>,
            Seq<char>,
        >("autostart"@),
{
    line_ends_do_not_count(line);
}

proof fn no_place_no_lines(lines: Seq<Seq<char>>, n: int)
    requires
        0 <= n <= lines.len(),
        autostart_place(lines, n) is None,
    ensures
        forall|i: int|
            0 <= i < n && i < HEADER_LINES ==> !is_autostart_line(#[trigger] lines[i]),
    decreases n,
{
    if n > 0 {
        no_place_no_lines(lines, n - 1);
    }
}

/// What was set reads back: in the new text the line of the setting decides `autostart`, so that
/// [`Header::parse`] gives it as asked. This is so where the line is among those that count, and
/// the last of the old lines is one that TOML can read.
pub proof fn set_autostart_reads_back(text: Seq<char>, on: bool)
    requires
        set_place(chunks(text, 0)) < HEADER_LINES,
        autostart_place(chunks(text, 0), chunks(text, 0).len() as int) matches Some(place)
            ==> is_plain_line(chunks(text, 0)[place]),
    ensures
        autostart_decided(
            concatenated(autostart_lines(chunks(text, 0), on)),
            set_place(chunks(text, 0)),
            on,
        ),
{
    let lines = chunks(text, 0);
    let after = autostart_lines(lines, on);
    let place = set_place(lines);
    set_autostart_keeps_other_lines(text, on);
    match autostart_place(lines, lines.len() as int) {
        Some(_) => {
            autostart_place_is_line(lines, lines.len() as int);
            chunks_are_lines(text, 0);
            assert(is_line(lines[place], place == lines.len() - 1));
            set_line_is_switch(lines[place], on, place == lines.len() - 1);
            assert forall|i: int| place < i < after.len() && i < HEADER_LINES implies (body_of(
                line_text(#[trigger] after[i]),
            ) matches Some(body) ==> assigned_key(body) != Ok::<Seq<char>, Seq<char>>(
                "autostart"@,
            )) by {
                assert(after[i] == lines[i]);
                other_line_sets_nothing(lines[i]);
            }
        },
        None => {
            behind_headers_is_inside(lines, lines.len() as int);
            added_line_is_switch(on);
            no_place_no_lines(lines, lines.len() as int);
            assert forall|i: int| place < i < after.len() && i < HEADER_LINES implies (body_of(
                line_text(#[trigger] after[i]),
            ) matches Some(body) ==> assigned_key(body) != Ok::<Seq<char>, Seq<char>>(
                "autostart"@,
            )) by {
                assert(after[i] == lines[i - 1]);
                other_line_sets_nothing(lines[i - 1]);
            }
        },
    }
}

proof fn kept_comment_stays(value: Seq<char>, on: bool)
    ensures
        match cut(value, '#') {
            None => cut(kept_value(value, on), '#') is None,
            Some((_, comment)) => cut(kept_value(value, on), '#') matches Some((_, kept)) && kept
                == comment,
        },
{
    reveal_strlit("true");
    reveal_strlit("false");
    reveal_strlit("  #");
    let w = truth_word(on);
    let full = kept_value(value, on);
    match cut(value, '#') {
        None => {
            assert(full =~= seq![' '] + w);
            assert forall|j: int| 0 <= j < full.len() implies #[trigger] full[j] != '#' by {
                if j > 0 {
                    assert(full[j] == w[j - 1]);
                }
            }
            first_hash(full, Seq::empty(), 0);
            assert(full + Seq::<char>::empty() =~= full);
        },
        Some((_, comment)) => {
            let front = seq![' '] + w + seq![' ', ' '];
            let rest = seq!['#'] + comment;
            assert(full =~= front + rest);
            assert forall|j: int| 0 <= j < front.len() implies #[trigger] front[j] != '#' by {
                if 0 < j <= w.len() {
                    assert(front[j] == w[j - 1]);
                }
            }
            first_hash(front, rest, 0);
            assert(full.skip(front.len() as int + 1) =~= comment);
        },
    }
}

proof fn rewriting_overrides(line: Seq<char>, a: bool, b: bool, last: bool)
    requires
        is_line(line, last),
        cut(line, '=') is Some,
    ensures
        rewritten_line(rewritten_line(line, a), b) == rewritten_line(line, b),
{
    reveal_strlit("= ");
    reveal_strlit("\n");
    let (before, after) = cut(line, '=')->0;
    let ended = after.len() > 0 && after.last() == '\n';
    let value = line_value(line);
    let full = kept_value(value, a);
    let first = rewritten_line(line, a);
    let ending = if ended {
        seq!['\n']
    } else {
        Seq::empty()
    };
    let rest = seq!['='] + (full + ending);
    value_is_on_one_line(line, last);
    kept_value_is_value(value, a);
    kept_comment_stays(value, a);
    assert(first =~= before + rest);
    first_at_is_first(line, '=', 0);
    assert(!before.contains('=')) by {
        if before.contains('=') {
            let i = choose|i: int| 0 <= i < before.len() && before[i] == '=';
            assert(line[i] == '=');
        }
    }
    first_equals(before, rest, 0);
    assert(first.take(before.len() as int) =~= before);
    assert(first.skip(before.len() as int + 1) =~= full + ending);
    assert(cut(first, '=') == Some((before, full + ending)));
    if ended {
        assert((full + ending).last() == '\n');
        assert((full + ending).drop_last() =~= full);
    } else {
        assert(full + ending =~= full);
        assert(full.last() != '\n');
    }
    assert(rewritten_line(first, b) =~= rewritten_line(line, b));
}

proof fn set_lines_set_autostart(line: Seq<char>, on: bool, last: bool)
    requires
        is_autostart_line(line),
        is_line(line, last),
    ensures
        is_autostart_line(rewritten_line(line, on)),
{
    set_line_reads(line, on, last);
    line_ends_do_not_count(rewritten_line(line, on));
}

proof fn added_line_is_rewritten(a: bool, b: bool)
    ensures
        is_autostart_line(new_autostart_line(a)),
        rewritten_line(new_autostart_line(a), b) == new_autostart_line(b),
{
    reveal_strlit("# tessera: autostart = ");
    reveal_strlit("true");
    reveal_strlit("false");
    reveal_strlit("= ");
    reveal_strlit("\n");
    added_line_reads(a);
    line_ends_do_not_count(new_autostart_line(a));
    let w = truth_word(a);
    let line = new_autostart_line(a);
    let before = "# tessera: autostart = "@.take(21);
    let value = seq![' '] + w;
    let rest = seq!['='] + value.push('\n');
    assert(line =~= before + rest);
    assert(!before.contains('='));
    first_equals(before, rest, 0);
    assert(line.take(21) =~= before);
    assert(line.skip(22) =~= value.push('\n'));
    assert(value.push('\n').drop_last() =~= value);
    assert forall|j: int| 0 <= j < value.len() implies #[trigger] value[j] != '#' by {
        if j > 0 {
            assert(value[j] == w[j - 1]);
        }
    }
    first_hash(value, Seq::empty(), 0);
    assert(value + Seq::<char>::empty() =~= value);
    assert(rewritten_line(line, b) =~= new_autostart_line(b));
}

proof fn ended_line_sets_the_same(line: Seq<char>)
    ensures
        body_of(line.push('\n')) == body_of(line),
        is_autostart_line(line.push('\n')) == is_autostart_line(line),
        body_of(line_text(line.push('\n'))) == body_of(line_text(line)),
{
    assert(line.push('\n') =~= line + seq!['\n']);
    assert(only_spaces(seq!['\n']));
    body_of_ended(line, seq!['\n']);
    line_ends_do_not_count(line);
    line_ends_do_not_count(line.push('\n'));
}

proof fn a_place_for_a_line(lines: Seq<Seq<char>>, place: int, n: int)
    requires
        0 <= place < n <= lines.len(),
        place < HEADER_LINES,
        is_autostart_line(lines[place]),
    ensures
        autostart_place(lines, n) is Some,
    decreases n,
{
    if !(n <= HEADER_LINES && is_autostart_line(lines[n - 1])) {
        a_place_for_a_line(lines, place, n - 1);
    }
}

proof fn lines_are_set_again(lines: Seq<Seq<char>>, a: bool, b: bool)
    requires
        are_lines(lines),
        0 <= set_place(lines) < HEADER_LINES,
    ensures
        autostart_lines(autostart_lines(lines, a), b) == autostart_lines(lines, b),
{
    let first = autostart_lines(lines, a);
    let n = lines.len() as int;
    match autostart_place(lines, n) {
        Some(place) => {
            autostart_place_is_line(lines, n);
            assert forall|i: int| 0 <= i < n && i < HEADER_LINES && is_autostart_line(
                #[trigger] lines[i],
            ) implies is_autostart_line(first[i]) && rewritten_line(first[i], b) == rewritten_line(
                lines[i],
                b,
            ) by {
                assert(is_line(lines[i], i == n - 1));
                autostart_lines_have_an_equals_sign(lines[i]);
                set_lines_set_autostart(lines[i], a, i == n - 1);
                rewriting_overrides(lines[i], a, b, i == n - 1);
            }
            a_place_for_a_line(first, place, n);
            assert forall|i: int| 0 <= i < n implies rewritten_lines(first, b)[i]
                == rewritten_lines(lines, b)[i] by {
                if !(i < HEADER_LINES && is_autostart_line(lines[i])) {
                    assert(first[i] == lines[i]);
                }
            }
            assert(autostart_lines(first, b) =~= autostart_lines(lines, b));
        },
        None => {
            behind_headers_is_inside(lines, n);
            no_place_no_lines(lines, n);
            let slot = autostart_slot(lines);
            let ended = ended_before(lines, slot);
            added_line_is_rewritten(a, b);
            assert(first[slot] == new_autostart_line(a));
            a_place_for_a_line(first, slot, n + 1);
            assert forall|i: int| 0 <= i <= n && i != slot && i < HEADER_LINES implies
                !is_autostart_line(#[trigger] first[i]) by {
                if i < slot {
                    assert(first[i] == ended[i]);
                    ended_line_sets_the_same(lines[i]);
                } else {
                    assert(first[i] == lines[i - 1]);
                }
            }
            assert(rewritten_lines(first, b) =~= ended.insert(slot, new_autostart_line(b)));
        },
    }
}

/// The last setting wins: setting `autostart` a second time gives what setting it once does, so
/// that no second line is ever added and setting the same value again changes nothing. This is so
/// where the line of the setting is among those that count.
pub proof fn the_last_setting_wins(text: Seq<char>, a: bool, b: bool)
    requires
        set_place(chunks(text, 0)) < HEADER_LINES,
    ensures
        ({
            let once = concatenated(autostart_lines(chunks(text, 0), a));
            concatenated(autostart_lines(chunks(once, 0), b)) == concatenated(
                autostart_lines(chunks(text, 0), b),
            )
        }),
{
    set_autostart_keeps_other_lines(text, a);
    chunks_are_lines(text, 0);
    lines_are_set_again(chunks(text, 0), a, b);
}

/// True when two headers say the same but for `autostart` and the problems.
pub open spec fn same_but_autostart(a: HeaderModel, b: HeaderModel) -> bool {
    &&& a.name == b.name
    &&& a.description == b.description
    &&& a.mode == b.mode
    &&& a.bind == b.bind
}

/// True when a line sets `autostart`, be it readable or not.
spec fn has_autostart_body(line: Seq<char>) -> bool {
    body_of(line_text(line)) matches Some(body) && assigned_key(body) == Ok::<Seq<char>, Seq<char>>(
        "autostart"@,
    )
}

proof fn autostart_lines_have_the_body(line: Seq<char>)
    requires
        is_autostart_line(line),
    ensures
        has_autostart_body(line),
{
    line_ends_do_not_count(line);
    reveal_strlit("autostart");
    assert(is_key_name("autostart"@));
}

proof fn autostart_body_keeps_the_rest(
    header: HeaderModel,
    line_no: nat,
    body: Seq<char>,
    found: Finding,
)
    requires
        assigned_key(body) == Ok::<Seq<char>, Seq<char>>("autostart"@),
    ensures
        same_but_autostart(with_line(header, line_no, body, found), header),
{
    reveal_strlit("autostart");
    reveal_strlit("name");
    reveal_strlit("description");
    reveal_strlit("mode");
    reveal_strlit("bind");
    assert("autostart"@[0] == 'a' && "name"@[0] == 'n' && "description"@[0] == 'd' && "mode"@[0]
        == 'm' && "bind"@[0] == 'b');
}

proof fn rest_follows(
    h1: HeaderModel,
    h2: HeaderModel,
    after: Seq<Seq<char>>,
    lines: Seq<Seq<char>>,
    from: int,
)
    requires
        0 <= from,
        after.len() == lines.len(),
        same_but_autostart(h1, h2),
        forall|i: int|
            0 <= i < lines.len() && i < HEADER_LINES ==> (has_autostart_body(after[i])
                && has_autostart_body(#[trigger] lines[i])) || after[i] == lines[i],
    ensures
        same_but_autostart(header_from(h1, after, from), header_from(h2, lines, from)),
    decreases lines.len() - from,
{
    if from < lines.len() && from < HEADER_LINES {
        let no = (from + 1) as nat;
        assert((has_autostart_body(after[from]) && has_autostart_body(lines[from])) || after[from]
            == lines[from]);
        match body_of(line_text(lines[from])) {
            None => rest_follows(h1, h2, after, lines, from + 1),
            Some(old_body) => {
                let body = body_of(line_text(after[from]))->0;
                let n1 = with_line(h1, no, body, line_finding(body));
                let n2 = with_line(h2, no, old_body, line_finding(old_body));
                if has_autostart_body(lines[from]) && has_autostart_body(after[from]) {
                    autostart_body_keeps_the_rest(h1, no, body, line_finding(body));
                    autostart_body_keeps_the_rest(h2, no, old_body, line_finding(old_body));
                }
                rest_follows(n1, n2, after, lines, from + 1);
            },
        }
    }
}

proof fn no_bodies_no_change(header: HeaderModel, lines: Seq<Seq<char>>, from: int)
    requires
        0 <= from,
        forall|i: int|
            from <= i < lines.len() && i < HEADER_LINES ==> body_of(line_text(#[trigger] lines[i]))
                is None,
    ensures
        header_from(header, lines, from) == header,
    decreases lines.len() - from,
{
    if from < lines.len() && from < HEADER_LINES {
        no_bodies_no_change(header, lines, from + 1);
    }
}

proof fn rest_follows_insertion(
    h1: HeaderModel,
    h2: HeaderModel,
    after: Seq<Seq<char>>,
    lines: Seq<Seq<char>>,
    from: int,
    slot: int,
)
    requires
        0 <= from <= slot <= lines.len(),
        slot < HEADER_LINES,
        after.len() == lines.len() + 1,
        same_but_autostart(h1, h2),
        forall|i: int|
            0 <= i < slot ==> body_of(line_text(#[trigger] after[i])) == body_of(
                line_text(lines[i]),
            ),
        has_autostart_body(after[slot]),
        forall|i: int|
            slot < i < after.len() && i < HEADER_LINES ==> body_of(line_text(#[trigger] after[i]))
                is None,
        forall|i: int|
            slot <= i < lines.len() && i < HEADER_LINES ==> body_of(line_text(#[trigger] lines[i]))
                is None,
    ensures
        same_but_autostart(header_from(h1, after, from), header_from(h2, lines, from)),
    decreases slot - from,
{
    let no = (from + 1) as nat;
    if from < slot {
        assert(body_of(line_text(after[from])) == body_of(line_text(lines[from])));
        match body_of(line_text(after[from])) {
            None => rest_follows_insertion(h1, h2, after, lines, from + 1, slot),
            Some(body) => rest_follows_insertion(
                with_line(h1, no, body, line_finding(body)),
                with_line(h2, no, body, line_finding(body)),
                after,
                lines,
                from + 1,
                slot,
            ),
        }
    } else {
        let body = body_of(line_text(after[slot]))->0;
        let next = with_line(h1, no, body, line_finding(body));
        autostart_body_keeps_the_rest(h1, no, body, line_finding(body));
        no_bodies_no_change(next, after, slot + 1);
        no_bodies_no_change(h2, lines, slot);
    }
}

proof fn no_headers_behind(lines: Seq<Seq<char>>, n: int)
    requires
        0 <= n <= lines.len(),
    ensures
        match behind_headers(lines, n) {
            Some(place) => forall|i: int|
                place <= i < n && i < HEADER_LINES ==> body_of(#[trigger] lines[i]) is None,
            None => forall|i: int|
                0 <= i < n && i < HEADER_LINES ==> body_of(#[trigger] lines[i]) is None,
        },
    decreases n,
{
    if n > 0 {
        no_headers_behind(lines, n - 1);
    }
}

/// Setting `autostart` leaves the rest of the header as it was: its name, description, mode and
/// key binding read as before. This is so where the line of the setting is among those that
/// count.
pub proof fn set_autostart_keeps_the_header(text: Seq<char>, on: bool)
    requires
        set_place(chunks(text, 0)) < HEADER_LINES,
    ensures
        same_but_autostart(
            header_of(concatenated(autostart_lines(chunks(text, 0), on))),
            header_of(text),
        ),
{
    let lines = chunks(text, 0);
    let after = autostart_lines(lines, on);
    let n = lines.len() as int;
    set_autostart_keeps_other_lines(text, on);
    chunks_are_lines(text, 0);
    match autostart_place(lines, n) {
        Some(_) => {
            assert forall|i: int| 0 <= i < n && i < HEADER_LINES implies (has_autostart_body(
                after[i],
            ) && has_autostart_body(#[trigger] lines[i])) || after[i] == lines[i] by {
                if is_autostart_line(lines[i]) {
                    assert(is_line(lines[i], i == n - 1));
                    autostart_lines_have_the_body(lines[i]);
                    set_lines_set_autostart(lines[i], on, i == n - 1);
                    autostart_lines_have_the_body(rewritten_line(lines[i], on));
                }
            }
            rest_follows(no_header(), no_header(), after, lines, 0);
        },
        None => {
            behind_headers_is_inside(lines, n);
            no_headers_behind(lines, n);
            let slot = autostart_slot(lines);
            let ended = ended_before(lines, slot);
            added_line_reads(on);
            assert(after[slot] == new_autostart_line(on));
            assert forall|i: int| 0 <= i < slot implies body_of(line_text(#[trigger] after[i]))
                == body_of(line_text(lines[i])) by {
                assert(after[i] == ended[i]);
                ended_line_sets_the_same(lines[i]);
            }
            assert forall|i: int| slot <= i < n && i < HEADER_LINES implies body_of(
                line_text(#[trigger] lines[i]),
            ) is None by {
                line_ends_do_not_count(lines[i]);
            }
            assert forall|i: int| slot < i < after.len() && i < HEADER_LINES implies body_of(
                line_text(#[trigger] after[i]),
            ) is None by {
                assert(after[i] == lines[i - 1]);
                assert(body_of(line_text(lines[i - 1])) is None);
            }
            rest_follows_insertion(no_header(), no_header(), after, lines, 0, slot);
        },
    }
}

proof fn blanks_skipped(blank: Seq<char>, rest: Seq<char>, from: int)
    requires
        0 <= from <= blank.len(),
        forall|i: int| 0 <= i < blank.len() ==> is_space(#[trigger] blank[i]),
        rest.len() > 0,
        !is_space(rest[0]),
    ensures
        crate::text::skip_spaces(blank + rest, from) == blank.len(),
    decreases blank.len() - from,
{
    let all = blank + rest;
    if from < blank.len() {
        assert(all[from] == blank[from]);
        blanks_skipped(blank, rest, from + 1);
    } else {
        assert(all[from] == rest[0]);
    }
}

/// A header line is a comment with the marker in front, however far it is indented and whatever
/// blanks stand behind the hash; what it says is the rest, without the blanks round it. A line
/// that is no comment is no header line.
pub proof fn header_lines_are_marked_comments(
    indent: Seq<char>,
    gap: Seq<char>,
    rest: Seq<char>,
    line: Seq<char>,
)
    requires
        forall|i: int| 0 <= i < indent.len() ==> is_space(#[trigger] indent[i]),
        forall|i: int| 0 <= i < gap.len() ==> is_space(#[trigger] gap[i]),
    ensures
        body_of(indent + (seq!['#'] + (gap + ("tessera:"@ + rest)))) == Some(trim(rest)),
        line.len() > 0 && line[0] != '#' && !is_space(line[0]) ==> body_of(line) is None,
{
    reveal_strlit("tessera:");
    let marked = "tessera:"@ + rest;
    let inner = gap + marked;
    let outer = seq!['#'] + inner;
    let whole = indent + outer;
    assert(marked[0] == 't');
    assert(outer[0] == '#');
    blanks_skipped(indent, outer, 0);
    blanks_skipped(gap, marked, 0);
    assert(trim_start(whole) =~= outer);
    assert(outer.skip(1) =~= inner);
    assert(trim_start(inner) =~= marked);
    assert(marked.take("tessera:"@.len() as int) =~= "tessera:"@);
    assert(marked.skip("tessera:"@.len() as int) =~= rest);
    if line.len() > 0 && line[0] != '#' && !is_space(line[0]) {
        assert(crate::text::skip_spaces(line, 0) == 0);
        assert(trim_start(line) =~= line);
    }
}

/// The key of a header line stands before the first equals sign, without the blanks round it, and
/// is made of letters, digits and underscores. A value without quotation marks ends at a comment.
pub proof fn keys_stand_before_the_equals_sign(
    before: Seq<char>,
    value: Seq<char>,
    comment: Seq<char>,
)
    requires
        !before.contains('='),
        !value.contains('#'),
    ensures
        ({
            let body = before + seq!['='] + value;
            let noted = before + seq!['='] + (value + seq!['#'] + comment);
            &&& is_key_name(trim(before)) ==> assigned_key(body) == Ok::<Seq<char>, Seq<char>>(
                trim(before),
            )
            &&& !is_key_name(trim(before)) ==> assigned_key(body) is Err
            &&& assigned_key(before) is Err
            &&& bare_value(body) == trim(value)
            &&& bare_value(noted) == trim(value)
        }),
{
    cut_at(before, '=', value);
    let longer = value + seq!['#'] + comment;
    cut_at(before, '=', longer);
    first_at_is_first(before, '=', 0);
    assert(cut(before, '=') is None) by {
        let j = first_at(before, '=', 0);
        if j < before.len() {
            assert(before[j] == '=');
        }
    }
    first_at_is_first(value, '#', 0);
    let j = first_at(value, '#', 0);
    if j < value.len() {
        assert(value[j] == '#');
    }
    assert(pieces(value, '#', 0)[0] =~= value);
    first_at_is_first(longer, '#', 0);
    let k = first_at(longer, '#', 0);
    assert(longer[value.len() as int] == '#');
    if k < value.len() {
        assert(value[k] == longer[k]);
    }
    assert(k == value.len());
    assert(longer.subrange(0, k) =~= value);
    assert(pieces(longer, '#', 0)[0] == longer.subrange(0, k));
}

proof fn cut_at(before: Seq<char>, c: char, after: Seq<char>)
    requires
        !before.contains(c),
    ensures
        cut(before + seq![c] + after, c) == Some((before, after)),
{
    let all = before + seq![c] + after;
    first_at_is_first(all, c, 0);
    let j = first_at(all, c, 0);
    assert(all[before.len() as int] == c);
    if j < before.len() {
        assert(before[j] == all[j]);
    }
    assert(all.take(j) =~= before);
    assert(all.skip(j + 1) =~= after);
}

/// A line of the header sets what its key names and nothing else: text for a name, a description,
/// a mode or a binding, a truth value for starting by itself. Anything else is noted as a problem
/// of that line, behind the others, and sets nothing.
pub proof fn header_lines_set_one_thing(
    header: HeaderModel,
    line_no: nat,
    body: Seq<char>,
    found: Finding,
)
    ensures
        ({
            let after = with_line(header, line_no, body, found);
            let read = assignment(body, found);
            let key = read->Ok_0.0;
            let value = read->Ok_0.1;
            let fine = after.problems == header.problems;
            &&& !fine ==> {
                &&& after.problems.len() == header.problems.len() + 1
                &&& after.problems.drop_last() == header.problems
                &&& begins(after.problems.last(), "line "@ + decimal(line_no) + ": "@)
            }
            &&& !fine || read is Err || key != "name"@ ==> after.name == header.name
            &&& !fine || read is Err || key != "description"@ ==> after.description
                == header.description
            &&& !fine || read is Err || key != "mode"@ ==> after.mode == header.mode
            &&& !fine || read is Err || key != "bind"@ ==> after.bind == header.bind
            &&& !fine || read is Err || key != "autostart"@ ==> after.autostart
                == header.autostart
            &&& read is Err ==> !fine
            &&& read is Ok ==> match value {
                HeaderSetting::Text(text) => {
                    &&& key == "name"@ ==> fine && after.name == Some(text)
                    &&& key == "description"@ ==> fine && after.description == Some(text)
                    &&& key == "mode"@ && text == "terminal"@ ==> fine && after.mode is Terminal
                    &&& key == "mode"@ && text == "background"@ ==> fine && after.mode is Background
                    &&& key == "mode"@ && text != "terminal"@ && text != "background"@ ==> !fine
                    &&& key == "bind"@ && chord_of(text) is Ok ==> fine && after.bind == Some(text)
                    &&& key == "bind"@ && chord_of(text) is Err ==> !fine
                    &&& key == "autostart"@ ==> !fine
                },
                HeaderSetting::Bool(on) => {
                    &&& key == "autostart"@ ==> fine && after.autostart == on
                    &&& key != "autostart"@ ==> !fine
                },
            }
        }),
{
    let keys = (
        "name"@,
        "description"@,
        "mode"@,
        "bind"@,
        "autostart"@,
        "terminal"@,
        "background"@,
    );
    reveal_strlit("name");
    reveal_strlit("description");
    reveal_strlit("mode");
    reveal_strlit("bind");
    reveal_strlit("autostart");
    reveal_strlit("terminal");
    reveal_strlit("background");
    assert(keys.0.len() == 4 && keys.1.len() == 11 && keys.2.len() == 4 && keys.3.len() == 4
        && keys.4.len() == 9 && keys.5.len() == 8 && keys.6.len() == 10);
    assert(keys.0[0] == 'n' && keys.2[0] == 'm' && keys.3[0] == 'b');
    let outcome = match assignment(body, found) {
        Err(reason) => Err::<HeaderModel, Seq<char>>(reason),
        Ok((key, value)) => with_setting(header, key, value),
    };
    if let Err(reason) = outcome {
        let start = "line "@ + decimal(line_no) + ": "@;
        let note = start + reason + ""@;
        assert(note.take(start.len() as int) =~= start);
        assert(header.problems.push(note).drop_last() =~= header.problems);
        assert(header.problems.push(note).len() != header.problems.len());
    }
}

/// A value without quotation marks is read as it stands where it is one word; otherwise the line
/// is a problem.
pub proof fn bare_words_are_read(body: Seq<char>, i: int)
    requires
        assigned_key(body) is Ok,
    ensures
        ({
            let word = bare_value(body);
            let read = assignment(body, Finding::Nothing);
            &&& word.len() == 0 ==> read is Err
            &&& word.contains('"') ==> read is Err
            &&& 0 <= i < word.len() && is_space(word[i]) ==> read is Err
            &&& word.len() > 0 && !word.contains('"') && (forall|k: int|
                0 <= k < word.len() ==> !is_space(#[trigger] word[k])) ==> read == Ok::<
                (Seq<char>, HeaderSetting),
                Seq<char>,
            >((assigned_key(body)->Ok_0, HeaderSetting::Text(word)))
        }),
{
}

/// Turning a setting on or off changes its value and leaves what stands before it and the comment
/// behind it.
pub proof fn rewriting_keeps_the_comment(
    before: Seq<char>,
    value: Seq<char>,
    comment: Seq<char>,
    on: bool,
)
    requires
        !before.contains('='),
        !value.contains('#'),
        value.len() == 0 || value.last() != '\n',
        comment.len() == 0 || comment.last() != '\n',
    ensures
        ({
            let word = if on {
                "true"@
            } else {
                "false"@
            };
            let noted = value + seq!['#'] + comment;
            &&& rewritten_line(before + seq!['='] + value, on) == before + "= "@ + word
            &&& rewritten_line(before + seq!['='] + value.push('\n'), on) == before + "= "@ + word
                + "\n"@
            &&& rewritten_line(before + seq!['='] + noted, on) == before + "= "@ + word + ("  #"@
                + comment)
            &&& rewritten_line(before + seq!['='] + noted.push('\n'), on) == before + "= "@ + word
                + ("  #"@ + comment) + "\n"@
        }),
{
    let word = if on {
        "true"@
    } else {
        "false"@
    };
    let noted = value + seq!['#'] + comment;
    cut_at(before, '=', value);
    cut_at(before, '=', value.push('\n'));
    cut_at(before, '=', noted);
    cut_at(before, '=', noted.push('\n'));
    assert(value.push('\n').drop_last() =~= value);
    assert(noted.push('\n').drop_last() =~= noted);
    assert(noted.last() == if comment.len() > 0 {
        comment.last()
    } else {
        '#'
    });
    cut_at(value, '#', comment);
    assert(cut(value, '#') is None) by {
        first_at_is_first(value, '#', 0);
        let j = first_at(value, '#', 0);
        if j < value.len() {
            assert(value[j] == '#');
        }
    }
    let none = Seq::<char>::empty();
    let start = before + "= "@ + word;
    assert(start + none + none =~= start);
    assert(start + none + "\n"@ =~= start + "\n"@);
    assert(start + ("  #"@ + comment) + none =~= start + ("  #"@ + comment));
    assert(truth_word(on) == word);
}

/// A new setting is written behind the last line of the header; in a script without one behind
/// the line that names the interpreter, and else at the top.
pub proof fn new_settings_stand_behind_the_header(lines: Seq<Seq<char>>, k: int)
    requires
        0 <= k <= lines.len(),
        k <= 20,
        forall|i: int| k <= i < lines.len() && i < 20 ==> body_of(#[trigger] lines[i]) is None,
        k > 0 ==> body_of(lines[k - 1]) is Some,
    ensures
        k > 0 ==> autostart_slot(lines) == k,
        k == 0 ==> autostart_slot(lines) == if lines.len() > 0 && begins(lines[0], "#!"@) {
            1int
        } else {
            0
        },
{
    last_header(lines, k, lines.len() as int);
}

proof fn last_header(lines: Seq<Seq<char>>, k: int, n: int)
    requires
        0 <= k <= n <= lines.len(),
        k <= 20,
        forall|i: int| k <= i < lines.len() && i < 20 ==> body_of(#[trigger] lines[i]) is None,
        k > 0 ==> body_of(lines[k - 1]) is Some,
    ensures
        behind_headers(lines, n) == if k > 0 {
            Some(k)
        } else {
            None
        },
    decreases n,
{
    if n > k {
        if n <= 20 {
            assert(body_of(lines[n - 1]) is None);
        }
        last_header(lines, k, n - 1);
    }
}

} // verus!
