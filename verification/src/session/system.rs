//! The world around the session: the user's service manager, the log, and the terminal.

use crate::config::paths::{is_absolute, join_path, joined_path, str_view};
use crate::config::scripts::{chunks, line_text, split_lines, without_line_end};
use crate::text::{
    char_views, chars_of, concat3, copied, cut, part, spells, split_once, string_of, views,
};
use vstd::prelude::*;

verus! {

/// Where the text starts, from `from` on, that does not start with a quotation mark.
pub open spec fn past_quotes(s: Seq<char>, from: int) -> int
    decreases s.len() - from,
{
    if from < 0 || from >= s.len() || s[from] != '"' {
        from
    } else {
        past_quotes(s, from + 1)
    }
}

/// Where the text ends, up to `to` and not before `from`, that does not end with a quotation
/// mark.
pub open spec fn before_quotes(s: Seq<char>, from: int, to: int) -> int
    decreases to - from,
{
    if to <= from || s[to - 1] != '"' {
        to
    } else {
        before_quotes(s, from, to - 1)
    }
}

/// A text without the quotation marks at its ends.
pub open spec fn unquoted(s: Seq<char>) -> Seq<char> {
    let start = past_quotes(s, 0);
    s.subrange(start, before_quotes(s, start, s.len() as int))
}

fn unquote(chars: &Vec<char>) -> (r: Vec<char>)
    ensures
        r@ == unquoted(chars@),
{
    let mut start: usize = 0;
    while start < chars.len() && chars[start] == '"'
        invariant
            start <= chars@.len(),
            past_quotes(chars@, 0) == past_quotes(chars@, start as int),
        decreases chars@.len() - start,
    {
        start = start + 1;
    }
    let mut end: usize = chars.len();
    while end > start && chars[end - 1] == '"'
        invariant
            start <= end <= chars@.len(),
            before_quotes(chars@, start as int, chars@.len() as int) == before_quotes(
                chars@,
                start as int,
                end as int,
            ),
        decreases end,
    {
        end = end - 1;
    }
    part(chars, start, end)
}

/// The value of a variable among the lines `lines[from..]`.
pub open spec fn value_among(lines: Seq<Seq<char>>, name: Seq<char>, from: int) -> Option<
    Seq<char>,
>
    decreases lines.len() - from,
{
    if from < 0 || from >= lines.len() {
        None
    } else {
        match cut(line_text(lines[from]), '=') {
            Some((key, value)) => if key == name {
                Some(unquoted(value))
            } else {
                value_among(lines, name, from + 1)
            },
            None => value_among(lines, name, from + 1),
        }
    }
}

/// Finds one variable in the output of `systemctl show-environment`. Values that need it are
/// quoted there.
pub fn environment_value(text: &str, name: &str) -> (r: Option<String>)
    ensures
        (match r {
            Some(value) => Some(value@),
            None => None,
        }) == value_among(chunks(text@, 0), name@, 0),
{
    let chars = chars_of(text);
    let lines = split_lines(&chars);
    let ghost all = chunks(text@, 0);
    let mut i: usize = 0;
    while i < lines.len()
        invariant
            i <= lines@.len(),
            all == char_views(lines@),
            all == chunks(text@, 0),
            value_among(all, name@, 0) == value_among(all, name@, i as int),
        decreases lines@.len() - i,
    {
        assert(all[i as int] == lines@[i as int]@);
        let line = without_line_end(&lines[i]);
        if let Some((key, value)) = split_once(&line, '=') {
            if spells(&key, name) {
                let value = unquote(&value);
                return Some(string_of(&value));
            }
        }
        i = i + 1;
    }
    None
}

fn three_words(a: &str, b: &str, c: &str) -> (r: Vec<String>)
    ensures
        views(r@) == seq![a@, b@, c@],
{
    let mut out: Vec<String> = Vec::new();
    out.push(copied(a));
    out.push(copied(b));
    out.push(copied(c));
    assert(views(out@) =~= seq![a@, b@, c@]);
    out
}

/// The arguments for `systemctl` that tell the user's services about our display.
pub fn export_wayland_display(socket: &str) -> (r: Vec<String>)
    ensures
        views(r@) == seq!["--user"@, "set-environment"@, "WAYLAND_DISPLAY="@ + socket@ + ""@],
{
    let assignment = concat3("WAYLAND_DISPLAY=", socket, "");
    three_words("--user", "set-environment", assignment.as_str())
}

/// The arguments for `systemctl` that put the display back as it was before the session started.
pub fn restore_wayland_display(previous: Option<&str>) -> (r: Vec<String>)
    ensures
        views(r@) == (match previous {
            Some(value) => seq![
                "--user"@,
                "set-environment"@,
                "WAYLAND_DISPLAY="@ + value@ + ""@,
            ],
            None => seq!["--user"@, "unset-environment"@, "WAYLAND_DISPLAY"@],
        }),
{
    match previous {
        Some(value) => export_wayland_display(value),
        None => three_words("--user", "unset-environment", "WAYLAND_DISPLAY"),
    }
}

/// How large the log may grow before the previous one is rotated away.
pub const LOG_ROTATE_BYTES: u64 = 2_097_152;

/// Tells whether the log of this length is to be moved aside before a new one is begun.
pub fn rotates(length: Option<u64>) -> (r: bool)
    ensures
        r == (length is Some && length->0 > LOG_ROTATE_BYTES),
{
    match length {
        Some(length) => length > LOG_ROTATE_BYTES,
        None => false,
    }
}

/// Tells whether the session starts on a terminal rather than inside a desktop: neither kind of
/// display is there.
pub fn looks_like_a_tty(wayland_display: bool, x11_display: bool) -> (r: bool)
    ensures
        r == (!wayland_display && !x11_display),
{
    !wayland_display && !x11_display
}

/// The folder for logs: the one that the environment names, if it is absolute; else the usual
/// one in the home folder; else the one for temporary files.
pub open spec fn state_folder(state_home: Option<Seq<char>>, home: Option<Seq<char>>) -> Seq<char> {
    if state_home is Some && is_absolute(state_home->0) {
        state_home->0
    } else if home is Some {
        joined_path(home->0, ".local/state"@)
    } else {
        "/tmp"@
    }
}

/// Where the log goes when the session is ours.
pub fn log_path(state_home: Option<&str>, home: Option<&str>) -> (r: String)
    ensures
        r@ == joined_path(
            joined_path(state_folder(str_view(state_home), str_view(home)), "tessera"@),
            "tessera.log"@,
        ),
{
    let base = match state_home {
        Some(dir) => {
            let chars = chars_of(dir);
            if chars.len() > 0 && chars[0] == '/' {
                copied(dir)
            } else {
                home_state(home)
            }
        },
        None => home_state(home),
    };
    let folder = join_path(base.as_str(), "tessera");
    join_path(folder.as_str(), "tessera.log")
}

fn home_state(home: Option<&str>) -> (r: String)
    ensures
        r@ == state_folder(None, str_view(home)),
{
    match home {
        Some(home) => join_path(home, ".local/state"),
        None => copied("/tmp"),
    }
}

proof fn quotes_passed(s: Seq<char>, from: int)
    requires
        0 <= from <= s.len(),
    ensures
        from <= past_quotes(s, from) <= s.len(),
        forall|j: int| from <= j < past_quotes(s, from) ==> #[trigger] s[j] == '"',
        past_quotes(s, from) < s.len() ==> s[past_quotes(s, from)] != '"',
    decreases s.len() - from,
{
    if from < s.len() && s[from] == '"' {
        quotes_passed(s, from + 1);
    }
}

proof fn quotes_dropped(s: Seq<char>, from: int, to: int)
    requires
        0 <= from <= to <= s.len(),
    ensures
        from <= before_quotes(s, from, to) <= to,
        forall|j: int| before_quotes(s, from, to) <= j < to ==> #[trigger] s[j] == '"',
        before_quotes(s, from, to) > from ==> s[before_quotes(s, from, to) - 1] != '"',
    decreases to - from,
{
    if from < to && s[to - 1] == '"' {
        quotes_dropped(s, from, to - 1);
    }
}

/// Taking off the quotation marks leaves a text that neither begins nor ends with one, and takes
/// nothing else.
pub proof fn only_quotes_are_taken_off(s: Seq<char>) -> (r: (Seq<char>, Seq<char>))
    ensures
        s == r.0 + unquoted(s) + r.1,
        forall|j: int| 0 <= j < r.0.len() ==> #[trigger] r.0[j] == '"',
        forall|j: int| 0 <= j < r.1.len() ==> #[trigger] r.1[j] == '"',
        unquoted(s).len() > 0 ==> unquoted(s)[0] != '"' && unquoted(s).last() != '"',
{
    let from = past_quotes(s, 0);
    quotes_passed(s, 0);
    quotes_dropped(s, from, s.len() as int);
    let to = before_quotes(s, from, s.len() as int);
    assert(s =~= s.take(from) + unquoted(s) + s.skip(to));
    (s.take(from), s.skip(to))
}

/// True when a line gives a variable a value.
pub open spec fn gives(line: Seq<char>, name: Seq<char>) -> bool {
    match cut(line_text(line), '=') {
        Some((key, _)) => key == name,
        None => false,
    }
}

/// The value of a variable stands on the first line that gives it one.
pub proof fn the_first_line_gives_the_value(
    lines: Seq<Seq<char>>,
    name: Seq<char>,
    from: int,
    k: int,
)
    requires
        0 <= from <= k <= lines.len(),
        forall|i: int| from <= i < k ==> !gives(#[trigger] lines[i], name),
    ensures
        k == lines.len() ==> value_among(lines, name, from) is None,
        k < lines.len() && gives(lines[k], name) ==> match cut(line_text(lines[k]), '=') {
            Some((_, value)) => value_among(lines, name, from) == Some(unquoted(value)),
            None => false,
        },
    decreases k - from,
{
    if from < k {
        assert(!gives(lines[from], name));
        the_first_line_gives_the_value(lines, name, from + 1, k);
    }
}

/// A folder for state that is not given in full does not count.
pub proof fn relative_state_folders_do_not_count(state_home: Seq<char>, home: Option<Seq<char>>)
    ensures
        state_home.len() > 0 && state_home[0] == '/' ==> state_folder(Some(state_home), home)
            == state_home,
        state_home.len() == 0 || state_home[0] != '/' ==> state_folder(Some(state_home), home)
            == state_folder(None, home),
{
}

/// Without a folder of its own, state is kept in the home folder, and without one of those where
/// everybody may write.
pub proof fn state_is_kept_at_home(home: Seq<char>)
    ensures
        state_folder(None, Some(home)) == joined_path(home, ".local/state"@),
        state_folder(None, None) == "/tmp"@,
{
}

} // verus!
