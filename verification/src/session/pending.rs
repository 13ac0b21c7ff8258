//! Spawns whose windows have not appeared yet, and which new window belongs to which of them.
//!
//! A spawn and the window that it eventually produces are two separate events, and Wayland
//! offers no link between them. What was asked for is noted, and the window is matched when it
//! appears.

use crate::ipc::WindowId;
use crate::layout::geometry::Direction;
use crate::text::{
    chars_of, is_space, is_space_char, natural_value, opt_view, parse_natural, part, same,
    skip_spaces,
};
use crate::config::paths::str_view;
use vstd::prelude::*;

verus! {

/// How long a spawned program has to show its window before it is no longer waited for, in
/// milliseconds.
pub const PLACEMENT_TIMEOUT: u64 = 3_000;

/// Where a window that has not appeared yet should go.
#[derive(Debug, Clone, Copy, PartialEq, Eq, Structural)]
pub enum PendingKind {
    /// Tile it the usual way.
    Auto,
    /// Split this window, putting the new one on `side` with `ratio` of the space.
    Beside {
        /// The window to split.
        anchor: WindowId,
        /// Which side the new window takes.
        side: Direction,
        /// The new window's share, in millionths.
        ratio: i32,
    },
    /// Put it on this workspace, counted from zero.
    Workspace(usize),
}

/// A spawn that is still waited for.
#[derive(Debug, PartialEq, Eq)]
pub struct PendingPlacement {
    /// The process that was started.
    pub pid: u32,
    /// The activation token handed to it, if any.
    pub token: Option<String>,
    /// Where its window should go.
    pub kind: PendingKind,
    /// When to give up waiting, in milliseconds.
    pub deadline: u64,
}

/// The parts of a [`PendingPlacement`] that matching looks at.
#[derive(Debug, PartialEq, Eq)]
pub struct PendingMeta {
    /// The process that was started.
    pub pid: u32,
    /// Activation token handed to that process.
    pub token: Option<String>,
    /// When it expires, in milliseconds.
    pub deadline: u64,
}

/// What matching looks at.
pub struct MetaModel {
    pub pid: u32,
    pub token: Option<Seq<char>>,
    pub deadline: u64,
}

impl View for PendingMeta {
    type V = MetaModel;

    open spec fn view(&self) -> MetaModel {
        MetaModel { pid: self.pid, token: opt_view(self.token), deadline: self.deadline }
    }
}

/// What matching looks at in several spawns.
pub open spec fn meta_views(pending: Seq<PendingMeta>) -> Seq<MetaModel> {
    Seq::new(pending.len(), |i: int| pending[i]@)
}

impl MetaModel {
    /// True until the spawn has expired.
    pub open spec fn live(self, now: u64) -> bool {
        self.deadline > now
    }
}

/// The first of `pending[from..]` that is live and was handed a token.
pub open spec fn token_match(
    pending: Seq<MetaModel>,
    token: Seq<char>,
    now: u64,
    from: int,
) -> Option<int>
    decreases pending.len() - from,
{
    if from < 0 || from >= pending.len() {
        None
    } else if pending[from].live(now) && pending[from].token == Some(token) {
        Some(from)
    } else {
        token_match(pending, token, now, from + 1)
    }
}

/// True when `r` is the first of `pending[from..]` that is live and started a process, or an
/// ancestor of it as far as `descends` tells.
pub open spec fn process_match<F: Fn(u32, u32) -> bool>(
    descends: F,
    pending: Seq<MetaModel>,
    pid: u32,
    now: u64,
    from: int,
    r: Option<int>,
) -> bool
    decreases pending.len() - from,
{
    if from < 0 || from >= pending.len() {
        r is None
    } else if !pending[from].live(now) {
        process_match(descends, pending, pid, now, from + 1, r)
    } else if pending[from].pid == pid {
        r == Some(from)
    } else {
        ||| call_ensures(descends, (pid, pending[from].pid), true) && r == Some(from)
        ||| call_ensures(descends, (pid, pending[from].pid), false) && process_match(
            descends,
            pending,
            pid,
            now,
            from + 1,
            r,
        )
    }
}

/// The live one of `pending[..n]` that expires first, the earliest of equals.
pub open spec fn oldest(pending: Seq<MetaModel>, now: u64, n: int) -> Option<int>
    decreases n,
{
    if n <= 0 {
        None
    } else {
        let before = oldest(pending, now, n - 1);
        if !pending[n - 1].live(now) {
            before
        } else {
            match before {
                Some(i) => if pending[n - 1].deadline < pending[i].deadline {
                    Some(n - 1)
                } else {
                    before
                },
                None => Some(n - 1),
            }
        }
    }
}

/// True when `r` is the spawn that a new window belongs to: the one whose token the window
/// presents; failing that the one whose process the window comes from; failing that the one that
/// has waited longest.
pub open spec fn pending_match<F: Fn(u32, u32) -> bool>(
    descends: F,
    pending: Seq<MetaModel>,
    pid: Option<u32>,
    token: Option<Seq<char>>,
    now: u64,
    r: Option<int>,
) -> bool {
    let by_token = match token {
        Some(token) => token_match(pending, token, now, 0),
        None => None,
    };
    if by_token is Some {
        r == by_token
    } else {
        match pid {
            Some(pid) => {
                ||| r is Some && process_match(descends, pending, pid, now, 0, r)
                ||| process_match(descends, pending, pid, now, 0, None) && r == oldest(
                    pending,
                    now,
                    pending.len() as int,
                )
            },
            None => r == oldest(pending, now, pending.len() as int),
        }
    }
}

proof fn token_match_is_live(pending: Seq<MetaModel>, token: Seq<char>, now: u64, from: int)
    requires
        0 <= from,
    ensures
        token_match(pending, token, now, from) matches Some(i) ==> from <= i < pending.len()
            && pending[i].live(now),
    decreases pending.len() - from,
{
    if from < pending.len() {
        token_match_is_live(pending, token, now, from + 1);
    }
}

proof fn process_match_is_live<F: Fn(u32, u32) -> bool>(
    descends: F,
    pending: Seq<MetaModel>,
    pid: u32,
    now: u64,
    from: int,
    r: Option<int>,
)
    requires
        0 <= from,
        process_match(descends, pending, pid, now, from, r),
    ensures
        r matches Some(i) ==> from <= i < pending.len() && pending[i].live(now),
    decreases pending.len() - from,
{
    if from < pending.len() {
        if !pending[from].live(now) {
            process_match_is_live(descends, pending, pid, now, from + 1, r);
        } else if pending[from].pid != pid && r != Some(from) {
            process_match_is_live(descends, pending, pid, now, from + 1, r);
        }
    }
}

proof fn oldest_is_live(pending: Seq<MetaModel>, now: u64, n: int)
    requires
        0 <= n <= pending.len(),
    ensures
        match oldest(pending, now, n) {
            Some(i) => {
                &&& 0 <= i < n
                &&& pending[i].live(now)
                &&& forall|j: int|
                    0 <= j < n && (#[trigger] pending[j]).live(now) ==> pending[i].deadline
                        <= pending[j].deadline
            },
            None => forall|j: int| 0 <= j < n ==> !(#[trigger] pending[j]).live(now),
        },
    decreases n,
{
    if n > 0 {
        oldest_is_live(pending, now, n - 1);
    }
}

/// Expired spawns never match.
pub proof fn expired_spawns_are_left<F: Fn(u32, u32) -> bool>(
    descends: F,
    pending: Seq<MetaModel>,
    pid: Option<u32>,
    token: Option<Seq<char>>,
    now: u64,
    r: Option<int>,
)
    requires
        pending_match(descends, pending, pid, token, now, r),
    ensures
        r matches Some(i) ==> 0 <= i < pending.len() && pending[i].live(now),
{
    if let Some(token) = token {
        token_match_is_live(pending, token, now, 0);
    }
    if let Some(pid) = pid {
        if r is Some && process_match(descends, pending, pid, now, 0, r) {
            process_match_is_live(descends, pending, pid, now, 0, r);
        }
    }
    oldest_is_live(pending, now, pending.len() as int);
}

/// A window never goes unmatched while a spawn is live.
pub proof fn a_live_spawn_is_matched<F: Fn(u32, u32) -> bool>(
    descends: F,
    pending: Seq<MetaModel>,
    pid: Option<u32>,
    token: Option<Seq<char>>,
    now: u64,
    r: Option<int>,
    i: int,
)
    requires
        pending_match(descends, pending, pid, token, now, r),
        0 <= i < pending.len(),
        pending[i].live(now),
    ensures
        r is Some,
{
    oldest_is_live(pending, now, pending.len() as int);
}

/// Decides which pending spawn a new window belongs to.
///
/// Tried in order: the activation token that the client presented, then the process id (or one
/// of its descendants), then the oldest spawn still inside its deadline. Expired entries never
/// match.
pub fn match_pending<F: Fn(u32, u32) -> bool>(
    pending: &Vec<PendingMeta>,
    pid: Option<u32>,
    token: Option<&str>,
    now: u64,
    is_descendant: F,
) -> (r: Option<usize>)
    requires
        forall|child: u32, ancestor: u32| call_requires(is_descendant, (child, ancestor)),
    ensures
        pending_match(
            is_descendant,
            meta_views(pending@),
            pid,
            str_view(token),
            now,
            match r {
                Some(i) => Some(i as int),
                None => None,
            },
        ),
        r matches Some(i) ==> i < pending@.len() && pending@[i as int].deadline > now,
{
    let ghost metas = meta_views(pending@);
    proof {
        oldest_is_live(metas, now, metas.len() as int);
    }
    if let Some(presented) = token {
        let mut i: usize = 0;
        while i < pending.len()
            invariant
                i <= pending@.len(),
                metas == meta_views(pending@),
                token == Some(presented),
                token_match(metas, presented@, now, 0) == token_match(metas, presented@, now, i as int),
            decreases pending@.len() - i,
        {
            let entry = &pending[i];
            assert(metas[i as int] == entry@);
            let known = match &entry.token {
                Some(known) => same(known.as_str(), presented),
                None => false,
            };
            if entry.deadline > now && known {
                return Some(i);
            }
            i = i + 1;
        }
    }
    if let Some(child) = pid {
        let mut i: usize = 0;
        while i < pending.len()
            invariant
                i <= pending@.len(),
                metas == meta_views(pending@),
                pid == Some(child),
                forall|a: u32, b: u32| call_requires(is_descendant, (a, b)),
                forall|r: Option<int>|
                    process_match(is_descendant, metas, child, now, i as int, r)
                        ==> #[trigger] process_match(is_descendant, metas, child, now, 0, r),
                (match token {
                    Some(token) => token_match(metas, token@, now, 0),
                    None => None,
                }) is None,
            decreases pending@.len() - i,
        {
            let entry = &pending[i];
            assert(metas[i as int] == entry@);
            if entry.deadline > now {
                if entry.pid == child {
                    assert(process_match(
                        is_descendant,
                        metas,
                        child,
                        now,
                        i as int,
                        Some(i as int),
                    ));
                    return Some(i);
                }
                if is_descendant(child, entry.pid) {
                    assert(process_match(
                        is_descendant,
                        metas,
                        child,
                        now,
                        i as int,
                        Some(i as int),
                    ));
                    return Some(i);
                }
            }
            proof {
                assert forall|r: Option<int>|
                    process_match(
                        is_descendant,
                        metas,
                        child,
                        now,
                        i + 1,
                        r,
                    ) implies #[trigger] process_match(is_descendant, metas, child, now, 0, r) by {
                    assert(process_match(is_descendant, metas, child, now, i as int, r));
                }
            }
            i = i + 1;
        }
        assert(process_match(is_descendant, metas, child, now, i as int, None));
    }
    // Last resort: a client that neither honours activation tokens nor runs in the process that
    // was started, e.g. a terminal served by an existing daemon.

    let mut best: Option<usize> = None;
    let mut i: usize = 0;
    while i < pending.len()
        invariant
            i <= pending@.len(),
            metas == meta_views(pending@),
            best matches Some(b) ==> b < i && pending@[b as int].deadline > now,
            (match best {
                Some(b) => Some(b as int),
                None => None,
            }) == oldest(metas, now, i as int),
        decreases pending@.len() - i,
    {
        let entry = &pending[i];
        assert(metas[i as int] == entry@);
        if entry.deadline > now {
            match best {
                Some(b) => {
                    assert(metas[b as int] == pending@[b as int]@);
                    if entry.deadline < pending[b].deadline {
                        best = Some(i);
                    }
                },
                None => {
                    best = Some(i);
                },
            }
        }
        i = i + 1;
    }
    best
}

/// True when `r` tells whether a process is another or one of its descendants, found among it and
/// its nearest parents, `hops` processes in all.
pub open spec fn descent<F: Fn(u32) -> Option<u32>>(
    parent_of: F,
    current: u32,
    ancestor: u32,
    hops: nat,
    r: bool,
) -> bool
    decreases hops,
{
    if hops == 0 {
        !r
    } else if current == ancestor {
        r
    } else {
        exists|parent: Option<u32>| #[trigger]
            call_ensures(parent_of, (current,), parent) && if parent is Some {
                descent(parent_of, parent->0, ancestor, (hops - 1) as nat, r)
            } else {
                !r
            }
    }
}

/// How many processes are looked at on the way from child to parent. A shell wrapper and a
/// program that replaces itself are normally two steps.
pub const MAX_HOPS: usize = 10;

/// Whether a process is another or one of its descendants, where `parent_of` finds the parent of
/// a process.
pub fn is_descendant<F: Fn(u32) -> Option<u32>>(pid: u32, ancestor: u32, parent_of: F) -> (r: bool)
    requires
        forall|child: u32| call_requires(parent_of, (child,)),
    ensures
        descent(parent_of, pid, ancestor, MAX_HOPS as nat, r),
        pid == ancestor ==> r,
{
    let mut current: u32 = pid;
    let mut left: usize = MAX_HOPS;
    while left > 0
        invariant
            left <= MAX_HOPS,
            left == MAX_HOPS ==> current == pid,
            left < MAX_HOPS ==> pid != ancestor,
            forall|child: u32| call_requires(parent_of, (child,)),
            forall|r: bool|
                descent(parent_of, current, ancestor, left as nat, r) ==> #[trigger] descent(
                    parent_of,
                    pid,
                    ancestor,
                    MAX_HOPS as nat,
                    r,
                ),
        decreases left,
    {
        if current == ancestor {
            assert(descent(parent_of, current, ancestor, left as nat, true));
            return true;
        }
        let parent = parent_of(current);
        match parent {
            Some(next) => {
                proof {
                    assert(call_ensures(parent_of, (current,), Some(next)));
                    assert forall|r: bool|
                        descent(
                            parent_of,
                            next,
                            ancestor,
                            (left - 1) as nat,
                            r,
                        ) implies #[trigger] descent(
                        parent_of,
                        pid,
                        ancestor,
                        MAX_HOPS as nat,
                        r,
                    ) by {
                        assert(descent(parent_of, current, ancestor, left as nat, r));
                    }
                }
                current = next;
            },
            None => {
                assert(descent(parent_of, current, ancestor, left as nat, false));
                return false;
            },
        }
        left = left - 1;
    }
    assert(descent(parent_of, current, ancestor, 0, false));
    false
}

/// The place behind the last closing bracket of `s[..n]`, or nothing if there is none.
pub open spec fn behind_bracket(s: Seq<char>, n: int) -> Option<int>
    decreases n,
{
    if n <= 0 {
        None
    } else if s[n - 1] == ')' {
        Some(n)
    } else {
        behind_bracket(s, n - 1)
    }
}

/// Where the word at `from` ends.
pub open spec fn word_end(s: Seq<char>, from: int) -> int
    decreases s.len() - from,
{
    if from < 0 || from >= s.len() || is_space(s[from]) {
        from
    } else {
        word_end(s, from + 1)
    }
}

/// The second word of `s[from..]`, empty if it has none.
pub open spec fn second_word(s: Seq<char>, from: int) -> Seq<char> {
    let start = skip_spaces(s, word_end(s, skip_spaces(s, from)));
    s.subrange(start, word_end(s, start))
}

/// The parent that a line of `/proc/<pid>/stat` names. The process id and the command in
/// brackets come first; the command may hold spaces and brackets, so the fields are counted
/// behind the last closing bracket.
pub open spec fn parent_in(stat: Seq<char>) -> Option<int> {
    match behind_bracket(stat, stat.len() as int) {
        None => None,
        Some(from) => natural_value(second_word(stat, from), u32::MAX as int),
    }
}

fn skip_word(chars: &Vec<char>, from: usize) -> (r: usize)
    requires
        from <= chars@.len(),
    ensures
        r == word_end(chars@, from as int),
        from <= r <= chars@.len(),
{
    let mut i: usize = from;
    while i < chars.len() && !is_space_char(chars[i])
        invariant
            from <= i <= chars@.len(),
            word_end(chars@, from as int) == word_end(chars@, i as int),
        decreases chars@.len() - i,
    {
        i = i + 1;
    }
    i
}

fn skip_blank(chars: &Vec<char>, from: usize) -> (r: usize)
    requires
        from <= chars@.len(),
    ensures
        r == skip_spaces(chars@, from as int),
        from <= r <= chars@.len(),
{
    let mut i: usize = from;
    while i < chars.len() && is_space_char(chars[i])
        invariant
            from <= i <= chars@.len(),
            skip_spaces(chars@, from as int) == skip_spaces(chars@, i as int),
        decreases chars@.len() - i,
    {
        i = i + 1;
    }
    i
}

/// Reads the parent process id out of the text of `/proc/<pid>/stat`.
pub fn parent_of(stat: &str) -> (r: Option<u32>)
    ensures
        (match r {
            Some(parent) => Some(parent as int),
            None => None,
        }) == parent_in(stat@),
{
    let chars = chars_of(stat);
    let mut n: usize = chars.len();
    while n > 0 && chars[n - 1] != ')'
        invariant
            n <= chars@.len(),
            behind_bracket(chars@, chars@.len() as int) == behind_bracket(chars@, n as int),
        decreases n,
    {
        n = n - 1;
    }
    if n == 0 {
        return None;
    }
    let first: usize = skip_blank(&chars, n);
    let first_end: usize = skip_word(&chars, first);
    let start: usize = skip_blank(&chars, first_end);
    let end: usize = skip_word(&chars, start);
    let word = part(&chars, start, end);
    assert(word@ =~= second_word(stat@, n as int));
    parse_natural(&word, 0xffff_ffff)
}

proof fn token_match_is_first(pending: Seq<MetaModel>, token: Seq<char>, now: u64, from: int)
    requires
        0 <= from <= pending.len(),
    ensures
        match token_match(pending, token, now, from) {
            Some(i) => {
                &&& from <= i < pending.len()
                &&& pending[i].deadline > now
                &&& pending[i].token == Some(token)
                &&& forall|j: int|
                    from <= j < i && (#[trigger] pending[j]).deadline > now ==> pending[j].token
                        != Some(token)
            },
            None => forall|j: int|
                from <= j < pending.len() && (#[trigger] pending[j]).deadline > now
                    ==> pending[j].token != Some(token),
        },
    decreases pending.len() - from,
{
    if from < pending.len() {
        token_match_is_first(pending, token, now, from + 1);
    }
}

/// A window with a token goes to the first spawn still waited for that was given the same one,
/// whatever process it belongs to.
pub proof fn tokens_decide_first<F: Fn(u32, u32) -> bool>(
    descends: F,
    pending: Seq<MetaModel>,
    pid: Option<u32>,
    token: Seq<char>,
    now: u64,
    r: Option<int>,
    i: int,
)
    requires
        pending_match(descends, pending, pid, Some(token), now, r),
        0 <= i < pending.len(),
        pending[i].deadline > now,
        pending[i].token == Some(token),
    ensures
        r is Some && 0 <= r->0 <= i,
        pending[r->0].token == Some(token),
        pending[r->0].deadline > now,
{
    token_match_is_first(pending, token, now, 0);
}

/// True when a spawn is still waited for and is the process itself or one that it comes from.
pub open spec fn is_of(
    comes_from: spec_fn(u32, u32) -> bool,
    spawn: MetaModel,
    pid: u32,
    now: u64,
) -> bool {
    spawn.deadline > now && (spawn.pid == pid || comes_from(pid, spawn.pid))
}

proof fn process_match_is_first<F: Fn(u32, u32) -> bool>(
    descends: F,
    comes_from: spec_fn(u32, u32) -> bool,
    pending: Seq<MetaModel>,
    pid: u32,
    now: u64,
    from: int,
    r: Option<int>,
)
    requires
        0 <= from <= pending.len(),
        process_match(descends, pending, pid, now, from, r),
        forall|child: u32, ancestor: u32, answer: bool| #[trigger]
            call_ensures(descends, (child, ancestor), answer) ==> answer == comes_from(
                child,
                ancestor,
            ),
    ensures
        match r {
            Some(i) => {
                &&& from <= i < pending.len()
                &&& is_of(comes_from, pending[i], pid, now)
                &&& forall|j: int|
                    from <= j < i ==> !is_of(comes_from, #[trigger] pending[j], pid, now)
            },
            None => forall|j: int|
                from <= j < pending.len() ==> !is_of(comes_from, #[trigger] pending[j], pid, now),
        },
    decreases pending.len() - from,
{
    if from < pending.len() {
        if !pending[from].live(now) {
            process_match_is_first(descends, comes_from, pending, pid, now, from + 1, r);
        } else if pending[from].pid != pid {
            if call_ensures(descends, (pid, pending[from].pid), true) && r == Some(from) {
                assert(comes_from(pid, pending[from].pid));
            } else {
                assert(call_ensures(descends, (pid, pending[from].pid), false));
                process_match_is_first(descends, comes_from, pending, pid, now, from + 1, r);
            }
        }
    }
}

proof fn oldest_is_first(pending: Seq<MetaModel>, now: u64, n: int)
    requires
        0 <= n <= pending.len(),
    ensures
        match oldest(pending, now, n) {
            Some(i) => {
                &&& 0 <= i < n
                &&& pending[i].deadline > now
                &&& forall|j: int|
                    0 <= j < n && (#[trigger] pending[j]).deadline > now ==> pending[i].deadline
                        <= pending[j].deadline && (pending[i].deadline == pending[j].deadline
                        ==> i <= j)
            },
            None => forall|j: int| 0 <= j < n ==> (#[trigger] pending[j]).deadline <= now,
        },
    decreases n,
{
    if n > 0 {
        oldest_is_first(pending, now, n - 1);
    }
}

/// Where no token decides, a window goes to the first spawn still waited for that its process is
/// or comes from; and to the one that has waited longest where there is none.
pub proof fn processes_decide_next<F: Fn(u32, u32) -> bool>(
    descends: F,
    comes_from: spec_fn(u32, u32) -> bool,
    pending: Seq<MetaModel>,
    pid: Option<u32>,
    token: Option<Seq<char>>,
    now: u64,
    r: Option<int>,
    i: int,
)
    requires
        pending_match(descends, pending, pid, token, now, r),
        forall|child: u32, ancestor: u32, answer: bool| #[trigger]
            call_ensures(descends, (child, ancestor), answer) ==> answer == comes_from(
                child,
                ancestor,
            ),
        forall|j: int|
            0 <= j < pending.len() && (#[trigger] pending[j]).deadline > now && token is Some
                ==> pending[j].token != token,
        0 <= i < pending.len(),
        pending[i].deadline > now,
    ensures
        r is Some && 0 <= r->0 < pending.len(),
        pid is Some && is_of(comes_from, pending[i], pid->0, now) ==> is_of(
            comes_from,
            pending[r->0],
            pid->0,
            now,
        ) && r->0 <= i,
        (pid is None || forall|j: int|
            0 <= j < pending.len() ==> !is_of(comes_from, #[trigger] pending[j], pid->0, now)) ==> {
            &&& now < pending[r->0].deadline <= pending[i].deadline
            &&& pending[r->0].deadline == pending[i].deadline ==> r->0 <= i
        },
{
    a_live_spawn_is_matched(descends, pending, pid, token, now, r, i);
    expired_spawns_are_left(descends, pending, pid, token, now, r);
    oldest_is_first(pending, now, pending.len() as int);
    if let Some(token) = token {
        token_match_is_first(pending, token, now, 0);
    }
    if let Some(pid) = pid {
        if process_match(descends, pending, pid, now, 0, r) {
            process_match_is_first(descends, comes_from, pending, pid, now, 0, r);
        } else {
            process_match_is_first(descends, comes_from, pending, pid, now, 0, None);
        }
    }
}

/// The process `steps` generations up, as long as there is one.
pub open spec fn generations_up(
    parent: spec_fn(u32) -> Option<u32>,
    pid: u32,
    steps: nat,
) -> Option<u32>
    decreases steps,
{
    if steps == 0 {
        Some(pid)
    } else {
        match generations_up(parent, pid, (steps - 1) as nat) {
            Some(last) => parent(last),
            None => None,
        }
    }
}

proof fn one_more_generation(parent: spec_fn(u32) -> Option<u32>, pid: u32, steps: nat)
    ensures
        generations_up(parent, pid, steps + 1) == match parent(pid) {
            Some(up) => generations_up(parent, up, steps),
            None => None,
        },
    decreases steps,
{
    reveal_with_fuel(generations_up, 2);
    if steps > 0 {
        one_more_generation(parent, pid, (steps - 1) as nat);
    }
}

/// A process comes from another when that is the process itself or one of the nine generations
/// before it.
pub proof fn descent_is_nine_generations<F: Fn(u32) -> Option<u32>>(
    parent_of: F,
    parent: spec_fn(u32) -> Option<u32>,
    pid: u32,
    ancestor: u32,
    r: bool,
)
    requires
        descent(parent_of, pid, ancestor, MAX_HOPS as nat, r),
        forall|child: u32, answer: Option<u32>| #[trigger]
            call_ensures(parent_of, (child,), answer) ==> answer == parent(child),
    ensures
        r <==> exists|steps: nat|
            steps <= 9 && #[trigger] generations_up(parent, pid, steps) == Some(ancestor),
{
    descent_climbs(parent_of, parent, pid, ancestor, 10, r);
}

proof fn descent_climbs<F: Fn(u32) -> Option<u32>>(
    parent_of: F,
    parent: spec_fn(u32) -> Option<u32>,
    pid: u32,
    ancestor: u32,
    hops: nat,
    r: bool,
)
    requires
        descent(parent_of, pid, ancestor, hops, r),
        forall|child: u32, answer: Option<u32>| #[trigger]
            call_ensures(parent_of, (child,), answer) ==> answer == parent(child),
    ensures
        r <==> exists|steps: nat|
            steps < hops && #[trigger] generations_up(parent, pid, steps) == Some(ancestor),
    decreases hops,
{
    if hops > 0 {
        assert(generations_up(parent, pid, 0) == Some(pid));
        if pid != ancestor {
            let answer = choose|answer: Option<u32>| #[trigger]
                call_ensures(parent_of, (pid,), answer) && if answer is Some {
                    descent(parent_of, answer->0, ancestor, (hops - 1) as nat, r)
                } else {
                    !r
                };
            assert(answer == parent(pid));
            if let Some(up) = answer {
                descent_climbs(parent_of, parent, up, ancestor, (hops - 1) as nat, r);
                if r {
                    let steps = choose|steps: nat|
                        steps < hops - 1 && #[trigger] generations_up(parent, up, steps) == Some(
                            ancestor,
                        );
                    one_more_generation(parent, pid, steps);
                    assert(generations_up(parent, pid, steps + 1) == Some(ancestor));
                }
            }
            assert forall|steps: nat| steps < hops && #[trigger] generations_up(
                parent,
                pid,
                steps,
            ) == Some(ancestor) implies r by {
                assert(steps > 0);
                one_more_generation(parent, pid, (steps - 1) as nat);
                assert(answer is Some);
                assert(generations_up(parent, answer->0, (steps - 1) as nat) == Some(ancestor));
            }
        }
    }
}

/// The parent of a process is read from the line that describes it: the second word behind the
/// last closing bracket, so that a program's name may hold brackets and spaces.
pub proof fn the_parent_is_behind_the_name(
    name: Seq<char>,
    state: char,
    parent: Seq<char>,
    rest: Seq<char>,
)
    requires
        !is_space(state),
        state != ')',
        parent.len() > 0,
        forall|i: int| 0 <= i < parent.len() ==> !is_space(#[trigger] parent[i]),
        !parent.contains(')'),
        !rest.contains(')'),
    ensures
        parent_in(name + seq![')', ' ', state, ' '] + parent + seq![' '] + rest) == natural_value(
            parent,
            u32::MAX as int,
        ),
{
    let middle = seq![')', ' ', state, ' '];
    let s = name + middle + parent + seq![' '] + rest;
    let n = name.len() as int;
    assert(s[n] == ')' && s[n + 1] == ' ' && s[n + 2] == state && s[n + 3] == ' ');
    assert forall|i: int| 0 <= i < parent.len() implies #[trigger] s[n + 4 + i] == parent[i] by {}
    assert(s[n + 4 + parent.len()] == ' ');
    assert forall|i: int| n < i < s.len() implies #[trigger] s[i] != ')' by {
        if i >= n + 5 + parent.len() {
            assert(s[i] == rest[i - n - 5 - parent.len()]);
        } else if n + 4 <= i < n + 4 + parent.len() {
            assert(s[i] == parent[i - n - 4]);
        }
    }
    last_bracket(s, n, s.len() as int);
    assert(skip_spaces(s, n + 1) == n + 2) by {
        reveal_with_fuel(skip_spaces, 2);
    }
    assert(word_end(s, n + 2) == n + 3) by {
        reveal_with_fuel(word_end, 2);
    }
    assert(skip_spaces(s, n + 3) == n + 4) by {
        reveal_with_fuel(skip_spaces, 2);
        assert(s[n + 4 + 0] == parent[0]);
    }
    word_of(s, parent, n + 4, 0);
    assert(s.subrange(n + 4, n + 4 + parent.len()) =~= parent);
}

proof fn last_bracket(s: Seq<char>, at: int, n: int)
    requires
        0 <= at < n <= s.len(),
        s[at] == ')',
        forall|i: int| at < i < s.len() ==> #[trigger] s[i] != ')',
    ensures
        behind_bracket(s, n) == Some(at + 1),
    decreases n,
{
    if n - 1 > at {
        last_bracket(s, at, n - 1);
    }
}

proof fn word_of(s: Seq<char>, word: Seq<char>, at: int, i: int)
    requires
        0 <= at,
        0 <= i <= word.len(),
        at + word.len() < s.len(),
        is_space(s[at + word.len()]),
        forall|j: int| 0 <= j < word.len() ==> #[trigger] s[at + j] == word[j],
        forall|j: int| 0 <= j < word.len() ==> !is_space(#[trigger] word[j]),
    ensures
        word_end(s, at + i) == at + word.len(),
    decreases word.len() - i,
{
    if i < word.len() {
        assert(s[at + i] == word[i]);
        word_of(s, word, at, i + 1);
    }
}

} // verus!
