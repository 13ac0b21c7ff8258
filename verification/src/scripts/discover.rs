//! Finding scripts in the scripts folder.

use crate::config::scripts::{header_of, Header, HeaderModel};
use crate::scripts::output::{lossy_text, text_of_bytes};
use crate::text::{
    chars_of, comes_before, finishes, has_suffix, lowercase, precedes, same_chars,
    texts_are_ordered, to_lowercase,
};
use vstd::prelude::*;

verus! {

/// How many bytes of a file are read for its header; this many always cover the lines in which
/// headers live.
pub const READ_LIMIT: u64 = 16384;

/// A script found on disk.
#[derive(Debug, PartialEq, Eq)]
pub struct Discovered {
    /// The file name, which identifies the script.
    pub name: String,
    /// Full path.
    pub path: String,
    /// What its header says.
    pub header: Header,
}

/// What is known of a script found on disk.
#[verifier::ext_equal]
pub struct DiscoveredModel {
    pub name: Seq<char>,
    pub path: Seq<char>,
    pub header: HeaderModel,
}

impl View for Discovered {
    type V = DiscoveredModel;

    open spec fn view(&self) -> DiscoveredModel {
        DiscoveredModel { name: self.name@, path: self.path@, header: self.header@ }
    }
}

impl DiscoveredModel {
    /// The name shown to people: the header's, or the file name.
    pub open spec fn title(self) -> Seq<char> {
        match self.header.name {
            Some(name) => name,
            None => self.name,
        }
    }
}

impl Discovered {
    /// The name shown to people: the header's, or the file name.
    pub fn title(&self) -> (r: &str)
        ensures
            r@ == self@.title(),
    {
        match &self.header.name {
            Some(name) => name.as_str(),
            None => self.name.as_str(),
        }
    }
}

/// An entry of the scripts folder.
#[derive(Debug, PartialEq, Eq)]
pub struct FolderEntry {
    /// The file name, unless it is no text.
    pub name: Option<String>,
    /// Full path.
    pub path: String,
    /// Whether it is a file, and its permission bits, following links; nothing where they
    /// cannot be read.
    pub metadata: Option<(bool, u32)>,
    /// The start of the file.
    pub head: Vec<u8>,
}

/// Files that are never scripts even when executable: hidden ones and what editors leave behind.
pub open spec fn ignored(name: Seq<char>) -> bool {
    ||| name.len() > 0 && name[0] == '.'
    ||| name.len() > 0 && name.last() == '~'
    ||| finishes(name, ".swp"@)
    ||| finishes(name, ".swo"@)
    ||| finishes(name, ".bak"@)
    ||| finishes(name, ".orig"@)
    ||| finishes(name, ".tmp"@)
}

/// Tells whether a file is never a script even when executable.
pub fn is_ignored(name: &str) -> (r: bool)
    ensures
        r == ignored(name@),
{
    let chars = chars_of(name);
    if chars.len() > 0 && (chars[0] == '.' || chars[chars.len() - 1] == '~') {
        return true;
    }
    has_suffix(&chars, ".swp") || has_suffix(&chars, ".swo") || has_suffix(&chars, ".bak")
        || has_suffix(&chars, ".orig") || has_suffix(&chars, ".tmp")
}

/// The permission bits that let someone execute a file.
pub const EXECUTABLE: u32 = 0o111;

/// True for the entries that are scripts: executable files that are not ignored.
pub open spec fn is_script(entry: FolderEntry) -> bool {
    &&& entry.name is Some
    &&& !ignored(entry.name->0@)
    &&& entry.metadata is Some
    &&& (entry.metadata->0).0
    &&& (entry.metadata->0).1 & EXECUTABLE != 0
}

/// Tells whether a name and its metadata are those of a script, so that its start is worth
/// reading.
pub fn names_script(name: &Option<String>, metadata: Option<(bool, u32)>) -> (r: bool)
    ensures
        r == {
            &&& *name is Some
            &&& !ignored((*name)->0@)
            &&& metadata is Some
            &&& (metadata->0).0
            &&& (metadata->0).1 & EXECUTABLE != 0
        },
{
    match (name, metadata) {
        (Some(name), Some((is_file, mode))) => !is_ignored(name.as_str()) && is_file && mode
            & EXECUTABLE != 0,
        _ => false,
    }
}

/// The order of scripts: by title whatever its case, then by file name.
pub open spec fn earlier(a: DiscoveredModel, b: DiscoveredModel) -> bool {
    ||| precedes(lowercase(a.title()), lowercase(b.title()))
    ||| lowercase(a.title()) == lowercase(b.title()) && precedes(a.name, b.name)
}

fn is_earlier(a: &Discovered, b: &Discovered) -> (r: bool)
    ensures
        r == earlier(a@, b@),
{
    let first = to_lowercase(a.title());
    let second = to_lowercase(b.title());
    let first_chars = chars_of(first.as_str());
    let second_chars = chars_of(second.as_str());
    if comes_before(&first_chars, &second_chars) {
        return true;
    }
    if !same_chars(&first_chars, &second_chars) {
        return false;
    }
    let a_name = chars_of(a.name.as_str());
    let b_name = chars_of(b.name.as_str());
    comes_before(&a_name, &b_name)
}

/// Where a script goes in a sorted list: in front of the first of `list[from..]` that it does
/// not follow.
pub open spec fn place_of(list: Seq<DiscoveredModel>, script: DiscoveredModel, from: int) -> int
    decreases list.len() - from,
{
    if from < 0 || from >= list.len() {
        list.len() as int
    } else if earlier(list[from], script) {
        place_of(list, script, from + 1)
    } else {
        from
    }
}

/// Scripts in their order; those that are equal in it stay as they were.
pub open spec fn in_order(found: Seq<DiscoveredModel>) -> Seq<DiscoveredModel>
    decreases found.len(),
{
    if found.len() == 0 {
        Seq::empty()
    } else {
        let rest = in_order(found.drop_first());
        rest.insert(place_of(rest, found[0], 0), found[0])
    }
}

/// What scripts hold.
pub open spec fn found_views(found: Seq<Discovered>) -> Seq<DiscoveredModel> {
    Seq::new(found.len(), |i: int| found[i]@)
}

proof fn place_is_inside(list: Seq<DiscoveredModel>, script: DiscoveredModel, from: int)
    requires
        0 <= from <= list.len(),
    ensures
        from <= place_of(list, script, from) <= list.len(),
        forall|k: int| from <= k < place_of(list, script, from) ==> earlier(list[k], script),
        place_of(list, script, from) < list.len() ==> !earlier(
            list[place_of(list, script, from)],
            script,
        ),
    decreases list.len() - from,
{
    if from < list.len() && earlier(list[from], script) {
        place_is_inside(list, script, from + 1);
    }
}

fn sorted(found: Vec<Discovered>) -> (r: Vec<Discovered>)
    ensures
        found_views(r@) == in_order(found_views(found@)),
{
    let ghost all = found_views(found@);
    let mut rest = found;
    let mut out: Vec<Discovered> = Vec::new();
    proof {
        assert(all.skip(all.len() as int) =~= Seq::empty());
        assert(found_views(out@) =~= in_order(all.skip(all.len() as int)));
    }
    while rest.len() > 0
        invariant
            rest@.len() <= all.len(),
            found_views(rest@) == all.take(rest@.len() as int),
            found_views(out@) == in_order(all.skip(rest@.len() as int)),
        decreases rest@.len(),
    {
        let ghost count = rest@.len() as int;
        let ghost before = rest@;
        let last = rest.pop();
        if let Some(script) = last {
            let ghost placed = script@;
            let mut at: usize = 0;
            assert(placed == all[count - 1]) by {
                assert(found_views(before)[count - 1] == all.take(count)[count - 1]);
            }
            while at < out.len() && is_earlier(&out[at], &script)
                invariant
                    at <= out@.len(),
                    script@ == placed,
                    place_of(found_views(out@), placed, 0) == place_of(
                        found_views(out@),
                        placed,
                        at as int,
                    ),
                decreases out@.len() - at,
            {
                assert(found_views(out@)[at as int] == out@[at as int]@);
                at = at + 1;
            }
            proof {
                if at < out@.len() {
                    assert(found_views(out@)[at as int] == out@[at as int]@);
                }
            }
            let ghost listed = out@;
            out.insert(at, script);
            proof {
                assert(found_views(out@) =~= found_views(listed).insert(at as int, placed));
                assert(all.skip(count - 1).drop_first() =~= all.skip(count));
                assert(all.skip(count - 1)[0] == placed);
                assert(found_views(rest@) =~= all.take(count - 1));
            }
        }
    }
    proof {
        assert(all.skip(0) =~= all);
    }
    out
}

/// The scripts among the entries `entries[..n]`, each with its header.
pub open spec fn scripts_among(entries: Seq<FolderEntry>, n: int) -> Seq<DiscoveredModel>
    decreases n,
{
    if n <= 0 {
        Seq::empty()
    } else {
        let before = scripts_among(entries, n - 1);
        let entry = entries[n - 1];
        if is_script(entry) {
            before.push(
                DiscoveredModel {
                    name: entry.name->0@,
                    path: entry.path@,
                    header: header_of(lossy_text(entry.head@)),
                },
            )
        } else {
            before
        }
    }
}

/// Every executable file of a folder, sorted by title. Hidden files and editor leftovers are
/// skipped, so that saving a script in an editor does not briefly add a second one. A folder
/// that is missing has no entries, and so no scripts.
pub fn scan(entries: &Vec<FolderEntry>) -> (r: Vec<Discovered>)
    ensures
        found_views(r@) == in_order(scripts_among(entries@, entries@.len() as int)),
{
    let mut found: Vec<Discovered> = Vec::new();
    let mut i: usize = 0;
    assert(found_views(found@) =~= Seq::empty());
    while i < entries.len()
        invariant
            i <= entries.len(),
            found_views(found@) == scripts_among(entries@, i as int),
        decreases entries.len() - i,
    {
        let entry = &entries[i];
        if names_script(&entry.name, entry.metadata) {
            if let Some(name) = &entry.name {
                let text = text_of_bytes(&entry.head);
                let header = Header::parse(text.as_str());
                let script = Discovered {
                    name: crate::text::copied(name.as_str()),
                    path: crate::text::copied(entry.path.as_str()),
                    header,
                };
                let ghost before = found@;
                let ghost model = script@;
                found.push(script);
                assert(found_views(found@) =~= found_views(before).push(model));
            }
        }
        i = i + 1;
    }
    sorted(found)
}

proof fn scripts_are_ordered(a: DiscoveredModel, b: DiscoveredModel, c: DiscoveredModel)
    ensures
        !earlier(a, a),
        !(earlier(a, b) && earlier(b, a)),
        !earlier(b, a) && !earlier(c, b) ==> !earlier(c, a),
{
    let x = lowercase(a.title());
    let y = lowercase(b.title());
    let z = lowercase(c.title());
    texts_are_ordered(x, y, z);
    texts_are_ordered(z, x, y);
    texts_are_ordered(y, z, x);
    texts_are_ordered(x, z, y);
    texts_are_ordered(y, x, z);
    texts_are_ordered(z, y, x);
    texts_are_ordered(a.name, b.name, c.name);
    texts_are_ordered(c.name, a.name, b.name);
    texts_are_ordered(b.name, c.name, a.name);
    texts_are_ordered(a.name, c.name, b.name);
    texts_are_ordered(b.name, a.name, c.name);
    texts_are_ordered(c.name, b.name, a.name);
}

/// The list is sorted, and holds exactly the scripts that were found.
pub proof fn scripts_come_in_order(found: Seq<DiscoveredModel>)
    ensures
        in_order(found).to_multiset() == found.to_multiset(),
        forall|i: int, j: int|
            0 <= i < j < in_order(found).len() ==> !earlier(
                #[trigger] in_order(found)[j],
                #[trigger] in_order(found)[i],
            ),
    decreases found.len(),
{
    broadcast use vstd::seq_lib::group_to_multiset_ensures;

    if found.len() == 0 {
        assert(in_order(found) =~= found);
    } else {
        let script = found[0];
        let others = found.drop_first();
        scripts_come_in_order(others);
        let rest = in_order(others);
        let at = place_of(rest, script, 0);
        place_is_inside(rest, script, 0);
        let list = rest.insert(at, script);
        assert(found =~= seq![script] + others);
        assert(list =~= rest.take(at) + (seq![script] + rest.skip(at)));
        assert(rest =~= rest.take(at) + rest.skip(at));
        vstd::seq_lib::lemma_multiset_commutative(rest.take(at), seq![script] + rest.skip(at));
        vstd::seq_lib::lemma_multiset_commutative(seq![script], rest.skip(at));
        vstd::seq_lib::lemma_multiset_commutative(rest.take(at), rest.skip(at));
        vstd::seq_lib::lemma_multiset_commutative(seq![script], others);
        assert(list.to_multiset() =~= found.to_multiset());
        assert forall|i: int, j: int| 0 <= i < j < list.len() implies !earlier(
            #[trigger] list[j],
            #[trigger] list[i],
        ) by {
            if j < at {
            } else if j == at {
                scripts_are_ordered(list[i], script, script);
                assert(earlier(rest[i], script));
            } else if i == at {
                let first = rest[at];
                scripts_are_ordered(script, first, rest[j - 1]);
                assert(list[j] == rest[j - 1]);
            } else if i < at {
                assert(list[i] == rest[i] && list[j] == rest[j - 1]);
            } else {
                assert(list[i] == rest[i - 1] && list[j] == rest[j - 1]);
            }
        }
    }
}

/// Hidden files and what editors leave behind are no scripts, whatever they are called besides;
/// a name without a dot or a trailing tilde is never taken for one of those.
pub proof fn leftovers_are_ignored(stem: Seq<char>, name: Seq<char>)
    ensures
        ignored(seq!['.'] + stem),
        ignored(stem + seq!['~']),
        ignored(stem + ".swp"@),
        ignored(stem + ".swo"@),
        ignored(stem + ".bak"@),
        ignored(stem + ".orig"@),
        ignored(stem + ".tmp"@),
        !name.contains('.') && (name.len() == 0 || name.last() != '~') ==> !ignored(name),
{
    reveal_strlit(".swp");
    reveal_strlit(".swo");
    reveal_strlit(".bak");
    reveal_strlit(".orig");
    reveal_strlit(".tmp");
    assert((seq!['.'] + stem)[0] == '.');
    ends_so(stem, ".swp"@);
    ends_so(stem, ".swo"@);
    ends_so(stem, ".bak"@);
    ends_so(stem, ".orig"@);
    ends_so(stem, ".tmp"@);
    if !name.contains('.') {
        dotless(name, ".swp"@);
        dotless(name, ".swo"@);
        dotless(name, ".bak"@);
        dotless(name, ".orig"@);
        dotless(name, ".tmp"@);
    }
}

proof fn ends_so(stem: Seq<char>, end: Seq<char>)
    ensures
        finishes(stem + end, end),
{
    assert((stem + end).skip((stem + end).len() - end.len()) =~= end);
}

proof fn dotless(name: Seq<char>, end: Seq<char>)
    requires
        end.len() > 0,
        end[0] == '.',
        !name.contains('.'),
    ensures
        !finishes(name, end),
{
    if finishes(name, end) {
        assert(name.skip(name.len() - end.len())[0] == name[name.len() - end.len()]);
    }
}

/// Scripts are listed by title in the order of their letters, large or small alike, and those of
/// the same title by file name. The title is the one that the script gives itself, else its file
/// name.
pub proof fn scripts_are_listed_by_title(found: Seq<DiscoveredModel>, i: int, j: int)
    requires
        0 <= i < j < in_order(found).len(),
    ensures
        ({
            let (a, b) = (in_order(found)[i], in_order(found)[j]);
            let first = lowercase(
                if a.header.name is Some {
                    a.header.name->0
                } else {
                    a.name
                },
            );
            let second = lowercase(
                if b.header.name is Some {
                    b.header.name->0
                } else {
                    b.name
                },
            );
            &&& !precedes(second, first)
            &&& first == second ==> !precedes(b.name, a.name)
        }),
{
    scripts_come_in_order(found);
    let (a, b) = (in_order(found)[i], in_order(found)[j]);
    assert(!earlier(b, a));
}

/// The scripts of a folder are its files that can be run, but for the ignored ones, each with
/// its name, its path and the header at its head.
pub proof fn every_script_is_found(entries: Seq<FolderEntry>)
    ensures
        scripts_among(entries, entries.len() as int) == entries.filter(
            |entry: FolderEntry|
                entry.name is Some && !ignored(entry.name->0@) && entry.metadata is Some && (
                entry.metadata->0).0 && (entry.metadata->0).1 & 0o111 != 0,
        ).map_values(
            |entry: FolderEntry|
                DiscoveredModel {
                    name: entry.name->0@,
                    path: entry.path@,
                    header: header_of(lossy_text(entry.head@)),
                },
        ),
{
    found_so_far(entries, entries.len() as int);
    assert(entries.take(entries.len() as int) =~= entries);
}

proof fn found_so_far(entries: Seq<FolderEntry>, n: int)
    requires
        0 <= n <= entries.len(),
    ensures
        scripts_among(entries, n) == entries.take(n).filter(
            |entry: FolderEntry|
                entry.name is Some && !ignored(entry.name->0@) && entry.metadata is Some && (
                entry.metadata->0).0 && (entry.metadata->0).1 & 0o111 != 0,
        ).map_values(
            |entry: FolderEntry|
                DiscoveredModel {
                    name: entry.name->0@,
                    path: entry.path@,
                    header: header_of(lossy_text(entry.head@)),
                },
        ),
    decreases n,
{
    reveal(Seq::filter);
    let kept = |entry: FolderEntry|
        entry.name is Some && !ignored(entry.name->0@) && entry.metadata is Some && (
        entry.metadata->0).0 && (entry.metadata->0).1 & 0o111 != 0;
    let read = |entry: FolderEntry|
        DiscoveredModel {
            name: entry.name->0@,
            path: entry.path@,
            header: header_of(lossy_text(entry.head@)),
        };
    if n > 0 {
        found_so_far(entries, n - 1);
        assert(entries.take(n).drop_last() =~= entries.take(n - 1));
        assert(entries.take(n).last() == entries[n - 1]);
        let before = entries.take(n - 1).filter(kept);
        assert(before.push(entries[n - 1]).map_values(read) =~= before.map_values(read).push(
            read(entries[n - 1]),
        ));
    } else {
        assert(entries.take(0).filter(kept).map_values(read) =~= Seq::empty());
    }
}

} // verus!
