//! Text as sequences of characters: searching, trimming, splitting and decimal numbers.

use vstd::prelude::*;

verus! {

/// `String::push`: appends one character.
pub assume_specification[ String::push ](s: &mut String, c: char)
    ensures
        final(s)@ == old(s)@.push(c),
;

/// The characters of a text.
pub fn chars_of(text: &str) -> (r: Vec<char>)
    ensures
        r@ == text@,
{
    let mut out: Vec<char> = Vec::new();
    for c in iter: text.chars()
        invariant
            iter.seq() == text@,
            out@ == text@.take(iter.index() as int),
    {
        out.push(c);
        assert(out@ =~= text@.take(iter.index() + 1));
    }
    assert(text@.take(text@.len() as int) =~= text@);
    out
}

/// The text that some characters make up.
pub fn string_of(chars: &Vec<char>) -> (r: String)
    ensures
        r@ == chars@,
{
    let mut out = String::new();
    let mut i: usize = 0;
    while i < chars.len()
        invariant
            i <= chars.len(),
            out@ == chars@.take(i as int),
        decreases chars.len() - i,
    {
        out.push(chars[i]);
        i = i + 1;
        assert(out@ =~= chars@.take(i as int));
    }
    assert(chars@.take(i as int) =~= chars@);
    out
}

/// The characters from `from` up to but not including `to`.
pub fn part(chars: &Vec<char>, from: usize, to: usize) -> (r: Vec<char>)
    requires
        from <= to <= chars.len(),
    ensures
        r@ == chars@.subrange(from as int, to as int),
{
    let mut out: Vec<char> = Vec::new();
    let mut i: usize = from;
    while i < to
        invariant
            from <= i <= to <= chars.len(),
            out@ == chars@.subrange(from as int, i as int),
        decreases to - i,
    {
        out.push(chars[i]);
        i = i + 1;
        assert(out@ =~= chars@.subrange(from as int, i as int));
    }
    out
}

/// Appends `more` to `chars`.
pub fn extend(chars: &mut Vec<char>, more: &Vec<char>)
    ensures
        final(chars)@ == old(chars)@ + more@,
{
    let mut i: usize = 0;
    while i < more.len()
        invariant
            i <= more.len(),
            chars@ == old(chars)@ + more@.take(i as int),
        decreases more.len() - i,
    {
        chars.push(more[i]);
        i = i + 1;
        assert(chars@ =~= old(chars)@ + more@.take(i as int));
    }
    assert(more@.take(i as int) =~= more@);
}

/// Appends a text to `chars`.
pub fn extend_str(chars: &mut Vec<char>, more: &str)
    ensures
        final(chars)@ == old(chars)@ + more@,
{
    let more = chars_of(more);
    extend(chars, &more);
}

/// True when the two hold the same characters.
pub fn same_chars(a: &Vec<char>, b: &Vec<char>) -> (r: bool)
    ensures
        r == (a@ == b@),
{
    if a.len() != b.len() {
        return false;
    }
    let mut i: usize = 0;
    while i < a.len()
        invariant
            i <= a.len(),
            a.len() == b.len(),
            forall|j: int| 0 <= j < i ==> a@[j] == b@[j],
        decreases a.len() - i,
    {
        if a[i] != b[i] {
            return false;
        }
        i = i + 1;
    }
    assert(a@ =~= b@);
    true
}

/// True when `chars` spell `text`.
pub fn spells(chars: &Vec<char>, text: &str) -> (r: bool)
    ensures
        r == (chars@ == text@),
{
    let other = chars_of(text);
    same_chars(chars, &other)
}

/// True when the two texts are the same.
pub fn same(a: &str, b: &str) -> (r: bool)
    ensures
        r == (a@ == b@),
{
    let a = chars_of(a);
    spells(&a, b)
}

/// A copy of a text.
pub fn copied(text: &str) -> (r: String)
    ensures
        r@ == text@,
{
    let mut out = String::new();
    out.append(text);
    assert(out@ =~= text@);
    out
}

/// Three texts, one after the other.
pub fn concat3(a: &str, b: &str, c: &str) -> (r: String)
    ensures
        r@ == a@ + b@ + c@,
{
    let mut out = copied(a);
    out.append(b);
    out.append(c);
    out
}

/// Five texts, one after the other.
pub fn concat5(a: &str, b: &str, c: &str, d: &str, e: &str) -> (r: String)
    ensures
        r@ == a@ + b@ + c@ + d@ + e@,
{
    let mut out = concat3(a, b, c);
    out.append(d);
    out.append(e);
    out
}

/// The views of a list of texts.
pub open spec fn views(texts: Seq<String>) -> Seq<Seq<char>> {
    texts.map_values(|text: String| text@)
}

/// The views of a list of character vectors.
pub open spec fn char_views(parts: Seq<Vec<char>>) -> Seq<Seq<char>> {
    parts.map_values(|part: Vec<char>| part@)
}

/// Copies of texts.
pub fn copied_all(texts: &Vec<String>) -> (r: Vec<String>)
    ensures
        views(r@) == views(texts@),
{
    let mut out: Vec<String> = Vec::new();
    let mut i: usize = 0;
    while i < texts.len()
        invariant
            i <= texts.len(),
            out@.len() == i,
            forall|j: int| 0 <= j < i ==> #[trigger] out@[j]@ == texts@[j]@,
        decreases texts.len() - i,
    {
        out.push(copied(texts[i].as_str()));
        i = i + 1;
    }
    assert(views(out@) =~= views(texts@));
    out
}

/// What an optional text holds.
pub open spec fn opt_view(text: Option<String>) -> Option<Seq<char>> {
    match text {
        None => None,
        Some(text) => Some(text@),
    }
}

/// A copy of an optional text.
pub fn copied_opt(text: &Option<String>) -> (r: Option<String>)
    ensures
        opt_view(r) == opt_view(*text),
{
    match text {
        None => None,
        Some(text) => Some(copied(text.as_str())),
    }
}

/// True when `text` is one of the texts.
pub fn is_one_of(texts: &Vec<String>, text: &str) -> (r: bool)
    ensures
        r == views(texts@).contains(text@),
{
    let mut i: usize = 0;
    while i < texts.len()
        invariant
            i <= texts.len(),
            forall|j: int| 0 <= j < i ==> #[trigger] texts@[j]@ != text@,
        decreases texts.len() - i,
    {
        if same(texts[i].as_str(), text) {
            assert(views(texts@)[i as int] == text@);
            return true;
        }
        i = i + 1;
    }
    assert forall|j: int| 0 <= j < views(texts@).len() implies views(texts@)[j] != text@ by {
        assert(texts@[j]@ != text@);
    }
    false
}

/// Texts with `separator` between each two.
pub open spec fn joined(texts: Seq<Seq<char>>, separator: Seq<char>) -> Seq<char>
    decreases texts.len(),
{
    if texts.len() == 0 {
        Seq::empty()
    } else if texts.len() == 1 {
        texts[0]
    } else {
        joined(texts.drop_last(), separator) + separator + texts.last()
    }
}

/// Joins texts with `separator` between each two.
pub fn join(texts: &Vec<String>, separator: &str) -> (r: String)
    ensures
        r@ == joined(views(texts@), separator@),
{
    let mut out = String::new();
    let mut i: usize = 0;
    assert(views(texts@).take(0) =~= Seq::<Seq<char>>::empty());
    while i < texts.len()
        invariant
            i <= texts.len(),
            out@ == joined(views(texts@).take(i as int), separator@),
        decreases texts.len() - i,
    {
        let ghost before = views(texts@).take(i as int);
        let ghost after = views(texts@).take(i + 1);
        assert(after.drop_last() =~= before);
        assert(after.last() == texts@[i as int]@);
        if i > 0 {
            out.append(separator);
        }
        out.append(texts[i].as_str());
        assert(out@ =~= joined(after, separator@));
        i = i + 1;
    }
    assert(views(texts@).take(i as int) =~= views(texts@));
    out
}

/// Texts one after the other.
pub open spec fn concatenated(parts: Seq<Seq<char>>) -> Seq<char>
    decreases parts.len(),
{
    if parts.len() == 0 {
        Seq::empty()
    } else {
        concatenated(parts.drop_last()) + parts.last()
    }
}

/// Joins character vectors into one.
pub fn concat_all(parts: &Vec<Vec<char>>) -> (r: Vec<char>)
    ensures
        r@ == concatenated(char_views(parts@)),
{
    let mut out: Vec<char> = Vec::new();
    let mut i: usize = 0;
    assert(char_views(parts@).take(0) =~= Seq::<Seq<char>>::empty());
    while i < parts.len()
        invariant
            i <= parts.len(),
            out@ == concatenated(char_views(parts@).take(i as int)),
        decreases parts.len() - i,
    {
        let ghost after = char_views(parts@).take(i + 1);
        assert(after.drop_last() =~= char_views(parts@).take(i as int));
        extend(&mut out, &parts[i]);
        i = i + 1;
    }
    assert(char_views(parts@).take(i as int) =~= char_views(parts@));
    out
}

/// Characters with the Unicode property White_Space.
pub open spec fn is_space(c: char) -> bool {
    ||| '\t' <= c <= '\r'
    ||| c == ' '
    ||| c == '\u{85}'
    ||| c == '\u{a0}'
    ||| c == '\u{1680}'
    ||| '\u{2000}' <= c <= '\u{200a}'
    ||| c == '\u{2028}'
    ||| c == '\u{2029}'
    ||| c == '\u{202f}'
    ||| c == '\u{205f}'
    ||| c == '\u{3000}'
}

/// Whether a character is white space.
pub fn is_space_char(c: char) -> (r: bool)
    ensures
        r == is_space(c),
{
    ('\t' <= c && c <= '\r') || c == ' ' || c == '\u{85}' || c == '\u{a0}' || c == '\u{1680}' || (
    '\u{2000}' <= c && c <= '\u{200a}') || c == '\u{2028}' || c == '\u{2029}' || c == '\u{202f}'
        || c == '\u{205f}' || c == '\u{3000}'
}

/// ASCII letters and digits.
pub open spec fn is_word(c: char) -> bool {
    'a' <= c <= 'z' || 'A' <= c <= 'Z' || '0' <= c <= '9'
}

/// Whether a character is an ASCII letter or digit.
pub fn is_word_char(c: char) -> (r: bool)
    ensures
        r == is_word(c),
{
    ('a' <= c && c <= 'z') || ('A' <= c && c <= 'Z') || ('0' <= c && c <= '9')
}

/// The place of the first `c` at or after `from`, or the end.
pub open spec fn first_at(s: Seq<char>, c: char, from: int) -> int
    decreases s.len() - from,
{
    if from < 0 || from >= s.len() || s[from] == c {
        if from > s.len() {
            s.len() as int
        } else {
            from
        }
    } else {
        first_at(s, c, from + 1)
    }
}

/// Finds the first `c` at or after `from`; the length if there is none.
pub fn find(chars: &Vec<char>, c: char, from: usize) -> (r: usize)
    requires
        from <= chars.len(),
    ensures
        r == first_at(chars@, c, from as int),
        from <= r <= chars.len(),
        r < chars.len() ==> chars@[r as int] == c,
        forall|j: int| from <= j < r ==> chars@[j] != c,
{
    let mut i: usize = from;
    while i < chars.len() && chars[i] != c
        invariant
            from <= i <= chars.len(),
            first_at(chars@, c, from as int) == first_at(chars@, c, i as int),
            forall|j: int| from <= j < i ==> chars@[j] != c,
        decreases chars.len() - i,
    {
        i = i + 1;
    }
    i
}

/// What `first_at` finds: nothing before it is `c`, and it is `c` unless it is the end.
pub proof fn first_at_is_first(s: Seq<char>, c: char, from: int)
    requires
        0 <= from <= s.len(),
    ensures
        from <= first_at(s, c, from) <= s.len(),
        first_at(s, c, from) < s.len() ==> s[first_at(s, c, from)] == c,
        forall|j: int| from <= j < first_at(s, c, from) ==> s[j] != c,
    decreases s.len() - from,
{
    if from < s.len() && s[from] != c {
        first_at_is_first(s, c, from + 1);
    }
}

/// Whether `c` occurs in `chars`.
pub fn has_char(chars: &Vec<char>, c: char) -> (r: bool)
    ensures
        r == chars@.contains(c),
{
    let i: usize = find(chars, c, 0);
    if i < chars.len() {
        assert(chars@[i as int] == c);
        true
    } else {
        false
    }
}

/// The first place at or after `from` that holds no white space, or the end.
pub open spec fn skip_spaces(s: Seq<char>, from: int) -> int
    decreases s.len() - from,
{
    if from < 0 || from >= s.len() || !is_space(s[from]) {
        from
    } else {
        skip_spaces(s, from + 1)
    }
}

/// The end of `s[from..to]` without trailing white space.
pub open spec fn before_spaces(s: Seq<char>, from: int, to: int) -> int
    decreases to - from,
{
    if to <= from || !is_space(s[to - 1]) {
        to
    } else {
        before_spaces(s, from, to - 1)
    }
}

/// A text without leading white space.
pub open spec fn trim_start(s: Seq<char>) -> Seq<char> {
    s.subrange(skip_spaces(s, 0), s.len() as int)
}

/// A text without leading and trailing white space.
pub open spec fn trim(s: Seq<char>) -> Seq<char> {
    let from = skip_spaces(s, 0);
    s.subrange(from, before_spaces(s, from, s.len() as int))
}

fn spaces_end(chars: &Vec<char>, from: usize) -> (r: usize)
    requires
        from <= chars.len(),
    ensures
        r == skip_spaces(chars@, from as int),
        from <= r <= chars.len(),
{
    let mut i: usize = from;
    while i < chars.len() && is_space_char(chars[i])
        invariant
            from <= i <= chars.len(),
            skip_spaces(chars@, from as int) == skip_spaces(chars@, i as int),
        decreases chars.len() - i,
    {
        i = i + 1;
    }
    i
}

/// Drops leading white space.
pub fn trimmed_start(chars: &Vec<char>) -> (r: Vec<char>)
    ensures
        r@ == trim_start(chars@),
{
    let from: usize = spaces_end(chars, 0);
    part(chars, from, chars.len())
}

/// Drops leading and trailing white space.
pub fn trimmed(chars: &Vec<char>) -> (r: Vec<char>)
    ensures
        r@ == trim(chars@),
{
    let from: usize = spaces_end(chars, 0);
    let mut to: usize = chars.len();
    while to > from && is_space_char(chars[to - 1])
        invariant
            from <= to <= chars.len(),
            before_spaces(chars@, from as int, chars@.len() as int) == before_spaces(
                chars@,
                from as int,
                to as int,
            ),
        decreases to,
    {
        to = to - 1;
    }
    part(chars, from, to)
}

/// The pieces of `s[from..]` between separators.
pub open spec fn pieces(s: Seq<char>, separator: char, from: int) -> Seq<Seq<char>>
    decreases s.len() - from,
{
    let j = first_at(s, separator, from);
    if j < from || j >= s.len() {
        seq![s.subrange(from, s.len() as int)]
    } else {
        seq![s.subrange(from, j)] + pieces(s, separator, j + 1)
    }
}

/// Splits at every separator; there is always at least one piece.
pub fn split(chars: &Vec<char>, separator: char) -> (r: Vec<Vec<char>>)
    ensures
        char_views(r@) == pieces(chars@, separator, 0),
        r.len() > 0,
{
    let mut out: Vec<Vec<char>> = Vec::new();
    let mut from: usize = 0;
    assert(char_views(out@) =~= seq![]);
    assert(seq![] + pieces(chars@, separator, 0) =~= pieces(chars@, separator, 0));
    loop
        invariant
            from <= chars.len(),
            char_views(out@) + pieces(chars@, separator, from as int) == pieces(
                chars@,
                separator,
                0,
            ),
        decreases chars.len() - from,
    {
        let j: usize = find(chars, separator, from);
        let piece = part(chars, from, j);
        let ghost done = char_views(out@);
        out.push(piece);
        assert(char_views(out@) =~= done.push(piece@));
        if j >= chars.len() {
            assert(done + seq![piece@] =~= done.push(piece@));
            return out;
        }
        assert(done + (seq![piece@] + pieces(chars@, separator, j + 1)) =~= done.push(piece@)
            + pieces(chars@, separator, j + 1));
        from = j + 1;
    }
}

/// What stands before and after the first separator, if there is one.
pub open spec fn cut(s: Seq<char>, separator: char) -> Option<(Seq<char>, Seq<char>)> {
    let j = first_at(s, separator, 0);
    if j >= s.len() {
        None
    } else {
        Some((s.take(j), s.skip(j + 1)))
    }
}

/// Cuts at the first separator.
pub fn split_once(chars: &Vec<char>, separator: char) -> (r: Option<(Vec<char>, Vec<char>)>)
    ensures
        match r {
            None => cut(chars@, separator) is None,
            Some((before, after)) => cut(chars@, separator) == Some((before@, after@)),
        },
{
    let j: usize = find(chars, separator, 0);
    if j >= chars.len() {
        return None;
    }
    let before = part(chars, 0, j);
    let after = part(chars, j + 1, chars.len());
    assert(before@ =~= chars@.take(j as int));
    assert(after@ =~= chars@.skip(j + 1));
    Some((before, after))
}

/// True when `s` begins with `prefix`.
pub open spec fn begins(s: Seq<char>, prefix: Seq<char>) -> bool {
    prefix.len() <= s.len() && s.take(prefix.len() as int) == prefix
}

/// Whether `chars` begin with `prefix`.
pub fn has_prefix(chars: &Vec<char>, prefix: &str) -> (r: bool)
    ensures
        r == begins(chars@, prefix@),
{
    let prefix = chars_of(prefix);
    if prefix.len() > chars.len() {
        return false;
    }
    let start = part(chars, 0, prefix.len());
    assert(start@ =~= chars@.take(prefix@.len() as int));
    same_chars(&start, &prefix)
}

/// True when a text ends in another.
pub open spec fn finishes(s: Seq<char>, suffix: Seq<char>) -> bool {
    s.len() >= suffix.len() && s.skip(s.len() - suffix.len()) == suffix
}

/// Tells whether a text ends in another.
pub fn has_suffix(chars: &Vec<char>, suffix: &str) -> (r: bool)
    ensures
        r == finishes(chars@, suffix@),
{
    let end = chars_of(suffix);
    if chars.len() < end.len() {
        return false;
    }
    let tail = part(chars, chars.len() - end.len(), chars.len());
    assert(tail@ =~= chars@.skip(chars.len() - end.len()));
    same_chars(&tail, &end)
}

/// True when `a` comes before `b` in the order of their characters; a text comes before those
/// that it starts.
pub open spec fn precedes(a: Seq<char>, b: Seq<char>) -> bool
    decreases a.len(),
{
    if a.len() == 0 {
        b.len() > 0
    } else if b.len() == 0 {
        false
    } else if a[0] != b[0] {
        a[0] < b[0]
    } else {
        precedes(a.drop_first(), b.drop_first())
    }
}

/// Tells which of two texts comes first.
pub fn comes_before(a: &Vec<char>, b: &Vec<char>) -> (r: bool)
    ensures
        r == precedes(a@, b@),
{
    let mut i: usize = 0;
    assert(a@.skip(0) =~= a@);
    assert(b@.skip(0) =~= b@);
    while i < a.len() && i < b.len()
        invariant
            i <= a.len(),
            i <= b.len(),
            precedes(a@, b@) == precedes(a@.skip(i as int), b@.skip(i as int)),
        decreases a.len() - i,
    {
        if a[i] != b[i] {
            return a[i] < b[i];
        }
        assert(a@.skip(i as int).drop_first() =~= a@.skip(i + 1));
        assert(b@.skip(i as int).drop_first() =~= b@.skip(i + 1));
        i = i + 1;
    }
    i < b.len()
}

/// The order of texts is strict and total: no text precedes itself, of two different texts one
/// precedes the other and not the reverse, and the order carries over.
pub proof fn texts_are_ordered(a: Seq<char>, b: Seq<char>, c: Seq<char>)
    ensures
        !precedes(a, a),
        a == b || precedes(a, b) || precedes(b, a),
        !(precedes(a, b) && precedes(b, a)),
        precedes(a, b) && precedes(b, c) ==> precedes(a, c),
    decreases a.len() + b.len() + c.len(),
{
    if a.len() > 0 && b.len() > 0 && c.len() > 0 {
        texts_are_ordered(a.drop_first(), b.drop_first(), c.drop_first());
        if a[0] == b[0] && a.drop_first() == b.drop_first() {
            assert(a =~= seq![a[0]] + a.drop_first());
            assert(b =~= seq![b[0]] + b.drop_first());
        }
    } else if a.len() > 0 && b.len() > 0 {
        texts_are_ordered(a.drop_first(), b.drop_first(), c);
        if a[0] == b[0] && a.drop_first() == b.drop_first() {
            assert(a =~= seq![a[0]] + a.drop_first());
            assert(b =~= seq![b[0]] + b.drop_first());
        }
    } else if a.len() > 0 {
        texts_are_ordered(a.drop_first(), b, c);
    } else if b.len() == 0 {
        assert(a =~= b);
    }
}

/// The lower-case form of a text.
pub uninterp spec fn lowercase(text: Seq<char>) -> Seq<char>;

/// Calls `str::to_lowercase`: the lower-case form is a function of the text alone.
#[verifier::external_body]
pub(crate) fn to_lowercase(text: &str) -> (r: String)
    ensures
        r@ == lowercase(text@),
{
    text.to_lowercase()
}

/// An ASCII capital in lower case; any other character itself.
pub open spec fn lower(c: char) -> char {
    if 'A' <= c <= 'Z' {
        (c as u8 + 32) as char
    } else {
        c
    }
}

/// A text with its ASCII capitals in lower case.
pub open spec fn lowered(s: Seq<char>) -> Seq<char> {
    s.map_values(|c: char| lower(c))
}

/// Puts ASCII capitals in lower case.
pub fn to_lower(chars: &Vec<char>) -> (r: Vec<char>)
    ensures
        r@ == lowered(chars@),
{
    let mut out: Vec<char> = Vec::new();
    let mut i: usize = 0;
    while i < chars.len()
        invariant
            i <= chars.len(),
            out@.len() == i,
            forall|j: int| 0 <= j < i ==> out@[j] == lower(chars@[j]),
        decreases chars.len() - i,
    {
        let c = chars[i];
        if 'A' <= c && c <= 'Z' {
            out.push((c as u8 + 32) as char);
        } else {
            out.push(c);
        }
        i = i + 1;
    }
    assert(out@ =~= lowered(chars@));
    out
}

/// The digit character of a number below ten.
pub open spec fn digit(d: int) -> char {
    (48 + d) as char
}

/// A number in decimal.
pub open spec fn decimal(n: nat) -> Seq<char>
    decreases n,
{
    if n < 10 {
        seq![digit(n as int)]
    } else {
        decimal(n / 10).push(digit((n % 10) as int))
    }
}

/// A whole number in decimal, with a minus sign where it is negative.
pub open spec fn decimal_int(n: int) -> Seq<char> {
    if n < 0 {
        seq!['-'] + decimal((-n) as nat)
    } else {
        decimal(n as nat)
    }
}

fn digit_char(d: u8) -> (r: char)
    requires
        d < 10,
    ensures
        r == digit(d as int),
{
    (48u8 + d) as char
}

fn decimal_chars(n: u64) -> (r: Vec<char>)
    ensures
        r@ == decimal(n as nat),
    decreases n,
{
    if n < 10 {
        let mut out: Vec<char> = Vec::new();
        out.push(digit_char(n as u8));
        assert(out@ =~= decimal(n as nat));
        return out;
    }
    let mut out = decimal_chars(n / 10);
    out.push(digit_char((n % 10) as u8));
    out
}

/// A number in decimal.
pub fn number_text(n: u64) -> (r: String)
    ensures
        r@ == decimal(n as nat),
{
    let chars = decimal_chars(n);
    string_of(&chars)
}

/// A signed number in decimal.
pub fn integer_text(n: i64) -> (r: String)
    ensures
        r@ == decimal_int(n as int),
{
    if n >= 0 {
        return number_text(n as u64);
    }
    let magnitude: u64 = (-(n as i128)) as u64;
    let mut chars: Vec<char> = Vec::new();
    chars.push('-');
    let digits = decimal_chars(magnitude);
    extend(&mut chars, &digits);
    assert(chars@ =~= decimal_int(n as int));
    string_of(&chars)
}

/// True for ASCII digits.
pub open spec fn is_digit(c: char) -> bool {
    '0' <= c <= '9'
}

/// True when a text is one or more ASCII digits.
pub open spec fn all_digits(s: Seq<char>) -> bool {
    s.len() > 0 && forall|i: int| 0 <= i < s.len() ==> is_digit(#[trigger] s[i])
}

/// The number that digits stand for.
pub open spec fn digits_value(s: Seq<char>) -> int
    decreases s.len(),
{
    if s.len() == 0 {
        0
    } else {
        digits_value(s.drop_last()) * 10 + (s.last() as u8 - 48)
    }
}

/// The whole number that a text stands for: digits, after at most one sign.
pub open spec fn integer_value(s: Seq<char>) -> Option<int> {
    if s.len() > 0 && (s[0] == '-' || s[0] == '+') {
        if all_digits(s.skip(1)) {
            Some(
                if s[0] == '-' {
                    -digits_value(s.skip(1))
                } else {
                    digits_value(s.skip(1))
                },
            )
        } else {
            None
        }
    } else if all_digits(s) {
        Some(digits_value(s))
    } else {
        None
    }
}

/// A bound above every number that is read.
pub const DIGITS_CAP: u128 = 0x1_0000_0000_0000_0000;

/// Reads digits. A number too large to hold comes out as the bound itself.
fn read_digits(chars: &Vec<char>) -> (r: Option<u128>)
    ensures
        r is Some == all_digits(chars@),
        r matches Some(n) ==> n <= DIGITS_CAP && (n < DIGITS_CAP ==> n == digits_value(chars@)) && (n
            == DIGITS_CAP ==> digits_value(chars@) >= DIGITS_CAP),
{
    if chars.len() == 0 {
        return None;
    }
    let mut n: u128 = 0;
    let mut i: usize = 0;
    assert(chars@.take(0).len() == 0);
    while i < chars.len()
        invariant
            i <= chars.len(),
            chars.len() > 0,
            forall|j: int| 0 <= j < i ==> is_digit(#[trigger] chars@[j]),
            n <= DIGITS_CAP,
            n < DIGITS_CAP ==> n == digits_value(chars@.take(i as int)),
            n == DIGITS_CAP ==> digits_value(chars@.take(i as int)) >= DIGITS_CAP,
        decreases chars.len() - i,
    {
        let c = chars[i];
        if c < '0' || c > '9' {
            assert(!is_digit(chars@[i as int]));
            return None;
        }
        assert(chars@.take(i + 1).drop_last() =~= chars@.take(i as int));
        let next: u128 = n * 10 + (c as u8 - 48u8) as u128;
        n = if next < DIGITS_CAP {
            next
        } else {
            DIGITS_CAP
        };
        i = i + 1;
    }
    assert(chars@.take(i as int) =~= chars@);
    Some(n)
}

/// The number that digits stand for, after at most one plus sign, if it is at most `limit`.
pub open spec fn natural_value(s: Seq<char>, limit: int) -> Option<int> {
    if s.len() > 0 && s[0] == '-' {
        None
    } else {
        match integer_value(s) {
            Some(n) => if n <= limit {
                Some(n)
            } else {
                None
            },
            None => None,
        }
    }
}

/// Reads a number without a minus sign that is at most `limit`.
pub fn parse_natural(chars: &Vec<char>, limit: u32) -> (r: Option<u32>)
    ensures
        (match r {
            Some(n) => Some(n as int),
            None => None,
        }) == natural_value(chars@, limit as int),
{
    if chars.len() > 0 && chars[0] == '-' {
        return None;
    }
    proof {
        if chars@.len() > 0 && all_digits(chars@.skip(1)) {
            digits_are_not_negative(chars@.skip(1));
        }
        if all_digits(chars@) {
            digits_are_not_negative(chars@);
        }
    }
    let n: i64 = match parse_integer(chars) {
        Some(n) => n,
        None => {
            return None;
        },
    };
    if n <= limit as i64 {
        Some(n as u32)
    } else {
        None
    }
}

proof fn digits_are_not_negative(s: Seq<char>)
    requires
        all_digits(s),
    ensures
        digits_value(s) >= 0,
    decreases s.len(),
{
    reveal_with_fuel(digits_value, 2);
    assert(is_digit(s[s.len() - 1]));
    if s.len() > 1 {
        assert forall|i: int| 0 <= i < s.len() - 1 implies is_digit(
            #[trigger] s.drop_last()[i],
        ) by {
            assert(is_digit(s[i]));
        }
        digits_are_not_negative(s.drop_last());
    }
}

/// Reads a signed number that fits in 64 bits.
pub fn parse_integer(chars: &Vec<char>) -> (r: Option<i64>)
    ensures
        r == (match integer_value(chars@) {
            Some(n) => if i64::MIN <= n <= i64::MAX {
                Some(n as i64)
            } else {
                None
            },
            None => None,
        }),
{
    let signed = chars.len() > 0 && (chars[0] == '-' || chars[0] == '+');
    let negative = signed && chars[0] == '-';
    let from: usize = if signed {
        1
    } else {
        0
    };
    let digits = part(chars, from, chars.len());
    proof {
        if signed {
            assert(digits@ =~= chars@.skip(1));
        } else {
            assert(digits@ =~= chars@);
        }
    }
    match read_digits(&digits) {
        None => None,
        Some(n) => {
            proof {
                digits_value_is_natural(digits@);
            }
            if negative {
                if n <= 0x8000_0000_0000_0000 {
                    Some((-(n as i128)) as i64)
                } else {
                    None
                }
            } else if n <= 0x7fff_ffff_ffff_ffff {
                Some(n as i64)
            } else {
                None
            }
        },
    }
}

proof fn digits_value_is_natural(s: Seq<char>)
    requires
        forall|i: int| 0 <= i < s.len() ==> is_digit(#[trigger] s[i]),
    ensures
        digits_value(s) >= 0,
    decreases s.len(),
{
    if s.len() > 0 {
        assert(is_digit(s[s.len() - 1]));
        assert forall|i: int| 0 <= i < s.drop_last().len() implies is_digit(
            #[trigger] s.drop_last()[i],
        ) by {
            assert(is_digit(s[i]));
        }
        digits_value_is_natural(s.drop_last());
    }
}

/// Reading back a number that was written in decimal gives the number.
pub proof fn decimal_reads_back(n: nat)
    ensures
        all_digits(decimal(n)),
        digits_value(decimal(n)) == n,
    decreases n,
{
    if n < 10 {
        assert(decimal(n).drop_last() =~= Seq::<char>::empty());
        assert(digits_value(decimal(n).drop_last()) == 0);
    } else {
        decimal_reads_back(n / 10);
        let s = decimal(n);
        assert(s.drop_last() =~= decimal(n / 10));
        assert forall|i: int| 0 <= i < s.len() implies is_digit(#[trigger] s[i]) by {
            if i < s.len() - 1 {
                assert(is_digit(decimal(n / 10)[i]));
            }
        }
    }
}

proof fn spaces_skipped(s: Seq<char>, from: int)
    requires
        0 <= from <= s.len(),
    ensures
        from <= skip_spaces(s, from) <= s.len(),
        forall|j: int| from <= j < skip_spaces(s, from) ==> is_space(#[trigger] s[j]),
        skip_spaces(s, from) < s.len() ==> !is_space(s[skip_spaces(s, from)]),
    decreases s.len() - from,
{
    if from < s.len() && is_space(s[from]) {
        spaces_skipped(s, from + 1);
    }
}

proof fn spaces_dropped(s: Seq<char>, from: int, to: int)
    requires
        0 <= from <= to <= s.len(),
    ensures
        from <= before_spaces(s, from, to) <= to,
        forall|j: int| before_spaces(s, from, to) <= j < to ==> is_space(#[trigger] s[j]),
        before_spaces(s, from, to) > from ==> !is_space(s[before_spaces(s, from, to) - 1]),
    decreases to - from,
{
    if from < to && is_space(s[to - 1]) {
        spaces_dropped(s, from, to - 1);
    }
}

/// Trimming takes white space off both ends and nothing else: what is left neither begins nor
/// ends with white space, and only white space was taken.
pub proof fn trimming_takes_only_spaces(s: Seq<char>) -> (r: (Seq<char>, Seq<char>))
    ensures
        s == r.0 + trim(s) + r.1,
        forall|j: int| 0 <= j < r.0.len() ==> is_space(#[trigger] r.0[j]),
        forall|j: int| 0 <= j < r.1.len() ==> is_space(#[trigger] r.1[j]),
        trim(s).len() > 0 ==> !is_space(trim(s)[0]) && !is_space(trim(s).last()),
        trim(s).len() > 0 ==> trim_start(s) == trim(s) + r.1,
        trim(s).len() == 0 ==> trim_start(s).len() == 0,
{
    let from = skip_spaces(s, 0);
    spaces_skipped(s, 0);
    spaces_dropped(s, from, s.len() as int);
    let to = before_spaces(s, from, s.len() as int);
    let front = s.take(from);
    let back = s.skip(to);
    assert(s =~= front + trim(s) + back);
    assert(trim_start(s) =~= trim(s) + back);
    (front, back)
}

proof fn joined_from_the_front(texts: Seq<Seq<char>>, separator: Seq<char>)
    requires
        texts.len() > 0,
    ensures
        joined(texts, separator) == if texts.len() == 1 {
            texts[0]
        } else {
            texts[0] + separator + joined(texts.drop_first(), separator)
        },
    decreases texts.len(),
{
    if texts.len() > 1 {
        let front = texts.drop_last();
        let back = texts.drop_first();
        joined_from_the_front(front, separator);
        if texts.len() > 2 {
            assert(back.drop_last() =~= front.drop_first());
            let middle = joined(front.drop_first(), separator);
            assert(texts[0] + separator + middle + separator + texts.last() =~= texts[0]
                + separator + (middle + separator + texts.last()));
        }
    }
}

/// The pieces of a text hold no separator, and the text is what they make with the separator
/// between them.
pub proof fn pieces_join_again(s: Seq<char>, separator: char, from: int)
    requires
        0 <= from <= s.len(),
    ensures
        pieces(s, separator, from).len() > 0,
        joined(pieces(s, separator, from), seq![separator]) == s.skip(from),
        forall|k: int|
            0 <= k < pieces(s, separator, from).len() ==> !(#[trigger] pieces(
                s,
                separator,
                from,
            )[k]).contains(separator),
    decreases s.len() - from,
{
    first_at_is_first(s, separator, from);
    let j = first_at(s, separator, from);
    let all = pieces(s, separator, from);
    if j >= s.len() {
        assert(s.subrange(from, s.len() as int) =~= s.skip(from));
        assert(all.len() == 1);
        joined_from_the_front(all, seq![separator]);
    } else {
        let rest = pieces(s, separator, j + 1);
        pieces_join_again(s, separator, j + 1);
        assert(all.drop_first() =~= rest);
        joined_from_the_front(all, seq![separator]);
        assert(s.subrange(from, j) + seq![separator] + s.skip(j + 1) =~= s.skip(from));
        assert forall|k: int| 0 <= k < all.len() implies !(#[trigger] all[k]).contains(
            separator,
        ) by {
            if k > 0 {
                assert(all[k] == rest[k - 1]);
            }
        }
    }
}

/// A text is cut at its first separator, and not at all when it holds none.
pub proof fn cutting_is_at_the_first(s: Seq<char>, separator: char)
    ensures
        match cut(s, separator) {
            None => !s.contains(separator),
            Some((before, after)) => {
                &&& s == before.push(separator) + after
                &&& !before.contains(separator)
            },
        },
{
    first_at_is_first(s, separator, 0);
    let j = first_at(s, separator, 0);
    if j < s.len() {
        assert(s =~= s.take(j).push(separator) + s.skip(j + 1));
    }
}

/// Of two texts the one comes first that has the smaller character where they first differ; a
/// text comes before those that it starts.
pub proof fn the_first_difference_decides(a: Seq<char>, b: Seq<char>, k: int)
    requires
        0 <= k <= a.len(),
        k <= b.len(),
        forall|j: int| 0 <= j < k ==> a[j] == b[j],
    ensures
        k < a.len() && k < b.len() && a[k] < b[k] ==> precedes(a, b) && !precedes(b, a),
        k == a.len() && k < b.len() ==> precedes(a, b) && !precedes(b, a),
    decreases k,
{
    if k > 0 {
        let (x, y) = (a.drop_first(), b.drop_first());
        assert forall|j: int| 0 <= j < k - 1 implies x[j] == y[j] by {
            assert(x[j] == a[j + 1] && y[j] == b[j + 1]);
        }
        the_first_difference_decides(x, y, k - 1);
    }
}

/// Lower case changes the twenty-six capitals and nothing else.
pub proof fn lower_case_changes_capitals(s: Seq<char>, i: int)
    requires
        0 <= i < s.len(),
    ensures
        lowered(s).len() == s.len(),
        'A' <= s[i] <= 'Z' ==> lowered(s)[i] as int - 'a' as int == s[i] as int - 'A' as int,
        !('A' <= s[i] <= 'Z') ==> lowered(s)[i] == s[i],
        lowered(lowered(s)) == lowered(s),
{
    assert(lowered(lowered(s)) =~= lowered(s));
}

/// The letters and digits, and the white space, by their code points.
pub proof fn characters_by_code_point(c: char)
    ensures
        is_word(c) <==> 48 <= c as int <= 57 || 65 <= c as int <= 90 || 97 <= c as int <= 122,
        is_digit(c) <==> 48 <= c as int <= 57,
        is_space(c) <==> {
            let n = c as int;
            ||| 9 <= n <= 13
            ||| n == 32
            ||| n == 133
            ||| n == 160
            ||| n == 5760
            ||| 8192 <= n <= 8202
            ||| n == 8232
            ||| n == 8233
            ||| n == 8239
            ||| n == 8287
            ||| n == 12288
        },
{
}

/// A number that is written out is read back, as long as it is within the limit; a plus sign
/// before it does not matter, and a minus sign makes it none.
pub proof fn numbers_are_read_back(n: nat, limit: int)
    ensures
        natural_value(decimal(n), limit) == if n <= limit {
            Some(n as int)
        } else {
            None
        },
        natural_value(seq!['+'] + decimal(n), limit) == natural_value(decimal(n), limit),
        natural_value(seq!['-'] + decimal(n), limit) is None,
        integer_value(seq!['-'] + decimal(n)) == Some(-(n as int)),
        integer_value(decimal(n)) == Some(n as int),
        integer_value(seq!['+'] + decimal(n)) == Some(n as int),
        natural_value(Seq::empty(), limit) is None,
{
    decimal_reads_back(n);
    let s = decimal(n);
    assert(is_digit(s[0]));
    assert((seq!['+'] + s).skip(1) =~= s);
    assert((seq!['-'] + s).skip(1) =~= s);
    assert((seq!['+'] + s)[0] == '+');
    assert((seq!['-'] + s)[0] == '-');
}

} // verus!
