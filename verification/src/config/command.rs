//! Command lines.

use crate::text::{chars_of, is_space, is_space_char, joined, string_of, views};
use vstd::prelude::*;

verus! {

/// How far the reading of a command line has come.
#[verifier::ext_equal]
pub struct Reading {
    /// The words that are complete.
    pub words: Seq<Seq<char>>,
    /// The word that is being read.
    pub word: Seq<char>,
    /// The quote that is open.
    pub quote: Option<char>,
    /// True when the word counts even if it stays empty.
    pub quoted: bool,
}

impl Reading {
    /// Nothing read yet.
    pub open spec fn start() -> Reading {
        Reading { words: seq![], word: seq![], quote: None, quoted: false }
    }

    /// The reading with the current word completed, if there is one.
    pub open spec fn completed(self) -> Reading {
        if self.quoted || self.word.len() > 0 {
            Reading { words: self.words.push(self.word), word: seq![], quoted: false, ..self }
        } else {
            self
        }
    }

    /// The reading after one more character. Inside quotes everything but the closing quote
    /// belongs to the word; outside them white space ends it.
    pub open spec fn with(self, c: char) -> Reading {
        match self.quote {
            Some(open) => if c == open {
                Reading { quote: None, ..self }
            } else {
                Reading { word: self.word.push(c), ..self }
            },
            None => if c == '\'' || c == '"' {
                Reading { quote: Some(c), quoted: true, ..self }
            } else if is_space(c) {
                self.completed()
            } else {
                Reading { word: self.word.push(c), ..self }
            },
        }
    }
}

/// The reading after the characters `s[from..]`.
pub open spec fn read_from(reading: Reading, s: Seq<char>, from: int) -> Reading
    decreases s.len() - from,
{
    if from < 0 || from >= s.len() {
        reading
    } else {
        read_from(reading.with(s[from]), s, from + 1)
    }
}

/// The words of a command line.
pub open spec fn command_words(s: Seq<char>) -> Seq<Seq<char>> {
    read_from(Reading::start(), s, 0).completed().words
}

/// Splits a command line into words, honouring single and double quotes.
///
/// Used for the configured terminal command and for `.desktop` Exec lines, neither of which is
/// run through a shell.
pub fn split_command(command: &str) -> (r: Vec<String>)
    ensures
        views(r@) == command_words(command@),
{
    let chars = chars_of(command);
    let mut words: Vec<String> = Vec::new();
    let mut word: Vec<char> = Vec::new();
    let mut quote: Option<char> = None;
    let mut had_word = false;
    let mut i: usize = 0;
    let ghost mut now = Reading::start();
    assert(views(words@) =~= seq![]);
    while i < chars.len()
        invariant
            i <= chars.len(),
            chars@ == command@,
            now == (Reading { words: views(words@), word: word@, quote, quoted: had_word }),
            read_from(Reading::start(), command@, 0) == read_from(now, command@, i as int),
        decreases chars.len() - i,
    {
        let c = chars[i];
        let ghost next = now.with(c);
        match quote {
            Some(open) => {
                if c == open {
                    quote = None;
                } else {
                    word.push(c);
                }
            },
            None => {
                if c == '\'' || c == '"' {
                    quote = Some(c);
                    had_word = true;
                } else if is_space_char(c) {
                    if had_word || word.len() > 0 {
                        let ghost before = views(words@);
                        words.push(string_of(&word));
                        assert(views(words@) =~= before.push(word@));
                        word = Vec::new();
                        had_word = false;
                    }
                } else {
                    word.push(c);
                }
            },
        }
        proof {
            assert(next =~= (Reading { words: views(words@), word: word@, quote, quoted: had_word }));
            now = next;
        }
        i = i + 1;
    }
    if had_word || word.len() > 0 {
        let ghost before = views(words@);
        words.push(string_of(&word));
        assert(views(words@) =~= before.push(word@));
    }
    words
}

/// True when a word needs no quotes: it is not empty and holds neither quotes nor white space.
pub open spec fn is_plain_word(word: Seq<char>) -> bool {
    word.len() > 0 && forall|i: int|
        0 <= i < word.len() ==> {
            let c = #[trigger] word[i];
            c != '\'' && c != '"' && !is_space(c)
        }
}

proof fn read_from_joins(reading: Reading, s: Seq<char>, t: Seq<char>, from: int)
    requires
        0 <= from <= s.len(),
    ensures
        read_from(reading, s + t, from) == read_from(read_from(reading, s, from), t, 0),
    decreases s.len() - from,
{
    if from < s.len() {
        assert((s + t)[from] == s[from]);
        read_from_joins(reading.with(s[from]), s, t, from + 1);
    } else {
        read_suffix(reading, s, t, 0);
    }
}

proof fn read_suffix(reading: Reading, s: Seq<char>, t: Seq<char>, from: int)
    requires
        0 <= from <= t.len(),
    ensures
        read_from(reading, s + t, s.len() + from) == read_from(reading, t, from),
    decreases t.len() - from,
{
    if from < t.len() {
        assert((s + t)[s.len() + from] == t[from]);
        read_suffix(reading.with(t[from]), s, t, from + 1);
    }
}

proof fn plain_word_is_read(reading: Reading, word: Seq<char>, from: int)
    requires
        is_plain_word(word),
        0 <= from <= word.len(),
        reading.quote is None,
    ensures
        read_from(reading, word, from) == (Reading {
            word: reading.word + word.skip(from),
            ..reading
        }),
    decreases word.len() - from,
{
    if from < word.len() {
        let next = Reading { word: reading.word.push(word[from]), ..reading };
        assert(reading.with(word[from]) == next);
        plain_word_is_read(next, word, from + 1);
        assert(next.word + word.skip(from + 1) =~= reading.word + word.skip(from));
    } else {
        assert(reading.word + word.skip(from) =~= reading.word);
    }
}

proof fn joined_words_are_read(words: Seq<Seq<char>>)
    requires
        words.len() > 0,
        forall|i: int| 0 <= i < words.len() ==> is_plain_word(#[trigger] words[i]),
    ensures
        read_from(Reading::start(), joined(words, " "@), 0) == (Reading {
            words: words.drop_last(),
            word: words.last(),
            quote: None,
            quoted: false,
        }),
    decreases words.len(),
{
    reveal_strlit(" ");
    let last = words.last();
    assert(is_plain_word(words[words.len() - 1]));
    let empty = Seq::<char>::empty();
    if words.len() == 1 {
        plain_word_is_read(Reading::start(), last, 0);
        assert(empty + last.skip(0) =~= last);
        assert(words.drop_last() =~= seq![]);
    } else {
        let front = words.drop_last();
        assert forall|i: int| 0 <= i < front.len() implies is_plain_word(#[trigger] front[i]) by {
            assert(is_plain_word(words[i]));
        }
        joined_words_are_read(front);
        let s = joined(front, " "@);
        let tail = " "@ + last;
        assert(joined(words, " "@) =~= s + tail);
        read_from_joins(Reading::start(), s, tail, 0);
        let mid = read_from(Reading::start(), s, 0);
        read_from_joins(mid, " "@, last, 0);
        reveal_with_fuel(read_from, 2);
        let gap = mid.with(' ');
        assert(is_plain_word(front[front.len() - 1]));
        assert(gap == mid.completed());
        assert(read_from(mid, " "@, 0) == gap);
        plain_word_is_read(gap, last, 0);
        assert(empty + last.skip(0) =~= last);
        assert(front.drop_last().push(front.last()) =~= front);
    }
}

/// Words that need no quotes, joined by single spaces, split back into the same words.
pub proof fn plain_words_split_back(words: Seq<Seq<char>>)
    requires
        forall|i: int| 0 <= i < words.len() ==> is_plain_word(#[trigger] words[i]),
    ensures
        command_words(joined(words, " "@)) == words,
{
    if words.len() == 0 {
        assert(command_words(joined(words, " "@)) =~= words);
    } else {
        joined_words_are_read(words);
        assert(is_plain_word(words[words.len() - 1]));
        assert(words.drop_last().push(words.last()) =~= words);
    }
}

proof fn quoted_text_is_read(reading: Reading, text: Seq<char>, open: char, from: int)
    requires
        0 <= from <= text.len(),
        reading.quote == Some(open),
        !text.contains(open),
    ensures
        read_from(reading, text, from) == (Reading {
            word: reading.word + text.skip(from),
            ..reading
        }),
    decreases text.len() - from,
{
    if from < text.len() {
        assert(text[from] != open);
        quoted_text_is_read(reading.with(text[from]), text, open, from + 1);
        assert(reading.word.push(text[from]) + text.skip(from + 1) =~= reading.word + text.skip(
            from,
        ));
    } else {
        assert(reading.word + text.skip(from) =~= reading.word);
    }
}

/// Some words, each between quotation marks.
pub open spec fn in_quotes(words: Seq<Seq<char>>, open: char) -> Seq<Seq<char>> {
    words.map_values(|word: Seq<char>| seq![open] + word + seq![open])
}

proof fn quoted_word_is_read(reading: Reading, word: Seq<char>, open: char)
    requires
        open == '\'' || open == '"',
        reading.quote is None,
        !word.contains(open),
    ensures
        read_from(reading, seq![open] + word + seq![open], 0) == (Reading {
            word: reading.word + word,
            quoted: true,
            ..reading
        }),
{
    let one = seq![open];
    let begun = reading.with(open);
    reveal_with_fuel(read_from, 2);
    assert(read_from(reading, one, 0) == begun);
    read_from_joins(reading, one + word, one, 0);
    read_from_joins(reading, one, word, 0);
    quoted_text_is_read(begun, word, open, 0);
    assert(word.skip(0) =~= word);
    let inside = read_from(begun, word, 0);
    assert(read_from(inside, one, 0) == inside.with(open));
}

proof fn quoted_words_are_read(words: Seq<Seq<char>>, open: char)
    requires
        open == '\'' || open == '"',
        words.len() > 0,
        forall|i: int| 0 <= i < words.len() ==> !(#[trigger] words[i]).contains(open),
    ensures
        read_from(Reading::start(), joined(in_quotes(words, open), " "@), 0) == (Reading {
            words: words.drop_last(),
            word: words.last(),
            quote: None,
            quoted: true,
        }),
    decreases words.len(),
{
    reveal_strlit(" ");
    let quoted = in_quotes(words, open);
    let last = seq![open] + words.last() + seq![open];
    assert(quoted.last() == last);
    if words.len() == 1 {
        quoted_word_is_read(Reading::start(), words[0], open);
        assert(Seq::<char>::empty() + words[0] =~= words[0]);
        assert(words.drop_last() =~= seq![]);
    } else {
        let less = words.drop_last();
        quoted_words_are_read(less, open);
        assert(quoted.drop_last() =~= in_quotes(less, open));
        let front = joined(quoted.drop_last(), " "@);
        read_from_joins(Reading::start(), front + " "@, last, 0);
        read_from_joins(Reading::start(), front, " "@, 0);
        let before = read_from(Reading::start(), front, 0);
        reveal_with_fuel(read_from, 2);
        assert(read_from(before, " "@, 0) == before.with(' '));
        assert(before.with(' ') == before.completed());
        assert(less.drop_last().push(less.last()) =~= less);
        quoted_word_is_read(before.completed(), words.last(), open);
        assert(Seq::<char>::empty() + words.last() =~= words.last());
    }
}

/// Words between quotation marks of one kind stay as they are, with any spaces, marks of the
/// other kind or nothing at all between them.
pub proof fn quoted_words_split_back(words: Seq<Seq<char>>, open: char)
    requires
        open == '\'' || open == '"',
        forall|i: int| 0 <= i < words.len() ==> !(#[trigger] words[i]).contains(open),
    ensures
        command_words(joined(in_quotes(words, open), " "@)) == words,
{
    if words.len() > 0 {
        quoted_words_are_read(words, open);
        assert(words.drop_last().push(words.last()) =~= words);
    } else {
        assert(joined(in_quotes(words, open), " "@) =~= Seq::<char>::empty());
        assert(command_words(Seq::empty()) =~= words);
    }
}

/// White space of any kind parts words, and quotation marks inside a word do not.
pub proof fn spaces_part_words(one: Seq<char>, space: char, two: Seq<char>, open: char)
    requires
        is_plain_word(one),
        is_plain_word(two),
        is_space(space),
        open == '\'' || open == '"',
    ensures
        command_words(one + seq![space] + two) == seq![one, two],
        command_words(one + (seq![open] + two + seq![open])) == seq![one + two],
{
    let start = Reading::start();
    plain_word_is_read(start, one, 0);
    assert(one.skip(0) =~= one && two.skip(0) =~= two);
    assert(Seq::<char>::empty() + one =~= one);
    assert(Seq::<char>::empty() + two =~= two);
    let first = read_from(start, one, 0);
    reveal_with_fuel(read_from, 2);
    read_from_joins(start, one + seq![space], two, 0);
    read_from_joins(start, one, seq![space], 0);
    assert(read_from(first, seq![space], 0) == first.with(space));
    plain_word_is_read(first.with(space), two, 0);
    assert(seq![].push(one).push(two) =~= seq![one, two]);
    let quoted = seq![open] + two + seq![open];
    read_from_joins(start, one, quoted, 0);
    assert(!two.contains(open)) by {
        if two.contains(open) {
            let k = choose|k: int| 0 <= k < two.len() && two[k] == open;
            assert(two[k] == open);
        }
    }
    quoted_word_is_read(first, two, open);
    assert(seq![].push(one + two) =~= seq![one + two]);
}

} // verus!
