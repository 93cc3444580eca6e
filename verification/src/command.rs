//! Commands: a line of text split into words.

use crate::bounded::{ArgVec, ARG_CAPACITY};
use vstd::prelude::*;
use vstd::std_specs::iter::IteratorSpec;
use vstd::string::StrSliceExecFns;

verus! {

/// Why a line is no command.
#[derive(Debug, Clone, Copy, PartialEq, Eq, Structural)]
pub enum ParseError {
    /// The line holds no word.
    Empty,
    /// The line holds more words than a command has room for.
    TooManyArgs,
}

/// The word `open` as a list: no word if it is empty, else that one word.
pub open spec fn closed_word(open: Seq<char>) -> Seq<Seq<char>> {
    if open.len() == 0 {
        Seq::empty()
    } else {
        seq![open]
    }
}

/// The words found by reading `s` from left to right, where `open` holds the
/// characters of the word that has begun before `s`. A space closes the open
/// word; any other character joins it; the end of the text closes it too.
pub open spec fn words_from(s: Seq<char>, open: Seq<char>) -> Seq<Seq<char>>
    decreases s.len(),
{
    if s.len() == 0 {
        closed_word(open)
    } else if s[0] == ' ' {
        closed_word(open) + words_from(s.drop_first(), Seq::empty())
    } else {
        words_from(s.drop_first(), open.push(s[0]))
    }
}

/// The words of a line: its maximal runs of characters other than the space,
/// in the order in which they stand.
pub open spec fn words(s: Seq<char>) -> Seq<Seq<char>> {
    words_from(s, Seq::empty())
}

/// What parsing the line `s` gives.
pub open spec fn parsed(s: Seq<char>) -> Result<Seq<Seq<char>>, ParseError> {
    if words(s).len() == 0 {
        Err(ParseError::Empty)
    } else if words(s).len() > ARG_CAPACITY {
        Err(ParseError::TooManyArgs)
    } else {
        Ok(words(s))
    }
}

/// A command: the words of one line, of which there is at least one.
pub struct Command<'a> {
    args: ArgVec<'a>,
}

impl<'a> View for Command<'a> {
    type V = Seq<Seq<char>>;

    closed spec fn view(&self) -> Seq<Seq<char>> {
        self.args@
    }
}

impl<'a> Command<'a> {
    #[verifier::type_invariant]
    spec fn has_path(&self) -> bool {
        self.args@.len() >= 1
    }

    /// Splits `s` at its spaces into a command. Runs of spaces, and spaces at
    /// either end, yield no empty word.
    pub fn parse(s: &'a str) -> (r: Result<Command<'a>, ParseError>)
        ensures
            match r {
                Ok(command) => parsed(s@) == Ok::<Seq<Seq<char>>, ParseError>(command@),
                Err(e) => parsed(s@) == Err::<Seq<Seq<char>>, ParseError>(e),
            },
    {
        broadcast use vstd::string::group_string_axioms;

        let n = s.unicode_len();
        let mut chars = s.chars();
        let mut args = ArgVec::new();
        let mut start: usize = 0;
        let mut i: usize = 0;
        assert(s@.skip(0) =~= s@);
        assert(s@.subrange(0, 0) =~= Seq::<char>::empty());
        while i < n
            invariant
                n == s@.len(),
                start <= i <= n,
                chars.remaining() == s@.skip(i as int),
                chars.obeys_prophetic_iter_laws(),
                words(s@) == args@ + words_from(s@.skip(i as int), s@.subrange(start as int, i as int)),
            decreases n - i,
        {
            let next = chars.next();
            let ghost open = s@.subrange(start as int, i as int);
            let ghost rest = s@.skip(i as int);
            assert(rest.drop_first() =~= s@.skip(i + 1));
            assert(next == Some(rest[0]));
            if next == Some(' ') {
                assert(s@.subrange(i + 1, i + 1) =~= Seq::<char>::empty());
                if start < i {
                    let word = s.substring_char(start, i);
                    let ghost before = args@;
                    if args.push(word).is_err() {
                        assert(words(s@).len() > ARG_CAPACITY);
                        return Err(ParseError::TooManyArgs);
                    }
                    assert(args@ + words_from(s@.skip(i + 1), Seq::empty()) =~= before + (seq![open]
                        + words_from(s@.skip(i + 1), Seq::empty())));
                }
                start = i + 1;
            } else {
                assert(open.push(rest[0]) =~= s@.subrange(start as int, i + 1));
            }
            i += 1;
        }
        assert(s@.skip(n as int).len() == 0);
        if start < n {
            let word = s.substring_char(start, n);
            if args.push(word).is_err() {
                return Err(ParseError::TooManyArgs);
            }
        }
        assert(args@ =~= words(s@));
        if args.len() == 0 {
            return Err(ParseError::Empty);
        }
        Ok(Command { args })
    }

    /// The words of the command; the first is its path.
    pub fn args(&self) -> (s: &[&'a str])
        ensures
            s@.len() == self@.len(),
            1 <= s@.len() <= ARG_CAPACITY,
            forall|i: int| 0 <= i < s@.len() ==> (#[trigger] s@[i])@ == self@[i],
    {
        proof {
            use_type_invariant(self);
        }
        self.args.as_slice()
    }

    /// The path of the command: its first word.
    pub fn path(&self) -> (p: &'a str)
        ensures
            self@.len() >= 1,
            p@ == self@[0],
    {
        self.args()[0]
    }
}

/// Whether `word` is what a line can hold as one word: it has a character
/// and no space.
pub open spec fn is_word(word: Seq<char>) -> bool {
    word.len() > 0 && forall|k: int| 0 <= k < word.len() ==> word[k] != ' '
}

proof fn lemma_words_from_are_words(s: Seq<char>, open: Seq<char>)
    requires
        forall|k: int| 0 <= k < open.len() ==> open[k] != ' ',
    ensures
        forall|i: int| 0 <= i < words_from(s, open).len() ==> is_word(#[trigger] words_from(s, open)[i]),
    decreases s.len(),
{
    let all = words_from(s, open);
    if s.len() == 0 {
        assert forall|i: int| 0 <= i < all.len() implies is_word(#[trigger] all[i]) by {
            assert(all[i] == open);
        }
    } else if s[0] == ' ' {
        let tail = words_from(s.drop_first(), Seq::empty());
        lemma_words_from_are_words(s.drop_first(), Seq::empty());
        assert forall|i: int| 0 <= i < all.len() implies is_word(#[trigger] all[i]) by {
            if i < closed_word(open).len() {
                assert(all[i] == open);
            } else {
                assert(all[i] == tail[i - closed_word(open).len()]);
            }
        }
    } else {
        let grown = open.push(s[0]);
        assert forall|k: int| 0 <= k < grown.len() implies grown[k] != ' ' by {
            if k < open.len() {
                assert(grown[k] == open[k]);
            }
        }
        lemma_words_from_are_words(s.drop_first(), grown);
        assert(all == words_from(s.drop_first(), grown));
    }
}

/// However the spaces of a line lie, each of its words has a character and
/// none has a space: runs of spaces, and spaces at either end, make no word.
pub proof fn lemma_words_are_words(s: Seq<char>)
    ensures
        forall|i: int| 0 <= i < words(s).len() ==> is_word(#[trigger] words(s)[i]),
{
    lemma_words_from_are_words(s, Seq::empty());
}

proof fn lemma_words_from_blank(s: Seq<char>, open: Seq<char>)
    ensures
        words_from(s, open).len() == 0 <==> open.len() == 0 && forall|k: int|
            0 <= k < s.len() ==> s[k] == ' ',
    decreases s.len(),
{
    if s.len() > 0 {
        let rest = s.drop_first();
        assert(forall|k: int| 0 <= k < rest.len() ==> rest[k] == s[k + 1]);
        if s[0] == ' ' {
            lemma_words_from_blank(rest, Seq::empty());
            if forall|k: int| 0 <= k < rest.len() ==> rest[k] == ' ' {
                assert forall|k: int| 0 <= k < s.len() implies s[k] == ' ' by {
                    if k > 0 {
                        assert(rest[k - 1] == s[k]);
                    }
                }
            }
        } else {
            lemma_words_from_blank(rest, open.push(s[0]));
        }
    }
}

/// A line has no word exactly if it holds nothing but spaces; such a line,
/// the empty one among them, parses as `Empty`, and no other does.
pub proof fn lemma_blank_is_empty(s: Seq<char>)
    ensures
        (forall|k: int| 0 <= k < s.len() ==> s[k] == ' ') <==> parsed(s) == Err::<
            Seq<Seq<char>>,
            ParseError,
        >(ParseError::Empty),
{
    lemma_words_from_blank(s, Seq::empty());
}

/// Read after the open word `open`, a run of characters without a space
/// only makes that word longer.
pub proof fn lemma_words_from_word(word: Seq<char>, open: Seq<char>)
    requires
        forall|k: int| 0 <= k < word.len() ==> word[k] != ' ',
    ensures
        words_from(word, open) == closed_word(open + word),
    decreases word.len(),
{
    if word.len() == 0 {
        assert(open + word =~= open);
    } else {
        let rest = word.drop_first();
        lemma_words_from_word(rest, open.push(word[0]));
        assert(open.push(word[0]) + rest =~= open + word);
    }
}

/// A space and a word at the end of a line add that word to the words of
/// the line.
pub proof fn lemma_words_from_append(s: Seq<char>, open: Seq<char>, word: Seq<char>)
    requires
        is_word(word),
    ensures
        words_from(s + seq![' '] + word, open) == words_from(s, open) + seq![word],
    decreases s.len(),
{
    let line = s + seq![' '] + word;
    if s.len() == 0 {
        assert(line.drop_first() =~= word);
        lemma_words_from_word(word, Seq::empty());
        assert(Seq::<char>::empty() + word =~= word);
    } else {
        assert(line.drop_first() =~= s.drop_first() + seq![' '] + word);
        if s[0] == ' ' {
            lemma_words_from_append(s.drop_first(), Seq::empty(), word);
            assert(closed_word(open) + (words_from(s.drop_first(), Seq::empty()) + seq![word])
                =~= closed_word(open) + words_from(s.drop_first(), Seq::empty()) + seq![word]);
        } else {
            lemma_words_from_append(s.drop_first(), open.push(s[0]), word);
        }
    }
}

} // verus!
