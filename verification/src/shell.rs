//! Quoting for a POSIX shell.
use vstd::prelude::*;
use crate::text::char_vec;

verus! {

/// How one character stands inside single quotes. A single quote ends them, stands in double
/// quotes, and opens them again.
pub open spec fn quoted_char(c: char) -> Seq<char> {
    if c == '\'' {
        seq!['\'', '"', '\'', '"', '\'']
    } else {
        seq![c]
    }
}

/// How a text stands inside single quotes.
pub open spec fn quoted_body(s: Seq<char>) -> Seq<char>
    decreases s.len(),
{
    if s.len() == 0 {
        seq![]
    } else {
        quoted_char(s.first()) + quoted_body(s.drop_first())
    }
}

/// A text as one shell word.
pub open spec fn quoted(s: Seq<char>) -> Seq<char> {
    seq!['\''] + quoted_body(s) + seq!['\'']
}

/// Quoting one more character.
proof fn lemma_quoted_push(s: Seq<char>, c: char)
    ensures
        quoted_body(s.push(c)) == quoted_body(s) + quoted_char(c),
    decreases s.len(),
{
    if s.len() == 0 {
        assert(s.push(c).drop_first() =~= seq![]);
        assert(quoted_body(s.push(c).drop_first()) =~= seq![]);
        assert(quoted_body(s.push(c)) =~= quoted_body(s) + quoted_char(c));
    } else {
        lemma_quoted_push(s.drop_first(), c);
        assert(s.push(c).drop_first() =~= s.drop_first().push(c));
        assert(quoted_body(s.push(c)) =~= quoted_body(s) + quoted_char(c));
    }
}

/// A text as one shell word.
pub fn shell_quote(value: &str) -> (word: String)
    ensures
        word@ == quoted(value@),
{
    let chars: Vec<char> = char_vec(value);
    let n: usize = chars.len();
    let mut word: String = String::new();
    word.push('\'');
    let mut i: usize = 0;
    assert(word@ =~= seq!['\''] + quoted_body(value@.subrange(0, 0)));
    while i < n
        invariant
            chars@ == value@,
            n == chars@.len(),
            i <= n,
            word@ == seq!['\''] + quoted_body(value@.subrange(0, i as int)),
        decreases n - i,
    {
        let c: char = chars[i];
        let ghost before = word@;
        if c == '\'' {
            word.push('\'');
            word.push('"');
            word.push('\'');
            word.push('"');
            word.push('\'');
        } else {
            word.push(c);
        }
        proof {
            assert(word@ =~= before + quoted_char(c));
            lemma_quoted_push(value@.subrange(0, i as int), c);
            assert(value@.subrange(0, i as int).push(c) =~= value@.subrange(0, i + 1));
            assert(word@ =~= seq!['\''] + quoted_body(value@.subrange(0, i + 1)));
        }
        i = i + 1;
    }
    assert(value@.subrange(0, n as int) =~= value@);
    word.push('\'');
    assert(word@ =~= quoted(value@));
    word
}

/// The quotes that a POSIX shell is inside of while it reads a word.
pub enum Quotes {
    Outside,
    Single,
    Double,
}

/// What a POSIX shell makes of a word whose every character stands in quotes, read from `s` on
/// with `word` already read. Inside single quotes every character stands for itself; inside
/// double quotes `$`, `` ` `` and `\` do not, and a word with one of those there has no value
/// here; neither has one with a character outside of quotes, or with quotes left open.
pub open spec fn shell_word(s: Seq<char>, quotes: Quotes, word: Seq<char>) -> Option<Seq<char>>
    decreases s.len(),
{
    if s.len() == 0 {
        if quotes is Outside {
            Some(word)
        } else {
            None
        }
    } else {
        let c = s.first();
        let rest = s.drop_first();
        match quotes {
            Quotes::Outside => if c == '\'' {
                shell_word(rest, Quotes::Single, word)
            } else if c == '"' {
                shell_word(rest, Quotes::Double, word)
            } else {
                None
            },
            Quotes::Single => if c == '\'' {
                shell_word(rest, Quotes::Outside, word)
            } else {
                shell_word(rest, Quotes::Single, word.push(c))
            },
            Quotes::Double => if c == '"' {
                shell_word(rest, Quotes::Outside, word)
            } else if c == '$' || c == '`' || c == '\\' {
                None
            } else {
                shell_word(rest, Quotes::Double, word.push(c))
            },
        }
    }
}

/// One character back out of its quotes.
proof fn lemma_unquote_char(c: char, rest: Seq<char>, word: Seq<char>)
    ensures
        shell_word(quoted_char(c) + rest, Quotes::Single, word) == shell_word(
            rest,
            Quotes::Single,
            word.push(c),
        ),
{
    let s0 = quoted_char(c) + rest;
    if c == '\'' {
        let s1 = seq!['"', '\'', '"', '\''] + rest;
        let s2 = seq!['\'', '"', '\''] + rest;
        let s3 = seq!['"', '\''] + rest;
        let s4 = seq!['\''] + rest;
        assert(s0.drop_first() =~= s1);
        assert(s1.drop_first() =~= s2);
        assert(s2.drop_first() =~= s3);
        assert(s3.drop_first() =~= s4);
        assert(s4.drop_first() =~= rest);
        assert(s1.first() == '"' && s2.first() == '\'' && s3.first() == '"' && s4.first() == '\'');
        assert(shell_word(s0, Quotes::Single, word) == shell_word(s1, Quotes::Outside, word));
        assert(shell_word(s1, Quotes::Outside, word) == shell_word(s2, Quotes::Double, word));
        assert(shell_word(s2, Quotes::Double, word) == shell_word(
            s3,
            Quotes::Double,
            word.push(c),
        ));
        assert(shell_word(s3, Quotes::Double, word.push(c)) == shell_word(
            s4,
            Quotes::Outside,
            word.push(c),
        ));
    } else {
        assert(s0.drop_first() =~= rest);
    }
}

/// A quoted text back out of its quotes.
proof fn lemma_unquote_body(s: Seq<char>, rest: Seq<char>, word: Seq<char>)
    ensures
        shell_word(quoted_body(s) + rest, Quotes::Single, word) == shell_word(
            rest,
            Quotes::Single,
            word + s,
        ),
    decreases s.len(),
{
    if s.len() == 0 {
        assert(quoted_body(s) + rest =~= rest);
        assert(word + s =~= word);
    } else {
        let tail = quoted_body(s.drop_first()) + rest;
        assert(quoted_body(s) + rest =~= quoted_char(s.first()) + tail);
        lemma_unquote_char(s.first(), tail, word);
        lemma_unquote_body(s.drop_first(), rest, word.push(s.first()));
        assert(word.push(s.first()) + s.drop_first() =~= word + s);
    }
}

/// A shell reads a quoted text back as exactly that text, whatever is in it.
pub proof fn law_shell_reads_quoted_text_back(s: Seq<char>)
    ensures
        shell_word(quoted(s), Quotes::Outside, seq![]) == Some(s),
{
    let close = seq!['\''];
    let opened = quoted_body(s) + close;
    assert(quoted(s).drop_first() =~= opened);
    lemma_unquote_body(s, close, seq![]);
    assert(seq![] + s =~= s);
    assert(close.drop_first() =~= seq![]);
    assert(shell_word(close, Quotes::Single, s) == shell_word(
        close.drop_first(),
        Quotes::Outside,
        s,
    ));
}

} // verus!
