//! Blanks separate lexemes and mean nothing else.
//!
//! The law of this module, [`lemma_blank_separates`], says that the lexemes
//! of two texts joined by a blank are the lexemes of the first followed by
//! those of the second, provided that the first text has lexemes at all. It
//! rests on two facts about the lexer: what it reads from a position on does
//! not depend on what stands before that position, and what it has read to
//! the end of a text it reads alike when a blank and more text follow.

use vstd::prelude::*;
use crate::tokenizer::{
    keyword_false, keyword_true, lemma_lexeme_extent, lex, lex_from, lexeme_at, prefixed,
    string_body, word_at, LexError, Lexeme,
};

verus! {

/// The outcome `outcome` with the position at which it ends moved by `by`.
pub open spec fn moved<T>(outcome: Result<(T, int), LexError>, by: int) -> Result<
    (T, int),
    LexError,
> {
    match outcome {
        Ok((value, end)) => Ok((value, end + by)),
        Err(e) => Err(e),
    }
}

/// A word stands at a position whatever stands before the text.
proof fn lemma_word_moves(before: Seq<char>, s: Seq<char>, i: int, word: Seq<char>)
    requires
        0 <= i,
    ensures
        word_at(before + s, before.len() + i, word) == word_at(s, i, word),
{
    let t = before + s;
    let k = before.len() as int;
    if i + word.len() <= s.len() {
        assert(t.subrange(k + i, k + i + word.len()) =~= s.subrange(i, i + word.len()));
    }
}

/// The body of a string literal is read alike whatever stands before the
/// text.
proof fn lemma_string_body_moves(before: Seq<char>, s: Seq<char>, i: int)
    requires
        0 <= i,
    ensures
        string_body(before + s, before.len() + i) == moved(string_body(s, i), before.len() as int),
    decreases s.len() - i,
{
    let t = before + s;
    let k = before.len() as int;
    if i < s.len() {
        assert(t[k + i] == s[i]);
        if s[i] == '"' {
        } else if s[i] == '\\' {
            if i + 1 < s.len() {
                assert(t[k + i + 1] == s[i + 1]);
                lemma_string_body_moves(before, s, i + 2);
            }
        } else {
            lemma_string_body_moves(before, s, i + 1);
        }
    }
}

/// A lexeme is read alike whatever stands before the text.
proof fn lemma_lexeme_moves(before: Seq<char>, s: Seq<char>, i: int)
    requires
        0 <= i < s.len(),
    ensures
        lexeme_at(before + s, before.len() + i) == moved(lexeme_at(s, i), before.len() as int),
{
    let t = before + s;
    let k = before.len() as int;
    assert(t[k + i] == s[i]);
    if i + 1 < s.len() {
        assert(t[k + i + 1] == s[i + 1]);
    }
    lemma_word_moves(before, s, i, keyword_true());
    lemma_word_moves(before, s, i, keyword_false());
    lemma_string_body_moves(before, s, i + 1);
}

/// What the lexer reads from a position on does not depend on what stands
/// before that position.
pub proof fn lemma_lexing_looks_ahead_only(before: Seq<char>, s: Seq<char>, i: int)
    requires
        0 <= i,
    ensures
        lex_from(before + s, before.len() + i) == lex_from(s, i),
    decreases s.len() - i,
{
    let t = before + s;
    let k = before.len() as int;
    if i < s.len() {
        assert(t[k + i] == s[i]);
        if s[i] == ' ' {
            lemma_lexing_looks_ahead_only(before, s, i + 1);
        } else {
            lemma_lexeme_moves(before, s, i);
            lemma_lexeme_extent(s, i);
            if let Ok((_, end)) = lexeme_at(s, i) {
                lemma_lexing_looks_ahead_only(before, s, end);
            }
        }
    }
}

/// The body of a string literal that ends within a text is read alike when
/// more text follows.
proof fn lemma_string_body_stays(s: Seq<char>, after: Seq<char>, i: int)
    requires
        0 <= i,
        string_body(s, i) is Ok,
    ensures
        string_body(s + after, i) == string_body(s, i),
    decreases s.len() - i,
{
    let t = s + after;
    if i < s.len() {
        assert(t[i] == s[i]);
        if s[i] == '"' {
        } else if s[i] == '\\' {
            if i + 1 < s.len() {
                assert(t[i + 1] == s[i + 1]);
                lemma_string_body_stays(s, after, i + 2);
            }
        } else {
            lemma_string_body_stays(s, after, i + 1);
        }
    }
}

/// A lexeme that ends within a text is read alike when a blank and more text
/// follow.
proof fn lemma_lexeme_stays(s: Seq<char>, after: Seq<char>, i: int)
    requires
        0 <= i < s.len(),
        lexeme_at(s, i) is Ok,
        after.len() > 0 && after[0] == ' ',
    ensures
        lexeme_at(s + after, i) == lexeme_at(s, i),
{
    let t = s + after;
    assert(t[i] == s[i]);
    if i + 1 < s.len() {
        assert(t[i + 1] == s[i + 1]);
    } else {
        assert(t[i + 1] == after[0]);
    }
    if s[i] == 't' {
        assert(t.subrange(i, i + 4) =~= s.subrange(i, i + 4));
    }
    if s[i] == 'f' {
        assert(t.subrange(i, i + 5) =~= s.subrange(i, i + 5));
    }
    if s[i] == '"' {
        lemma_string_body_stays(s, after, i + 1);
    }
}

/// What the lexer reads to the end of a text it reads alike when a blank and
/// more text follow, and then it goes on after the end of the text.
proof fn lemma_lexing_stays(s: Seq<char>, after: Seq<char>, i: int)
    requires
        0 <= i <= s.len(),
        lex_from(s, i) is Ok,
        after.len() > 0 && after[0] == ' ',
    ensures
        lex_from(s + after, i) == prefixed(lex_from(s, i)->Ok_0, lex_from(s + after, s.len() as int)),
    decreases s.len() - i,
{
    let t = s + after;
    let rest = lex_from(t, s.len() as int);
    if i == s.len() {
        if let Ok(r) = rest {
            assert(Seq::<Lexeme>::empty() + r =~= r);
        }
    } else {
        assert(t[i] == s[i]);
        if s[i] == ' ' {
            lemma_lexing_stays(s, after, i + 1);
        } else {
            lemma_lexeme_stays(s, after, i);
            lemma_lexeme_extent(s, i);
            let (lexeme, end) = lexeme_at(s, i)->Ok_0;
            lemma_lexing_stays(s, after, end);
            let tail = lex_from(s, end)->Ok_0;
            if let Ok(r) = rest {
                assert(seq![lexeme] + (tail + r) =~= (seq![lexeme] + tail) + r);
            }
        }
    }
}

/// The lexemes of two texts joined by a blank are the lexemes of the first
/// text followed by those of the second, or the lexical error of the second.
pub proof fn lemma_blank_separates(first: Seq<char>, second: Seq<char>)
    requires
        lex(first) is Ok,
    ensures
        lex(first + seq![' '] + second) == prefixed(lex(first)->Ok_0, lex(second)),
{
    let after = seq![' '] + second;
    let t = first + after;
    assert(first + seq![' '] + second =~= t);
    lemma_lexing_stays(first, after, 0);
    assert(t[first.len() as int] == ' ');
    assert(t =~= (first + seq![' ']) + second);
    lemma_lexing_looks_ahead_only(first + seq![' '], second, 0);
}

/// Blanks at the start and at the end of a text mean nothing.
pub proof fn lemma_blanks_around_mean_nothing(s: Seq<char>)
    ensures
        lex(seq![' '] + s) == lex(s),
        lex(s + seq![' ']) == lex(s),
{
    let blank = seq![' '];
    assert((blank + s)[0] == ' ');
    lemma_lexing_looks_ahead_only(blank, s, 0);
    lemma_blank_at_end_means_nothing(s, 0);
}

/// A blank at the end of a text changes nothing of what the lexer reads
/// from any position on.
proof fn lemma_blank_at_end_means_nothing(s: Seq<char>, i: int)
    requires
        0 <= i,
    ensures
        lex_from(s + seq![' '], i) == lex_from(s, i),
    decreases s.len() - i,
{
    let t = s + seq![' '];
    if i < s.len() {
        assert(t[i] == s[i]);
        if s[i] == ' ' {
            lemma_blank_at_end_means_nothing(s, i + 1);
        } else {
            lemma_lexeme_with_blank_at_end(s, i);
            lemma_lexeme_extent(s, i);
            if let Ok((_, end)) = lexeme_at(s, i) {
                lemma_blank_at_end_means_nothing(s, end);
            }
        }
    } else if i == s.len() {
        assert(t[i] == ' ');
        assert(lex_from(t, i) == lex_from(t, i + 1));
    }
}

/// A blank at the end of a text changes no lexeme of it, and no lexical
/// error.
proof fn lemma_lexeme_with_blank_at_end(s: Seq<char>, i: int)
    requires
        0 <= i < s.len(),
    ensures
        lexeme_at(s + seq![' '], i) == lexeme_at(s, i),
{
    let t = s + seq![' '];
    assert(t[i] == s[i]);
    if i + 1 < s.len() {
        assert(t[i + 1] == s[i + 1]);
    } else {
        assert(t[i + 1] == ' ');
    }
    if s[i] == 't' {
        if i + 4 <= s.len() {
            assert(t.subrange(i, i + 4) =~= s.subrange(i, i + 4));
        } else if i + 4 == t.len() {
            assert(t.subrange(i, i + 4)[3] == ' ');
        }
    }
    if s[i] == 'f' {
        if i + 5 <= s.len() {
            assert(t.subrange(i, i + 5) =~= s.subrange(i, i + 5));
        } else if i + 5 == t.len() {
            assert(t.subrange(i, i + 5)[4] == ' ');
        }
    }
    if s[i] == '"' {
        lemma_string_body_with_blank_at_end(s, i + 1);
    }
}

/// A blank at the end of a text closes no string literal.
proof fn lemma_string_body_with_blank_at_end(s: Seq<char>, i: int)
    requires
        0 <= i,
    ensures
        string_body(s + seq![' '], i) == string_body(s, i),
    decreases s.len() - i,
{
    let t = s + seq![' '];
    if i < s.len() {
        assert(t[i] == s[i]);
        if s[i] == '"' {
        } else if s[i] == '\\' {
            if i + 1 < s.len() {
                assert(t[i + 1] == s[i + 1]);
                lemma_string_body_with_blank_at_end(s, i + 2);
            } else {
                assert(t[i + 1] == ' ');
                reveal_with_fuel(string_body, 2);
            }
        } else {
            lemma_string_body_with_blank_at_end(s, i + 1);
        }
    } else if i == s.len() {
        assert(t[i] == ' ');
        reveal_with_fuel(string_body, 2);
    }
}

} // verus!
