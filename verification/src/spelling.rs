//! The spelling of lexemes, and the proof that the lexer reads it back.
//!
//! Each lexeme is spelled as the lexer expects it and followed by one blank.
//! A string literal is spelled between quotes, with a backslash before each
//! quote of its content. Not every sequence of characters is the content of
//! a literal: read from the left, a backslash in the content always comes
//! with one more character, which is no quote. Such contents are called
//! quotable here, and they are all that the lexer ever gives.

use vstd::prelude::*;
use crate::tokenizer::{
    keyword_false, keyword_true, lemma_lexeme_extent, lex, lex_from, lexeme_at, prefixed_until,
    string_body, word_at, LexError, Lexeme,
};

verus! {

/// Whether `content` can be the content of a string literal: read from the
/// left, each backslash is followed by one more character, which is no quote
/// and belongs to that backslash.
pub open spec fn quotable(content: Seq<char>) -> bool
    decreases content.len(),
{
    if content.len() == 0 {
        true
    } else if content[0] == '\\' {
        content.len() >= 2 && content[1] != '"' && quotable(content.skip(2))
    } else {
        quotable(content.skip(1))
    }
}

/// What stands between the quotes of a literal with the quotable content
/// `content`: a quote gets a backslash before it, everything else stands as
/// it is.
pub open spec fn escaped(content: Seq<char>) -> Seq<char>
    decreases content.len(),
{
    if content.len() == 0 {
        Seq::empty()
    } else if content[0] == '"' {
        seq!['\\', '"'] + escaped(content.skip(1))
    } else if content[0] == '\\' && content.len() >= 2 {
        seq!['\\', content[1]] + escaped(content.skip(2))
    } else {
        seq![content[0]] + escaped(content.skip(1))
    }
}

/// The characters of one lexeme.
pub open spec fn spelling(lexeme: Lexeme) -> Seq<char> {
    match lexeme {
        Lexeme::True => keyword_true(),
        Lexeme::False => keyword_false(),
        Lexeme::StringLiteral(content) => seq!['"'] + escaped(content) + seq!['"'],
        Lexeme::Not => seq!['!'],
        Lexeme::NotEqual => seq!['!', '='],
        Lexeme::Equal => seq!['=', '='],
        Lexeme::LParen => seq!['('],
        Lexeme::RParen => seq![')'],
        Lexeme::And => seq!['&', '&'],
        Lexeme::Or => seq!['|', '|'],
    }
}

/// The characters of a sequence of lexemes: each lexeme is followed by one
/// blank.
pub open spec fn spelled(ts: Seq<Lexeme>) -> Seq<char>
    decreases ts.len(),
{
    if ts.len() == 0 {
        Seq::empty()
    } else {
        spelling(ts[0]) + seq![' '] + spelled(ts.skip(1))
    }
}

/// Whether a lexeme can be spelled: a string literal needs a quotable
/// content.
pub open spec fn spellable(lexeme: Lexeme) -> bool {
    match lexeme {
        Lexeme::StringLiteral(content) => quotable(content),
        _ => true,
    }
}

/// Whether the items `w` stand in `s` from position `pos` on.
pub open spec fn stands_at<A>(s: Seq<A>, pos: int, w: Seq<A>) -> bool {
    &&& 0 <= pos
    &&& pos + w.len() <= s.len()
    &&& forall|i: int| 0 <= i < w.len() ==> s[pos + i] == #[trigger] w[i]
}

/// Where `a` followed by `b` stands, `a` stands, and `b` stands after it.
pub proof fn lemma_stands_apart<A>(s: Seq<A>, pos: int, a: Seq<A>, b: Seq<A>)
    requires
        stands_at(s, pos, a + b),
    ensures
        stands_at(s, pos, a),
        stands_at(s, pos + a.len(), b),
{
    let w = a + b;
    assert forall|i: int| 0 <= i < a.len() implies s[pos + i] == #[trigger] a[i] by {
        assert(w[i] == a[i]);
    }
    assert forall|i: int| 0 <= i < b.len() implies s[pos + a.len() + i] == #[trigger] b[i] by {
        assert(w[a.len() + i] == b[i]);
    }
}

/// A word that stands in a text is found there by the lexer.
proof fn lemma_word_stands(s: Seq<char>, pos: int, word: Seq<char>)
    requires
        stands_at(s, pos, word),
    ensures
        word_at(s, pos, word),
{
    assert(s.subrange(pos, pos + word.len()) =~= word);
}

/// The lexer reads the content of a literal back from its escaped form: where
/// the escaped form of a quotable content and a quote after it stand, the
/// body of a string literal is that content, and it ends after the quote.
pub proof fn lemma_escaped_content_is_read(s: Seq<char>, pos: int, content: Seq<char>)
    requires
        quotable(content),
        stands_at(s, pos, escaped(content) + seq!['"']),
    ensures
        string_body(s, pos) == Ok::<(Seq<char>, int), LexError>(
            (content, pos + escaped(content).len() + 1),
        ),
    decreases content.len(),
{
    let w = escaped(content) + seq!['"'];
    assert(s[pos] == w[0]);
    if content.len() == 0 {
        assert(content =~= Seq::<char>::empty());
    } else {
        let read = if content[0] == '\\' {
            seq!['\\', content[1]]
        } else {
            seq![content[0]]
        };
        let unit = if content[0] == '"' {
            seq!['\\', '"']
        } else {
            read
        };
        let rest = content.skip(read.len() as int);
        assert(w =~= unit + (escaped(rest) + seq!['"']));
        lemma_stands_apart(s, pos, unit, escaped(rest) + seq!['"']);
        assert(s[pos] == unit[0]);
        if unit.len() == 2 {
            assert(s[pos + 1] == unit[1]);
        }
        lemma_escaped_content_is_read(s, pos + unit.len(), rest);
        assert(content =~= read + rest);
        assert(string_body(s, pos) == prefixed_until(read, string_body(s, pos + unit.len())));
    }
}

/// The content of every string literal that the lexer reads is quotable.
pub proof fn lemma_read_content_is_quotable(s: Seq<char>, pos: int)
    requires
        0 <= pos,
    ensures
        string_body(s, pos) matches Ok((content, _)) ==> quotable(content),
    decreases s.len() - pos,
{
    if pos < s.len() && s[pos] != '"' {
        if s[pos] == '\\' {
            if pos + 1 < s.len() {
                lemma_read_content_is_quotable(s, pos + 2);
                if let Ok((rest, end)) = string_body(s, pos + 2) {
                    if s[pos + 1] == '"' {
                        assert((seq!['"'] + rest).skip(1) =~= rest);
                    } else {
                        assert((seq!['\\', s[pos + 1]] + rest).skip(2) =~= rest);
                    }
                }
            }
        } else {
            lemma_read_content_is_quotable(s, pos + 1);
            if let Ok((rest, end)) = string_body(s, pos + 1) {
                assert((seq![s[pos]] + rest).skip(1) =~= rest);
            }
        }
    }
}

/// Every lexeme that the lexer reads can be spelled.
pub proof fn lemma_read_lexemes_are_spellable(s: Seq<char>, pos: int)
    requires
        0 <= pos,
    ensures
        lex_from(s, pos) matches Ok(ts) ==> forall|i: int|
            0 <= i < ts.len() ==> spellable(#[trigger] ts[i]),
    decreases s.len() - pos,
{
    if pos < s.len() {
        if s[pos] == ' ' {
            lemma_read_lexemes_are_spellable(s, pos + 1);
        } else if let Ok((lexeme, end)) = lexeme_at(s, pos) {
            lemma_lexeme_extent(s, pos);
            lemma_read_content_is_quotable(s, pos + 1);
            lemma_read_lexemes_are_spellable(s, end);
            if let Ok(rest) = lex_from(s, end) {
                let ts = seq![lexeme] + rest;
                assert forall|i: int| 0 <= i < ts.len() implies spellable(#[trigger] ts[i]) by {
                    if i > 0 {
                        assert(ts[i] == rest[i - 1]);
                    }
                }
            }
        }
    }
}

/// Where the spelling of a lexeme and a blank after it stand, the lexer
/// reads that lexeme, and it ends before the blank.
pub proof fn lemma_spelling_is_read(s: Seq<char>, pos: int, lexeme: Lexeme)
    requires
        spellable(lexeme),
        stands_at(s, pos, spelling(lexeme) + seq![' ']),
    ensures
        spelling(lexeme).len() >= 1,
        s[pos] != ' ',
        lexeme_at(s, pos) == Ok::<(Lexeme, int), LexError>((lexeme, pos + spelling(lexeme).len())),
{
    let sp = spelling(lexeme);
    let w = sp + seq![' '];
    lemma_stands_apart(s, pos, sp, seq![' ']);
    assert(s[pos + sp.len()] == seq![' '][0]);
    assert(s[pos] == w[0]);
    match lexeme {
        Lexeme::True => {
            lemma_word_stands(s, pos, keyword_true());
        },
        Lexeme::False => {
            lemma_word_stands(s, pos, keyword_false());
        },
        Lexeme::StringLiteral(content) => {
            assert(sp =~= seq!['"'] + (escaped(content) + seq!['"']));
            lemma_stands_apart(s, pos, seq!['"'], escaped(content) + seq!['"']);
            lemma_escaped_content_is_read(s, pos + 1, content);
        },
        Lexeme::Not => {},
        Lexeme::LParen => {},
        Lexeme::RParen => {},
        _ => {
            assert(s[pos + 1] == w[1]);
        },
    }
}

/// Where the spelling of a sequence of lexemes stands at the end of a text,
/// the lexer reads those lexemes from there on.
pub proof fn lemma_spelled_is_read(s: Seq<char>, pos: int, ts: Seq<Lexeme>)
    requires
        forall|i: int| 0 <= i < ts.len() ==> spellable(#[trigger] ts[i]),
        stands_at(s, pos, spelled(ts)),
        pos + spelled(ts).len() == s.len(),
    ensures
        lex_from(s, pos) == Ok::<Seq<Lexeme>, LexError>(ts),
    decreases ts.len(),
{
    if ts.len() == 0 {
        assert(ts =~= Seq::<Lexeme>::empty());
    } else {
        let head = spelling(ts[0]) + seq![' '];
        let rest = ts.skip(1);
        lemma_stands_apart(s, pos, head, spelled(rest));
        lemma_spelling_is_read(s, pos, ts[0]);
        let next = pos + head.len();
        assert(s[next - 1] == head[head.len() - 1]);
        assert forall|i: int| 0 <= i < rest.len() implies spellable(#[trigger] rest[i]) by {
            assert(rest[i] == ts[i + 1]);
        }
        lemma_spelled_is_read(s, next, rest);
        assert(lex_from(s, next - 1) == lex_from(s, next));
        assert(seq![ts[0]] + rest =~= ts);
    }
}

/// A sequence of lexemes that can be spelled is what the lexer reads from
/// its spelling.
pub proof fn lemma_lexemes_are_read_back(ts: Seq<Lexeme>)
    requires
        forall|i: int| 0 <= i < ts.len() ==> spellable(#[trigger] ts[i]),
    ensures
        lex(spelled(ts)) == Ok::<Seq<Lexeme>, LexError>(ts),
{
    lemma_spelled_is_read(spelled(ts), 0, ts);
}

} // verus!
