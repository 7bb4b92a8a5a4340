//! Lexical analysis: from source text to tokens.
//!
//! The meaning of the lexer is the spec function [`lex`], defined directly on
//! the sequence of characters; [`tokenize`] is proved to compute it.

use vstd::prelude::*;
use vstd::string::StringExecFns;

verus! {

/// A lexical unit of the expression language.
#[derive(Debug, PartialEq)]
pub enum Token {
    True,
    False,
    StringLiteral(String),
    Not,
    NotEqual,
    Equal,
    LParen,
    RParen,
    And,
    Or,
}

/// The mathematical value of a [`Token`]: a string literal is its sequence of
/// characters.
pub enum Lexeme {
    True,
    False,
    StringLiteral(Seq<char>),
    Not,
    NotEqual,
    Equal,
    LParen,
    RParen,
    And,
    Or,
}

impl View for Token {
    type V = Lexeme;

    open spec fn view(&self) -> Lexeme {
        match self {
            Token::True => Lexeme::True,
            Token::False => Lexeme::False,
            Token::StringLiteral(s) => Lexeme::StringLiteral(s@),
            Token::Not => Lexeme::Not,
            Token::NotEqual => Lexeme::NotEqual,
            Token::Equal => Lexeme::Equal,
            Token::LParen => Lexeme::LParen,
            Token::RParen => Lexeme::RParen,
            Token::And => Lexeme::And,
            Token::Or => Lexeme::Or,
        }
    }
}

/// The lexemes that a sequence of tokens stands for.
pub open spec fn lexemes(tokens: Seq<Token>) -> Seq<Lexeme> {
    tokens.map_values(|t: Token| t@)
}

/// Why a source text has no token sequence.
#[derive(Debug, PartialEq, Eq, Clone, Copy)]
pub enum LexError {
    /// A character that starts no token.
    UnexpectedCharacter(char),
    /// One of `=`, `&`, `|` that is not followed by a second one.
    IncompleteOperator(char),
    /// Text that starts with `t` or `f` and is neither `true` nor `false`.
    MisspelledKeyword,
    /// A string literal whose closing quote is missing.
    UnterminatedString,
}

impl LexError {
    /// The text of [`LexError::message`].
    pub open spec fn text(self) -> Seq<char> {
        match self {
            LexError::UnexpectedCharacter(c) => "unexpected character '"@.push(c).push('\''),
            LexError::IncompleteOperator(c) => "incomplete operator: expected a second '"@.push(
                c,
            ).push('\''),
            LexError::MisspelledKeyword => "misspelled keyword: expected true or false"@,
            LexError::UnterminatedString => "unterminated string literal"@,
        }
    }
}

/// The keyword `true`.
pub open spec fn keyword_true() -> Seq<char> {
    seq!['t', 'r', 'u', 'e']
}

/// The keyword `false`.
pub open spec fn keyword_false() -> Seq<char> {
    seq!['f', 'a', 'l', 's', 'e']
}

/// Whether `word` stands in `s` at position `i`.
pub open spec fn word_at(s: Seq<char>, i: int, word: Seq<char>) -> bool {
    0 <= i && i + word.len() <= s.len() && s.subrange(i, i + word.len()) == word
}

/// `head` followed by the lexemes of a successful outcome; a failure is kept
/// as it is.
pub open spec fn prefixed<A, E>(head: Seq<A>, tail: Result<Seq<A>, E>) -> Result<Seq<A>, E> {
    match tail {
        Ok(rest) => Ok(head + rest),
        Err(e) => Err(e),
    }
}

/// As [`prefixed`], for an outcome that also carries the position at which it
/// ends.
pub open spec fn prefixed_until<A, E>(head: Seq<A>, tail: Result<(Seq<A>, int), E>) -> Result<
    (Seq<A>, int),
    E,
> {
    match tail {
        Ok((rest, end)) => Ok((head + rest, end)),
        Err(e) => Err(e),
    }
}

/// The content of a string literal whose opening quote stands just before
/// position `i`, together with the position after its closing quote.
///
/// A backslash followed by a quote contributes the quote alone; a backslash
/// followed by any other character contributes both. The literal is
/// unterminated when the text ends before an unescaped quote.
pub open spec fn string_body(s: Seq<char>, i: int) -> Result<(Seq<char>, int), LexError>
    decreases s.len() - i,
{
    if i < 0 || i >= s.len() {
        Err(LexError::UnterminatedString)
    } else if s[i] == '"' {
        Ok((Seq::empty(), i + 1))
    } else if s[i] == '\\' {
        if i + 1 >= s.len() {
            Err(LexError::UnterminatedString)
        } else if s[i + 1] == '"' {
            prefixed_until(seq!['"'], string_body(s, i + 2))
        } else {
            prefixed_until(seq!['\\', s[i + 1]], string_body(s, i + 2))
        }
    } else {
        prefixed_until(seq![s[i]], string_body(s, i + 1))
    }
}

/// The lexeme that starts at position `i` of `s`, where a character other
/// than a blank stands, together with the position after it.
pub open spec fn lexeme_at(s: Seq<char>, i: int) -> Result<(Lexeme, int), LexError>
    recommends
        0 <= i < s.len(),
{
    let c = s[i];
    let doubled = i + 1 < s.len() && s[i + 1] == c;
    if c == '(' {
        Ok((Lexeme::LParen, i + 1))
    } else if c == ')' {
        Ok((Lexeme::RParen, i + 1))
    } else if c == '!' {
        if i + 1 < s.len() && s[i + 1] == '=' {
            Ok((Lexeme::NotEqual, i + 2))
        } else {
            Ok((Lexeme::Not, i + 1))
        }
    } else if c == '=' {
        if doubled {
            Ok((Lexeme::Equal, i + 2))
        } else {
            Err(LexError::IncompleteOperator(c))
        }
    } else if c == '&' {
        if doubled {
            Ok((Lexeme::And, i + 2))
        } else {
            Err(LexError::IncompleteOperator(c))
        }
    } else if c == '|' {
        if doubled {
            Ok((Lexeme::Or, i + 2))
        } else {
            Err(LexError::IncompleteOperator(c))
        }
    } else if c == 't' {
        if word_at(s, i, keyword_true()) {
            Ok((Lexeme::True, i + 4))
        } else {
            Err(LexError::MisspelledKeyword)
        }
    } else if c == 'f' {
        if word_at(s, i, keyword_false()) {
            Ok((Lexeme::False, i + 5))
        } else {
            Err(LexError::MisspelledKeyword)
        }
    } else if c == '"' {
        match string_body(s, i + 1) {
            Ok((content, end)) => Ok((Lexeme::StringLiteral(content), end)),
            Err(e) => Err(e),
        }
    } else {
        Err(LexError::UnexpectedCharacter(c))
    }
}

/// The lexemes of `s` from position `i` on, or the first lexical error met
/// when reading from left to right. Blanks separate lexemes and mean nothing
/// else.
pub open spec fn lex_from(s: Seq<char>, i: int) -> Result<Seq<Lexeme>, LexError>
    decreases s.len() - i,
{
    if i < 0 || i >= s.len() {
        Ok(Seq::empty())
    } else if s[i] == ' ' {
        lex_from(s, i + 1)
    } else {
        match lexeme_at(s, i) {
            Ok((lexeme, end)) => {
                proof {
                    lemma_lexeme_extent(s, i);
                }
                prefixed(seq![lexeme], lex_from(s, end))
            },
            Err(e) => Err(e),
        }
    }
}

/// The lexemes of the source text `s`, or its first lexical error.
pub open spec fn lex(s: Seq<char>) -> Result<Seq<Lexeme>, LexError> {
    lex_from(s, 0)
}

/// A string literal ends after the position at which its body starts, and
/// within the text.
pub proof fn lemma_string_body_extent(s: Seq<char>, i: int)
    requires
        0 <= i,
    ensures
        string_body(s, i) matches Ok((_, end)) ==> i < end <= s.len(),
    decreases s.len() - i,
{
    if i < s.len() && s[i] != '"' {
        if s[i] == '\\' {
            if i + 1 < s.len() {
                lemma_string_body_extent(s, i + 2);
            }
        } else {
            lemma_string_body_extent(s, i + 1);
        }
    }
}

/// A lexeme is at least one character long and ends within the text.
pub proof fn lemma_lexeme_extent(s: Seq<char>, i: int)
    requires
        0 <= i < s.len(),
    ensures
        lexeme_at(s, i) matches Ok((_, end)) ==> i < end <= s.len(),
{
    if s[i] == '"' {
        lemma_string_body_extent(s, i + 1);
    }
}

/// The keyword `true` stands at `i` exactly when its four characters do.
proof fn lemma_true_at(s: Seq<char>, i: int)
    requires
        0 <= i,
    ensures
        word_at(s, i, keyword_true()) <==> i + 4 <= s.len() && s[i] == 't' && s[i + 1] == 'r'
            && s[i + 2] == 'u' && s[i + 3] == 'e',
{
    if i + 4 <= s.len() {
        let w = s.subrange(i, i + 4);
        assert(w[0] == s[i] && w[1] == s[i + 1] && w[2] == s[i + 2] && w[3] == s[i + 3]);
        if s[i] == 't' && s[i + 1] == 'r' && s[i + 2] == 'u' && s[i + 3] == 'e' {
            assert(w =~= keyword_true());
        }
    }
}

/// The keyword `false` stands at `i` exactly when its five characters do.
proof fn lemma_false_at(s: Seq<char>, i: int)
    requires
        0 <= i,
    ensures
        word_at(s, i, keyword_false()) <==> i + 5 <= s.len() && s[i] == 'f' && s[i + 1] == 'a'
            && s[i + 2] == 'l' && s[i + 3] == 's' && s[i + 4] == 'e',
{
    if i + 5 <= s.len() {
        let w = s.subrange(i, i + 5);
        assert(w[0] == s[i] && w[1] == s[i + 1] && w[2] == s[i + 2] && w[3] == s[i + 3] && w[4]
            == s[i + 4]);
        if s[i] == 'f' && s[i + 1] == 'a' && s[i + 2] == 'l' && s[i + 3] == 's' && s[i + 4]
            == 'e' {
            assert(w =~= keyword_false());
        }
    }
}

/// `String::push` of the standard library: the string afterwards is the
/// string before with `ch` appended at its end.
pub assume_specification[ std::string::String::push ](s: &mut std::string::String, ch: char)
    ensures
        final(s)@ == old(s)@.push(ch),
;

impl LexError {
    /// A description of the error for a human reader.
    pub fn message(&self) -> (message: String)
        ensures
            message@ == self.text(),
    {
        match self {
            LexError::UnexpectedCharacter(c) => {
                let mut message = String::from_str("unexpected character '");
                message.push(*c);
                message.push('\'');
                message
            },
            LexError::IncompleteOperator(c) => {
                let mut message = String::from_str("incomplete operator: expected a second '");
                message.push(*c);
                message.push('\'');
                message
            },
            LexError::MisspelledKeyword => String::from_str(
                "misspelled keyword: expected true or false",
            ),
            LexError::UnterminatedString => String::from_str("unterminated string literal"),
        }
    }
}

/// The characters of `input`, in order.
fn characters(input: &str) -> (chars: Vec<char>)
    ensures
        chars@ == input@,
{
    let mut chars: Vec<char> = Vec::new();
    for c in it: input.chars()
        invariant
            chars@ == it.seq().take(it.index()),
            it.seq() == input@,
    {
        chars.push(c);
    }
    chars
}

/// Reads the body of a string literal that was opened just before `start`.
fn string_literal(chars: &Vec<char>, start: usize) -> (result: Result<(String, usize), LexError>)
    requires
        start <= chars.len(),
    ensures
        match string_body(chars@, start as int) {
            Ok((content, end)) => result matches Ok((text, next)) && text@ == content && next
                == end,
            Err(e) => result matches Err(err) && err == e,
        },
{
    let n = chars.len();
    let mut text = String::new();
    let mut i = start;
    while i < n
        invariant
            start <= i <= n,
            n == chars.len(),
            string_body(chars@, start as int) == prefixed_until(
                text@,
                string_body(chars@, i as int),
            ),
        decreases n - i,
    {
        let ghost before = text@;
        let c = chars[i];
        if c == '"' {
            assert(before + Seq::<char>::empty() =~= before);
            return Ok((text, i + 1));
        } else if c == '\\' {
            if n - i > 1 {
                let d = chars[i + 1];
                if d == '"' {
                    text.push('"');
                    assert(text@ =~= before + seq!['"']);
                } else {
                    text.push('\\');
                    text.push(d);
                    assert(text@ =~= before + seq!['\\', d]);
                }
                proof {
                    lemma_prefixed_until_twice(
                        before,
                        if d == '"' {
                            seq!['"']
                        } else {
                            seq!['\\', d]
                        },
                        string_body(chars@, i + 2),
                    );
                }
                i += 2;
            } else {
                return Err(LexError::UnterminatedString);
            }
        } else {
            text.push(c);
            proof {
                assert(text@ =~= before + seq![c]);
                lemma_prefixed_until_twice(before, seq![c], string_body(chars@, i + 1));
            }
            i += 1;
        }
    }
    Err(LexError::UnterminatedString)
}

/// Prefixing twice is prefixing with the concatenation.
proof fn lemma_prefixed_until_twice<A, E>(
    a: Seq<A>,
    b: Seq<A>,
    tail: Result<(Seq<A>, int), E>,
)
    ensures
        prefixed_until(a, prefixed_until(b, tail)) == prefixed_until(a + b, tail),
{
    if let Ok((rest, _)) = tail {
        assert(a + (b + rest) =~= (a + b) + rest);
    }
}

/// Prefixing twice is prefixing with the concatenation.
proof fn lemma_prefixed_twice<A, E>(a: Seq<A>, b: Seq<A>, tail: Result<Seq<A>, E>)
    ensures
        prefixed(a, prefixed(b, tail)) == prefixed(a + b, tail),
{
    if let Ok(rest) = tail {
        assert(a + (b + rest) =~= (a + b) + rest);
    }
}

/// Splits source text into tokens.
///
/// The result is the token sequence that [`lex`] assigns to the text, or the
/// first lexical error in it.
pub fn tokenize(input: &str) -> (result: Result<Vec<Token>, LexError>)
    ensures
        match lex(input@) {
            Ok(expected) => result matches Ok(tokens) && lexemes(tokens@) == expected,
            Err(e) => result matches Err(err) && err == e,
        },
{
    let chars = characters(input);
    let n = chars.len();
    let mut tokens: Vec<Token> = Vec::new();
    let mut i: usize = 0;
    assert(lexemes(tokens@) =~= Seq::<Lexeme>::empty());
    assert(Seq::<Lexeme>::empty() + lex_from(chars@, 0)->Ok_0 =~= lex_from(chars@, 0)->Ok_0);
    while i < n
        invariant
            i <= n,
            n == chars.len(),
            chars@ == input@,
            lex(input@) == prefixed(lexemes(tokens@), lex_from(chars@, i as int)),
        decreases n - i,
    {
        let ghost done = lexemes(tokens@);
        let ghost s = chars@;
        let c = chars[i];
        proof {
            lemma_lexeme_extent(s, i as int);
            lemma_true_at(s, i as int);
            lemma_false_at(s, i as int);
        }
        if c == ' ' {
            i += 1;
        } else {
            let next: usize;
            let token: Token;
            if c == '(' {
                token = Token::LParen;
                next = i + 1;
            } else if c == ')' {
                token = Token::RParen;
                next = i + 1;
            } else if c == '!' {
                if n - i > 1 && chars[i + 1] == '=' {
                    token = Token::NotEqual;
                    next = i + 2;
                } else {
                    token = Token::Not;
                    next = i + 1;
                }
            } else if c == '=' {
                if n - i > 1 && chars[i + 1] == '=' {
                    token = Token::Equal;
                    next = i + 2;
                } else {
                    return Err(LexError::IncompleteOperator(c));
                }
            } else if c == '&' {
                if n - i > 1 && chars[i + 1] == '&' {
                    token = Token::And;
                    next = i + 2;
                } else {
                    return Err(LexError::IncompleteOperator(c));
                }
            } else if c == '|' {
                if n - i > 1 && chars[i + 1] == '|' {
                    token = Token::Or;
                    next = i + 2;
                } else {
                    return Err(LexError::IncompleteOperator(c));
                }
            } else if c == 't' {
                if n - i >= 4 && chars[i + 1] == 'r' && chars[i + 2] == 'u' && chars[i + 3] == 'e' {
                    token = Token::True;
                    next = i + 4;
                } else {
                    return Err(LexError::MisspelledKeyword);
                }
            } else if c == 'f' {
                if n - i >= 5 && chars[i + 1] == 'a' && chars[i + 2] == 'l' && chars[i + 3] == 's'
                    && chars[i + 4] == 'e' {
                    token = Token::False;
                    next = i + 5;
                } else {
                    return Err(LexError::MisspelledKeyword);
                }
            } else if c == '"' {
                match string_literal(&chars, i + 1) {
                    Ok((text, end)) => {
                        token = Token::StringLiteral(text);
                        next = end;
                    },
                    Err(e) => {
                        return Err(e);
                    },
                }
            } else {
                return Err(LexError::UnexpectedCharacter(c));
            }
            proof {
                assert(lexeme_at(s, i as int) == Ok::<(Lexeme, int), LexError>(
                    (token@, next as int),
                ));
                assert(lexemes(tokens@.push(token)) =~= done + seq![token@]);
                lemma_prefixed_twice(done, seq![token@], lex_from(s, next as int));
            }
            tokens.push(token);
            i = next;
        }
    }
    assert(lexemes(tokens@) + Seq::<Lexeme>::empty() =~= lexemes(tokens@));
    Ok(tokens)
}

} // verus!
