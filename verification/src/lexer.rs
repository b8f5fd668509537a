//! The tokenizer of the formula surface syntax.
//!
//! A formula is ASCII text: identifiers are maximal alphabetic runs
//! (case-sensitive, letters only), the words `true` and `false` are
//! literals, the symbols are `&`, `|`, `!`, `=>`, `(` and `)`, and
//! whitespace between tokens is skipped. Any other character yields one
//! [`Token::Error`] per occurrence; the tokenizer keeps producing tokens and
//! leaves it to the parser to turn the first error token into a parse
//! failure. The function [`spec_lex`] is the mathematical definition of this
//! token grammar and [`tokenize`] is proved to compute exactly it.

use vstd::prelude::*;
use vstd::string::StrSliceExecFns;

verus! {

/// Marker for text the tokenizer cannot read.
#[derive(Debug, Clone, Copy, PartialEq, Eq, Structural)]
pub struct LexicalError;

/// A lexical token.
#[derive(Debug)]
pub enum Token {
    Identifier(String),
    And,
    Or,
    Not,
    Implies,
    True,
    False,
    LeftParen,
    RightParen,
    Error,
}

/// The specification-level image of a token: the same tag with identifier
/// contents abstracted to a character sequence.
pub enum TokenModel {
    Identifier(Seq<char>),
    And,
    Or,
    Not,
    Implies,
    True,
    False,
    LeftParen,
    RightParen,
    Error,
}

impl View for Token {
    type V = TokenModel;

    open spec fn view(&self) -> TokenModel {
        match self {
            Token::Identifier(name) => TokenModel::Identifier(name@),
            Token::And => TokenModel::And,
            Token::Or => TokenModel::Or,
            Token::Not => TokenModel::Not,
            Token::Implies => TokenModel::Implies,
            Token::True => TokenModel::True,
            Token::False => TokenModel::False,
            Token::LeftParen => TokenModel::LeftParen,
            Token::RightParen => TokenModel::RightParen,
            Token::Error => TokenModel::Error,
        }
    }
}

impl DeepView for Token {
    type V = TokenModel;

    open spec fn deep_view(&self) -> TokenModel {
        self@
    }
}

/// Whitespace between tokens: space, tab, newline or form feed.
pub open spec fn is_whitespace_char(c: char) -> bool {
    c == ' ' || c == '\t' || c == '\n' || c == '\x0c'
}

/// A letter of an identifier: ASCII only, both cases.
pub open spec fn is_letter_char(c: char) -> bool {
    ('a' <= c && c <= 'z') || ('A' <= c && c <= 'Z')
}

/// The length of the maximal alphabetic run at the front of the text.
pub open spec fn letter_run_len(s: Seq<char>) -> nat
    decreases s.len(),
{
    if s.len() == 0 || !is_letter_char(s[0]) {
        0
    } else {
        1 + letter_run_len(s.skip(1))
    }
}

/// The maximal alphabetic run at the front is never longer than the text.
pub proof fn lemma_letter_run_len_le(s: Seq<char>)
    ensures
        letter_run_len(s) <= s.len(),
    decreases s.len(),
{
    if s.len() > 0 && is_letter_char(s[0]) {
        lemma_letter_run_len_le(s.skip(1));
    }
}

/// A run of `k` letters followed by the end of the text or a non-letter is
/// exactly the maximal run.
pub proof fn lemma_letter_run_len_exact(s: Seq<char>, k: int)
    requires
        0 <= k <= s.len(),
        forall|t: int| 0 <= t < k ==> is_letter_char(s[t]),
        k == s.len() || !is_letter_char(s[k]),
    ensures
        letter_run_len(s) == k,
    decreases k,
{
    if k == 0 {
    } else {
        assert(is_letter_char(s[0]));
        assert forall|t: int| 0 <= t < k - 1 implies is_letter_char(s.skip(1)[t]) by {
            assert(s.skip(1)[t] == s[t + 1]);
        }
        if k < s.len() {
            assert(s.skip(1)[k - 1] == s[k]);
        }
        lemma_letter_run_len_exact(s.skip(1), k - 1);
    }
}

/// The token an alphabetic run stands for: one of the two literal words, or
/// an identifier.
pub open spec fn word_token(w: Seq<char>) -> TokenModel {
    if w == seq!['t', 'r', 'u', 'e'] {
        TokenModel::True
    } else if w == seq!['f', 'a', 'l', 's', 'e'] {
        TokenModel::False
    } else {
        TokenModel::Identifier(w)
    }
}

/// The token sequence of a text: the mathematical definition of the lexical
/// grammar.
pub open spec fn spec_lex(s: Seq<char>) -> Seq<TokenModel>
    decreases s.len(),
    via spec_lex_decreases
{
    if s.len() == 0 {
        Seq::empty()
    } else if is_whitespace_char(s[0]) {
        spec_lex(s.skip(1))
    } else if is_letter_char(s[0]) {
        seq![word_token(s.take(letter_run_len(s) as int))] + spec_lex(s.skip(
            letter_run_len(s) as int,
        ))
    } else if s[0] == '&' {
        seq![TokenModel::And] + spec_lex(s.skip(1))
    } else if s[0] == '|' {
        seq![TokenModel::Or] + spec_lex(s.skip(1))
    } else if s[0] == '!' {
        seq![TokenModel::Not] + spec_lex(s.skip(1))
    } else if s[0] == '(' {
        seq![TokenModel::LeftParen] + spec_lex(s.skip(1))
    } else if s[0] == ')' {
        seq![TokenModel::RightParen] + spec_lex(s.skip(1))
    } else if s.len() >= 2 && s[0] == '=' && s[1] == '>' {
        seq![TokenModel::Implies] + spec_lex(s.skip(2))
    } else {
        seq![TokenModel::Error] + spec_lex(s.skip(1))
    }
}

#[via_fn]
proof fn spec_lex_decreases(s: Seq<char>) {
    if s.len() > 0 && !is_whitespace_char(s[0]) && is_letter_char(s[0]) {
        lemma_letter_run_len_le(s);
        assert(letter_run_len(s) >= 1);
    }
}

/// Whether the character is whitespace between tokens.
fn is_whitespace(c: char) -> (r: bool)
    ensures
        r == is_whitespace_char(c),
{
    c == ' ' || c == '\t' || c == '\n' || c == '\x0c'
}

/// Whether the character is a letter of an identifier.
fn is_letter(c: char) -> (r: bool)
    ensures
        r == is_letter_char(c),
{
    ('a' <= c && c <= 'z') || ('A' <= c && c <= 'Z')
}

/// Turns a text into its token sequence, exactly as [`spec_lex`] defines it.
pub fn tokenize(input: &str) -> (tokens: Vec<Token>)
    ensures
        tokens.deep_view() == spec_lex(input@),
{
    let length = input.unicode_len();
    let mut tokens: Vec<Token> = Vec::new();
    let mut i: usize = 0;
    proof {
        assert(input@.skip(0) =~= input@);
    }
    while i < length
        invariant
            i <= length,
            length == input@.len(),
            spec_lex(input@) == tokens.deep_view() + spec_lex(input@.skip(i as int)),
        decreases length - i,
    {
        let ghost prefix = tokens.deep_view();
        let ghost rest = input@.skip(i as int);
        let c = input.get_char(i);
        proof {
            assert(rest[0] == input@[i as int]);
            assert(rest.skip(1) =~= input@.skip(i as int + 1));
        }
        if is_whitespace(c) {
            i = i + 1;
        } else if is_letter(c) {
            let mut j: usize = i + 1;
            while j < length
                invariant_except_break
                    i < j <= length,
                    length == input@.len(),
                    forall|t: int| i <= t < j ==> is_letter_char(input@[t]),
                ensures
                    i < j <= length,
                    forall|t: int| i <= t < j ==> is_letter_char(input@[t]),
                    j == length || !is_letter_char(input@[j as int]),
                decreases length - j,
            {
                if !is_letter(input.get_char(j)) {
                    break ;
                }
                j = j + 1;
            }
            proof {
                assert forall|t: int| 0 <= t < j - i implies is_letter_char(rest[t]) by {
                    assert(rest[t] == input@[i + t]);
                }
                if j < length {
                    assert(rest[j - i] == input@[j as int]);
                }
                lemma_letter_run_len_exact(rest, j - i);
                assert(rest.take(j - i) =~= input@.subrange(i as int, j as int));
                assert(rest.skip(j - i) =~= input@.skip(j as int));
            }
            let word = input.substring_char(i, j).to_owned();
            let token = if j - i == 4 && input.get_char(i) == 't' && input.get_char(i + 1) == 'r'
                && input.get_char(i + 2) == 'u' && input.get_char(i + 3) == 'e' {
                proof {
                    assert(word@ =~= seq!['t', 'r', 'u', 'e']);
                }
                Token::True
            } else if j - i == 5 && input.get_char(i) == 'f' && input.get_char(i + 1) == 'a'
                && input.get_char(i + 2) == 'l' && input.get_char(i + 3) == 's' && input.get_char(
                i + 4,
            ) == 'e' {
                proof {
                    assert(word@ =~= seq!['f', 'a', 'l', 's', 'e']);
                }
                Token::False
            } else {
                proof {
                    if word@ == seq!['t', 'r', 'u', 'e'] {
                        assert(word@.len() == 4);
                        assert(input@[i as int] == 't');
                        assert(input@[i as int + 1] == 'r');
                        assert(input@[i as int + 2] == 'u');
                        assert(input@[i as int + 3] == 'e');
                        assert(false);
                    }
                    if word@ == seq!['f', 'a', 'l', 's', 'e'] {
                        assert(word@.len() == 5);
                        assert(input@[i as int] == 'f');
                        assert(input@[i as int + 1] == 'a');
                        assert(input@[i as int + 2] == 'l');
                        assert(input@[i as int + 3] == 's');
                        assert(input@[i as int + 4] == 'e');
                        assert(false);
                    }
                }
                Token::Identifier(word)
            };
            proof {
                assert(spec_lex(rest) == seq![word_token(rest.take(j - i))] + spec_lex(
                    rest.skip(j - i),
                ));
            }
            tokens.push(token);
            proof {
                assert(tokens.deep_view() =~= prefix.push(word_token(rest.take(j - i))));
                assert(tokens.deep_view() + spec_lex(input@.skip(j as int)) =~= prefix + spec_lex(
                    rest,
                ));
            }
            i = j;
        } else if c == '&' {
            tokens.push(Token::And);
            proof {
                assert(tokens.deep_view() + spec_lex(input@.skip(i as int + 1)) =~= prefix
                    + spec_lex(rest));
            }
            i = i + 1;
        } else if c == '|' {
            tokens.push(Token::Or);
            proof {
                assert(tokens.deep_view() + spec_lex(input@.skip(i as int + 1)) =~= prefix
                    + spec_lex(rest));
            }
            i = i + 1;
        } else if c == '!' {
            tokens.push(Token::Not);
            proof {
                assert(tokens.deep_view() + spec_lex(input@.skip(i as int + 1)) =~= prefix
                    + spec_lex(rest));
            }
            i = i + 1;
        } else if c == '(' {
            tokens.push(Token::LeftParen);
            proof {
                assert(tokens.deep_view() + spec_lex(input@.skip(i as int + 1)) =~= prefix
                    + spec_lex(rest));
            }
            i = i + 1;
        } else if c == ')' {
            tokens.push(Token::RightParen);
            proof {
                assert(tokens.deep_view() + spec_lex(input@.skip(i as int + 1)) =~= prefix
                    + spec_lex(rest));
            }
            i = i + 1;
        } else if c == '=' && i + 1 < length && input.get_char(i + 1) == '>' {
            proof {
                assert(rest[1] == input@[i as int + 1]);
                assert(rest.skip(2) =~= input@.skip(i as int + 2));
            }
            tokens.push(Token::Implies);
            proof {
                assert(tokens.deep_view() + spec_lex(input@.skip(i as int + 2)) =~= prefix
                    + spec_lex(rest));
            }
            i = i + 2;
        } else {
            proof {
                if rest.len() >= 2 && rest[0] == '=' && rest[1] == '>' {
                    assert(input@[i as int + 1] == '>');
                }
            }
            tokens.push(Token::Error);
            proof {
                assert(tokens.deep_view() + spec_lex(input@.skip(i as int + 1)) =~= prefix
                    + spec_lex(rest));
            }
            i = i + 1;
        }
    }
    proof {
        assert(input@.skip(length as int).len() == 0);
        assert(tokens.deep_view() + spec_lex(input@.skip(length as int)) =~= tokens.deep_view());
    }
    tokens
}

/// A token stream over a fixed piece of text: the tokens of the text handed
/// out front to back, each exactly once.
pub struct Lexer {
    tokens: Vec<Token>,
}

impl Lexer {
    /// The tokens the lexer has not yet handed out.
    pub closed spec fn stream(&self) -> Seq<TokenModel> {
        self.tokens.deep_view()
    }

    /// Builds a token stream for the given text.
    pub fn new(input: &str) -> (lexer: Lexer)
        ensures
            lexer.stream() == spec_lex(input@),
    {
        Lexer { tokens: tokenize(input) }
    }

    /// Hands out the next token, or nothing once the text is exhausted.
    pub fn next(&mut self) -> (token: Option<Token>)
        ensures
            match token {
                Some(t) => old(self).stream().len() > 0 && t@ == old(self).stream()[0]
                    && final(self).stream() == old(self).stream().skip(1),
                None => old(self).stream().len() == 0 && final(self).stream() == old(self).stream(),
            },
    {
        if self.tokens.len() > 0 {
            let token = self.tokens.remove(0);
            proof {
                assert(self.tokens.deep_view() =~= old(self).tokens.deep_view().skip(1));
            }
            Some(token)
        } else {
            None
        }
    }
}

} // verus!
