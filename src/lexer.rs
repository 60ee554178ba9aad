//! The lexer: source text to tokens, in one left-to-right scan.
use vstd::prelude::*;
use crate::chars::{chars_of, is_letter, is_space, letter, space, string_of, push_char};
use crate::token::{Token, TokenKind, TokenView, word_kind};

verus! {

/// The only lexical fault: a string literal with no closing quote on its line.
#[derive(Clone, Copy, Debug, PartialEq, Eq, Structural)]
pub enum LexError {
    UnterminatedStringLiteral,
}

/// Length of the run of letters that `s` starts with.
pub open spec fn word_len(s: Seq<char>) -> nat
    decreases s.len(),
{
    if s.len() > 0 && is_letter(s[0]) {
        1 + word_len(s.drop_first())
    } else {
        0
    }
}

/// Length of the text before the first line feed of `s` (all of `s` if it has none).
pub open spec fn line_len(s: Seq<char>) -> nat
    decreases s.len(),
{
    if s.len() > 0 && s[0] != '\n' {
        1 + line_len(s.drop_first())
    } else {
        0
    }
}

/// Length of the text before the first double quote or line feed of `s`.
pub open spec fn literal_len(s: Seq<char>) -> nat
    decreases s.len(),
{
    if s.len() > 0 && s[0] != '"' && s[0] != '\n' {
        1 + literal_len(s.drop_first())
    } else {
        0
    }
}

pub proof fn lemma_word_len(s: Seq<char>)
    ensures
        word_len(s) <= s.len(),
        s.len() > 0 && is_letter(s[0]) ==> word_len(s) >= 1,
        forall|k: int| 0 <= k < word_len(s) ==> is_letter(#[trigger] s[k]),
        word_len(s) < s.len() ==> !is_letter(s[word_len(s) as int]),
    decreases s.len(),
{
    if s.len() > 0 && is_letter(s[0]) {
        lemma_word_len(s.drop_first());
        assert forall|k: int| 0 <= k < word_len(s) implies is_letter(#[trigger] s[k]) by {
            if k > 0 {
                assert(s[k] == s.drop_first()[k - 1]);
            }
        }
    }
}

pub proof fn lemma_line_len(s: Seq<char>)
    ensures
        line_len(s) <= s.len(),
        forall|k: int| 0 <= k < line_len(s) ==> #[trigger] s[k] != '\n',
        line_len(s) < s.len() ==> s[line_len(s) as int] == '\n',
    decreases s.len(),
{
    if s.len() > 0 && s[0] != '\n' {
        lemma_line_len(s.drop_first());
        assert forall|k: int| 0 <= k < line_len(s) implies #[trigger] s[k] != '\n' by {
            if k > 0 {
                assert(s[k] == s.drop_first()[k - 1]);
            }
        }
    }
}

pub proof fn lemma_literal_len(s: Seq<char>)
    ensures
        literal_len(s) <= s.len(),
        forall|k: int| 0 <= k < literal_len(s) ==> #[trigger] s[k] != '"' && s[k] != '\n',
        literal_len(s) < s.len() ==> (s[literal_len(s) as int] == '"' || s[literal_len(s) as int] == '\n'),
    decreases s.len(),
{
    if s.len() > 0 && s[0] != '"' && s[0] != '\n' {
        lemma_literal_len(s.drop_first());
        assert forall|k: int| 0 <= k < literal_len(s) implies #[trigger] s[k] != '"' && s[k] != '\n' by {
            if k > 0 {
                assert(s[k] == s.drop_first()[k - 1]);
            }
        }
    }
}

/// `t` after one more token, or the fault that `rest` ran into.
pub open spec fn prepend(t: TokenView, rest: Result<Seq<TokenView>, LexError>) -> Result<Seq<TokenView>, LexError> {
    match rest {
        Ok(ts) => Ok(seq![t] + ts),
        Err(e) => Err(e),
    }
}

/// The tokens of `s`. At each position the first rule that applies is taken:
/// `#` skips to the end of the line, line feed included; a letter starts a word
/// made of the longest run of letters; `"` starts a string literal that must be
/// closed on the same line; whitespace is skipped; any other character is a
/// symbol of its own.
pub open spec fn lex(s: Seq<char>) -> Result<Seq<TokenView>, LexError>
    decreases s.len(),
    via lex_decreases
{
    if s.len() == 0 {
        Ok(Seq::empty())
    } else if s[0] == '#' {
        let n = line_len(s) as int;
        if n < s.len() {
            lex(s.skip(n + 1))
        } else {
            Ok(Seq::empty())
        }
    } else if is_letter(s[0]) {
        let n = word_len(s) as int;
        let w = s.take(n);
        prepend((word_kind(w), w), lex(s.skip(n)))
    } else if s[0] == '"' {
        let n = literal_len(s.drop_first()) as int;
        if n + 1 < s.len() && s[n + 1] == '"' {
            prepend((TokenKind::StringLiteral, s.subrange(1, n + 1)), lex(s.skip(n + 2)))
        } else {
            Err(LexError::UnterminatedStringLiteral)
        }
    } else if is_space(s[0]) {
        lex(s.skip(1))
    } else {
        prepend((TokenKind::Symbol, seq![s[0]]), lex(s.skip(1)))
    }
}

#[via_fn]
proof fn lex_decreases(s: Seq<char>) {
    if s.len() > 0 {
        lemma_word_len(s);
        lemma_line_len(s);
        lemma_literal_len(s.drop_first());
    }
}

/// The tokens of two pieces of text, one after the other; the first fault wins.
pub open spec fn join(a: Result<Seq<TokenView>, LexError>, b: Result<Seq<TokenView>, LexError>) -> Result<Seq<TokenView>, LexError> {
    match a {
        Ok(x) => match b {
            Ok(y) => Ok(x + y),
            Err(e) => Err(e),
        },
        Err(e) => Err(e),
    }
}

/// Text that ends at a line break, or is empty: the lexer is never inside a
/// token after it.
pub open spec fn ends_line(p: Seq<char>) -> bool {
    p.len() == 0 || p.last() == '\n'
}

proof fn lemma_word_len_prefix(p: Seq<char>, x: Seq<char>)
    requires
        word_len(p) < p.len(),
    ensures
        word_len(p + x) == word_len(p),
    decreases p.len(),
{
    if p.len() > 0 && is_letter(p[0]) {
        assert((p + x).drop_first() =~= p.drop_first() + x);
        lemma_word_len_prefix(p.drop_first(), x);
    }
}

proof fn lemma_line_len_prefix(p: Seq<char>, x: Seq<char>)
    requires
        line_len(p) < p.len(),
    ensures
        line_len(p + x) == line_len(p),
    decreases p.len(),
{
    if p.len() > 0 && p[0] != '\n' {
        assert((p + x).drop_first() =~= p.drop_first() + x);
        lemma_line_len_prefix(p.drop_first(), x);
    }
}

proof fn lemma_literal_len_prefix(p: Seq<char>, x: Seq<char>)
    requires
        literal_len(p) < p.len(),
    ensures
        literal_len(p + x) == literal_len(p),
    decreases p.len(),
{
    if p.len() > 0 && p[0] != '"' && p[0] != '\n' {
        assert((p + x).drop_first() =~= p.drop_first() + x);
        lemma_literal_len_prefix(p.drop_first(), x);
    }
}

proof fn lemma_join_prepend(t: TokenView, a: Result<Seq<TokenView>, LexError>, b: Result<Seq<TokenView>, LexError>)
    ensures
        join(prepend(t, a), b) == prepend(t, join(a, b)),
{
    if let Ok(x) = a {
        if let Ok(y) = b {
            assert(seq![t] + x + y =~= seq![t] + (x + y));
        }
    }
}

/// Lexing text that ends a line, then more text, gives the tokens of each.
pub proof fn lemma_lex_concat(p: Seq<char>, x: Seq<char>)
    requires
        ends_line(p),
    ensures
        lex(p + x) == join(lex(p), lex(x)),
    decreases p.len(),
{
    let s = p + x;
    if p.len() == 0 {
        assert(s =~= x);
        if let Ok(y) = lex(x) {
            assert(Seq::<TokenView>::empty() + y =~= y);
        }
    } else {
        assert(s[0] == p[0]);
        lemma_word_len(p);
        lemma_line_len(p);
        if p[0] == '#' {
            let n = line_len(p) as int;
            lemma_line_len_prefix(p, x);
            assert(s.skip(n + 1) =~= p.skip(n + 1) + x);
            lemma_lex_concat(p.skip(n + 1), x);
        } else if is_letter(p[0]) {
            let n = word_len(p) as int;
            lemma_word_len_prefix(p, x);
            assert(s.take(n) =~= p.take(n));
            assert(s.skip(n) =~= p.skip(n) + x);
            lemma_lex_concat(p.skip(n), x);
            lemma_join_prepend((word_kind(p.take(n)), p.take(n)), lex(p.skip(n)), lex(x));
        } else if p[0] == '"' {
            let q = p.drop_first();
            lemma_literal_len(q);
            assert(q.len() > 0 && q.last() == '\n');
            let n = literal_len(q) as int;
            assert(n < q.len());
            lemma_literal_len_prefix(q, x);
            assert(s.drop_first() =~= q + x);
            if n + 1 < p.len() && p[n + 1] == '"' {
                assert(s.subrange(1, n + 1) =~= p.subrange(1, n + 1));
                assert(s.skip(n + 2) =~= p.skip(n + 2) + x);
                lemma_lex_concat(p.skip(n + 2), x);
                lemma_join_prepend((TokenKind::StringLiteral, p.subrange(1, n + 1)), lex(p.skip(n + 2)), lex(x));
            }
        } else {
            assert(s.skip(1) =~= p.skip(1) + x);
            lemma_lex_concat(p.skip(1), x);
            if !is_space(p[0]) {
                lemma_join_prepend((TokenKind::Symbol, seq![p[0]]), lex(p.skip(1)), lex(x));
            }
        }
    }
}

/// A comment line is skipped whole.
pub proof fn lemma_lex_comment(body: Seq<char>, rest: Seq<char>)
    requires
        forall|k: int| 0 <= k < body.len() ==> body[k] != '\n',
    ensures
        lex(seq!['#'] + body + seq!['\n'] + rest) == lex(rest),
{
    let line = seq!['#'] + body + seq!['\n'];
    let s = line + rest;
    lemma_line_len(line);
    let n = line_len(line) as int;
    assert(line[0] == '#');
    if 0 < n < body.len() + 1 {
        assert(line[n] == body[n - 1]);
    }
    assert(line[body.len() as int + 1] == '\n');
    assert(n == body.len() + 1);
    lemma_line_len_prefix(line, rest);
    assert(s =~= seq!['#'] + body + seq!['\n'] + rest);
    assert(s.skip(n + 1) =~= rest);
}

/// A word made of letters and ended by something else.
pub proof fn lemma_lex_word(w: Seq<char>, rest: Seq<char>)
    requires
        w.len() > 0,
        forall|k: int| 0 <= k < w.len() ==> is_letter(w[k]),
        rest.len() == 0 || !is_letter(rest[0]),
    ensures
        lex(w + rest) == prepend((word_kind(w), w), lex(rest)),
{
    let s = w + rest;
    lemma_word_len(s);
    let n = word_len(s) as int;
    if n < w.len() {
        assert(s[n] == w[n]);
    }
    if n > w.len() {
        assert(s[w.len() as int] == rest[0]);
    }
    assert(n == w.len());
    assert(s.take(n) =~= w);
    assert(s.skip(n) =~= rest);
}

/// A string literal that is closed on its line.
pub proof fn lemma_lex_literal(body: Seq<char>, rest: Seq<char>)
    requires
        forall|k: int| 0 <= k < body.len() ==> body[k] != '"' && body[k] != '\n',
    ensures
        lex(seq!['"'] + body + seq!['"'] + rest) == prepend((TokenKind::StringLiteral, body), lex(rest)),
{
    let s = seq!['"'] + body + seq!['"'] + rest;
    let q = s.drop_first();
    assert(q =~= body + seq!['"'] + rest);
    lemma_literal_len(q);
    let n = literal_len(q) as int;
    if n < body.len() {
        assert(q[n] == body[n]);
    }
    assert(q[body.len() as int] == '"');
    assert(n == body.len());
    assert(s.subrange(1, n + 1) =~= body);
    assert(s.skip(n + 2) =~= rest);
}

/// A single character that is skipped.
pub proof fn lemma_lex_space(c: char, rest: Seq<char>)
    requires
        c != '#' && c != '"' && !is_letter(c) && is_space(c),
    ensures
        lex(seq![c] + rest) == lex(rest),
{
    assert((seq![c] + rest).skip(1) =~= rest);
}

/// A single character that is a symbol.
pub proof fn lemma_lex_symbol(c: char, rest: Seq<char>)
    requires
        c != '#' && c != '"' && !is_letter(c) && !is_space(c),
    ensures
        lex(seq![c] + rest) == prepend((TokenKind::Symbol, seq![c]), lex(rest)),
{
    assert((seq![c] + rest).skip(1) =~= rest);
}

/// The views of a sequence of tokens.
pub open spec fn token_views(ts: Seq<Token>) -> Seq<TokenView> {
    ts.map_values(|t: Token| t@)
}

/// Splits `content` into tokens; fails on a string literal left open at the
/// end of a line or of the input.
pub fn tokenize(content: &str) -> (r: Result<Vec<Token>, LexError>)
    ensures
        match r {
            Ok(ts) => lex(content@) == Ok::<Seq<TokenView>, LexError>(token_views(ts@)),
            Err(e) => lex(content@) == Err::<Seq<TokenView>, LexError>(e),
        },
{
    let chars = chars_of(content);
    let len = chars.len();
    let mut tokens: Vec<Token> = Vec::new();
    let mut index: usize = 0;
    proof {
        assert(chars@.skip(0) =~= chars@);
        assert(token_views(tokens@) =~= Seq::<TokenView>::empty());
        if let Ok(ts) = lex(content@) {
            assert(Seq::<TokenView>::empty() + ts =~= ts);
        }
    }
    while index < len
        invariant
            len == chars@.len(),
            chars@ == content@,
            index <= len,
            lex(content@) == match lex(chars@.skip(index as int)) {
                Ok(ts) => Ok(token_views(tokens@) + ts),
                Err(e) => Err::<Seq<TokenView>, LexError>(e),
            },
        decreases len - index,
    {
        let ghost s = chars@.skip(index as int);
        let ghost before = token_views(tokens@);
        let c = chars[index];
        assert(s[0] == c);
        if c == '#' {
            let mut j: usize = index;
            while j < len && chars[j] != '\n'
                invariant
                    index <= j <= len,
                    len == chars@.len(),
                    s == chars@.skip(index as int),
                    line_len(s) == (j - index) + line_len(chars@.skip(j as int)),
                decreases len - j,
            {
                assert(chars@.skip(j as int).drop_first() =~= chars@.skip(j + 1));
                j = j + 1;
            }
            assert(line_len(s) == j - index);
            if j < len {
                assert(s.skip(line_len(s) as int + 1) =~= chars@.skip(j + 1));
                index = j + 1;
            } else {
                index = j;
                assert(lex(chars@.skip(index as int)) == Ok::<Seq<TokenView>, LexError>(Seq::empty()));
                assert(token_views(tokens@) + Seq::<TokenView>::empty() =~= token_views(tokens@));
            }
        } else if letter(c) {
            let mut j: usize = index;
            while j < len && letter(chars[j])
                invariant
                    index <= j <= len,
                    len == chars@.len(),
                    s == chars@.skip(index as int),
                    word_len(s) == (j - index) + word_len(chars@.skip(j as int)),
                decreases len - j,
            {
                assert(chars@.skip(j as int).drop_first() =~= chars@.skip(j + 1));
                j = j + 1;
            }
            let n = j - index;
            assert(word_len(s) == n);
            let word = string_of(&chars, index, j);
            assert(word@ =~= s.take(n as int));
            let t = Token::new(word);
            tokens.push(t);
            assert(s.skip(n as int) =~= chars@.skip(j as int));
            assert(token_views(tokens@) =~= before.push(t@));
            proof {
                match lex(chars@.skip(j as int)) {
                    Ok(ts) => {
                        assert(before + (seq![t@] + ts) =~= token_views(tokens@) + ts);
                    },
                    Err(e) => {},
                }
            }
            index = j;
        } else if c == '"' {
            let mut j: usize = index + 1;
            assert(s.drop_first() =~= chars@.skip(index + 1));
            while j < len && chars[j] != '"' && chars[j] != '\n'
                invariant
                    index < j <= len,
                    len == chars@.len(),
                    s == chars@.skip(index as int),
                    literal_len(s.drop_first()) == (j - index - 1) + literal_len(chars@.skip(j as int)),
                decreases len - j,
            {
                assert(chars@.skip(j as int).drop_first() =~= chars@.skip(j + 1));
                j = j + 1;
            }
            assert(s.drop_first() =~= chars@.skip(index + 1));
            let n = j - index - 1;
            assert(literal_len(s.drop_first()) == n);
            if j >= len || chars[j] != '"' {
                return Err(LexError::UnterminatedStringLiteral);
            }
            let body = string_of(&chars, index + 1, j);
            assert(body@ =~= s.subrange(1, n + 1));
            let t = Token { kind: TokenKind::StringLiteral, lexeme: body };
            tokens.push(t);
            assert(s.skip(n + 2) =~= chars@.skip(j + 1));
            assert(token_views(tokens@) =~= before.push(t@));
            proof {
                match lex(chars@.skip(j + 1)) {
                    Ok(ts) => {
                        assert(before + (seq![t@] + ts) =~= token_views(tokens@) + ts);
                    },
                    Err(e) => {},
                }
            }
            index = j + 1;
        } else if space(c) {
            assert(s.skip(1) =~= chars@.skip(index + 1));
            index = index + 1;
        } else {
            let mut lexeme = String::new();
            push_char(&mut lexeme, c);
            let t = Token { kind: TokenKind::Symbol, lexeme };
            assert(t@.1 =~= seq![c]);
            tokens.push(t);
            assert(s.skip(1) =~= chars@.skip(index + 1));
            assert(token_views(tokens@) =~= before.push(t@));
            proof {
                match lex(chars@.skip(index + 1)) {
                    Ok(ts) => {
                        assert(before + (seq![t@] + ts) =~= token_views(tokens@) + ts);
                    },
                    Err(e) => {},
                }
            }
            index = index + 1;
        }
    }
    assert(chars@.skip(index as int) =~= Seq::<char>::empty());
    assert(token_views(tokens@) + Seq::<TokenView>::empty() =~= token_views(tokens@));
    Ok(tokens)
}

} // verus!
