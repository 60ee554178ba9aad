//! The parser: tokens to a configuration of compiler and arguments.
use vstd::prelude::*;
use crate::lexer::{lex, tokenize, token_views, LexError};
use crate::token::{Token, TokenKind, TokenView};

verus! {

/// Why a Unify file was refused.
#[derive(Debug)]
pub enum UnifyError {
    /// A string literal is not closed on its line.
    UnterminatedStringLiteral,
    /// This token stands outside any section.
    UnexpectedToken(Token),
    /// A section keyword is not followed by `:` and a string literal.
    MalformedSection,
    /// A section keyword has fewer than two tokens after it.
    UnexpectedEndOfInput,
}

/// A fault as the contracts see it.
pub enum Fault {
    UnterminatedStringLiteral,
    UnexpectedToken(TokenView),
    MalformedSection,
    UnexpectedEndOfInput,
}

impl View for UnifyError {
    type V = Fault;

    open spec fn view(&self) -> Fault {
        match self {
            UnifyError::UnterminatedStringLiteral => Fault::UnterminatedStringLiteral,
            UnifyError::UnexpectedToken(t) => Fault::UnexpectedToken(t@),
            UnifyError::MalformedSection => Fault::MalformedSection,
            UnifyError::UnexpectedEndOfInput => Fault::UnexpectedEndOfInput,
        }
    }
}

impl UnifyError {
    /// A one-line description of the fault.
    pub fn message(&self) -> String {
        match self {
            UnifyError::UnterminatedStringLiteral => String::from_str("Unterminated string literal"),
            UnifyError::UnexpectedToken(_) => String::from_str("Unexpected token"),
            UnifyError::MalformedSection => String::from_str("Expected ':' followed by a string literal"),
            UnifyError::UnexpectedEndOfInput => String::from_str(
                "Unexpected end of file; expected ':' followed by a string literal",
            ),
        }
    }
}

/// A configuration as the contracts see it: the compiler and its arguments.
pub type Config = (Seq<char>, Seq<Seq<char>>);

pub open spec fn is_symbol(t: TokenView, c: char) -> bool {
    t.0 == TokenKind::Symbol && t.1 == seq![c]
}

pub open spec fn is_literal(t: TokenView) -> bool {
    t.0 == TokenKind::StringLiteral
}

/// What is wrong with the head of the section whose keyword is at `i`, if anything:
/// it must go on with `:` and a string literal. A wrong token makes the section
/// malformed; input that ends first is an unexpected end.
pub open spec fn header_fault(t: Seq<TokenView>, i: int) -> Option<Fault> {
    if i + 1 >= t.len() {
        Some(Fault::UnexpectedEndOfInput)
    } else if !is_symbol(t[i + 1], ':') {
        Some(Fault::MalformedSection)
    } else if i + 2 >= t.len() {
        Some(Fault::UnexpectedEndOfInput)
    } else if !is_literal(t[i + 2]) {
        Some(Fault::MalformedSection)
    } else {
        None
    }
}

/// Position of the last token of the argument list whose first literal is at `j`:
/// literals separated by commas, with at most one comma after the last.
pub open spec fn list_end(t: Seq<TokenView>, j: int) -> int
    decreases t.len() - j,
{
    if 0 <= j && j + 2 < t.len() && is_symbol(t[j + 1], ',') && is_literal(t[j + 2]) {
        list_end(t, j + 2)
    } else if 0 <= j && j + 1 < t.len() && is_symbol(t[j + 1], ',') {
        j + 1
    } else {
        j
    }
}

/// The texts of the argument list whose first literal is at `j`.
pub open spec fn list_values(t: Seq<TokenView>, j: int) -> Seq<Seq<char>>
    decreases t.len() - j,
{
    if 0 <= j && j + 2 < t.len() && is_symbol(t[j + 1], ',') && is_literal(t[j + 2]) {
        seq![t[j].1] + list_values(t, j + 2)
    } else {
        seq![t[j].1]
    }
}

pub proof fn lemma_list_end(t: Seq<TokenView>, j: int)
    requires
        0 <= j < t.len(),
    ensures
        j <= list_end(t, j) < t.len(),
    decreases t.len() - j,
{
    if j + 2 < t.len() && is_symbol(t[j + 1], ',') && is_literal(t[j + 2]) {
        lemma_list_end(t, j + 2);
    }
}

/// The configuration made by the sections from position `i` on, starting from
/// `cfg`. A section replaces the field it sets.
pub open spec fn parse_from(t: Seq<TokenView>, i: int, cfg: Config) -> Result<Config, Fault>
    decreases t.len() - i,
    via parse_from_decreases
{
    if i < 0 || i >= t.len() {
        Ok(cfg)
    } else if t[i].0 == TokenKind::Comp {
        match header_fault(t, i) {
            Some(f) => Err(f),
            None => parse_from(t, i + 3, (t[i + 2].1, cfg.1)),
        }
    } else if t[i].0 == TokenKind::Args {
        match header_fault(t, i) {
            Some(f) => Err(f),
            None => parse_from(t, list_end(t, i + 2) + 1, (cfg.0, list_values(t, i + 2))),
        }
    } else {
        Err(Fault::UnexpectedToken(t[i]))
    }
}

#[via_fn]
proof fn parse_from_decreases(t: Seq<TokenView>, i: int, cfg: Config) {
    if 0 <= i < t.len() && header_fault(t, i) is None {
        lemma_list_end(t, i + 2);
    }
}

/// The configuration of a token sequence: empty compiler and arguments, then
/// each section in order.
pub open spec fn parse_tokens(t: Seq<TokenView>) -> Result<Config, Fault> {
    parse_from(t, 0, (Seq::empty(), Seq::empty()))
}

/// The configuration that the text `s` describes.
pub open spec fn parse_config(s: Seq<char>) -> Result<Config, Fault> {
    match lex(s) {
        Ok(t) => parse_tokens(t),
        Err(LexError::UnterminatedStringLiteral) => Err(Fault::UnterminatedStringLiteral),
    }
}

fn is_symbol_token(t: &Token, c: char) -> (r: bool)
    ensures
        r == is_symbol(t@, c),
{
    if t.kind != TokenKind::Symbol {
        return false;
    }
    let s = t.lexeme.as_str();
    if s.unicode_len() != 1 {
        return false;
    }
    let d = s.get_char(0);
    if d == c {
        assert(t@.1 =~= seq![c]);
    }
    d == c
}

fn header_error(tokens: &Vec<Token>, index: usize) -> (r: Option<UnifyError>)
    requires
        index < tokens@.len(),
    ensures
        match r {
            Some(e) => header_fault(token_views(tokens@), index as int) == Some(e@),
            None => header_fault(token_views(tokens@), index as int) is None,
        },
        r is None ==> index + 2 < tokens@.len(),
{
    assert(token_views(tokens@).len() == tokens@.len());
    if tokens.len() - index <= 1 {
        Some(UnifyError::UnexpectedEndOfInput)
    } else if !is_symbol_token(&tokens[index + 1], ':') {
        Some(UnifyError::MalformedSection)
    } else if tokens.len() - index <= 2 {
        Some(UnifyError::UnexpectedEndOfInput)
    } else if tokens[index + 2].kind != TokenKind::StringLiteral {
        Some(UnifyError::MalformedSection)
    } else {
        None
    }
}

/// Reads the compiler section whose keyword is at `*index`, and leaves `*index`
/// on its string literal.
pub fn parse_unify_comp_section(tokens: &Vec<Token>, index: &mut usize) -> (r: Result<String, UnifyError>)
    requires
        *old(index) < tokens@.len(),
    ensures
        match r {
            Ok(c) => {
                &&& header_fault(token_views(tokens@), *old(index) as int) is None
                &&& c@ == tokens@[*old(index) + 2]@.1
                &&& *final(index) == *old(index) + 2
            },
            Err(e) => header_fault(token_views(tokens@), *old(index) as int) == Some(e@),
        },
{
    let i = *index;
    let h = header_error(tokens, i);
    if let Some(e) = h {
        return Err(e);
    }
    let n = tokens.len();
    assert(i + 2 < n);
    *index = i + 2;
    Ok(tokens[*index].lexeme.clone())
}

/// Reads the argument section whose keyword is at `*index`, and leaves `*index`
/// on the last token of its list.
pub fn parse_unify_args_section(tokens: &Vec<Token>, index: &mut usize) -> (r: Result<Vec<String>, UnifyError>)
    requires
        *old(index) < tokens@.len(),
    ensures
        match r {
            Ok(a) => {
                &&& header_fault(token_views(tokens@), *old(index) as int) is None
                &&& a@.map_values(|x: String| x@) == list_values(token_views(tokens@), *old(index) + 2)
                &&& *final(index) == list_end(token_views(tokens@), *old(index) + 2)
            },
            Err(e) => header_fault(token_views(tokens@), *old(index) as int) == Some(e@),
        },
{
    let i = *index;
    let h = header_error(tokens, i);
    if let Some(e) = h {
        return Err(e);
    }
    let ghost t = token_views(tokens@);
    let ghost first = i + 2;
    let len = tokens.len();
    let mut j: usize = i + 2;
    assert(t[first] == tokens@[first]@);
    let mut args: Vec<String> = Vec::new();
    args.push(tokens[j].lexeme.clone());
    loop
        invariant
            len == t.len(),
            t == token_views(tokens@),
            i == *old(index),
            first == i + 2,
            header_fault(t, i as int) is None,
            first <= j < len,
            is_literal(t[j as int]),
            list_end(t, first) == list_end(t, j as int),
            list_values(t, first) == args@.drop_last().map_values(|x: String| x@) + list_values(t, j as int),
            args@.len() > 0,
            args@.last()@ == t[j as int].1,
        decreases len - j,
    {
        assert(j + 1 < len ==> t[j + 1] == tokens@[j + 1]@);
        assert(j + 2 < len ==> t[j + 2] == tokens@[j + 2]@);
        if j + 1 < len && is_symbol_token(&tokens[j + 1], ',') {
            if j + 2 < len && tokens[j + 2].kind == TokenKind::StringLiteral {
                let ghost prev = args@;
                args.push(tokens[j + 2].lexeme.clone());
                proof {
                    assert(args@.drop_last() =~= prev);
                    assert(prev.map_values(|x: String| x@) =~= prev.drop_last().map_values(|x: String| x@).push(t[j as int].1));
                    assert(seq![t[j as int].1] + list_values(t, j + 2) == list_values(t, j as int));
                    assert(prev.map_values(|x: String| x@) + list_values(t, j + 2)
                        =~= prev.drop_last().map_values(|x: String| x@) + (seq![t[j as int].1] + list_values(t, j + 2)));
                }
                j = j + 2;
            } else {
                j = j + 1;
                proof {
                    assert(args@.map_values(|x: String| x@) =~= args@.drop_last().map_values(|x: String| x@) + list_values(t, j - 1));
                }
                *index = j;
                return Ok(args);
            }
        } else {
            proof {
                assert(args@.map_values(|x: String| x@) =~= args@.drop_last().map_values(|x: String| x@) + list_values(t, j as int));
            }
            *index = j;
            return Ok(args);
        }
    }
}

/// A parsed Unify file: the compiler to run and the arguments to pass to it.
pub struct UnifySetup {
    compiler: String,
    args: Vec<String>,
}

impl View for UnifySetup {
    type V = Config;

    closed spec fn view(&self) -> Config {
        (self.compiler@, self.args@.map_values(|x: String| x@))
    }
}

impl UnifySetup {
    /// A setup with no compiler and no arguments.
    pub fn new() -> (r: Self)
        ensures
            r@ == (Seq::<char>::empty(), Seq::<Seq<char>>::empty()),
    {
        let r = UnifySetup { compiler: String::new(), args: Vec::new() };
        assert(r@.1 =~= Seq::<Seq<char>>::empty());
        r
    }

    /// Lexes and parses `content`. The first fault ends the parse.
    pub fn parse(content: String) -> (r: Result<Self, UnifyError>)
        ensures
            match r {
                Ok(u) => parse_config(content@) == Ok::<Config, Fault>(u@),
                Err(e) => parse_config(content@) == Err::<Config, Fault>(e@),
            },
    {
        let tokens = match tokenize(content.as_str()) {
            Ok(ts) => ts,
            Err(LexError::UnterminatedStringLiteral) => return Err(UnifyError::UnterminatedStringLiteral),
        };
        let ghost t = token_views(tokens@);
        let mut setup = UnifySetup::new();
        let len = tokens.len();
        let mut token_index: usize = 0;
        while token_index < len
            invariant
                len == tokens@.len(),
                t == token_views(tokens@),
                lex(content@) == Ok::<Seq<TokenView>, LexError>(t),
                parse_tokens(t) == parse_from(t, token_index as int, setup@),
            decreases len - token_index,
        {
            let kind = tokens[token_index].kind;
            let ghost i0 = token_index as int;
            assert(t[i0] == tokens@[i0]@);
            if kind == TokenKind::Comp {
                match parse_unify_comp_section(&tokens, &mut token_index) {
                    Ok(c) => {
                        setup.compiler = c;
                    },
                    Err(e) => return Err(e),
                }
            } else if kind == TokenKind::Args {
                match parse_unify_args_section(&tokens, &mut token_index) {
                    Ok(a) => {
                        setup.args = a;
                    },
                    Err(e) => return Err(e),
                }
                proof {
                    lemma_list_end(t, i0 + 2);
                }
            } else {
                let tok = &tokens[token_index];
                return Err(UnifyError::UnexpectedToken(Token { kind: tok.kind, lexeme: tok.lexeme.clone() }));
            }
            token_index = token_index + 1;
        }
        Ok(setup)
    }

    /// The compiler to run.
    pub fn compiler(&self) -> (r: &String)
        ensures
            r@ == self@.0,
    {
        &self.compiler
    }

    /// The arguments, in the order the file gives them.
    pub fn args(&self) -> (r: &Vec<String>)
        ensures
            r@.map_values(|x: String| x@) == self@.1,
    {
        &self.args
    }
}

} // verus!
