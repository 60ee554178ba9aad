//! Properties of the Unify format as a whole.
use vstd::prelude::*;
use crate::lexer::{ends_line, lex, lemma_lex_comment, lemma_lex_concat, lemma_lex_literal,
    lemma_lex_space, lemma_lex_symbol, lemma_lex_word, LexError};
use crate::parser::{header_fault, list_end, list_values, parse_config, parse_from, Config, Fault};
use crate::template::{arg_lines, unify_file_text};
use crate::token::{word_kind, TokenKind, TokenView};

verus! {

/// Text that can stand between double quotes on one line.
pub open spec fn is_plain(s: Seq<char>) -> bool {
    forall|k: int| 0 <= k < s.len() ==> s[k] != '"' && s[k] != '\n'
}

/// A comment line placed where a line begins changes nothing: the text gives
/// the same configuration, or fails in the same way, with it and without it.
pub proof fn lemma_comment_transparent(before: Seq<char>, comment: Seq<char>, after: Seq<char>)
    requires
        ends_line(before),
        forall|k: int| 0 <= k < comment.len() ==> comment[k] != '\n',
    ensures
        parse_config(before + (seq!['#'] + comment + seq!['\n']) + after) == parse_config(before + after),
{
    let line = seq!['#'] + comment + seq!['\n'];
    assert(before + line + after =~= before + (line + after));
    lemma_lex_concat(before, line + after);
    lemma_lex_comment(comment, after);
    lemma_lex_concat(before, after);
}

/// The tokens of the argument lines of a new file.
spec fn arg_tokens(args: Seq<Seq<char>>) -> Seq<TokenView>
    decreases args.len(),
{
    if args.len() == 0 {
        Seq::empty()
    } else {
        seq![(TokenKind::StringLiteral, args[0]), (TokenKind::Symbol, seq![','])] + arg_tokens(args.drop_first())
    }
}

proof fn lemma_lex_arg_lines(args: Seq<Seq<char>>)
    requires
        forall|i: int| 0 <= i < args.len() ==> is_plain(#[trigger] args[i]),
    ensures
        lex(arg_lines(args)) == Ok::<Seq<TokenView>, LexError>(arg_tokens(args)),
    decreases args.len(),
{
    if args.len() == 0 {
        assert(arg_lines(args) =~= Seq::<char>::empty());
    } else {
        let rest = arg_lines(args.drop_first());
        assert forall|i: int| 0 <= i < args.drop_first().len() implies is_plain(#[trigger] args.drop_first()[i]) by {
            assert(args.drop_first()[i] == args[i + 1]);
        }
        lemma_lex_arg_lines(args.drop_first());
        reveal_strlit("  \"");
        reveal_strlit("\",\n");
        let a = args[0];
        assert(is_plain(a));
        let r3 = seq!['\n'] + rest;
        let r2 = seq![','] + r3;
        let r1 = seq!['"'] + a + seq!['"'] + r2;
        let r0 = seq![' '] + r1;
        assert(arg_lines(args) =~= seq![' '] + r0);
        lemma_lex_space('\n', rest);
        lemma_lex_symbol(',', r3);
        lemma_lex_literal(a, r2);
        lemma_lex_space(' ', r1);
        lemma_lex_space(' ', r0);
        let t0 = (TokenKind::StringLiteral, a);
        let t1 = (TokenKind::Symbol, seq![',']);
        assert(seq![t0] + (seq![t1] + arg_tokens(args.drop_first())) =~= arg_tokens(args));
    }
}

proof fn lemma_arg_list(pre: Seq<TokenView>, args: Seq<Seq<char>>)
    requires
        args.len() > 0,
    ensures
        list_end(pre + arg_tokens(args), pre.len() as int) == pre.len() + 2 * args.len() - 1,
        list_values(pre + arg_tokens(args), pre.len() as int) == args,
    decreases args.len(),
{
    let t = pre + arg_tokens(args);
    let j = pre.len() as int;
    let head = seq![(TokenKind::StringLiteral, args[0]), (TokenKind::Symbol, seq![','])];
    let tail = args.drop_first();
    assert(t[j] == (TokenKind::StringLiteral, args[0]));
    assert(t[j + 1] == (TokenKind::Symbol, seq![',']));
    if args.len() == 1 {
        assert(arg_tokens(tail) =~= Seq::<TokenView>::empty());
        assert(t.len() == j + 2);
        assert(list_values(t, j) =~= args);
    } else {
        let pre2 = pre + head;
        assert(t =~= pre2 + arg_tokens(tail));
        lemma_arg_list(pre2, tail);
        assert(arg_tokens(tail)[0] == (TokenKind::StringLiteral, tail[0]));
        assert(t[j + 2] == arg_tokens(tail)[0]);
        lemma_arg_tokens_len(tail);
        assert(list_values(t, j) =~= args);
    }
}

proof fn lemma_arg_tokens_len(args: Seq<Seq<char>>)
    ensures
        arg_tokens(args).len() == 2 * args.len(),
    decreases args.len(),
{
    if args.len() > 0 {
        lemma_arg_tokens_len(args.drop_first());
    }
}

/// A new file made for a compiler and a non-empty list of arguments, none of
/// which holds a double quote or a line feed, parses back to that compiler and
/// those arguments.
pub proof fn lemma_new_file_round_trip(compiler: Seq<char>, args: Seq<Seq<char>>)
    requires
        is_plain(compiler),
        args.len() > 0,
        forall|i: int| 0 <= i < args.len() ==> is_plain(#[trigger] args[i]),
    ensures
        parse_config(unify_file_text(compiler, args)) == Ok::<Config, Fault>((compiler, args)),
{
    reveal_strlit("# Build script\n\nCOMP: \"");
    reveal_strlit("\"\n\nARGS:\n");
    reveal_strlit("COMP");
    reveal_strlit("COMPILER");
    reveal_strlit("ARGS");
    reveal_strlit("ARGUMENTS");
    let lines = arg_lines(args);
    let body = seq![' ', 'B', 'u', 'i', 'l', 'd', ' ', 's', 'c', 'r', 'i', 'p', 't'];
    let comp = seq!['C', 'O', 'M', 'P'];
    let args_kw = seq!['A', 'R', 'G', 'S'];
    let r9 = seq!['\n'] + lines;
    let r8 = seq![':'] + r9;
    let r7 = args_kw + r8;
    let r6 = seq!['\n'] + r7;
    let r5 = seq!['\n'] + r6;
    let r4 = seq!['"'] + compiler + seq!['"'] + r5;
    let r3 = seq![' '] + r4;
    let r2 = seq![':'] + r3;
    let r1 = comp + r2;
    let r0 = seq!['\n'] + r1;
    let text = unify_file_text(compiler, args);
    assert(text =~= seq!['#'] + body + seq!['\n'] + r0);
    assert(comp =~= "COMP"@);
    assert(args_kw =~= "ARGS"@);
    assert(args_kw != "COMP"@ && args_kw != "COMPILER"@) by {
        assert(args_kw[0] != "COMP"@[0]);
        assert(args_kw.len() != "COMPILER"@.len());
    }
    assert(word_kind(comp) == TokenKind::Comp);
    assert(word_kind(args_kw) == TokenKind::Args);
    lemma_lex_arg_lines(args);
    lemma_lex_space('\n', lines);
    lemma_lex_symbol(':', r9);
    lemma_lex_word(args_kw, r8);
    lemma_lex_space('\n', r7);
    lemma_lex_space('\n', r6);
    lemma_lex_literal(compiler, r5);
    lemma_lex_space(' ', r4);
    lemma_lex_symbol(':', r3);
    lemma_lex_word(comp, r2);
    lemma_lex_space('\n', r1);
    lemma_lex_comment(body, r0);
    let at = arg_tokens(args);
    let t0 = (TokenKind::Comp, comp);
    let t1 = (TokenKind::Symbol, seq![':']);
    let t2 = (TokenKind::StringLiteral, compiler);
    let t3 = (TokenKind::Args, args_kw);
    let pre = seq![t0, t1, t2, t3, t1];
    let t = pre + at;
    assert(seq![t0] + (seq![t1] + (seq![t2] + (seq![t3] + (seq![t1] + at)))) =~= t);
    assert(lex(text) == Ok::<Seq<TokenView>, LexError>(t));
    lemma_arg_tokens_len(args);
    assert(at[0] == (TokenKind::StringLiteral, args[0]));
    assert(t[5] == at[0]);
    lemma_arg_list(pre, args);
    let empty = (Seq::<char>::empty(), Seq::<Seq<char>>::empty());
    assert(t[0] == t0 && t[1] == t1 && t[2] == t2 && t[3] == t3 && t[4] == t1);
    assert(header_fault(t, 0) is None);
    assert(parse_from(t, 0, empty) == parse_from(t, 3, (compiler, empty.1)));
    assert(header_fault(t, 3) is None);
    assert(list_end(t, 5) + 1 == t.len());
    assert(list_values(t, 5) == args);
    assert(parse_from(t, 3, (compiler, empty.1)) == parse_from(t, t.len() as int, (compiler, args)));
    assert(parse_from(t, t.len() as int, (compiler, args)) == Ok::<Config, Fault>((compiler, args)));
}

} // verus!
