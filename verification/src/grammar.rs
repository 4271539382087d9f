use vstd::prelude::*;
use crate::ast::AstView;
use crate::parser::{numeral_value, opt_str, FinishedBranch, Handler, Predicate, Tok};
use crate::token::TokenKind;

verus! {

/// Why parsing stops, as a value: a lexer error (its grapheme), a token no rule takes
/// here, the tokens that would have been taken and the one found, or a construct not
/// handled yet.
pub enum ParseFailure {
    Lex(Seq<char>),
    Unexpected(Tok),
    Expected(Seq<(TokenKind, Option<Seq<char>>)>, Tok),
    Todo(Seq<char>),
}

/// The tokens of a parse, by position.
pub type Tokens = spec_fn(int) -> Tok;

/// What a part of the grammar gives, and the position after it (where it succeeds).
pub type Step<T> = (Result<T, ParseFailure>, int);

/// The token at position `k`, where positions from `n` on hold no token.
pub open spec fn tok(s: Tokens, n: int, k: int) -> Tok {
    if k < n {
        s(k)
    } else if s(k) is Token {
        Tok::End
    } else {
        s(k)
    }
}

/// The token at `k` is of kind `kind` and, where `content` is given, has that text.
pub open spec fn at(s: Tokens, n: int, k: int, kind: TokenKind, content: Option<Seq<char>>) -> bool {
    tok(s, n, k) matches Tok::Token(kd, t) && kd == kind && (content matches Some(c) ==> t == c)
}

/// The text of the token at `k`.
pub open spec fn text(s: Tokens, n: int, k: int) -> Seq<char> {
    tok(s, n, k)->Token_1
}

/// The failure that the lexer error at `k` becomes.
pub open spec fn lexical(s: Tokens, n: int, k: int) -> ParseFailure {
    ParseFailure::Lex(tok(s, n, k)->Error_0)
}

/// How many positions are left before `n`.
pub open spec fn left(n: int, k: int) -> nat {
    if k <= n {
        (n - k) as nat
    } else {
        0
    }
}

/// `k2` lies after `k`, and not after `n`.
pub open spec fn ahead(n: int, k: int, k2: int) -> bool {
    k < k2 <= n
}

/// Whether the token at `k` is as given; a lexer error there fails.
#[verifier::opaque]
pub open spec fn g_is(s: Tokens, n: int, k: int, kind: TokenKind, content: Option<Seq<char>>) -> Result<bool, ParseFailure> {
    if tok(s, n, k) is Error {
        Err(lexical(s, n, k))
    } else {
        Ok(at(s, n, k, kind, content))
    }
}

/// Moves on over the token at `k` where it is as given.
#[verifier::opaque]
pub open spec fn g_accept(s: Tokens, n: int, k: int, kind: TokenKind, content: Option<Seq<char>>) -> Step<bool> {
    if tok(s, n, k) is Error {
        (Err(lexical(s, n, k)), k)
    } else if at(s, n, k, kind, content) {
        (Ok(true), k + 1)
    } else {
        (Ok(false), k)
    }
}

/// The text of the token at `k`, which must be as given.
#[verifier::opaque]
pub open spec fn g_expect(s: Tokens, n: int, k: int, kind: TokenKind, content: Option<Seq<char>>) -> Step<Seq<char>> {
    if tok(s, n, k) is Error {
        (Err(lexical(s, n, k)), k)
    } else if at(s, n, k, kind, content) {
        (Ok(text(s, n, k)), k + 1)
    } else {
        (Err(ParseFailure::Expected(seq![(kind, content)], tok(s, n, k))), k)
    }
}

/// A type: a type name.
#[verifier::opaque]
pub open spec fn g_type(s: Tokens, n: int, k: int) -> Step<AstView> {
    let name = g_expect(s, n, k, TokenKind::Identifier, None);
    match name.0 {
        Ok(t) => (Ok(AstView::TypeName(t)), name.1),
        Err(e) => (Err(e), k),
    }
}

/// An imported name and, after `as`, its alias.
#[verifier::opaque]
pub open spec fn g_symbol(s: Tokens, n: int, k: int) -> Step<(Seq<char>, Option<Seq<char>>)> {
    let name = g_expect(s, n, k, TokenKind::Identifier, None);
    match name.0 {
        Err(e) => (Err(e), k),
        Ok(nm) => {
            let as_ = g_accept(s, n, name.1, TokenKind::Identifier, Some("as"@));
            match as_.0 {
                Err(e) => (Err(e), k),
                Ok(b) => if b {
                    let alias = g_expect(s, n, as_.1, TokenKind::Identifier, None);
                    match alias.0 {
                        Err(e) => (Err(e), k),
                        Ok(al) => (Ok((nm, Some(al))), alias.1),
                    }
                } else {
                    (Ok((nm, None)), name.1)
                },
            }
        },
    }
}

/// `, name [as alias]` parts, added to `names`.
pub open spec fn g_more_symbols(s: Tokens, n: int, k: int, names: Seq<(Seq<char>, Option<Seq<char>>)>) -> Step<Seq<(Seq<char>, Option<Seq<char>>)>>
    decreases left(n, k),
{
    let comma = g_accept(s, n, k, TokenKind::Comma, None);
    match comma.0 {
        Err(e) => (Err(e), k),
        Ok(b) => if !b {
            (Ok(names), k)
        } else {
            let sym = g_symbol(s, n, comma.1);
            match sym.0 {
                Err(e) => (Err(e), k),
                Ok(x) => if ahead(n, k, sym.1) {
                    g_more_symbols(s, n, sym.1, names.push(x))
                } else {
                    (Ok(names.push(x)), sym.1)
                },
            }
        },
    }
}

/// `import name [as alias], … from "module";`.
#[verifier::opaque]
pub open spec fn g_import(s: Tokens, n: int, k: int) -> Step<AstView> {
    let kw = g_expect(s, n, k, TokenKind::Identifier, Some("import"@));
    if kw.0 is Err {
        (Err(kw.0->Err_0), k)
    } else {
        let first = g_symbol(s, n, kw.1);
        match first.0 {
            Err(e) => (Err(e), k),
            Ok(x) => {
                let rest = g_more_symbols(s, n, first.1, seq![x]);
                match rest.0 {
                    Err(e) => (Err(e), k),
                    Ok(names) => {
                        let from = g_expect(s, n, rest.1, TokenKind::Identifier, Some("from"@));
                        if from.0 is Err {
                            (Err(from.0->Err_0), k)
                        } else {
                            let module = g_expect(s, n, from.1, TokenKind::String, None);
                            match module.0 {
                                Err(e) => (Err(e), k),
                                Ok(m) => {
                                    let semi = g_expect(s, n, module.1, TokenKind::Semicolon, None);
                                    if semi.0 is Err {
                                        (Err(semi.0->Err_0), k)
                                    } else {
                                        (
                                            Ok(
                                                AstView::Import {
                                                    names,
                                                    module: m,
                                                    module_alias: None,
                                                },
                                            ),
                                            semi.1,
                                        )
                                    }
                                },
                            }
                        }
                    },
                }
            },
        }
    }
}

/// `class name { }`.
#[verifier::opaque]
pub open spec fn g_class(s: Tokens, n: int, k: int, public: bool) -> Step<AstView> {
    let kw = g_expect(s, n, k, TokenKind::Identifier, Some("class"@));
    if kw.0 is Err {
        (Err(kw.0->Err_0), k)
    } else {
        let name = g_expect(s, n, kw.1, TokenKind::Identifier, None);
        match name.0 {
            Err(e) => (Err(e), k),
            Ok(nm) => {
                let open = g_expect(s, n, name.1, TokenKind::Open, Some("{"@));
                if open.0 is Err {
                    (Err(open.0->Err_0), k)
                } else {
                    let close = g_expect(s, n, open.1, TokenKind::Close, Some("}"@));
                    if close.0 is Err {
                        (Err(close.0->Err_0), k)
                    } else {
                        (Ok(AstView::Class { public, name: nm, body: Seq::empty() }), close.1)
                    }
                }
            },
        }
    }
}

/// `: type` after an argument's name.
#[verifier::opaque]
pub open spec fn g_argument(s: Tokens, n: int, k: int, name: Seq<char>) -> Step<(Seq<char>, AstView)> {
    let colon = g_expect(s, n, k, TokenKind::Colon, None);
    if colon.0 is Err {
        (Err(colon.0->Err_0), k)
    } else {
        let ty = g_type(s, n, colon.1);
        match ty.0 {
            Err(e) => (Err(e), k),
            Ok(t) => (Ok((name, t)), ty.1),
        }
    }
}

/// `, name: type` parts, added to `args`.
pub open spec fn g_more_arguments(s: Tokens, n: int, k: int, args: Seq<(Seq<char>, AstView)>) -> Step<Seq<(Seq<char>, AstView)>>
    decreases left(n, k),
{
    let comma = g_accept(s, n, k, TokenKind::Comma, None);
    match comma.0 {
        Err(e) => (Err(e), k),
        Ok(b) => if !b {
            (Ok(args), k)
        } else {
            let name = g_expect(s, n, comma.1, TokenKind::Identifier, None);
            match name.0 {
                Err(e) => (Err(e), k),
                Ok(nm) => {
                    let arg = g_argument(s, n, name.1, nm);
                    match arg.0 {
                        Err(e) => (Err(e), k),
                        Ok(a) => if ahead(n, k, arg.1) {
                            g_more_arguments(s, n, arg.1, args.push(a))
                        } else {
                            (Ok(args.push(a)), arg.1)
                        },
                    }
                },
            }
        },
    }
}

/// The first argument, if a name starts one at `k`.
#[verifier::opaque]
pub open spec fn g_first_argument(s: Tokens, n: int, k: int) -> Step<Seq<(Seq<char>, AstView)>> {
    if tok(s, n, k) is Error {
        (Err(lexical(s, n, k)), k)
    } else if at(s, n, k, TokenKind::Identifier, None) {
        let arg = g_argument(s, n, k + 1, text(s, n, k));
        match arg.0 {
            Err(e) => (Err(e), k),
            Ok(a) => (Ok(seq![a]), arg.1),
        }
    } else {
        (Ok(Seq::empty()), k)
    }
}

/// `(name: type, …)`.
#[verifier::opaque]
pub open spec fn g_arguments(s: Tokens, n: int, k: int) -> Step<Seq<(Seq<char>, AstView)>> {
    let open = g_expect(s, n, k, TokenKind::Open, Some("("@));
    if open.0 is Err {
        (Err(open.0->Err_0), k)
    } else {
        let first = g_first_argument(s, n, open.1);
        match first.0 {
            Err(e) => (Err(e), k),
            Ok(args0) => {
                let rest = g_more_arguments(s, n, first.1, args0);
                match rest.0 {
                    Err(e) => (Err(e), k),
                    Ok(args) => {
                        let close = g_expect(s, n, rest.1, TokenKind::Close, Some(")"@));
                        if close.0 is Err {
                            (Err(close.0->Err_0), k)
                        } else {
                            (Ok(args), close.1)
                        }
                    },
                }
            },
        }
    }
}

/// `()` after a callee.
#[verifier::opaque]
pub open spec fn g_call_arguments(s: Tokens, n: int, k: int) -> Step<Seq<AstView>> {
    let open = g_expect(s, n, k, TokenKind::Open, Some("("@));
    if open.0 is Err {
        (Err(open.0->Err_0), k)
    } else {
        let close = g_expect(s, n, open.1, TokenKind::Close, Some(")"@));
        if close.0 is Err {
            (Err(close.0->Err_0), k)
        } else {
            (Ok(Seq::empty()), close.1)
        }
    }
}

/// `.member` and `()` parts after `acc`, as far as they go.
pub open spec fn g_access_parts(s: Tokens, n: int, k: int, acc: AstView) -> Step<AstView>
    decreases left(n, k),
{
    if tok(s, n, k) is Error {
        (Err(lexical(s, n, k)), k)
    } else if at(s, n, k, TokenKind::Dot, None) {
        let name = g_expect(s, n, k + 1, TokenKind::Identifier, None);
        match name.0 {
            Err(e) => (Err(e), k),
            Ok(nm) => if ahead(n, k, name.1) {
                g_access_parts(s, n, name.1, AstView::MemberAccess(Box::new(acc), nm))
            } else {
                (Ok(AstView::MemberAccess(Box::new(acc), nm)), name.1)
            },
        }
    } else if at(s, n, k, TokenKind::Open, Some("("@)) {
        let call = g_call_arguments(s, n, k);
        match call.0 {
            Err(e) => (Err(e), k),
            Ok(args) => if ahead(n, k, call.1) {
                g_access_parts(s, n, call.1, AstView::Call(Box::new(acc), args))
            } else {
                (Ok(AstView::Call(Box::new(acc), args)), call.1)
            },
        }
    } else {
        (Ok(acc), k)
    }
}

/// A name followed by `.member` and `()` parts; nothing, at `k`, where the token at `k`
/// is no name, where two names follow one another, or where a part after the name does
/// not go through to its end (a token that does not fit): nothing is taken unless the
/// whole sequence matches. A token that could not be read is an error.
#[verifier::opaque]
pub open spec fn g_access(s: Tokens, n: int, k: int) -> Step<Option<AstView>> {
    if tok(s, n, k) is Error {
        (Err(lexical(s, n, k)), k)
    } else if at(s, n, k, TokenKind::Identifier, None) && at(s, n, k + 1, TokenKind::Identifier, None) {
        (Ok(None), k)
    } else if at(s, n, k, TokenKind::Identifier, None) {
        let parts = g_access_parts(s, n, k + 1, AstView::VariableAccess(text(s, n, k)));
        match parts.0 {
            Err(ParseFailure::Lex(m)) => (Err(ParseFailure::Lex(m)), k),
            Err(_) => (Ok(None), k),
            Ok(a) => (Ok(Some(a)), parts.1),
        }
    } else {
        (Ok(None), k)
    }
}

/// The token at `k` starts a statement: `let`, or a name followed by `=`.
pub open spec fn starts_statement_at(s: Tokens, n: int, k: int) -> bool {
    at(s, n, k, TokenKind::Identifier, Some("let"@)) || (at(s, n, k, TokenKind::Identifier, None)
        && at(s, n, k + 1, TokenKind::Equals, None))
}

/// The token at `k` starts an expression: a name, an integer or `{`.
pub open spec fn starts_expression_at(s: Tokens, n: int, k: int) -> bool {
    at(s, n, k, TokenKind::Identifier, None) || at(s, n, k, TokenKind::Integer, None) || at(
        s,
        n,
        k,
        TokenKind::Open,
        Some("{"@),
    )
}

/// The expressions that `expression` starts with.
pub open spec fn expression_starts() -> Seq<(TokenKind, Option<Seq<char>>)> {
    seq![
        (TokenKind::Integer, None),
        (TokenKind::Open, Some("{"@)),
        (TokenKind::Identifier, None),
    ]
}

/// An expression: an integer literal, a block, or a variable.
pub open spec fn g_expression(s: Tokens, n: int, k: int) -> Step<AstView>
    decreases left(n, k), 3nat,
{
    if tok(s, n, k) is Error {
        (Err(lexical(s, n, k)), k)
    } else if at(s, n, k, TokenKind::Integer, None) {
        (Ok(AstView::Integer(numeral_value(text(s, n, k))->Some_0)), k + 1)
    } else if at(s, n, k, TokenKind::Open, Some("{"@)) {
        g_block(s, n, k)
    } else if at(s, n, k, TokenKind::Identifier, None) {
        (Ok(AstView::VariableAccess(text(s, n, k))), k + 1)
    } else {
        (Err(ParseFailure::Expected(expression_starts(), tok(s, n, k))), k)
    }
}

/// `{ statement; … [expression] }`.
pub open spec fn g_block(s: Tokens, n: int, k: int) -> Step<AstView>
    decreases left(n, k), 2nat,
{
    let open = g_expect(s, n, k, TokenKind::Open, Some("{"@));
    if open.0 is Err {
        (Err(open.0->Err_0), k)
    } else if !ahead(n, k, open.1) {
        (Err(ParseFailure::Todo(Seq::empty())), k)
    } else {
        let items = g_block_items(s, n, open.1, Seq::empty());
        match items.0 {
            Err(e) => (Err(e), k),
            Ok(pair) => {
                let close = g_expect(s, n, items.1, TokenKind::Close, Some("}"@));
                if close.0 is Err {
                    (Err(close.0->Err_0), k)
                } else {
                    (
                        Ok(
                            AstView::Block {
                                statements: pair.0,
                                return_value: match pair.1 {
                                    Some(v) => Some(Box::new(v)),
                                    None => None,
                                },
                            },
                        ),
                        close.1,
                    )
                }
            },
        }
    }
}

/// The items of a block from `k` on, after `stmts`: the statements and the value, up to
/// (not over) the closing brace.
pub open spec fn g_block_items(s: Tokens, n: int, k: int, stmts: Seq<AstView>) -> Step<(Seq<AstView>, Option<AstView>)>
    decreases left(n, k), 4nat,
{
    let access = g_access(s, n, k);
    match access.0 {
        Err(e) => (Err(e), k),
        Ok(Some(a)) => if !ahead(n, k, access.1) {
            (Err(ParseFailure::Todo(Seq::empty())), k)
        } else {
            let k1 = access.1;
            let eq = g_accept(s, n, k1, TokenKind::Equals, None);
            match eq.0 {
                Err(e) => (Err(e), k),
                Ok(b) => if b {
                    if !ahead(n, k, eq.1) {
                        (Err(ParseFailure::Todo(Seq::empty())), k)
                    } else {
                        let value = g_expression(s, n, eq.1);
                        match value.0 {
                            Err(e) => (Err(e), k),
                            Ok(v) => {
                                let semi = g_expect(s, n, value.1, TokenKind::Semicolon, None);
                                if semi.0 is Err {
                                    (Err(semi.0->Err_0), k)
                                } else if ahead(n, k, semi.1) {
                                    g_block_items(
                                        s,
                                        n,
                                        semi.1,
                                        stmts.push(
                                            AstView::Assignment {
                                                pattern: Box::new(a),
                                                body: Box::new(v),
                                            },
                                        ),
                                    )
                                } else {
                                    (Err(ParseFailure::Todo(Seq::empty())), k)
                                }
                            },
                        }
                    }
                } else {
                    let semi = g_accept(s, n, k1, TokenKind::Semicolon, None);
                    match semi.0 {
                        Err(e) => (Err(e), k),
                        Ok(b2) => if b2 {
                            if ahead(n, k, semi.1) {
                                g_block_items(s, n, semi.1, stmts.push(a))
                            } else {
                                (Err(ParseFailure::Todo(Seq::empty())), k)
                            }
                        } else {
                            match g_is(s, n, k1, TokenKind::Close, Some("}"@)) {
                                Err(e) => (Err(e), k),
                                Ok(b3) => if b3 {
                                    (Ok((stmts, Some(a))), k1)
                                } else {
                                    g_block_items(s, n, k1, stmts)
                                },
                            }
                        },
                    }
                },
            }
        },
        Ok(None) => if tok(s, n, k) is Error {
            (Err(lexical(s, n, k)), k)
        } else if starts_statement_at(s, n, k) {
            let st = g_statement(s, n, k);
            match st.0 {
                Err(e) => (Err(e), k),
                Ok(x) => {
                    let semi = g_expect(s, n, st.1, TokenKind::Semicolon, None);
                    if semi.0 is Err {
                        (Err(semi.0->Err_0), k)
                    } else if ahead(n, k, semi.1) {
                        g_block_items(s, n, semi.1, stmts.push(x))
                    } else {
                        (Err(ParseFailure::Todo(Seq::empty())), k)
                    }
                },
            }
        } else if starts_expression_at(s, n, k) {
            let ex = g_expression(s, n, k);
            match ex.0 {
                Err(e) => (Err(e), k),
                Ok(x) => {
                    let semi = g_accept(s, n, ex.1, TokenKind::Semicolon, None);
                    match semi.0 {
                        Err(e) => (Err(e), k),
                        Ok(b) => if !b {
                            (Ok((stmts, Some(x))), ex.1)
                        } else if ahead(n, k, semi.1) {
                            g_block_items(s, n, semi.1, stmts.push(x))
                        } else {
                            (Err(ParseFailure::Todo(Seq::empty())), k)
                        },
                    }
                },
            }
        } else if at(s, n, k, TokenKind::Close, Some("}"@)) {
            (Ok((stmts, None)), k)
        } else {
            (Err(ParseFailure::Unexpected(tok(s, n, k))), k)
        },
    }
}

/// A statement: `name = expression` or `let name [: type] = expression`.
pub open spec fn g_statement(s: Tokens, n: int, k: int) -> Step<AstView>
    decreases left(n, k), 3nat,
{
    if tok(s, n, k) is Error {
        (Err(lexical(s, n, k)), k)
    } else if at(s, n, k, TokenKind::Identifier, None) && at(s, n, k + 1, TokenKind::Equals, None) {
        g_assignment(s, n, k)
    } else if at(s, n, k, TokenKind::Identifier, Some("let"@)) {
        g_let(s, n, k + 1)
    } else {
        (
            Err(
                ParseFailure::Expected(
                    seq![(TokenKind::Identifier, None), (TokenKind::Identifier, Some("let"@))],
                    tok(s, n, k),
                ),
            ),
            k,
        )
    }
}

/// `name = expression`.
pub open spec fn g_assignment(s: Tokens, n: int, k: int) -> Step<AstView>
    decreases left(n, k), 2nat,
{
    let name = g_expect(s, n, k, TokenKind::Identifier, None);
    match name.0 {
        Err(e) => (Err(e), k),
        Ok(nm) => {
            let eq = g_expect(s, n, name.1, TokenKind::Equals, None);
            if eq.0 is Err {
                (Err(eq.0->Err_0), k)
            } else if !ahead(n, k, eq.1) {
                (Err(ParseFailure::Todo(Seq::empty())), k)
            } else {
                let value = g_expression(s, n, eq.1);
                match value.0 {
                    Err(e) => (Err(e), k),
                    Ok(v) => (
                        Ok(
                            AstView::Assignment {
                                pattern: Box::new(AstView::VariableAccess(nm)),
                                body: Box::new(v),
                            },
                        ),
                        value.1,
                    ),
                }
            }
        },
    }
}

/// `name [: type] = expression`, after `let`.
pub open spec fn g_let(s: Tokens, n: int, k: int) -> Step<AstView>
    decreases left(n, k), 1nat,
{
    let name = g_expect(s, n, k, TokenKind::Identifier, None);
    match name.0 {
        Err(e) => (Err(e), k),
        Ok(nm) => {
            let colon = g_accept(s, n, name.1, TokenKind::Colon, None);
            match colon.0 {
                Err(e) => (Err(e), k),
                Ok(b) => {
                    let ty: Step<Option<AstView>> = if b {
                        let t = g_type(s, n, colon.1);
                        match t.0 {
                            Err(e) => (Err(e), k),
                            Ok(tv) => (Ok(Some(tv)), t.1),
                        }
                    } else {
                        (Ok(None), colon.1)
                    };
                    match ty.0 {
                        Err(e) => (Err(e), k),
                        Ok(t) => {
                            let eq = g_expect(s, n, ty.1, TokenKind::Equals, None);
                            if eq.0 is Err {
                                (Err(eq.0->Err_0), k)
                            } else if !ahead(n, k, eq.1) {
                                (Err(ParseFailure::Todo(Seq::empty())), k)
                            } else {
                                let value = g_expression(s, n, eq.1);
                                match value.0 {
                                    Err(e) => (Err(e), k),
                                    Ok(v) => (
                                        Ok(
                                            AstView::Let {
                                                pattern: Box::new(AstView::VariableAccess(nm)),
                                                type_: match t {
                                                    Some(tv) => Some(Box::new(tv)),
                                                    None => None,
                                                },
                                                body: Box::new(v),
                                            },
                                        ),
                                        value.1,
                                    ),
                                }
                            }
                        },
                    }
                },
            }
        },
    }
}

/// `static name: type = expression;`.
#[verifier::opaque]
pub open spec fn g_static(s: Tokens, n: int, k: int, public: bool) -> Step<AstView> {
    let kw = g_expect(s, n, k, TokenKind::Identifier, Some("static"@));
    if kw.0 is Err {
        (Err(kw.0->Err_0), k)
    } else {
        let name = g_expect(s, n, kw.1, TokenKind::Identifier, None);
        match name.0 {
            Err(e) => (Err(e), k),
            Ok(nm) => {
                let colon = g_expect(s, n, name.1, TokenKind::Colon, None);
                if colon.0 is Err {
                    (Err(colon.0->Err_0), k)
                } else {
                    let ty = g_type(s, n, colon.1);
                    match ty.0 {
                        Err(e) => (Err(e), k),
                        Ok(t) => {
                            let eq = g_expect(s, n, ty.1, TokenKind::Equals, None);
                            if eq.0 is Err {
                                (Err(eq.0->Err_0), k)
                            } else {
                                let value = g_expression(s, n, eq.1);
                                match value.0 {
                                    Err(e) => (Err(e), k),
                                    Ok(v) => {
                                        let semi = g_expect(s, n, value.1, TokenKind::Semicolon, None);
                                        if semi.0 is Err {
                                            (Err(semi.0->Err_0), k)
                                        } else {
                                            (
                                                Ok(
                                                    AstView::Static {
                                                        public,
                                                        name: nm,
                                                        type_: Box::new(t),
                                                        body: Box::new(v),
                                                    },
                                                ),
                                                semi.1,
                                            )
                                        }
                                    },
                                }
                            }
                        },
                    }
                }
            },
        }
    }
}

/// A function's body: `= expression;` or a block.
#[verifier::opaque]
pub open spec fn g_function_body(s: Tokens, n: int, k: int) -> Step<AstView> {
    if tok(s, n, k) is Error {
        (Err(lexical(s, n, k)), k)
    } else if at(s, n, k, TokenKind::Equals, None) {
        let value = g_expression(s, n, k + 1);
        match value.0 {
            Err(e) => (Err(e), k),
            Ok(v) => {
                let semi = g_expect(s, n, value.1, TokenKind::Semicolon, None);
                if semi.0 is Err {
                    (Err(semi.0->Err_0), k)
                } else {
                    (Ok(v), semi.1)
                }
            },
        }
    } else if at(s, n, k, TokenKind::Open, Some("{"@)) {
        g_block(s, n, k)
    } else {
        (
            Err(
                ParseFailure::Expected(
                    seq![(TokenKind::Equals, None), (TokenKind::Open, Some("{"@))],
                    tok(s, n, k),
                ),
            ),
            k,
        )
    }
}

/// `fn name(arguments) [: type]` and a body.
#[verifier::opaque]
pub open spec fn g_function(s: Tokens, n: int, k: int, public: bool) -> Step<AstView> {
    let kw = g_expect(s, n, k, TokenKind::Identifier, Some("fn"@));
    if kw.0 is Err {
        (Err(kw.0->Err_0), k)
    } else {
        let name = g_expect(s, n, kw.1, TokenKind::Identifier, None);
        match name.0 {
            Err(e) => (Err(e), k),
            Ok(nm) => {
                let args = g_arguments(s, n, name.1);
                match args.0 {
                    Err(e) => (Err(e), k),
                    Ok(a) => {
                        let colon = g_accept(s, n, args.1, TokenKind::Colon, None);
                        match colon.0 {
                            Err(e) => (Err(e), k),
                            Ok(b) => {
                                let ret: Step<Option<AstView>> = if b {
                                    let t = g_type(s, n, colon.1);
                                    match t.0 {
                                        Err(e) => (Err(e), k),
                                        Ok(tv) => (Ok(Some(tv)), t.1),
                                    }
                                } else {
                                    (Ok(None), colon.1)
                                };
                                match ret.0 {
                                    Err(e) => (Err(e), k),
                                    Ok(rt) => {
                                        let body = g_function_body(s, n, ret.1);
                                        match body.0 {
                                            Err(e) => (Err(e), k),
                                            Ok(bd) => (
                                                Ok(
                                                    AstView::Function {
                                                        public,
                                                        name: nm,
                                                        args: a,
                                                        return_type: match rt {
                                                            Some(tv) => Some(Box::new(tv)),
                                                            None => None,
                                                        },
                                                        body: Box::new(bd),
                                                        variadic: false,
                                                    },
                                                ),
                                                body.1,
                                            ),
                                        }
                                    },
                                }
                            },
                        }
                    },
                }
            },
        }
    }
}

/// The declarations that a program is made of start with these.
pub open spec fn declaration_starts() -> Seq<(TokenKind, Option<Seq<char>>)> {
    seq![
        (TokenKind::Identifier, Some("import"@)),
        (TokenKind::Identifier, Some("pub"@)),
        (TokenKind::Identifier, Some("static"@)),
        (TokenKind::Identifier, Some("class"@)),
        (TokenKind::Identifier, Some("fn"@)),
    ]
}

/// A declaration: an import, or a static, class or function definition, each possibly
/// after `pub` (which makes it public).
pub open spec fn g_declaration(s: Tokens, n: int, k: int, public: bool) -> Step<AstView>
    decreases left(n, k),
{
    if tok(s, n, k) is Error {
        (Err(lexical(s, n, k)), k)
    } else if at(s, n, k, TokenKind::Identifier, Some("import"@)) {
        g_import(s, n, k)
    } else if at(s, n, k, TokenKind::Identifier, Some("pub"@)) {
        if k < n {
            g_declaration(s, n, k + 1, true)
        } else {
            (Err(ParseFailure::Todo(Seq::empty())), k)
        }
    } else if at(s, n, k, TokenKind::Identifier, Some("static"@)) {
        g_static(s, n, k, public)
    } else if at(s, n, k, TokenKind::Identifier, Some("class"@)) {
        g_class(s, n, k, public)
    } else if at(s, n, k, TokenKind::Identifier, Some("fn"@)) {
        g_function(s, n, k, public)
    } else {
        (Err(ParseFailure::Expected(declaration_starts(), tok(s, n, k))), k)
    }
}

/// Declarations from `k` up to the end of the input, after `nodes`.
pub open spec fn g_declarations(s: Tokens, n: int, k: int, nodes: Seq<AstView>) -> Step<Seq<AstView>>
    decreases left(n, k),
{
    if tok(s, n, k) is End {
        (Ok(nodes), k)
    } else {
        let d = g_declaration(s, n, k, false);
        match d.0 {
            Err(e) => (Err(e), k),
            Ok(x) => if ahead(n, k, d.1) {
                g_declarations(s, n, d.1, nodes.push(x))
            } else {
                (Err(ParseFailure::Todo(Seq::empty())), k)
            },
        }
    }
}

/// A program: declarations up to the end of the input.
#[verifier::opaque]
pub open spec fn g_program(s: Tokens, n: int, k: int) -> Step<AstView> {
    if tok(s, n, k) is Token {
        let d = g_declarations(s, n, k, Seq::empty());
        match d.0 {
            Err(e) => (Err(e), k),
            Ok(nodes) => (Ok(AstView::Program(nodes)), d.1),
        }
    } else {
        (Ok(AstView::Program(Seq::empty())), k)
    }
}

/// What a branch's handler gives, run at `k`.
#[verifier::opaque]
pub open spec fn g_handler(h: Handler, s: Tokens, n: int, k: int) -> Step<AstView> {
    match h {
        Handler::IntegerLiteral => (Ok(AstView::Integer(numeral_value(text(s, n, k))->Some_0)), k + 1),
        Handler::Block => g_block(s, n, k),
        Handler::VariableAccess => (Ok(AstView::VariableAccess(text(s, n, k))), k + 1),
        Handler::Assignment => g_assignment(s, n, k),
        Handler::Let => g_let(s, n, k),
        Handler::ExpressionThenSemicolon => {
            let value = g_expression(s, n, k);
            match value.0 {
                Err(e) => (Err(e), k),
                Ok(v) => {
                    let semi = g_expect(s, n, value.1, TokenKind::Semicolon, None);
                    if semi.0 is Err {
                        (Err(semi.0->Err_0), k)
                    } else {
                        (Ok(v), semi.1)
                    }
                },
            }
        },
        Handler::Import => g_import(s, n, k),
        Handler::Public => g_declaration(s, n, k, true),
        Handler::Static(p) => g_static(s, n, k, p),
        Handler::Class(p) => g_class(s, n, k, p),
        Handler::Function(p) => g_function(s, n, k, p),
    }
}

/// The branch is taken at `k`: its token is there and its condition holds.
pub open spec fn taken_at(b: FinishedBranch, s: Tokens, n: int, k: int) -> bool {
    &&& at(s, n, k, b.kind, opt_str(b.content))
    &&& (b.predicate matches Some(Predicate::NextIsEquals) ==> at(s, n, k + 1, TokenKind::Equals, None))
}

/// The first branch from `i` on that is taken at `k` (the number of branches where none is).
pub open spec fn first_taken(bs: Seq<FinishedBranch>, s: Tokens, n: int, k: int, i: int) -> int
    decreases bs.len() - i,
{
    if i >= bs.len() {
        bs.len() as int
    } else if taken_at(bs[i], s, n, k) {
        i
    } else {
        first_taken(bs, s, n, k, i + 1)
    }
}

/// What choosing among branches at `k` gives.
#[verifier::opaque]
pub open spec fn g_branch(bs: Seq<FinishedBranch>, s: Tokens, n: int, k: int) -> Step<AstView> {
    let i = first_taken(bs, s, n, k, 0);
    if tok(s, n, k) is Error {
        (Err(lexical(s, n, k)), k)
    } else if 0 <= i < bs.len() {
        g_handler(bs[i].handler, s, n, if bs[i].consume { k + 1 } else { k })
    } else {
        (Err(ParseFailure::Expected(crate::parser::branch_view(bs), tok(s, n, k))), k)
    }
}


/// `let name: T = e` keeps its annotation: where a name, a colon, a type name, `=` and
/// an expression follow one another, the `Let` node has the name as its pattern, the
/// type name after the colon as its type, and the expression as its body, and the parse
/// goes on after the expression.
pub proof fn law_let_keeps_its_annotation(s: Tokens, n: int, k: int)
    requires
        at(s, n, k, TokenKind::Identifier, None),
        at(s, n, k + 1, TokenKind::Colon, None),
        at(s, n, k + 2, TokenKind::Identifier, None),
        at(s, n, k + 3, TokenKind::Equals, None),
        g_expression(s, n, k + 4).0 is Ok,
    ensures
        g_let(s, n, k) == (
            Ok::<AstView, ParseFailure>(
                AstView::Let {
                    pattern: Box::new(AstView::VariableAccess(text(s, n, k))),
                    type_: Some(Box::new(AstView::TypeName(text(s, n, k + 2)))),
                    body: Box::new(g_expression(s, n, k + 4).0->Ok_0),
                },
            ),
            g_expression(s, n, k + 4).1,
        ),
{
    reveal(g_expect);
    reveal(g_accept);
    reveal(g_type);
}

/// `let name = e` has no annotation: where a name, `=` and an expression follow one
/// another, the `Let` node has the name as its pattern, no type, and the expression as
/// its body.
pub proof fn law_let_without_annotation(s: Tokens, n: int, k: int)
    requires
        at(s, n, k, TokenKind::Identifier, None),
        at(s, n, k + 1, TokenKind::Equals, None),
        g_expression(s, n, k + 2).0 is Ok,
    ensures
        g_let(s, n, k) == (
            Ok::<AstView, ParseFailure>(
                AstView::Let {
                    pattern: Box::new(AstView::VariableAccess(text(s, n, k))),
                    type_: None,
                    body: Box::new(g_expression(s, n, k + 2).0->Ok_0),
                },
            ),
            g_expression(s, n, k + 2).1,
        ),
{
    reveal(g_expect);
    reveal(g_accept);
    reveal(g_type);
}

} // verus!
