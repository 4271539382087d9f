use vstd::prelude::*;
use crate::ast::{
    args_view, ast_view, lemma_args_view_push, lemma_nodes_view_push, names_view, nodes_view,
    opt_name, optional_view, Ast, AstNode, AstView, BoxSpanned, SString, Spanned,
};
use crate::common::{OptionalResult, Span};
use crate::lexer::{discarded, lemma_discarded_twice, lex_error_text, lex_outcome, slashes, LexError, LexOutcome, Lexer};
use crate::text::{debug_text, push_str, spec_debug_text, string_of};
use crate::token::{kind_name, Token, TokenKind};
use crate::grammar::{
    ahead, declaration_starts, expression_starts, first_taken, g_access, g_access_parts,
    g_accept, g_argument, g_arguments, g_assignment, g_block, g_block_items, g_branch,
    g_call_arguments, g_class, g_declaration, g_declarations, g_expect, g_expression,
    g_function, g_first_argument, g_function_body, g_handler, g_is, g_import, g_let, g_more_arguments,
    g_more_symbols, g_program, g_statement, g_static, g_symbol, g_type, starts_expression_at,
    starts_statement_at, taken_at, text, tok, at, ParseFailure,
};

verus! {

/// Why parsing stopped.
#[derive(Debug)]
pub enum ParseError {
    /// The lexer found no token.
    LexError(LexError),
    /// A token (or the end of the input, `None`) that no rule accepts here.
    UnexpectedToken(Option<Token>),
    /// The tokens that would have been accepted here (kind, and text where it matters),
    /// and the token found instead (`None` at the end of the input).
    ExpectedTokenGot(Vec<(TokenKind, Option<String>)>, Option<Token>),
    /// A construct not handled yet.
    Todo(String),
}

/// Each item followed by `, `.
pub open spec fn each_with_comma(items: Seq<Seq<char>>) -> Seq<char>
    decreases items.len(),
{
    if items.len() == 0 {
        Seq::empty()
    } else {
        each_with_comma(items.drop_last()) + items.last() + seq![',', ' ']
    }
}

/// Items as an English list: `a`, `a or b`, or `a, b, or c`.
pub open spec fn english_list(items: Seq<Seq<char>>) -> Seq<char> {
    if items.len() == 1 {
        items[0]
    } else if items.len() == 2 {
        items[0] + seq![' ', 'o', 'r', ' '] + items[1]
    } else {
        each_with_comma(items.drop_last()) + seq!['o', 'r', ' '] + items.last()
    }
}

/// An expected token as an error names it: its text as `{:?}` writes it, or else its
/// kind.
pub open spec fn pair_text(p: (TokenKind, Option<Seq<char>>)) -> Seq<char> {
    match p.1 {
        Some(t) => spec_debug_text(t),
        None => kind_name(p.0),
    }
}

/// The text of an error.
pub open spec fn error_text(e: ParseError) -> Seq<char> {
    match e {
        ParseError::LexError(le) => "LexError(UnexpectedCharacter("@ + spec_debug_text(
            lex_error_text(le),
        ) + "))"@,
        ParseError::UnexpectedToken(t) => match t {
            Some(tok) => "UnexpectedToken(Some(<"@ + kind_name(tok.kind) + seq![' '] + spec_debug_text(
                tok.span.text(),
            ) + ">))"@,
            None => "UnexpectedToken(None)"@,
        },
        ParseError::ExpectedTokenGot(v, got) => "expected "@ + english_list(
            expected_view(v@).map_values(|p: (TokenKind, Option<Seq<char>>)| pair_text(p)),
        ) + " but got "@ + match got {
            Some(tok) => kind_name(tok.kind) + seq![' '] + spec_debug_text(tok.span.text()),
            None => "end of file"@,
        },
        ParseError::Todo(m) => "TODO: "@ + m@,
    }
}

/// An error can be written: an expected list is not empty, and its tokens lie within
/// their sources.
pub open spec fn error_printable(e: ParseError) -> bool {
    match e {
        ParseError::UnexpectedToken(Some(tok)) => tok.span.in_bounds(),
        ParseError::ExpectedTokenGot(v, got) => v@.len() > 0 && (got matches Some(tok)
            ==> tok.span.in_bounds()),
        _ => true,
    }
}

impl ParseError {
    /// The items as an English list: `a`, `a or b`, or `a, b, or c`.
    fn format_list_according_to_english_rules(items: Vec<String>) -> (r: String)
        requires
            items@.len() > 0,
        ensures
            r@ == english_list(items@.map_values(|s: String| s@)),
    {
        let ghost texts = items@.map_values(|s: String| s@);
        if items.len() == 1 {
            return string_of(items[0].as_str());
        }
        if items.len() == 2 {
            let mut out = string_of(items[0].as_str());
            push_str(&mut out, " or ");
            push_str(&mut out, items[1].as_str());
            proof {
                reveal_strlit(" or ");
                assert(" or "@ =~= seq![' ', 'o', 'r', ' ']);
            }
            return out;
        }
        let last = items.len() - 1;
        let mut buf = string_of("");
        let mut i: usize = 0;
        proof {
            reveal_strlit("");
            assert(buf@ =~= each_with_comma(texts.take(0)));
        }
        while i < last
            invariant
                i <= last,
                last == items@.len() - 1,
                texts == items@.map_values(|s: String| s@),
                buf@ == each_with_comma(texts.take(i as int)),
            decreases last - i,
        {
            push_str(&mut buf, items[i].as_str());
            push_str(&mut buf, ", ");
            proof {
                reveal_strlit(", ");
                assert(texts.take(i + 1).drop_last() =~= texts.take(i as int));
                assert(buf@ =~= each_with_comma(texts.take(i + 1)));
            }
            i += 1;
        }
        push_str(&mut buf, "or ");
        push_str(&mut buf, items[last].as_str());
        proof {
            reveal_strlit("or ");
            assert(texts.take(last as int) =~= texts.drop_last());
            assert(buf@ =~= english_list(texts));
        }
        buf
    }

    /// How an expected token is named: its text as `{:?}` writes it, or else its kind.
    fn format_token_pair(pair: &(TokenKind, Option<String>)) -> (r: String)
        ensures
            r@ == pair_text((pair.0, opt_string(pair.1))),
    {
        match &pair.1 {
            Some(text) => debug_text(text.as_str()),
            None => string_of(pair.0.name()),
        }
    }

    /// The error as text: the variant and what it holds, or for an expected token
    /// `expected … but got …` with the expected tokens as an English list.
    pub fn describe(&self) -> (r: String)
        requires
            error_printable(*self),
        ensures
            r@ == error_text(*self),
    {
        match self {
            ParseError::LexError(e) => {
                let mut out = string_of("LexError(UnexpectedCharacter(");
                let text = match e {
                    LexError::UnexpectedCharacter(g) => debug_text(g.as_str()),
                };
                push_str(&mut out, text.as_str());
                push_str(&mut out, "))");
                out
            },
            ParseError::UnexpectedToken(t) => match t {
                Some(tok) => {
                    let mut out = string_of("UnexpectedToken(Some(");
                    let d = tok.describe();
                    push_str(&mut out, d.as_str());
                    push_str(&mut out, "))");
                    proof {
                        reveal_strlit("UnexpectedToken(Some(");
                        reveal_strlit("UnexpectedToken(Some(<");
                        reveal_strlit("))");
                        reveal_strlit(">))");
                        assert(out@ =~= error_text(*self));
                    }
                    out
                },
                None => string_of("UnexpectedToken(None)"),
            },
            ParseError::ExpectedTokenGot(expected, got) => {
                let mut names: Vec<String> = Vec::new();
                let mut i: usize = 0;
                while i < expected.len()
                    invariant
                        i <= expected@.len(),
                        names@.map_values(|s: String| s@) == expected_view(expected@).take(
                            i as int,
                        ).map_values(|p: (TokenKind, Option<Seq<char>>)| pair_text(p)),
                    decreases expected@.len() - i,
                {
                    let name = Self::format_token_pair(&expected[i]);
                    let ghost before = names@;
                    names.push(name);
                    proof {
                        assert(expected_view(expected@).take(i + 1) =~= expected_view(expected@).take(
                            i as int,
                        ).push((expected@[i as int].0, opt_string(expected@[i as int].1))));
                        assert(names@.map_values(|s: String| s@) =~= before.map_values(
                            |s: String| s@,
                        ).push(name@));
                        assert(names@.map_values(|s: String| s@) =~= expected_view(expected@).take(
                            i + 1,
                        ).map_values(|p: (TokenKind, Option<Seq<char>>)| pair_text(p)));
                    }
                    i += 1;
                }
                proof {
                    assert(expected_view(expected@).take(expected@.len() as int) =~= expected_view(
                        expected@,
                    ));
                }
                let list = Self::format_list_according_to_english_rules(names);
                let mut out = string_of("expected ");
                push_str(&mut out, list.as_str());
                push_str(&mut out, " but got ");
                match got {
                    Some(tok) => {
                        push_str(&mut out, tok.kind.name());
                        push_str(&mut out, " ");
                        let text = debug_text(tok.span.content());
                        push_str(&mut out, text.as_str());
                        proof {
                            reveal_strlit(" ");
                        }
                    },
                    None => push_str(&mut out, "end of file"),
                }
                proof {
                    assert(out@ =~= error_text(*self));
                }
                out
            },
            ParseError::Todo(m) => {
                let mut out = string_of("TODO: ");
                push_str(&mut out, m.as_str());
                out
            },
        }
    }
}

/// The result of a parsing step.
pub type ParseResult<T> = Result<T, ParseError>;

/// The text of an optional string slice.
pub open spec fn opt_str(o: Option<&str>) -> Option<Seq<char>> {
    match o {
        Some(s) => Some(s@),
        None => None,
    }
}

/// The text of an optional string.
pub open spec fn opt_string(o: Option<String>) -> Option<Seq<char>> {
    match o {
        Some(s) => Some(s@),
        None => None,
    }
}

/// The expected tokens of an error, as kinds and texts.
pub open spec fn expected_view(v: Seq<(TokenKind, Option<String>)>) -> Seq<(TokenKind, Option<Seq<char>>)> {
    v.map_values(|p: (TokenKind, Option<String>)| (p.0, opt_string(p.1)))
}

/// A token of kind `kind` and, where `content` is given, with that text.
pub open spec fn token_is(t: Token, kind: TokenKind, content: Option<Seq<char>>) -> bool {
    t.kind == kind && (content matches Some(c) ==> t.span.text() == c)
}

/// A token the parser can read: its span lies within its source.
pub open spec fn token_ok(t: OptionalResult<Token, LexError>) -> bool {
    t matches OptionalResult::Value(tok) ==> tok.span.in_bounds()
}

/// The token, if there is one and no error.
pub open spec fn token_option(t: OptionalResult<Token, LexError>) -> Option<Token> {
    match t {
        OptionalResult::Value(tok) => Some(tok),
        _ => None,
    }
}

/// `t` is what the lexer yields for `outcome`.
pub open spec fn yields(outcome: LexOutcome, t: OptionalResult<Token, LexError>) -> bool {
    match outcome {
        LexOutcome::Finished => t is Empty,
        LexOutcome::Unexpected(g) => t matches OptionalResult::Error(e) && lex_error_text(e) == g,
        LexOutcome::Produced(kind, span) => t matches OptionalResult::Value(tok) && tok.kind == kind
            && tok.span == span,
    }
}

/// `e` is the error that the lexer error `t` (if it is one) becomes.
pub open spec fn lex_failure(t: OptionalResult<Token, LexError>, e: ParseError) -> bool {
    t matches OptionalResult::Error(le) && e matches ParseError::LexError(e2) && lex_error_text(e2)
        == lex_error_text(le)
}

/// An integer token writes a number that fits in a `u128`.
pub open spec fn integer_fits(t: OptionalResult<Token, LexError>) -> bool {
    match t {
        OptionalResult::Value(tok) => tok.kind == TokenKind::Integer ==> numeral_value(
            tok.span.text(),
        ) is Some,
        _ => true,
    }
}

/// Within `fuel` tokens the lexer, from `w` on, reaches the end of the input or a
/// grapheme no token starts with, and every integer token on the way writes a number
/// that fits in a `u128`.
pub open spec fn stream_fits(w: Span, fuel: nat) -> bool
    decreases fuel,
{
    match lex_outcome(discarded(w)).0 {
        LexOutcome::Produced(kind, span) => if fuel == 0 {
            false
        } else {
            (kind == TokenKind::Integer ==> numeral_value(span.text()) is Some) && stream_fits(
                lex_outcome(discarded(w)).1,
                (fuel - 1) as nat,
            )
        },
        _ => true,
    }
}

/// A token as parsing sees it: its kind and text, a lexer error (its grapheme), or the
/// end of the input.
pub enum Tok {
    Token(TokenKind, Seq<char>),
    Error(Seq<char>),
    End,
}

/// How a token, lexer error or end is seen.
pub open spec fn tok_of(t: OptionalResult<Token, LexError>) -> Tok {
    match t {
        OptionalResult::Value(tok) => Tok::Token(tok.kind, tok.span.text()),
        OptionalResult::Error(e) => Tok::Error(lex_error_text(e)),
        OptionalResult::Empty => Tok::End,
    }
}

/// How a token is seen, or the end where there is none.
pub open spec fn tok_of_option(t: Option<Token>) -> Tok {
    match t {
        Some(tok) => Tok::Token(tok.kind, tok.span.text()),
        None => Tok::End,
    }
}

/// The `i`th token (from 0) that the lexer yields from `w` on; after the end of the
/// input or an error, the same again.
pub open spec fn lexed(w: Span, i: nat) -> Tok
    decreases i,
{
    match lex_outcome(discarded(w)).0 {
        LexOutcome::Finished => Tok::End,
        LexOutcome::Unexpected(g) => Tok::Error(g),
        LexOutcome::Produced(kind, span) => if i == 0 {
            Tok::Token(kind, span.text())
        } else {
            lexed(lex_outcome(discarded(w)).1, (i - 1) as nat)
        },
    }
}

/// Where `stream_fits` holds, the tokens from position `fuel` on are all the same, and
/// none of them is a token.
pub proof fn lemma_lexed_settles(w: Span, fuel: nat, j: nat)
    requires
        stream_fits(w, fuel),
        j >= fuel,
    ensures
        lexed(w, j) == lexed(w, fuel),
        !(lexed(w, fuel) is Token),
    decreases fuel,
{
    if lex_outcome(discarded(w)).0 is Produced {
        lemma_lexed_settles(lex_outcome(discarded(w)).1, (fuel - 1) as nat, (j - 1) as nat);
    }
}

/// How many positions the tokens of a parse by `p` span: from there on none is a token.
pub open spec fn parse_count(p: Parser) -> int {
    (choose|f: nat| stream_fits(p.lexer.window, f)) as int + 2
}

/// What parsing the tokens in view of `p` gives, by the grammar.
pub open spec fn parsed(p: Parser) -> Result<AstView, ParseFailure> {
    g_program(|i: int| stream(p, i), parse_count(p), 0).0
}

/// From position `n` on, the stream holds no token.
pub open spec fn bounded(s: spec_fn(int) -> Tok, n: int) -> bool {
    forall|i: int| i >= n ==> !(#[trigger] s(i) is Token)
}

/// What a failed parse is, as a value.
pub open spec fn failure_of(e: ParseError) -> ParseFailure {
    match e {
        ParseError::LexError(le) => ParseFailure::Lex(lex_error_text(le)),
        ParseError::UnexpectedToken(t) => ParseFailure::Unexpected(tok_of_option(t)),
        ParseError::ExpectedTokenGot(v, t) => ParseFailure::Expected(expected_view(v@), tok_of_option(t)),
        ParseError::Todo(m) => ParseFailure::Todo(m@),
    }
}

/// What a parsing step gave, as a value: its result seen through `f`, or its failure.
pub open spec fn outcome<T, V>(r: ParseResult<T>, f: spec_fn(T) -> V) -> Result<V, ParseFailure> {
    match r {
        Ok(v) => Ok(f(v)),
        Err(e) => Err(failure_of(e)),
    }
}

/// Reads tokens from a lexer and builds the syntax tree, keeping the token after the
/// current one in view and a stack of spans that grow over the tokens consumed.
pub struct Parser {
    pub lexer: Lexer,
    pub current: OptionalResult<Token, LexError>,
    pub next: OptionalResult<Token, LexError>,
    pub span_stack: Vec<Span>,
    /// The tokens of the whole parse, as they were when it began.
    pub tokens: Ghost<spec_fn(int) -> Tok>,
    /// A position from which on `tokens` holds no more tokens.
    pub count: Ghost<int>,
    /// The position in `tokens` of the current token.
    pub position: Ghost<int>,
}

/// The `i`th token in view of the parser (0 is the current one).
pub open spec fn stream(p: Parser, i: int) -> Tok {
    if i <= 0 {
        tok_of(p.current)
    } else if i == 1 {
        tok_of(p.next)
    } else {
        lexed(p.lexer.window, (i - 2) as nat)
    }
}

/// The tokens in view of the parser are those of `s` from position `k` on.
pub open spec fn at_position(p: Parser, s: spec_fn(int) -> Tok, k: int) -> bool {
    forall|i: int| i >= 0 ==> #[trigger] stream(p, i) == s(k + i)
}

/// The parser is in step with `s` at `k`: the tokens in view are those of `s` from `k`
/// on, and from `n` on `s` holds no token.
#[verifier::opaque]
pub open spec fn in_step(p: Parser, s: spec_fn(int) -> Tok, n: int, k: int) -> bool {
    at_position(p, s, k) && bounded(s, n)
}

/// Changing the span stack keeps the parser in step with its tokens.
pub proof fn lemma_tracking_frame(a: Parser, b: Parser)
    requires
        a.tracking(),
        b.lexer == a.lexer,
        b.current == a.current,
        b.next == a.next,
        b.tokens == a.tokens,
        b.count == a.count,
        b.position == a.position,
    ensures
        b.tracking(),
{
    reveal(in_step);
    assert forall|i: int| i >= 0 implies #[trigger] stream(b, i) == b.tokens@(b.position@ + i) by {
        assert(stream(a, i) == stream(b, i));
    }
}

/// `new` is `old` after moving one token on: the current token is the old next one and
/// the next one is what the lexer yields.
pub open spec fn advanced(old: Parser, new: Parser) -> bool {
    &&& new.current == old.next
    &&& new.lexer.window == lex_outcome(discarded(old.lexer.window)).1
    &&& yields(lex_outcome(discarded(old.lexer.window)).0, new.next)
    &&& new.span_stack@.len() == old.span_stack@.len()
    &&& new.span_stack@ == old.span_stack@.map_values(|sp: Span| sp.fitted(old.current->Value_0.span))
    &&& new.tokens == old.tokens
    &&& new.count == old.count
    &&& new.position@ == old.position@ + 1
}

impl Parser {
    /// The lexer is well formed and the tokens in view lie within the source.
    pub open spec fn wf(&self) -> bool {
        &&& self.lexer.wf()
        &&& token_ok(self.current)
        &&& token_ok(self.next)
        &&& crate::text::concat(crate::source::spec_graphemes(slashes())) == slashes()
    }

    /// Well formed, and every integer token in view or still to come writes a number
    /// that fits in a `u128`.
    pub open spec fn ready(&self) -> bool {
        &&& self.wf()
        &&& integer_fits(self.current)
        &&& integer_fits(self.next)
        &&& exists|f: nat| stream_fits(self.lexer.window, f)
    }

    /// Ready, and in step with the tokens of the whole parse.
    pub open spec fn tracking(&self) -> bool {
        &&& self.ready()
        &&& in_step(*self, self.tokens@, self.count@, self.position@)
        &&& self.position@ <= self.count@
        &&& tok(self.tokens@, self.count@, self.position@) == tok_of(self.current)
        &&& tok(self.tokens@, self.count@, self.position@ + 1) == tok_of(self.next)
    }

    /// One more than the characters after the lexer's position: more than the tokens
    /// still to come.
    pub open spec fn fuel(&self) -> nat {
        (self.lexer.window.body().len() + 1 - self.lexer.window.end_char) as nat
    }

    /// What is left to read: twice the characters after the lexer's position, and one
    /// for each token in view.
    pub open spec fn measure(&self) -> nat {
        (2 * (self.lexer.window.body().len() - self.lexer.window.end_char) + (if self.current is Value {
            1int
        } else {
            0
        }) + (if self.next is Value {
            1int
        } else {
            0
        })) as nat
    }

    /// The current token is of kind `kind` and, where `content` is given, has that text.
    pub open spec fn at_token(&self, kind: TokenKind, content: Option<Seq<char>>) -> bool {
        self.current matches OptionalResult::Value(t) && token_is(t, kind, content)
    }

    /// A parser over the tokens of `lexer`, with the first two in view.
    pub fn new(lexer: Lexer) -> (r: Parser)
        requires
            lexer.wf(),
        ensures
            r.wf(),
            r.span_stack@.len() == 0,
            r.lexer.window.source == lexer.window.source,
            yields(lex_outcome(discarded(lexer.window)).0, r.current),
            yields(lex_outcome(discarded(lex_outcome(discarded(lexer.window)).1)).0, r.next),
            r.lexer.window == lex_outcome(discarded(lex_outcome(discarded(lexer.window)).1)).1,
    {
        let mut lexer = lexer;
        let current = lexer.next_token();
        let next = lexer.next_token();
        Parser {
            lexer,
            current,
            next,
            span_stack: Vec::new(),
            tokens: Ghost(|i: int| Tok::End),
            count: Ghost(0),
            position: Ghost(0),
        }
    }

    /// A copy of the current token, error or nothing.
    fn current_copy(&self) -> (r: OptionalResult<Token, LexError>)
        ensures
            r is Empty <==> self.current is Empty,
            self.current matches OptionalResult::Value(t) ==> r == OptionalResult::<
                Token,
                LexError,
            >::Value(t),
            self.current matches OptionalResult::Error(e) ==> r matches OptionalResult::Error(e2)
                && lex_error_text(e2) == lex_error_text(e),
    {
        match &self.current {
            OptionalResult::Value(t) => OptionalResult::Value(t.copy()),
            OptionalResult::Error(LexError::UnexpectedCharacter(g)) => OptionalResult::Error(
            LexError::UnexpectedCharacter(g.clone()),
        ),
            OptionalResult::Empty => OptionalResult::Empty,
        }
    }

    /// The current token, or `None` at the end of the input; there must be no error.
    fn current_option(&self) -> (r: Option<Token>)
        requires
            !(self.current is Error),
        ensures
            r == token_option(self.current),
    {
        self.current_copy().as_option()
    }

    /// The error that the current lexer error becomes.
    fn current_error(&self) -> (r: ParseError)
        requires
            self.current is Error,
        ensures
            lex_failure(self.current, r),
    {
        match &self.current {
            OptionalResult::Error(e) => ParseError::LexError(e.copy()),
            _ => {
                proof {
                    assert(false);
                }
                ParseError::Todo(String::new())
            },
        }
    }

    fn push_span(&mut self, span: Span)
        ensures
            final(self).span_stack@ == old(self).span_stack@.push(span),
            final(self).lexer == old(self).lexer,
            final(self).current == old(self).current,
            final(self).next == old(self).next,
            final(self).tokens == old(self).tokens,
            final(self).count == old(self).count,
            final(self).position == old(self).position,
    {
        self.span_stack.push(span);
    }

    /// The span on top of the stack.
    fn current_scope(&self) -> (r: Span)
        requires
            self.span_stack@.len() > 0,
        ensures
            r == self.span_stack@.last(),
    {
        self.span_stack[self.span_stack.len() - 1].copy()
    }

    /// The span of the current token, if there is one.
    fn current_span(&self) -> (r: Option<Span>)
        ensures
            self.current matches OptionalResult::Value(t) ==> r == Some(t.span),
            !(self.current is Value) ==> r is None,
    {
        match &self.current {
            OptionalResult::Value(t) => Some(t.span.copy()),
            _ => None,
        }
    }

    /// Pushes the span of the current token, if there is one.
    fn begin_scope(&mut self)
        ensures
            final(self).span_stack@.len() == old(self).span_stack@.len() + (if old(self).current is Value {
                1int
            } else {
                0
            }),
            final(self).lexer == old(self).lexer,
            final(self).current == old(self).current,
            final(self).next == old(self).next,
            final(self).tokens == old(self).tokens,
            final(self).count == old(self).count,
            final(self).position == old(self).position,
            old(self).tracking() ==> final(self).tracking(),
    {
        if let Some(current_span) = self.current_span() {
            self.push_span(current_span);
        }
        proof {
            if old(self).tracking() {
                lemma_tracking_frame(*old(self), *self);
            }
        }
    }

    /// Pops the span on top of the stack.
    fn end_scope(&mut self) -> (r: Span)
        requires
            old(self).span_stack@.len() > 0,
        ensures
            r == old(self).span_stack@.last(),
            final(self).span_stack@ == old(self).span_stack@.drop_last(),
            final(self).lexer == old(self).lexer,
            final(self).current == old(self).current,
            final(self).next == old(self).next,
            final(self).tokens == old(self).tokens,
            final(self).count == old(self).count,
            final(self).position == old(self).position,
            old(self).tracking() ==> final(self).tracking(),
    {
        let r = self.span_stack.pop();
        proof {
            if old(self).tracking() {
                lemma_tracking_frame(*old(self), *self);
            }
        }
        match r {
            Some(s) => s,
            None => {
                proof {
                    assert(false);
                }
                Span::new_string("")
            },
        }
    }

    /// Moves one token on, widening every span on the stack over the current token.
    fn nom(&mut self)
        requires
            old(self).ready(),
            old(self).current is Value,
        ensures
            final(self).ready(),
            advanced(*old(self), *final(self)),
            final(self).measure() < old(self).measure(),
            final(self).lexer.window.source == old(self).lexer.window.source,
            final(self).tokens == old(self).tokens,
            final(self).count == old(self).count,
            final(self).position@ == old(self).position@ + 1,
            forall|i: int| i >= 0 ==> #[trigger] stream(*final(self), i) == stream(*old(self), i + 1),
            old(self).tracking() ==> final(self).tracking(),
    {
        let n = self.span_stack.len();
        let mut i: usize = 0;
        while i < n
            invariant
                i <= n,
                n == self.span_stack@.len(),
                self.lexer == old(self).lexer,
                self.current == old(self).current,
                self.next == old(self).next,
                self.tokens == old(self).tokens,
                self.count == old(self).count,
                self.position == old(self).position,
                old(self).current is Value,
                forall|j: int| 0 <= j < i ==> #[trigger] self.span_stack@[j] == old(self).span_stack@[j].fitted(
                    old(self).current->Value_0.span,
                ),
                forall|j: int| i <= j < n ==> #[trigger] self.span_stack@[j] == old(self).span_stack@[j],
            decreases n - i,
        {
            if let OptionalResult::Value(current) = &self.current {
                let mut s = self.span_stack[i].copy();
                s.fit(&current.span);
                self.span_stack.set(i, s);
            }
            i += 1;
        }
        proof {
            assert(self.span_stack@ =~= old(self).span_stack@.map_values(
                |sp: Span| sp.fitted(old(self).current->Value_0.span),
            ));
        }
        std::mem::swap(&mut self.current, &mut self.next);
        let ghost w = self.lexer.window;
        self.next = self.lexer.next_token();
        proof {
            reveal(in_step);
            self.position = Ghost(old(self).position@ + 1);
            let f = choose|f: nat| stream_fits(w, f);
            let o = lex_outcome(discarded(w));
            assert(stream_fits(w, f));
            if o.0 is Produced {
                assert(stream_fits(self.lexer.window, (f - 1) as nat));
            } else {
                lemma_discarded_twice(w);
                assert(self.lexer.window == discarded(w));
                assert(lex_outcome(discarded(self.lexer.window)) == o);
                assert(stream_fits(self.lexer.window, 0));
            }
            assert forall|i: int| i >= 0 implies #[trigger] stream(*self, i) == stream(*old(self), i + 1) by {
                if i >= 2 {
                    if !(o.0 is Produced) {
                        lemma_discarded_twice(w);
                        assert(lex_outcome(discarded(self.lexer.window)) == o);
                    }
                }
            }
            if old(self).tracking() {
                assert forall|i: int| i >= 0 implies #[trigger] stream(*self, i) == self.tokens@(
                    self.position@ + i,
                ) by {
                    assert(stream(*self, i) == stream(*old(self), i + 1));
                    assert(stream(*old(self), i + 1) == old(self).tokens@(old(self).position@ + (i + 1)));
                }
                let k = self.position@;
                assert(stream(*self, 1) == self.tokens@(k + 1));
                assert(tok_of(self.next) == stream(*self, 1));
            }
        }
    }

    /// Whether the current token is of kind `kind` (with text `content`, where given);
    /// a lexer error where the current token is one.
    fn is(&self, kind: TokenKind, content: Option<&str>) -> (r: ParseResult<bool>)
        requires
            self.wf(),
        ensures
            self.current is Empty ==> r == Ok::<bool, ParseError>(false),
            self.current is Error ==> (r matches Err(e) && lex_failure(self.current, e)),
            self.current is Value ==> r == Ok::<bool, ParseError>(self.at_token(kind, opt_str(content))),
    {
        match &self.current {
            OptionalResult::Empty => Ok(false),
            OptionalResult::Error(_) => Err(self.current_error()),
            OptionalResult::Value(t) => Ok(t.is_and_has_content(kind, content)),
        }
    }

    /// Whether the token after the current one is of kind `kind` (with text `content`,
    /// where given).
    fn next_is(&self, kind: TokenKind, content: Option<&str>) -> (r: bool)
        requires
            self.wf(),
        ensures
            r == (self.next matches OptionalResult::Value(t) && token_is(t, kind, opt_str(content))),
    {
        match &self.next {
            OptionalResult::Value(v) => v.is_and_has_content(kind, content),
            _ => false,
        }
    }

    /// Moves on over the current token when it is of kind `kind` (with text `content`,
    /// where given), and says whether it did.
    fn accept(&mut self, kind: TokenKind, content: Option<&str>) -> (r: ParseResult<bool>)
        requires
            old(self).tracking(),
        ensures
            final(self).tracking(),
            old(self).at_token(kind, opt_str(content)) ==> r == Ok::<bool, ParseError>(true)
                && advanced(*old(self), *final(self)) && final(self).measure() < old(self).measure(),
            !old(self).at_token(kind, opt_str(content)) ==> *final(self) == *old(self),
            final(self).lexer.window.source == old(self).lexer.window.source,
            final(self).span_stack@.len() == old(self).span_stack@.len(),
            old(self).current is Error ==> (r matches Err(e) && lex_failure(old(self).current, e)),
            !(old(self).current is Error) ==> r == Ok::<bool, ParseError>(
                old(self).at_token(kind, opt_str(content)),
            ),
            outcome(r, |b: bool| b) == g_accept(
                old(self).tokens@,
                old(self).count@,
                old(self).position@,
                kind,
                opt_str(content),
            ).0,
            r is Ok ==> final(self).position@ == g_accept(
                old(self).tokens@,
                old(self).count@,
                old(self).position@,
                kind,
                opt_str(content),
            ).1,
    {
        proof {
            reveal(g_accept);
        }
        if self.is(kind, content)? {
            self.nom();
            Ok(true)
        } else {
            Ok(false)
        }
    }

    /// The current token, moving on over it, when it is of kind `kind` (with text
    /// `content`, where given); `None` otherwise.
    fn accept_option(&mut self, kind: TokenKind, content: Option<&str>) -> (r: ParseResult<Option<Token>>)
        requires
            old(self).tracking(),
        ensures
            final(self).tracking(),
            old(self).at_token(kind, opt_str(content)) ==> r == Ok::<Option<Token>, ParseError>(
                token_option(old(self).current),
            ) && advanced(*old(self), *final(self)) && final(self).measure() < old(self).measure(),
            !old(self).at_token(kind, opt_str(content)) ==> *final(self) == *old(self),
            final(self).lexer.window.source == old(self).lexer.window.source,
            final(self).span_stack@.len() == old(self).span_stack@.len(),
            old(self).current is Error ==> (r matches Err(e) && lex_failure(old(self).current, e)),
            !(old(self).current is Error) && !old(self).at_token(kind, opt_str(content)) ==> r
                == Ok::<Option<Token>, ParseError>(None),
    {
        if self.is(kind, content)? {
            let return_ = Ok(self.current_option());
            self.nom();
            return_
        } else {
            Ok(None)
        }
    }

    /// The current token, moving on over it, when it is of kind `kind` (with text
    /// `content`, where given); otherwise the error that this token was expected.
    fn expect(&mut self, kind: TokenKind, content: Option<&str>) -> (r: ParseResult<Token>)
        requires
            old(self).tracking(),
        ensures
            final(self).tracking(),
            old(self).at_token(kind, opt_str(content)) ==> r == Ok::<Token, ParseError>(
                old(self).current->Value_0,
            ) && advanced(*old(self), *final(self)) && final(self).measure() < old(self).measure(),
            !old(self).at_token(kind, opt_str(content)) ==> *final(self) == *old(self),
            final(self).lexer.window.source == old(self).lexer.window.source,
            final(self).span_stack@.len() == old(self).span_stack@.len(),
            r is Ok <==> old(self).at_token(kind, opt_str(content)),
            old(self).current is Error ==> (r matches Err(e) && lex_failure(old(self).current, e)),
            r matches Ok(t) ==> t.span.text() == text(old(self).tokens@, old(self).count@, old(self).position@),
            outcome(r, |t: Token| t.span.text()) == g_expect(
                old(self).tokens@,
                old(self).count@,
                old(self).position@,
                kind,
                opt_str(content),
            ).0,
            r is Ok ==> final(self).position@ == g_expect(
                old(self).tokens@,
                old(self).count@,
                old(self).position@,
                kind,
                opt_str(content),
            ).1,
    {
        proof {
            reveal(g_accept);
            reveal(g_expect);
        }
        let current = self.current_copy();
        if self.accept(kind, content)? {
            return Ok(current.unwrap());
        }
        let wanted = match content {
            Some(c) => Some(string_of(c)),
            None => None,
        };
        let mut expected: Vec<(TokenKind, Option<String>)> = Vec::new();
        expected.push((kind, wanted));
        proof {
            assert(expected_view(expected@) =~= seq![(kind, opt_str(content))]);
        }
        Err(ParseError::ExpectedTokenGot(expected, current.as_option()))
    }
}

/// A condition on the parser, beyond the current token, for a branch to be taken.
#[derive(Clone, Copy, PartialEq, Eq, Structural, Debug)]
pub enum Predicate {
    /// The token after the current one is `=`.
    NextIsEquals,
}

/// What a branch does once taken.
#[derive(Clone, Copy, PartialEq, Eq, Structural, Debug)]
pub enum Handler {
    /// An integer literal.
    IntegerLiteral,
    /// A block in braces.
    Block,
    /// A variable named by the identifier.
    VariableAccess,
    /// `name = expression`.
    Assignment,
    /// `let name [: type] = expression` (after `let`).
    Let,
    /// `expression ;`.
    ExpressionThenSemicolon,
    /// An import statement.
    Import,
    /// A declaration made public (after `pub`).
    Public,
    /// A static definition, public or not.
    Static(bool),
    /// A class definition, public or not.
    Class(bool),
    /// A function definition, public or not.
    Function(bool),
}

/// A branch being built: the token it starts with, an optional condition, and whether
/// that token is consumed before the branch runs.
pub struct Branch {
    pub kind: TokenKind,
    pub content: Option<&'static str>,
    pub predicate: Option<Predicate>,
    pub consume: bool,
}

/// A branch with what it does once taken.
pub struct FinishedBranch {
    pub kind: TokenKind,
    pub content: Option<&'static str>,
    pub predicate: Option<Predicate>,
    pub consume: bool,
    pub handler: Handler,
}

impl Branch {
    /// A branch that starts with a token of kind `kind`.
    pub fn of_kind(kind: TokenKind) -> (r: Branch)
        ensures
            r.kind == kind,
            r.content is None,
            r.predicate is None,
            !r.consume,
    {
        Branch { kind, content: None, predicate: None, consume: false }
    }

    /// The branch, starting with a token with text `content`.
    pub fn with_content(self, content: &'static str) -> (r: Branch)
        ensures
            r.kind == self.kind,
            r.content == Some(content),
            r.predicate == self.predicate,
            r.consume == self.consume,
    {
        let mut b = self;
        b.content = Some(content);
        b
    }

    /// The branch, taken only where `predicate` also holds.
    pub fn when(self, predicate: Predicate) -> (r: Branch)
        ensures
            r.kind == self.kind,
            r.content == self.content,
            r.predicate == Some(predicate),
            r.consume == self.consume,
    {
        let mut b = self;
        b.predicate = Some(predicate);
        b
    }

    /// The branch, consuming its first token before it runs.
    pub fn consume(self) -> (r: Branch)
        ensures
            r.kind == self.kind,
            r.content == self.content,
            r.predicate == self.predicate,
            r.consume,
    {
        let mut b = self;
        b.consume = true;
        b
    }

    /// The finished branch, running `handler` once taken.
    pub fn then_handle(self, handler: Handler) -> (r: FinishedBranch)
        ensures
            r.kind == self.kind,
            r.content == self.content,
            r.predicate == self.predicate,
            r.consume == self.consume,
            r.handler == handler,
    {
        FinishedBranch {
            kind: self.kind,
            content: self.content,
            predicate: self.predicate,
            consume: self.consume,
            handler,
        }
    }
}

/// The handler moves on from the consumed token straight into a part that may begin
/// with any branch again, so the token must be consumed first.
pub open spec fn needs_progress(h: Handler) -> bool {
    h is Public || h is ExpressionThenSemicolon
}

/// The kinds and texts that the branches start with, in order.
pub open spec fn branch_view(branches: Seq<FinishedBranch>) -> Seq<(TokenKind, Option<Seq<char>>)> {
    branches.map_values(|b: FinishedBranch| (b.kind, opt_str(b.content)))
}

/// The condition holds of the parser (or there is none).
pub open spec fn predicate_holds(p: Option<Predicate>, parser: Parser) -> bool {
    match p {
        Some(Predicate::NextIsEquals) => parser.next matches OptionalResult::Value(t) && token_is(
            t,
            TokenKind::Equals,
            None,
        ),
        None => true,
    }
}

/// The parser after a step: still well formed, over the same source, with no more left
/// to read and no fewer spans on the stack.
pub open spec fn stepped(old: Parser, new: Parser) -> bool {
    &&& new.wf()
    &&& new.measure() <= old.measure()
    &&& new.lexer.window.source == old.lexer.window.source
    &&& new.span_stack@.len() >= old.span_stack@.len()
    &&& new.tokens == old.tokens
    &&& new.count == old.count
    &&& old.position@ <= new.position@
}

/// The digits of `s`, read as a decimal number.
pub open spec fn digits_value(s: Seq<char>) -> nat
    decreases s.len(),
{
    if s.len() == 0 {
        0
    } else {
        10 * digits_value(s.drop_last()) + (s.last() as nat - '0' as nat) as nat
    }
}

/// Every character of `s` is a digit from 0 to 9.
pub open spec fn all_digits(s: Seq<char>) -> bool {
    forall|i: int| 0 <= i < s.len() ==> '0' <= #[trigger] s[i] <= '9'
}

/// The number that `s` writes in decimal, where it writes one that fits in a `u128`.
pub open spec fn numeral_value(s: Seq<char>) -> Option<u128> {
    if s.len() > 0 && all_digits(s) && digits_value(s) <= u128::MAX {
        Some(digits_value(s) as u128)
    } else {
        None
    }
}

/// The number a decimal numeral writes, where it is all digits and fits in a `u128`.
fn parse_numeral(s: &str) -> (r: Option<u128>)
    ensures
        r == numeral_value(s@),
{
    let cs = crate::text::chars_of(s);
    if cs.len() == 0 {
        return None;
    }
    let mut value: u128 = 0;
    let mut fits = true;
    let mut i: usize = 0;
    while i < cs.len()
        invariant
            i <= cs@.len(),
            cs@ == s@,
            all_digits(cs@.take(i as int)),
            fits ==> value == digits_value(cs@.take(i as int)),
            !fits ==> digits_value(cs@.take(i as int)) > u128::MAX,
        decreases cs@.len() - i,
    {
        let c = cs[i];
        if c < '0' || c > '9' {
            assert(!all_digits(s@));
            return None;
        }
        let d = (c as u32 - '0' as u32) as u128;
        proof {
            assert(cs@.take(i + 1).drop_last() =~= cs@.take(i as int));
            assert(cs@.take(i + 1).last() == c);
            assert(all_digits(cs@.take(i + 1)));
        }
        if fits {
            match value.checked_mul(10) {
                Some(v10) => match v10.checked_add(d) {
                    Some(v) => {
                        value = v;
                    },
                    None => {
                        fits = false;
                    },
                },
                None => {
                    fits = false;
                },
            }
        }
        i += 1;
    }
    proof {
        assert(cs@.take(cs@.len() as int) =~= s@);
    }
    if fits {
        Some(value)
    } else {
        None
    }
}

/// A branch can run as written: handlers that move straight on consume the first token
/// first; an integer literal starts with an integer token, which it reads itself.
pub open spec fn fits_branch(b: FinishedBranch) -> bool {
    &&& needs_progress(b.handler) ==> b.consume
    &&& b.handler is IntegerLiteral ==> b.kind == TokenKind::Integer && !b.consume
    &&& b.handler is VariableAccess ==> !b.consume
}

/// What a handler needs of the parser when it starts.
pub open spec fn handler_ready(h: Handler, p: Parser) -> bool {
    &&& h is IntegerLiteral ==> (p.current matches OptionalResult::Value(t) && t.kind
        == TokenKind::Integer)
    &&& h is VariableAccess ==> p.current is Value
}

impl Parser {
    /// Whether `predicate` holds.
    fn holds(&self, predicate: Predicate) -> (r: bool)
        requires
            self.wf(),
        ensures
            r == predicate_holds(Some(predicate), *self),
    {
        match predicate {
            Predicate::NextIsEquals => self.next_is(TokenKind::Equals, None),
        }
    }

    /// The kinds and texts that the branches start with.
    fn expected_of(branches: &[FinishedBranch]) -> (r: Vec<(TokenKind, Option<String>)>)
        ensures
            expected_view(r@) == branch_view(branches@),
    {
        let mut v: Vec<(TokenKind, Option<String>)> = Vec::new();
        let mut i: usize = 0;
        while i < branches.len()
            invariant
                i <= branches@.len(),
                expected_view(v@) == branch_view(branches@.take(i as int)),
            decreases branches@.len() - i,
        {
            let content = match branches[i].content {
                Some(c) => Some(string_of(c)),
                None => None,
            };
            proof {
                assert(opt_string(content) == opt_str(branches@[i as int].content));
            }
            let ghost before = v@;
            v.push((branches[i].kind, content));
            proof {
                assert(v@ == before.push((branches@[i as int].kind, content)));
                assert(expected_view(v@) =~= expected_view(before).push(
                    (branches@[i as int].kind, opt_str(branches@[i as int].content)),
                ));
            }
            proof {
                assert(branches@.take(i + 1) =~= branches@.take(i as int).push(branches@[i as int]));
                assert(expected_view(v@) =~= branch_view(branches@.take(i + 1)));
            }
            i += 1;
        }
        proof {
            assert(branches@.take(branches@.len() as int) =~= branches@);
        }
        v
    }

    /// Takes the first branch whose token is current (and whose condition holds):
    /// consumes the token where the branch says so and runs its handler, within a span
    /// of its own. Where none is taken, the error lists what each branch starts with.
    fn branch(&mut self, branches: &[FinishedBranch]) -> (r: ParseResult<AstNode>)
        requires
            old(self).tracking(),
            branches@.len() > 0 || !(old(self).current is Error),
            forall|i: int| 0 <= i < branches@.len() ==> fits_branch(#[trigger] branches@[i]),
        ensures
            r is Ok ==> final(self).position@ > old(self).position@,
            old(self).current is Error || first_taken(
                branches@,
                old(self).tokens@,
                old(self).count@,
                old(self).position@,
                0,
            ) >= branches@.len() ==> *final(self) == *old(self),
            final(self).tracking(),
            stepped(*old(self), *final(self)),
            r is Ok ==> final(self).measure() < old(self).measure(),
            outcome(r, |n: AstNode| ast_view(n)) == g_branch(
                branches@,
                old(self).tokens@,
                old(self).count@,
                old(self).position@,
            ).0,
            r is Ok ==> final(self).position@ == g_branch(
                branches@,
                old(self).tokens@,
                old(self).count@,
                old(self).position@,
            ).1,
        decreases old(self).measure(), 2nat,
    {
        proof {
            reveal(g_branch);
        }
        let ghost s = self.tokens@;
        let ghost n = self.count@;
        let ghost k = self.position@;
        let mut i: usize = 0;
        while i < branches.len()
            invariant
                i <= branches@.len(),
                *self == *old(self),
                self.tracking(),
                s == self.tokens@,
                n == self.count@,
                k == self.position@,
                forall|j: int| 0 <= j < branches@.len() ==> fits_branch(#[trigger] branches@[j]),
                old(self).current is Error ==> i == 0,
                first_taken(branches@, s, n, k, 0) == first_taken(branches@, s, n, k, i as int),
            decreases branches@.len() - i,
        {
            proof {
                reveal(g_branch);
            }
            let b = &branches[i];
            let matched = self.is(b.kind, b.content)?;
            let taken = matched && match b.predicate {
                Some(p) => self.holds(p),
                None => true,
            };
            proof {
                assert(taken == taken_at(branches@[i as int], s, n, k));
            }
            if taken {
                let ghost budget = self.measure();
                self.begin_scope();
                if b.consume {
                    self.nom();
                }
                let ast_node = self.run_handler(b.handler, Ghost(budget));
                self.end_scope();
                return ast_node;
            }
            i += 1;
        }
        let expected = Self::expected_of(branches);
        Err(ParseError::ExpectedTokenGot(expected, self.current_option()))
    }

    /// Runs a handler; `budget` bounds what is left to read, strictly where the handler
    /// moves straight on.
    fn run_handler(&mut self, handler: Handler, Ghost(budget): Ghost<nat>) -> (r: ParseResult<AstNode>)
        requires
            old(self).tracking(),
            old(self).span_stack@.len() > 0,
            old(self).measure() <= budget,
            needs_progress(handler) ==> old(self).measure() < budget,
            handler_ready(handler, *old(self)),
        ensures
            r is Ok ==> final(self).position@ > old(self).position@,
            final(self).tracking(),
            stepped(*old(self), *final(self)),
            r is Ok ==> final(self).measure() < old(self).measure(),
            outcome(r, |n: AstNode| ast_view(n)) == g_handler(
                handler,
                old(self).tokens@,
                old(self).count@,
                old(self).position@,
            ).0,
            r is Ok ==> final(self).position@ == g_handler(
                handler,
                old(self).tokens@,
                old(self).count@,
                old(self).position@,
            ).1,
        decreases budget, 1nat,
    {
        proof {
            reveal(g_handler);
        }
        match handler {
            Handler::IntegerLiteral => self.integer_literal(),
            Handler::Block => self.block(),
            Handler::VariableAccess => self.variable_access(),
            Handler::Assignment => self.assignment_statement(),
            Handler::Let => self.let_statement(),
            Handler::ExpressionThenSemicolon => {
                let a = self.expression()?;
                self.expect(TokenKind::Semicolon, None)?;
                Ok(a)
            },
            Handler::Import => self.import_statement(),
            Handler::Public => self.global_declaration(true),
            Handler::Static(p) => self.static_definition(p),
            Handler::Class(p) => self.class_definition(p),
            Handler::Function(p) => self.function_definition(p),
        }
    }

    /// The current identifier, as a spanned string; the error where there is none.
    fn current_identifier(&mut self) -> (r: ParseResult<SString>)
        requires
            old(self).tracking(),
        ensures
            final(self).tracking(),
            stepped(*old(self), *final(self)),
            r is Ok ==> final(self).measure() < old(self).measure(),
            outcome(r, |x: SString| x.value@) == g_expect(
                old(self).tokens@,
                old(self).count@,
                old(self).position@,
                TokenKind::Identifier,
                None,
            ).0,
            r is Ok ==> final(self).position@ == old(self).position@ + 1,
            r matches Ok(x) ==> x.value@ == text(old(self).tokens@, old(self).count@, old(self).position@),
            r matches Ok(x) ==> x.span == old(self).current->Value_0.span,
            r is Err ==> *final(self) == *old(self),
            r is Ok <==> old(self).at_token(TokenKind::Identifier, None),
            r is Ok ==> final(self).position@ == g_expect(
                old(self).tokens@,
                old(self).count@,
                old(self).position@,
                TokenKind::Identifier,
                None,
            ).1,
    {
        proof {
            reveal(g_expect);
        }
        let token = self.expect(TokenKind::Identifier, None)?;
        Ok(SString::new(token.content(), token.span))
    }

    /// The current string literal, as a spanned string; the error where there is none.
    fn current_string(&mut self) -> (r: ParseResult<SString>)
        requires
            old(self).tracking(),
        ensures
            final(self).tracking(),
            stepped(*old(self), *final(self)),
            r is Ok ==> final(self).measure() < old(self).measure(),
            outcome(r, |x: SString| x.value@) == g_expect(
                old(self).tokens@,
                old(self).count@,
                old(self).position@,
                TokenKind::String,
                None,
            ).0,
            r is Ok ==> final(self).position@ == old(self).position@ + 1,
            r matches Ok(x) ==> x.value@ == text(old(self).tokens@, old(self).count@, old(self).position@),
            r matches Ok(x) ==> x.span == old(self).current->Value_0.span,
            r is Err ==> *final(self) == *old(self),
            r is Ok <==> old(self).at_token(TokenKind::String, None),
            r is Ok ==> final(self).position@ == g_expect(
                old(self).tokens@,
                old(self).count@,
                old(self).position@,
                TokenKind::String,
                None,
            ).1,
    {
        proof {
            reveal(g_expect);
        }
        let token = self.expect(TokenKind::String, None)?;
        Ok(SString::new(token.content(), token.span))
    }

    /// An integer literal: the number its digits write.
    fn integer_literal(&mut self) -> (r: ParseResult<AstNode>)
        requires
            old(self).tracking(),
            old(self).span_stack@.len() > 0,
            old(self).current matches OptionalResult::Value(t) && t.kind == TokenKind::Integer,
        ensures
            final(self).tracking(),
            stepped(*old(self), *final(self)),
            r matches Ok(n) && ast_view(n) == AstView::Integer(
                numeral_value(text(old(self).tokens@, old(self).count@, old(self).position@))->Some_0,
            ),
            final(self).measure() < old(self).measure(),
            final(self).position@ == old(self).position@ + 1,
    {
        let value = match &self.current {
            OptionalResult::Value(t) => match parse_numeral(t.span.content()) {
                Some(v) => v,
                None => {
                    proof {
                        assert(false);
                    }
                    0
                },
            },
            _ => {
                proof {
                    assert(false);
                }
                0
            },
        };
        self.nom();
        Ok(AstNode::new(Ast::Integer(value), self.current_scope()))
    }

    /// A variable named by the current token.
    fn variable_access(&mut self) -> (r: ParseResult<AstNode>)
        requires
            old(self).tracking(),
            old(self).span_stack@.len() > 0,
            old(self).current is Value,
        ensures
            final(self).tracking(),
            stepped(*old(self), *final(self)),
            r matches Ok(n) && ast_view(n) == AstView::VariableAccess(
                text(old(self).tokens@, old(self).count@, old(self).position@),
            ),
            final(self).measure() < old(self).measure(),
            final(self).position@ == old(self).position@ + 1,
    {
        let name = match &self.current {
            OptionalResult::Value(t) => t.content(),
            _ => {
                proof {
                    assert(false);
                }
                String::new()
            },
        };
        self.nom();
        Ok(AstNode::new(Ast::VariableAccess(name), self.current_scope()))
    }
}

impl Parser {
    /// An expression: an integer literal, a block, or a variable.
    fn expression(&mut self) -> (r: ParseResult<AstNode>)
        requires
            old(self).tracking(),
        ensures
            r is Ok ==> final(self).position@ > old(self).position@,
            final(self).tracking(),
            stepped(*old(self), *final(self)),
            r is Ok ==> final(self).measure() < old(self).measure(),
            outcome(r, |n: AstNode| ast_view(n)) == g_expression(
                old(self).tokens@,
                old(self).count@,
                old(self).position@,
            ).0,
            r is Ok ==> final(self).position@ == g_expression(
                old(self).tokens@,
                old(self).count@,
                old(self).position@,
            ).1,
        decreases old(self).measure(), 3nat,
    {
        proof {
            reveal(g_branch);
            reveal(g_handler);
        }
        let branches = [
            Branch::of_kind(TokenKind::Integer).then_handle(Handler::IntegerLiteral),
            Branch::of_kind(TokenKind::Open).with_content("{").then_handle(Handler::Block),
            Branch::of_kind(TokenKind::Identifier).then_handle(Handler::VariableAccess),
        ];
        proof {
            let (s, n, k) = (self.tokens@, self.count@, self.position@);
            assert(fits_branch(branches@[0]));
            assert(fits_branch(branches@[1]));
            assert(fits_branch(branches@[2]));
            reveal_with_fuel(first_taken, 4);
            assert(branch_view(branches@) =~= expression_starts());
            assert(g_branch(branches@, s, n, k) == g_expression(s, n, k));
        }
        self.branch(&branches)
    }

    /// A statement: an assignment `name = expression`, or `let name [: type] = expression`.
    fn statement(&mut self) -> (r: ParseResult<AstNode>)
        requires
            old(self).tracking(),
        ensures
            r is Ok ==> final(self).position@ > old(self).position@,
            final(self).tracking(),
            stepped(*old(self), *final(self)),
            r is Ok ==> final(self).measure() < old(self).measure(),
            outcome(r, |n: AstNode| ast_view(n)) == g_statement(
                old(self).tokens@,
                old(self).count@,
                old(self).position@,
            ).0,
            r is Ok ==> final(self).position@ == g_statement(
                old(self).tokens@,
                old(self).count@,
                old(self).position@,
            ).1,
        decreases old(self).measure(), 3nat,
    {
        proof {
            reveal(g_branch);
            reveal(g_handler);
        }
        let branches = [
            Branch::of_kind(TokenKind::Identifier).when(Predicate::NextIsEquals).then_handle(
                Handler::Assignment,
            ),
            Branch::of_kind(TokenKind::Identifier).with_content("let").consume().then_handle(Handler::Let),
        ];
        proof {
            let (s, n, k) = (self.tokens@, self.count@, self.position@);
            assert(fits_branch(branches@[0]));
            assert(fits_branch(branches@[1]));
            reveal_with_fuel(first_taken, 3);
            assert(branch_view(branches@) =~= seq![
                (TokenKind::Identifier, None),
                (TokenKind::Identifier, Some("let"@)),
            ]);
            assert(g_branch(branches@, s, n, k) == g_statement(s, n, k));
        }
        self.branch(&branches)
    }

    /// `name = expression`, as an assignment to the variable.
    #[verifier::rlimit(60)]
    fn assignment_statement(&mut self) -> (r: ParseResult<AstNode>)
        requires
            old(self).tracking(),
            old(self).span_stack@.len() > 0,
        ensures
            r is Ok ==> final(self).position@ > old(self).position@,
            final(self).tracking(),
            stepped(*old(self), *final(self)),
            r is Ok ==> final(self).measure() < old(self).measure(),
            outcome(r, |n: AstNode| ast_view(n)) == g_assignment(
                old(self).tokens@,
                old(self).count@,
                old(self).position@,
            ).0,
            r is Ok ==> final(self).position@ == g_assignment(
                old(self).tokens@,
                old(self).count@,
                old(self).position@,
            ).1,
        decreases old(self).measure(), 0nat,
    {
        let ghost (s, n, k) = (self.tokens@, self.count@, self.position@);
        let name = self.current_identifier()?;
        let ghost k1 = self.position@;
        proof {
            assert(g_expect(s, n, k, TokenKind::Identifier, None) == (Ok::<Seq<char>, ParseFailure>(
                name.value@,
            ), k1));
        }
        self.expect(TokenKind::Equals, None)?;
        let ghost k2 = self.position@;
        proof {
            assert(g_expect(s, n, k1, TokenKind::Equals, None).0 is Ok);
            assert(g_expect(s, n, k1, TokenKind::Equals, None).1 == k2);
            assert(ahead(n, k, k2));
        }
        let value = self.expression()?;
        proof {
            assert(g_expression(s, n, k2) == (Ok::<AstView, ParseFailure>(ast_view(value)), self.position@));
        }
        let pattern = AstNode::new(Ast::VariableAccess(name.value), name.span);
        proof {
            assert(ast_view(pattern) == AstView::VariableAccess(text(s, n, k)));
        }
        Ok(AstNode::new(Ast::Assignment { pattern, body: value }, self.current_scope()))
    }

    /// `name [: type] = expression`, after `let`.
    #[verifier::rlimit(60)]
    fn let_statement(&mut self) -> (r: ParseResult<AstNode>)
        requires
            old(self).tracking(),
            old(self).span_stack@.len() > 0,
        ensures
            r is Ok ==> final(self).position@ > old(self).position@,
            final(self).tracking(),
            stepped(*old(self), *final(self)),
            r is Ok ==> final(self).measure() < old(self).measure(),
            outcome(r, |n: AstNode| ast_view(n)) == g_let(
                old(self).tokens@,
                old(self).count@,
                old(self).position@,
            ).0,
            r is Ok ==> final(self).position@ == g_let(
                old(self).tokens@,
                old(self).count@,
                old(self).position@,
            ).1,
        decreases old(self).measure(), 0nat,
    {
        let ghost (s, n, k) = (self.tokens@, self.count@, self.position@);
        let name = self.current_identifier()?;
        let ghost k1 = self.position@;
        proof {
            assert(g_expect(s, n, k, TokenKind::Identifier, None) == (Ok::<Seq<char>, ParseFailure>(
                name.value@,
            ), k1));
        }
        let mut type_ = None;
        let colon = self.accept(TokenKind::Colon, None)?;
        let ghost k2 = self.position@;
        proof {
            assert(g_accept(s, n, k1, TokenKind::Colon, None) == (Ok::<bool, ParseFailure>(colon), k2));
        }
        if colon {
            let t = self.type_()?;
            proof {
                assert(g_type(s, n, k2) == (Ok::<AstView, ParseFailure>(ast_view(t)), self.position@));
            }
            type_ = Some(t);
        }
        let ghost k3 = self.position@;
        self.expect(TokenKind::Equals, None)?;
        let ghost k4 = self.position@;
        proof {
            assert(g_expect(s, n, k3, TokenKind::Equals, None).0 is Ok);
            assert(g_expect(s, n, k3, TokenKind::Equals, None).1 == k4);
            assert(ahead(n, k, k4));
        }
        let value = self.expression()?;
        proof {
            assert(g_expression(s, n, k4) == (Ok::<AstView, ParseFailure>(ast_view(value)), self.position@));
        }
        let pattern = AstNode::new(Ast::VariableAccess(name.value), name.span);
        proof {
            assert(ast_view(pattern) == AstView::VariableAccess(text(s, n, k)));
        }
        proof {
            assert(optional_view(type_) == (match type_ {
                Some(t) => Some(Box::new(ast_view(t))),
                None => None,
            }));
        }
        Ok(AstNode::new(Ast::Let { pattern, type_, body: value }, self.current_scope()))
    }

    /// An imported name and, after `as`, its alias.
    fn import_symbol_and_alias(&mut self) -> (r: ParseResult<(SString, Option<SString>)>)
        requires
            old(self).tracking(),
        ensures
            final(self).tracking(),
            stepped(*old(self), *final(self)),
            r is Ok ==> final(self).measure() < old(self).measure(),
            outcome(r, |x: (SString, Option<SString>)| (x.0.value@, opt_name(x.1))) == g_symbol(
                old(self).tokens@,
                old(self).count@,
                old(self).position@,
            ).0,
            r is Ok ==> final(self).position@ == g_symbol(
                old(self).tokens@,
                old(self).count@,
                old(self).position@,
            ).1,
    {
        proof {
            reveal(g_symbol);
        }
        let ghost (s, n, k) = (self.tokens@, self.count@, self.position@);
        let name = self.current_identifier()?;
        let ghost k1 = self.position@;
        proof {
            assert(g_expect(s, n, k, TokenKind::Identifier, None) == (Ok::<Seq<char>, ParseFailure>(
                name.value@,
            ), k1));
        }
        let mut alias = None;
        let as_ = self.accept(TokenKind::Identifier, Some("as"))?;
        let ghost k2 = self.position@;
        proof {
            assert(g_accept(s, n, k1, TokenKind::Identifier, Some("as"@)) == (Ok::<bool, ParseFailure>(as_), k2));
        }
        if as_ {
            let a = self.current_identifier()?;
            proof {
                assert(g_expect(s, n, k2, TokenKind::Identifier, None) == (Ok::<Seq<char>, ParseFailure>(
                    a.value@,
                ), self.position@));
            }
            alias = Some(a);
        }
        Ok((name, alias))
    }

    /// `import name [as alias], … from "module";`.
    #[verifier::rlimit(60)]
    fn import_statement(&mut self) -> (r: ParseResult<AstNode>)
        requires
            old(self).tracking(),
            old(self).span_stack@.len() > 0,
        ensures
            r is Ok ==> final(self).position@ > old(self).position@,
            final(self).tracking(),
            stepped(*old(self), *final(self)),
            r is Ok ==> final(self).measure() < old(self).measure(),
            outcome(r, |n: AstNode| ast_view(n)) == g_import(
                old(self).tokens@,
                old(self).count@,
                old(self).position@,
            ).0,
            r is Ok ==> final(self).position@ == g_import(
                old(self).tokens@,
                old(self).count@,
                old(self).position@,
            ).1,
    {
        proof {
            reveal(g_import);
        }
        let ghost (s, n, k) = (self.tokens@, self.count@, self.position@);
        self.expect(TokenKind::Identifier, Some("import"))?;
        let ghost k1 = self.position@;
        proof {
            assert(g_expect(s, n, k, TokenKind::Identifier, Some("import"@)).0 is Ok);
            assert(g_expect(s, n, k, TokenKind::Identifier, Some("import"@)).1 == k1);
        }
        let mut names = Vec::new();
        let first = self.import_symbol_and_alias()?;
        names.push(first);
        let ghost x = (first.0.value@, opt_name(first.1));
        let ghost p = self.position@;
        proof {
            assert(g_symbol(s, n, k1) == (Ok::<(Seq<char>, Option<Seq<char>>), ParseFailure>(x), p));
            assert(names_view(names@) =~= seq![x]);
        }
        let ghost goal = g_more_symbols(s, n, p, seq![x]);
        loop
            invariant
                self.tracking(),
                stepped(*old(self), *self),
                self.measure() < old(self).measure(),
                s == self.tokens@,
                n == self.count@,
                k == old(self).position@,
                g_expect(s, n, k, TokenKind::Identifier, Some("import"@)).0 is Ok,
                g_expect(s, n, k, TokenKind::Identifier, Some("import"@)).1 == k1,
                g_symbol(s, n, k1) == (Ok::<(Seq<char>, Option<Seq<char>>), ParseFailure>(x), p),
                goal == g_more_symbols(s, n, p, seq![x]),
                g_more_symbols(s, n, self.position@, names_view(names@)) == goal,
            ensures
                goal == (Ok::<Seq<(Seq<char>, Option<Seq<char>>)>, ParseFailure>(names_view(names@)), self.position@),
            decreases self.measure(),
        {
            proof {
                reveal(g_import);
            }
            let ghost before = names@;
            let ghost pos = self.position@;
            let comma = self.accept(TokenKind::Comma, None)?;
            proof {
                assert(g_accept(s, n, pos, TokenKind::Comma, None) == (Ok::<bool, ParseFailure>(comma), self.position@));
            }
            if !comma {
                break;
            }
            let ghost pos1 = self.position@;
            let sym = self.import_symbol_and_alias()?;
            names.push(sym);
            proof {
                let y = (sym.0.value@, opt_name(sym.1));
                assert(g_symbol(s, n, pos1) == (Ok::<(Seq<char>, Option<Seq<char>>), ParseFailure>(y), self.position@));
                assert(names_view(names@) =~= names_view(before).push(y));
                assert(ahead(n, pos, self.position@));
            }
        }
        let ghost k2 = self.position@;
        self.expect(TokenKind::Identifier, Some("from"))?;
        let ghost k3 = self.position@;
        proof {
            assert(g_expect(s, n, k2, TokenKind::Identifier, Some("from"@)).0 is Ok);
            assert(g_expect(s, n, k2, TokenKind::Identifier, Some("from"@)).1 == k3);
        }
        let module = self.current_string()?;
        let ghost k4 = self.position@;
        proof {
            assert(g_expect(s, n, k3, TokenKind::String, None) == (Ok::<Seq<char>, ParseFailure>(
                module.value@,
            ), k4));
        }
        self.expect(TokenKind::Semicolon, None)?;
        proof {
            assert(g_expect(s, n, k4, TokenKind::Semicolon, None).0 is Ok);
            assert(g_expect(s, n, k4, TokenKind::Semicolon, None).1 == self.position@);
        }
        Ok(
            AstNode::new(
                Ast::Import { names, module, module_alias: None },
                self.current_scope(),
            ),
        )
    }

    /// A type: for now, a type name.
    fn type_(&mut self) -> (r: ParseResult<AstNode>)
        requires
            old(self).tracking(),
        ensures
            final(self).tracking(),
            stepped(*old(self), *final(self)),
            r is Ok ==> final(self).measure() < old(self).measure(),
            outcome(r, |n: AstNode| ast_view(n)) == g_type(
                old(self).tokens@,
                old(self).count@,
                old(self).position@,
            ).0,
            r is Ok ==> final(self).position@ == g_type(
                old(self).tokens@,
                old(self).count@,
                old(self).position@,
            ).1,
    {
        proof {
            reveal(g_type);
        }
        let ghost (s, n, k) = (self.tokens@, self.count@, self.position@);
        self.begin_scope();
        let name = self.expect(TokenKind::Identifier, None)?;
        proof {
            assert(g_expect(s, n, k, TokenKind::Identifier, None) == (Ok::<Seq<char>, ParseFailure>(
                name.span.text(),
            ), self.position@));
        }
        let text = string_of(name.span.content());
        Ok(AstNode::new(Ast::TypeName(text), self.end_scope()))
    }

    /// `static name: type = expression;`.
    #[verifier::rlimit(60)]
    fn static_definition(&mut self, is_public: bool) -> (r: ParseResult<AstNode>)
        requires
            old(self).tracking(),
            old(self).span_stack@.len() > 0,
        ensures
            r is Ok ==> final(self).position@ > old(self).position@,
            final(self).tracking(),
            stepped(*old(self), *final(self)),
            r is Ok ==> final(self).measure() < old(self).measure(),
            outcome(r, |n: AstNode| ast_view(n)) == g_static(
                old(self).tokens@,
                old(self).count@,
                old(self).position@,
                is_public,
            ).0,
            r is Ok ==> final(self).position@ == g_static(
                old(self).tokens@,
                old(self).count@,
                old(self).position@,
                is_public,
            ).1,
        decreases old(self).measure(), 0nat,
    {
        proof {
            reveal(g_static);
        }
        let ghost (s, n, k) = (self.tokens@, self.count@, self.position@);
        self.expect(TokenKind::Identifier, Some("static"))?;
        let ghost k1 = self.position@;
        proof {
            assert(g_expect(s, n, k, TokenKind::Identifier, Some("static"@)).0 is Ok);
            assert(g_expect(s, n, k, TokenKind::Identifier, Some("static"@)).1 == k1);
        }
        let name = self.current_identifier()?;
        let ghost k2 = self.position@;
        proof {
            assert(g_expect(s, n, k1, TokenKind::Identifier, None) == (Ok::<Seq<char>, ParseFailure>(
                name.value@,
            ), k2));
        }
        self.expect(TokenKind::Colon, None)?;
        let ghost k3 = self.position@;
        proof {
            assert(g_expect(s, n, k2, TokenKind::Colon, None).0 is Ok);
            assert(g_expect(s, n, k2, TokenKind::Colon, None).1 == k3);
        }
        let type_ = self.type_()?;
        let ghost k4 = self.position@;
        proof {
            assert(g_type(s, n, k3) == (Ok::<AstView, ParseFailure>(ast_view(type_)), k4));
        }
        self.expect(TokenKind::Equals, None)?;
        let ghost k5 = self.position@;
        proof {
            assert(g_expect(s, n, k4, TokenKind::Equals, None).0 is Ok);
            assert(g_expect(s, n, k4, TokenKind::Equals, None).1 == k5);
        }
        let body = self.expression()?;
        let ghost k6 = self.position@;
        proof {
            assert(g_expression(s, n, k5) == (Ok::<AstView, ParseFailure>(ast_view(body)), k6));
        }
        self.expect(TokenKind::Semicolon, None)?;
        proof {
            assert(g_expect(s, n, k6, TokenKind::Semicolon, None).0 is Ok);
            assert(g_expect(s, n, k6, TokenKind::Semicolon, None).1 == self.position@);
        }
        Ok(
            AstNode::new(
                Ast::Static { public: is_public, name, type_, body },
                self.current_scope(),
            ),
        )
    }

    /// `class name { }`.
    fn class_definition(&mut self, is_public: bool) -> (r: ParseResult<AstNode>)
        requires
            old(self).tracking(),
            old(self).span_stack@.len() > 0,
        ensures
            r is Ok ==> final(self).position@ > old(self).position@,
            final(self).tracking(),
            stepped(*old(self), *final(self)),
            r is Ok ==> final(self).measure() < old(self).measure(),
            outcome(r, |n: AstNode| ast_view(n)) == g_class(
                old(self).tokens@,
                old(self).count@,
                old(self).position@,
                is_public,
            ).0,
            r is Ok ==> final(self).position@ == g_class(
                old(self).tokens@,
                old(self).count@,
                old(self).position@,
                is_public,
            ).1,
    {
        proof {
            reveal(g_class);
        }
        let ghost (s, n, k) = (self.tokens@, self.count@, self.position@);
        self.expect(TokenKind::Identifier, Some("class"))?;
        let ghost k1 = self.position@;
        proof {
            assert(g_expect(s, n, k, TokenKind::Identifier, Some("class"@)).0 is Ok);
            assert(g_expect(s, n, k, TokenKind::Identifier, Some("class"@)).1 == k1);
        }
        let name = self.current_identifier()?;
        let ghost k2 = self.position@;
        proof {
            assert(g_expect(s, n, k1, TokenKind::Identifier, None) == (Ok::<Seq<char>, ParseFailure>(
                name.value@,
            ), k2));
        }
        self.expect(TokenKind::Open, Some("{"))?;
        let ghost k3 = self.position@;
        proof {
            assert(g_expect(s, n, k2, TokenKind::Open, Some("{"@)).0 is Ok);
            assert(g_expect(s, n, k2, TokenKind::Open, Some("{"@)).1 == k3);
        }
        self.expect(TokenKind::Close, Some("}"))?;
        proof {
            assert(g_expect(s, n, k3, TokenKind::Close, Some("}"@)).0 is Ok);
            assert(g_expect(s, n, k3, TokenKind::Close, Some("}"@)).1 == self.position@);
        }
        let body = Vec::new();
        proof {
            assert(nodes_view(body@) =~= Seq::<AstView>::empty());
        }
        Ok(
            AstNode::new(
                Ast::Class { public: is_public, name, body },
                self.current_scope(),
            ),
        )
    }

    /// `: type` after an argument's name.
    fn function_argument(&mut self, name: Token) -> (r: ParseResult<(String, AstNode)>)
        requires
            old(self).tracking(),
            name.span.in_bounds(),
        ensures
            final(self).tracking(),
            stepped(*old(self), *final(self)),
            r is Ok ==> final(self).measure() < old(self).measure(),
            outcome(r, |a: (String, AstNode)| (a.0@, ast_view(a.1))) == g_argument(
                old(self).tokens@,
                old(self).count@,
                old(self).position@,
                name.span.text(),
            ).0,
            r is Ok ==> final(self).position@ == g_argument(
                old(self).tokens@,
                old(self).count@,
                old(self).position@,
                name.span.text(),
            ).1,
    {
        proof {
            reveal(g_argument);
        }
        let ghost (s, n, k) = (self.tokens@, self.count@, self.position@);
        self.expect(TokenKind::Colon, None)?;
        let ghost k1 = self.position@;
        proof {
            assert(g_expect(s, n, k, TokenKind::Colon, None).0 is Ok);
            assert(g_expect(s, n, k, TokenKind::Colon, None).1 == k1);
        }
        let type_ = self.type_()?;
        proof {
            assert(g_type(s, n, k1) == (Ok::<AstView, ParseFailure>(ast_view(type_)), self.position@));
        }
        Ok((name.content(), type_))
    }

    /// `(name: type, …)`.
    fn function_arguments(&mut self) -> (r: ParseResult<Vec<(String, AstNode)>>)
        requires
            old(self).tracking(),
        ensures
            final(self).tracking(),
            stepped(*old(self), *final(self)),
            r is Ok ==> final(self).measure() < old(self).measure(),
            outcome(r, |v: Vec<(String, AstNode)>| args_view(v@)) == g_arguments(
                old(self).tokens@,
                old(self).count@,
                old(self).position@,
            ).0,
            r is Ok ==> final(self).position@ == g_arguments(
                old(self).tokens@,
                old(self).count@,
                old(self).position@,
            ).1,
    {
        proof {
            reveal(g_arguments);
            reveal(g_first_argument);
        }
        let ghost (s, n, k) = (self.tokens@, self.count@, self.position@);
        self.expect(TokenKind::Open, Some("("))?;
        let ghost k1 = self.position@;
        proof {
            assert(g_expect(s, n, k, TokenKind::Open, Some("("@)).0 is Ok);
            assert(g_expect(s, n, k, TokenKind::Open, Some("("@)).1 == k1);
        }
        let mut args = Vec::new();
        if let Some(name) = self.accept_option(TokenKind::Identifier, None)? {
            let ghost k2 = self.position@;
            let a = self.function_argument(name)?;
            args.push(a);
            proof {
                assert(name.span.text() == text(s, n, k1));
                assert(k2 == k1 + 1);
                assert(g_argument(s, n, k2, name.span.text()) == (Ok::<(Seq<char>, AstView), ParseFailure>(
                    (a.0@, ast_view(a.1)),
                ), self.position@));
                lemma_args_view_push(Seq::empty(), a);
                assert(Seq::<(String, AstNode)>::empty().push(a) =~= args@);
                assert(args_view(Seq::empty()) =~= Seq::<(Seq<char>, AstView)>::empty());
                assert(args_view(args@) =~= seq![(a.0@, ast_view(a.1))]);
            }
        } else {
            proof {
                assert(args_view(args@) =~= Seq::<(Seq<char>, AstView)>::empty());
            }
        }
        let ghost first = args_view(args@);
        let ghost p = self.position@;
        proof {
            assert(g_first_argument(s, n, k1) == (Ok::<Seq<(Seq<char>, AstView)>, ParseFailure>(first), p));
        }
        let ghost goal = g_more_arguments(s, n, p, first);
        loop
            invariant
                self.tracking(),
                stepped(*old(self), *self),
                self.measure() < old(self).measure(),
                s == self.tokens@,
                n == self.count@,
                k == old(self).position@,
                g_expect(s, n, k, TokenKind::Open, Some("("@)).0 is Ok,
                g_expect(s, n, k, TokenKind::Open, Some("("@)).1 == k1,
                g_first_argument(s, n, k1) == (Ok::<Seq<(Seq<char>, AstView)>, ParseFailure>(first), p),
                goal == g_more_arguments(s, n, p, first),
                g_more_arguments(s, n, self.position@, args_view(args@)) == goal,
            ensures
                goal == (Ok::<Seq<(Seq<char>, AstView)>, ParseFailure>(args_view(args@)), self.position@),
            decreases self.measure(),
        {
            proof {
                reveal(g_arguments);
                reveal(g_first_argument);
            }
            let ghost before = args@;
            let ghost pos = self.position@;
            let comma = self.accept(TokenKind::Comma, None)?;
            proof {
                assert(g_accept(s, n, pos, TokenKind::Comma, None) == (Ok::<bool, ParseFailure>(comma), self.position@));
            }
            if !comma {
                break;
            }
            let ghost pos1 = self.position@;
            let name = self.expect(TokenKind::Identifier, None)?;
            let ghost pos2 = self.position@;
            proof {
                assert(g_expect(s, n, pos1, TokenKind::Identifier, None) == (Ok::<Seq<char>, ParseFailure>(
                    name.span.text(),
                ), pos2));
            }
            let a = self.function_argument(name)?;
            args.push(a);
            proof {
                assert(g_argument(s, n, pos2, name.span.text()) == (Ok::<(Seq<char>, AstView), ParseFailure>(
                    (a.0@, ast_view(a.1)),
                ), self.position@));
                lemma_args_view_push(before, a);
                assert(ahead(n, pos, self.position@));
            }
        }
        let ghost k3 = self.position@;
        self.expect(TokenKind::Close, Some(")"))?;
        proof {
            assert(g_expect(s, n, k3, TokenKind::Close, Some(")"@)).0 is Ok);
            assert(g_expect(s, n, k3, TokenKind::Close, Some(")"@)).1 == self.position@);
        }
        Ok(args)
    }

    /// Whether the current token can start an expression.
    fn starts_expression(&mut self) -> (r: ParseResult<bool>)
        requires
            old(self).tracking(),
        ensures
            *final(self) == *old(self),
            old(self).current is Error ==> (r matches Err(e) && lex_failure(old(self).current, e)),
            !(old(self).current is Error) ==> r == Ok::<bool, ParseError>(
                starts_expression_at(old(self).tokens@, old(self).count@, old(self).position@),
            ),
    {
        Ok(self.is(TokenKind::Identifier, None)? || self.is(TokenKind::Integer, None)? || self.is(
            TokenKind::Open,
            Some("{"),
        )?)
    }

    /// Whether the current token starts a statement: `let`, or a name followed by `=`.
    fn starts_statement(&mut self) -> (r: ParseResult<bool>)
        requires
            old(self).tracking(),
        ensures
            *final(self) == *old(self),
            old(self).current is Error ==> (r matches Err(e) && lex_failure(old(self).current, e)),
            !(old(self).current is Error) ==> r == Ok::<bool, ParseError>(
                starts_statement_at(old(self).tokens@, old(self).count@, old(self).position@),
            ),
    {
        Ok(self.is(TokenKind::Identifier, Some("let"))? || (self.is(TokenKind::Identifier, None)?
            && self.next_is(TokenKind::Equals, None)))
    }

    /// `()` after a callee; arguments are not read yet.
    fn args(&mut self) -> (r: ParseResult<Vec<AstNode>>)
        requires
            old(self).tracking(),
        ensures
            r is Ok ==> final(self).position@ > old(self).position@,
            final(self).tracking(),
            stepped(*old(self), *final(self)),
            r is Ok ==> final(self).measure() < old(self).measure(),
            outcome(r, |v: Vec<AstNode>| nodes_view(v@)) == g_call_arguments(
                old(self).tokens@,
                old(self).count@,
                old(self).position@,
            ).0,
            r is Ok ==> final(self).position@ == g_call_arguments(
                old(self).tokens@,
                old(self).count@,
                old(self).position@,
            ).1,
    {
        proof {
            reveal(g_call_arguments);
        }
        let args = Vec::new();
        self.expect(TokenKind::Open, Some("("))?;
        self.expect(TokenKind::Close, Some(")"))?;
        proof {
            assert(nodes_view(args@) =~= Seq::<AstView>::empty());
        }
        Ok(args)
    }
}

/// Choosing between `= expression;` and a block is what a function's body is.
proof fn lemma_body_branches(bs: Seq<FinishedBranch>, s: spec_fn(int) -> Tok, n: int, k: int)
    requires
        bs.len() == 2,
        bs[0].kind == TokenKind::Equals,
        bs[0].content is None,
        bs[0].predicate is None,
        bs[0].consume,
        bs[0].handler == Handler::ExpressionThenSemicolon,
        bs[1].kind == TokenKind::Open,
        opt_str(bs[1].content) == Some("{"@),
        bs[1].predicate is None,
        !bs[1].consume,
        bs[1].handler == Handler::Block,
    ensures
        g_branch(bs, s, n, k).0 == g_function_body(s, n, k).0,
        g_branch(bs, s, n, k).0 is Ok ==> g_branch(bs, s, n, k).1 == g_function_body(s, n, k).1,
{
    reveal(g_branch);
    reveal(g_handler);
    reveal(g_function_body);
    reveal_with_fuel(first_taken, 3);
    assert(branch_view(bs) =~= seq![(TokenKind::Equals, None), (TokenKind::Open, Some("{"@))]);
}

/// Another copy of a token slot (a token, a lexing error, or nothing).
fn copy_slot(o: &OptionalResult<Token, LexError>) -> (r: OptionalResult<Token, LexError>)
    ensures
        r == *o,
{
    match o {
        OptionalResult::Value(t) => OptionalResult::Value(t.copy()),
        OptionalResult::Error(LexError::UnexpectedCharacter(g)) => OptionalResult::Error(
            LexError::UnexpectedCharacter(g.clone()),
        ),
        OptionalResult::Empty => OptionalResult::Empty,
    }
}

/// The view of an optional node.
pub open spec fn maybe_view(o: Option<AstNode>) -> Option<AstView> {
    match o {
        Some(n) => Some(ast_view(n)),
        None => None,
    }
}

impl Parser {
    /// A name followed by `.member` and `()` parts, as far as they go; `None`, moving on
    /// over nothing, where the current token is no name, where two names follow one
    /// another, or where a part after the name does not go through (a `.` without a name
    /// after it, a `(` without `)`): then the parser is put back where it was. A token
    /// that could not be read is an error.
    fn beginning_statement_or_expression(&mut self) -> (r: ParseResult<Option<AstNode>>)
        requires
            old(self).tracking(),
            old(self).span_stack@.len() > 0,
        ensures
            final(self).position@ >= old(self).position@,
            final(self).tracking(),
            final(self).measure() <= old(self).measure(),
            final(self).lexer.window.source == old(self).lexer.window.source,
            final(self).tokens == old(self).tokens,
            final(self).count == old(self).count,
            final(self).span_stack@.len() + (if old(self).current is Value {
                0int
            } else {
                1
            }) >= old(self).span_stack@.len(),
            r matches Ok(Some(_)) ==> final(self).measure() < old(self).measure()
                && old(self).current is Value && final(self).position@ > old(self).position@,
            r matches Ok(None) ==> final(self).current == old(self).current && final(self).next
                == old(self).next && final(self).lexer == old(self).lexer && final(self).position
                == old(self).position,
            outcome(r, |o: Option<AstNode>| maybe_view(o)) == g_access(
                old(self).tokens@,
                old(self).count@,
                old(self).position@,
            ).0,
            r is Ok ==> final(self).position@ == g_access(
                old(self).tokens@,
                old(self).count@,
                old(self).position@,
            ).1,
    {
        proof {
            reveal(g_access);
        }
        let ghost (s, n, k) = (self.tokens@, self.count@, self.position@);
        self.begin_scope();
        if self.is(TokenKind::Identifier, None)? && self.next_is(TokenKind::Identifier, None) {
            return Ok(None);
        }
        if self.is(TokenKind::Identifier, None)? {
            let ghost depth = self.span_stack@.len();
            let ghost before = *self;
            let saved_window = self.lexer.window.copy();
            let saved_current = copy_slot(&self.current);
            let saved_next = copy_slot(&self.next);
            let saved_position = self.position;
            let name = self.current_identifier()?;
            let mut access = AstNode::new(Ast::VariableAccess(name.value), name.span);
            proof {
                assert(g_expect(s, n, k, TokenKind::Identifier, None) == (Ok::<Seq<char>, ParseFailure>(
                    name.value@,
                ), k + 1));
                assert(ast_view(access) == AstView::VariableAccess(text(s, n, k)));
            }
            let ghost goal = g_access_parts(s, n, k + 1, AstView::VariableAccess(text(s, n, k)));
            loop
                invariant
                    self.tracking(),
                    self.measure() < old(self).measure(),
                    self.lexer.window.source == old(self).lexer.window.source,
                    self.span_stack@.len() >= depth,
                    depth == old(self).span_stack@.len() + 1,
                    s == self.tokens@,
                    n == self.count@,
                    k == old(self).position@,
                    self.tokens == old(self).tokens,
                    self.count == old(self).count,
                    self.position@ > k,
                    before.tracking(),
                    before.lexer.window == saved_window,
                    before.current == saved_current,
                    before.next == saved_next,
                    before.position == saved_position,
                    before.tokens == old(self).tokens,
                    before.count == old(self).count,
                    before.lexer == old(self).lexer,
                    before.current == old(self).current,
                    before.next == old(self).next,
                    before.position == old(self).position,
                    !(tok(s, n, k) is Error),
                    at(s, n, k, TokenKind::Identifier, None),
                    !at(s, n, k + 1, TokenKind::Identifier, None),
                    goal == g_access_parts(s, n, k + 1, AstView::VariableAccess(text(s, n, k))),
                    g_access_parts(s, n, self.position@, ast_view(access)) == goal,
                ensures
                    goal == (Ok::<AstView, ParseFailure>(ast_view(access)), self.position@),
                decreases self.measure(),
            {
                proof {
                    reveal(g_access);
                }
                let ghost pos = self.position@;
                let dot = self.is(TokenKind::Dot, None)?;
                let open = dot || self.is(TokenKind::Open, Some("("))?;
                if !open {
                    break;
                }
                if self.accept(TokenKind::Dot, None)? {
                    let ghost pos1 = self.position@;
                    let name = match self.current_identifier() {
                        Ok(name) => name,
                        Err(ParseError::LexError(e)) => {
                            return Err(ParseError::LexError(e));
                        },
                        Err(_) => {
                            self.lexer = Lexer { window: saved_window };
                            self.current = saved_current;
                            self.next = saved_next;
                            self.position = saved_position;
                            proof {
                                lemma_tracking_frame(before, *self);
                            }
                            self.end_scope();
                            return Ok(None);
                        },
                    };
                    proof {
                        assert(g_expect(s, n, pos1, TokenKind::Identifier, None) == (Ok::<Seq<char>, ParseFailure>(
                            name.value@,
                        ), self.position@));
                    }
                    access = AstNode::new(Ast::MemberAccess(access, name), self.current_scope());
                } else {
                    let args = match self.args() {
                        Ok(args) => args,
                        Err(ParseError::LexError(e)) => {
                            return Err(ParseError::LexError(e));
                        },
                        Err(_) => {
                            self.lexer = Lexer { window: saved_window };
                            self.current = saved_current;
                            self.next = saved_next;
                            self.position = saved_position;
                            proof {
                                lemma_tracking_frame(before, *self);
                            }
                            self.end_scope();
                            return Ok(None);
                        },
                    };
                    proof {
                        assert(g_call_arguments(s, n, pos) == (Ok::<Seq<AstView>, ParseFailure>(
                            nodes_view(args@),
                        ), self.position@));
                    }
                    access = AstNode::new(Ast::Call(access, args), self.current_scope());
                }
                proof {
                    assert(ahead(n, pos, self.position@));
                }
            }
            self.end_scope();
            Ok(Some(access))
        } else {
            self.end_scope();
            Ok(None)
        }
    }

    /// `{ statement; … [expression] }`: statements and expressions followed by `;`, and
    /// optionally a last expression without one, which is the block's value.
    #[verifier::rlimit(60)]
    fn block(&mut self) -> (r: ParseResult<AstNode>)
        requires
            old(self).tracking(),
        ensures
            r is Ok ==> final(self).position@ > old(self).position@,
            final(self).tracking(),
            stepped(*old(self), *final(self)),
            r is Ok ==> final(self).measure() < old(self).measure(),
            outcome(r, |n: AstNode| ast_view(n)) == g_block(
                old(self).tokens@,
                old(self).count@,
                old(self).position@,
            ).0,
            r is Ok ==> final(self).position@ == g_block(
                old(self).tokens@,
                old(self).count@,
                old(self).position@,
            ).1,
        decreases old(self).measure(), 0nat,
    {
        proof {
            reveal(g_is);
        }
        let ghost (s, n, k) = (self.tokens@, self.count@, self.position@);
        self.begin_scope();
        let mut bloc = Vec::new();
        let mut return_ = None;
        self.expect(TokenKind::Open, Some("{"))?;
        let ghost base = old(self).span_stack@.len();
        let ghost goal = g_block_items(s, n, k + 1, Seq::empty());
        proof {
            assert(g_expect(s, n, k, TokenKind::Open, Some("{"@)) == (Ok::<Seq<char>, ParseFailure>(
                text(s, n, k),
            ), k + 1));
            assert(nodes_view(bloc@) =~= Seq::<AstView>::empty());
        }
        loop
            invariant_except_break
                return_ is None,
                g_block_items(s, n, self.position@, nodes_view(bloc@)) == goal,
            invariant
                self.tracking(),
                self.measure() < old(self).measure(),
                self.lexer.window.source == old(self).lexer.window.source,
                self.span_stack@.len() >= base + 1,
                base == old(self).span_stack@.len(),
                s == self.tokens@,
                n == self.count@,
                k == old(self).position@,
                self.tokens == old(self).tokens,
                self.count == old(self).count,
                self.position@ > k,
                g_expect(s, n, k, TokenKind::Open, Some("{"@)) == (Ok::<Seq<char>, ParseFailure>(
                    text(s, n, k),
                ), k + 1),
                ahead(n, k, k + 1),
                goal == g_block_items(s, n, k + 1, Seq::empty()),
            ensures
                goal == (Ok::<(Seq<AstView>, Option<AstView>), ParseFailure>(
                    (nodes_view(bloc@), maybe_view(return_)),
                ), self.position@),
            decreases self.measure(),
        {
            proof {
                reveal(g_is);
            }
            let ghost pos = self.position@;
            let ghost before = bloc@;
            self.begin_scope();
            let access = self.beginning_statement_or_expression()?;
            let ghost pos1 = self.position@;
            proof {
                assert(g_access(s, n, pos) == (Ok::<Option<AstView>, ParseFailure>(maybe_view(access)), pos1));
            }
            if let Some(access_expr) = access {
                let eq = self.accept(TokenKind::Equals, None)?;
                let ghost pos2 = self.position@;
                proof {
                    assert(g_accept(s, n, pos1, TokenKind::Equals, None) == (Ok::<bool, ParseFailure>(eq), pos2));
                }
                if eq {
                    let expr = self.expression()?;
                    let ghost pos3 = self.position@;
                    proof {
                        assert(g_expression(s, n, pos2) == (Ok::<AstView, ParseFailure>(ast_view(expr)), pos3));
                    }
                    let node = AstNode::new(
                        Ast::Assignment { pattern: access_expr, body: expr },
                        self.end_scope(),
                    );
                    bloc.push(node);
                    self.expect(TokenKind::Semicolon, None)?;
                    proof {
                        assert(g_expect(s, n, pos3, TokenKind::Semicolon, None).0 is Ok);
                        assert(g_expect(s, n, pos3, TokenKind::Semicolon, None).1 == self.position@);
                        lemma_nodes_view_push(before, node);
                        assert(ahead(n, pos, self.position@));
                    }
                } else {
                    let semi = self.accept(TokenKind::Semicolon, None)?;
                    proof {
                        assert(g_accept(s, n, pos1, TokenKind::Semicolon, None) == (Ok::<bool, ParseFailure>(
                            semi,
                        ), self.position@));
                    }
                    if semi {
                        bloc.push(access_expr);
                        self.end_scope();
                        proof {
                            lemma_nodes_view_push(before, access_expr);
                            assert(ahead(n, pos, self.position@));
                        }
                        continue ;
                    } else if self.is(TokenKind::Close, Some("}"))? {
                        return_ = Some(access_expr);
                        self.end_scope();
                        break;
                    }
                }
            } else {
                let st = self.starts_statement()?;
                if st {
                    let statement = self.statement()?;
                    let ghost pos2 = self.position@;
                    proof {
                        assert(g_statement(s, n, pos) == (Ok::<AstView, ParseFailure>(ast_view(statement)), pos2));
                    }
                    bloc.push(statement);
                    self.expect(TokenKind::Semicolon, None)?;
                    self.end_scope();
                    proof {
                        assert(g_expect(s, n, pos2, TokenKind::Semicolon, None).0 is Ok);
                        assert(g_expect(s, n, pos2, TokenKind::Semicolon, None).1 == self.position@);
                        lemma_nodes_view_push(before, statement);
                        assert(ahead(n, pos, self.position@));
                    }
                    continue ;
                }
                let se = self.starts_expression()?;
                if se {
                    let expression = self.expression()?;
                    let ghost pos2 = self.position@;
                    proof {
                        assert(g_expression(s, n, pos) == (Ok::<AstView, ParseFailure>(ast_view(expression)), pos2));
                    }
                    let semi = self.accept(TokenKind::Semicolon, None)?;
                    proof {
                        assert(g_accept(s, n, pos2, TokenKind::Semicolon, None) == (Ok::<bool, ParseFailure>(
                            semi,
                        ), self.position@));
                    }
                    if semi {
                        bloc.push(expression);
                        self.end_scope();
                        proof {
                            lemma_nodes_view_push(before, expression);
                            assert(ahead(n, pos, self.position@));
                        }
                        continue ;
                    } else {
                        return_ = Some(expression);
                        self.end_scope();
                        break;
                    }
                }
                if self.is(TokenKind::Close, Some("}"))? {
                    self.end_scope();
                    break;
                }
                return Err(ParseError::UnexpectedToken(self.current_option()));
            }
        }
        let ghost k2 = self.position@;
        self.expect(TokenKind::Close, Some("}"))?;
        proof {
            assert(g_expect(s, n, k2, TokenKind::Close, Some("}"@)).0 is Ok);
            assert(g_expect(s, n, k2, TokenKind::Close, Some("}"@)).1 == self.position@);
        }
        proof {
            assert(optional_view(return_) == (match return_ {
                Some(v) => Some(Box::new(ast_view(v))),
                None => None,
            }));
        }
        Ok(
            AstNode::new(
                Ast::Block { statements: bloc, return_value: return_ },
                self.end_scope(),
            ),
        )
    }

    /// `fn name(arguments) [: type]` and a body: `= expression;` or a block.
    #[verifier::rlimit(40)]
    fn function_definition(&mut self, is_public: bool) -> (r: ParseResult<AstNode>)
        requires
            old(self).tracking(),
        ensures
            r is Ok ==> final(self).position@ > old(self).position@,
            final(self).tracking(),
            stepped(*old(self), *final(self)),
            r is Ok ==> final(self).measure() < old(self).measure(),
            outcome(r, |n: AstNode| ast_view(n)) == g_function(
                old(self).tokens@,
                old(self).count@,
                old(self).position@,
                is_public,
            ).0,
            r is Ok ==> final(self).position@ == g_function(
                old(self).tokens@,
                old(self).count@,
                old(self).position@,
                is_public,
            ).1,
        decreases old(self).measure(), 0nat,
    {
        proof {
            reveal(g_function);
            reveal(g_function_body);
            reveal(g_branch);
            reveal(g_handler);
        }
        let ghost (s, n, k) = (self.tokens@, self.count@, self.position@);
        self.begin_scope();
        self.expect(TokenKind::Identifier, Some("fn"))?;
        let ghost k1 = self.position@;
        proof {
            assert(g_expect(s, n, k, TokenKind::Identifier, Some("fn"@)).0 is Ok);
            assert(g_expect(s, n, k, TokenKind::Identifier, Some("fn"@)).1 == k1);
        }
        let name = self.current_identifier()?;
        let ghost k2 = self.position@;
        proof {
            assert(g_expect(s, n, k1, TokenKind::Identifier, None) == (Ok::<Seq<char>, ParseFailure>(
                name.value@,
            ), k2));
        }
        let args = self.function_arguments()?;
        let ghost k3 = self.position@;
        proof {
            assert(g_arguments(s, n, k2) == (Ok::<Seq<(Seq<char>, AstView)>, ParseFailure>(
                args_view(args@),
            ), k3));
        }
        let mut return_type = None;
        let colon = self.accept(TokenKind::Colon, None)?;
        let ghost k4 = self.position@;
        proof {
            assert(g_accept(s, n, k3, TokenKind::Colon, None) == (Ok::<bool, ParseFailure>(colon), k4));
        }
        if colon {
            let t = self.type_()?;
            proof {
                assert(g_type(s, n, k4) == (Ok::<AstView, ParseFailure>(ast_view(t)), self.position@));
            }
            return_type = Some(t);
        }
        let ghost k5 = self.position@;
        let branches = [
            Branch::of_kind(TokenKind::Equals).consume().then_handle(Handler::ExpressionThenSemicolon),
            Branch::of_kind(TokenKind::Open).with_content("{").then_handle(Handler::Block),
        ];
        proof {
            assert(fits_branch(branches@[0]));
            assert(fits_branch(branches@[1]));
            lemma_body_branches(branches@, s, n, k5);
        }
        let body = self.branch(&branches)?;
        proof {
            assert(g_function_body(s, n, k5) == (Ok::<AstView, ParseFailure>(ast_view(body)), self.position@));
        }
        proof {
            assert(optional_view(return_type) == (match return_type {
                Some(t) => Some(Box::new(ast_view(t))),
                None => None,
            }));
        }
        Ok(
            AstNode::new(
                Ast::Function { public: is_public, name, args, return_type, body, variadic: false },
                self.end_scope(),
            ),
        )
    }

    /// A declaration at the top of a program: an import, or a static, class or function
    /// definition, each possibly after `pub`.
    fn global_declaration(&mut self, is_public: bool) -> (r: ParseResult<AstNode>)
        requires
            old(self).tracking(),
        ensures
            r is Ok ==> final(self).position@ > old(self).position@,
            final(self).tracking(),
            stepped(*old(self), *final(self)),
            r is Ok ==> final(self).measure() < old(self).measure(),
            outcome(r, |n: AstNode| ast_view(n)) == g_declaration(
                old(self).tokens@,
                old(self).count@,
                old(self).position@,
                is_public,
            ).0,
            r is Ok ==> final(self).position@ == g_declaration(
                old(self).tokens@,
                old(self).count@,
                old(self).position@,
                is_public,
            ).1,
        decreases old(self).measure(), 3nat,
    {
        proof {
            reveal(g_branch);
            reveal(g_handler);
        }
        let branches = [
            Branch::of_kind(TokenKind::Identifier).with_content("import").then_handle(Handler::Import),
            Branch::of_kind(TokenKind::Identifier).with_content("pub").consume().then_handle(
                Handler::Public,
            ),
            Branch::of_kind(TokenKind::Identifier).with_content("static").then_handle(
                Handler::Static(is_public),
            ),
            Branch::of_kind(TokenKind::Identifier).with_content("class").then_handle(
                Handler::Class(is_public),
            ),
            Branch::of_kind(TokenKind::Identifier).with_content("fn").then_handle(
                Handler::Function(is_public),
            ),
        ];
        proof {
            let (s, n, k) = (self.tokens@, self.count@, self.position@);
            assert(fits_branch(branches@[0]));
            assert(fits_branch(branches@[1]));
            assert(fits_branch(branches@[2]));
            assert(fits_branch(branches@[3]));
            assert(fits_branch(branches@[4]));
            reveal_with_fuel(first_taken, 6);
            assert(branch_view(branches@) =~= declaration_starts());
            assert(g_branch(branches@, s, n, k) == g_declaration(s, n, k, is_public));
        }
        self.branch(&branches)
    }

    /// A program: declarations up to the end of the input.
    fn program(&mut self) -> (r: ParseResult<AstNode>)
        requires
            old(self).tracking(),
            old(self).current is Value,
        ensures
            final(self).tracking(),
            stepped(*old(self), *final(self)),
            outcome(r, |n: AstNode| ast_view(n)) == g_program(
                old(self).tokens@,
                old(self).count@,
                old(self).position@,
            ).0,
    {
        proof {
            reveal(g_program);
        }
        let ghost (s, n, k) = (self.tokens@, self.count@, self.position@);
        self.begin_scope();
        let mut nodes: Vec<AstNode> = Vec::new();
        proof {
            assert(nodes_view(nodes@) =~= Seq::<AstView>::empty());
        }
        if self.current.is_ok() {
            let ghost goal = g_declarations(s, n, k, Seq::empty());
            let first = self.global_declaration(false)?;
            proof {
                assert(g_declaration(s, n, k, false) == (Ok::<AstView, ParseFailure>(ast_view(first)), self.position@));
                assert(ahead(n, k, self.position@));
            }
            nodes.push(first);
            proof {
                lemma_nodes_view_push(Seq::empty(), first);
                assert(Seq::<AstNode>::empty().push(first) =~= nodes@);
            }
            while !self.current.is_none()
                invariant
                    self.tracking(),
                    stepped(*old(self), *self),
                    self.span_stack@.len() >= old(self).span_stack@.len() + 1,
                    s == self.tokens@,
                    n == self.count@,
                    k == old(self).position@,
                    tok(s, n, k) is Token,
                    goal == g_declarations(s, n, k, Seq::empty()),
                    g_declarations(s, n, self.position@, nodes_view(nodes@)) == goal,
                decreases self.measure(),
            {
                proof {
                    reveal(g_program);
                }
                let ghost before = nodes@;
                let ghost pos = self.position@;
                let d = self.global_declaration(false)?;
                proof {
                    assert(g_declaration(s, n, pos, false) == (Ok::<AstView, ParseFailure>(ast_view(d)), self.position@));
                    assert(ahead(n, pos, self.position@));
                }
                nodes.push(d);
                proof {
                    lemma_nodes_view_push(before, d);
                }
            }
            if self.current.is_ok() {
                return Err(ParseError::UnexpectedToken(self.current_option()));
            }
        }
        Ok(AstNode::new(Ast::Program(nodes), self.end_scope()))
    }

    /// Parses the whole input into a `Program` node of declarations: the tree (without
    /// its spans) or the failure is what the grammar (`g_program` in `grammar`) gives for
    /// the tokens in view (see `parsed`). The first token must be there (not the end of
    /// the input, nor a lexer error), and every integer literal must write a number that
    /// fits in a `u128` (see `numerals_fit`).
    pub fn parse(&mut self) -> (r: ParseResult<AstNode>)
        requires
            old(self).ready(),
            old(self).current is Value,
        ensures
            final(self).ready(),
            outcome(r, |n: AstNode| ast_view(n)) == parsed(*old(self)),
    {
        proof {
            reveal(in_step);
            let f = choose|f: nat| stream_fits(self.lexer.window, f);
            self.tokens = Ghost(|i: int| stream(*old(self), i));
            self.count = Ghost(f as int + 2);
            self.position = Ghost(0int);
            assert forall|i: int| i >= self.count@ implies !(#[trigger] self.tokens@(i) is Token) by {
                lemma_lexed_settles(self.lexer.window, f, (i - 2) as nat);
            }
            assert forall|i: int| i >= 0 implies #[trigger] stream(*self, i) == self.tokens@(0 + i) by {}
        }
        self.program()
    }

    /// Whether every integer token in view or still to come writes a number that fits in
    /// a `u128`, which `parse` needs.
    pub fn numerals_fit(&self) -> (r: bool)
        requires
            self.wf(),
        ensures
            r == self.ready(),
    {
        if !Self::token_fits(&self.current) || !Self::token_fits(&self.next) {
            return false;
        }
        let mut probe = Lexer { window: self.lexer.window.copy() };
        loop
            invariant
                self.wf(),
                integer_fits(self.current),
                integer_fits(self.next),
                probe.wf(),
                probe.window.source == self.lexer.window.source,
                (exists|f: nat| stream_fits(self.lexer.window, f)) == (exists|f: nat| stream_fits(probe.window, f)),
            decreases probe.window.body().len() - probe.window.end_char,
        {
            let ghost w = probe.window;
            let t = probe.next_token();
            match t {
                OptionalResult::Value(tok) => {
                    if tok.kind == TokenKind::Integer {
                        if parse_numeral(tok.span.content()).is_none() {
                            proof {
                                assert forall|f: nat| !stream_fits(w, f) by {}
                            }
                            return false;
                        }
                    }
                    proof {
                        if exists|f: nat| stream_fits(w, f) {
                            let f = choose|f: nat| stream_fits(w, f);
                            assert(stream_fits(probe.window, (f - 1) as nat));
                        }
                        if exists|f: nat| stream_fits(probe.window, f) {
                            let f = choose|f: nat| stream_fits(probe.window, f);
                            assert(stream_fits(w, f + 1));
                        }
                    }
                },
                _ => {
                    proof {
                        assert(!(lex_outcome(discarded(w)).0 is Produced));
                        assert(stream_fits(w, 0));
                    }
                    return true;
                },
            }
        }
    }

    /// An integer token writes a number that fits in a `u128`.
    fn token_fits(t: &OptionalResult<Token, LexError>) -> (r: bool)
        requires
            token_ok(*t),
        ensures
            r == integer_fits(*t),
    {
        match t {
            OptionalResult::Value(tok) => tok.kind != TokenKind::Integer || parse_numeral(
                tok.span.content(),
            ).is_some(),
            _ => true,
        }
    }
}

} // verus!
