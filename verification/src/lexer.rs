use vstd::prelude::*;
use std::rc::Rc;
use crate::common::{
    class_holds, class_test, has_at, lemma_after_counts, lemma_concat_add, lemma_grapheme_end,
    lemma_has_at_end, lemma_run_end, lemma_run_len, run_text, GraphemeClass, OptionalResult,
    Span,
};
use crate::source::Source;
use crate::text::same_text;
use crate::token::{Token, TokenKind};

verus! {

/// Why the lexer stopped.
#[derive(Debug)]
pub enum LexError {
    /// No token starts with this grapheme.
    UnexpectedCharacter(String),
}

/// The grapheme an error is about.
pub open spec fn lex_error_text(e: LexError) -> Seq<char> {
    match e {
        LexError::UnexpectedCharacter(g) => g@,
    }
}

impl LexError {
    /// An error about the same grapheme.
    pub fn copy(&self) -> (r: LexError)
        ensures
            lex_error_text(r) == lex_error_text(*self),
    {
        match self {
            LexError::UnexpectedCharacter(g) => LexError::UnexpectedCharacter(
                crate::text::string_of(g.as_str()),
            ),
        }
    }
}

/// Splits a source into tokens, one at a time.
pub struct Lexer {
    pub window: Span,
}

/// A span as the lexer keeps it: over a well-formed source, with the grapheme counters
/// moving together with the character positions, within the source, and with line and
/// column counters no larger than the position.
pub open spec fn lexing_span(w: Span) -> bool {
    &&& w.source.wf()
    &&& w.end_grapheme == w.end_char
    &&& w.start_grapheme == w.start_char
    &&& w.start_char <= w.end_char <= w.body().len()
    &&& w.end_line <= w.end_char
    &&& w.end_column <= w.end_char
}

/// Two slashes, which start a comment.
pub open spec fn slashes() -> Seq<char> {
    seq!['/', '/']
}

/// The text skipped from position `p` before the next token: white space, and comments
/// from `//` up to the next newline, as often as they follow one another.
pub open spec fn ignorable_text(gs: Seq<Seq<char>>, p: int) -> Seq<char>
    decreases (if p < gs.len() {
        gs.len() - p
    } else {
        0
    }),
{
    let w = run_text(gs, p, GraphemeClass::Whitespace);
    let q = p + w.len();
    if p <= q < gs.len() && has_at(gs, q, slashes()) {
        let c = run_text(gs, q + 2, GraphemeClass::NotNewline);
        w + slashes() + c + ignorable_text(gs, q + 2 + c.len())
    } else {
        w
    }
}

/// The span after skipping what is ignorable from its end, with its start moved there.
pub open spec fn discarded(w: Span) -> Span {
    w.after(ignorable_text(w.graphemes(), w.end_grapheme as int)).released()
}

/// What one step of the lexer yields.
pub enum LexOutcome {
    /// The source is used up.
    Finished,
    /// No token starts with this grapheme.
    Unexpected(Seq<char>),
    /// A token of this kind, covering this span.
    Produced(TokenKind, Span),
}

/// One grapheme is one of the texts given.
pub open spec fn one_of(g: Seq<char>, a: Seq<char>, b: Seq<char>, c: Seq<char>, d: Option<Seq<char>>) -> bool {
    g == a || g == b || g == c || d == Some(g)
}

/// The token that starts at the end of `s1` (after the ignorable text), and the lexer's
/// span afterwards. The first grapheme `g` decides:
/// an alphabetic one starts a run of alphanumeric graphemes, a `Boolean` when it reads
/// `true` or `false` and an `Identifier` otherwise;
/// a digit starts a run of digits, an `Integer`, or a `Float` when a `.` and another run
/// of digits follow;
/// a double quote starts a `String` that covers what follows up to the next double quote,
/// which is skipped;
/// `=>`, `=`, `;`, `...`, `.`, `,`, `:`, `@`, the operators `+ - / *`, the openers
/// `( { [` and the closers `) } ]` give one token each, tried in that order;
/// anything else is unexpected.
pub open spec fn lex_outcome(s1: Span) -> (LexOutcome, Span) {
    let gs = s1.graphemes();
    let q = s1.end_grapheme as int;
    if q >= gs.len() {
        (LexOutcome::Finished, s1)
    } else {
        let g = gs[q];
        let single = s1.after(g);
        if class_holds(GraphemeClass::Alphabetic, g) {
            let s2 = s1.after(run_text(gs, q, GraphemeClass::Alphanumeric));
            let kind = if s2.text() == seq!['t', 'r', 'u', 'e'] || s2.text() == seq![
                'f',
                'a',
                'l',
                's',
                'e',
            ] {
                TokenKind::Boolean
            } else {
                TokenKind::Identifier
            };
            (LexOutcome::Produced(kind, s2), s2)
        } else if class_holds(GraphemeClass::Digit, g) {
            let s2 = s1.after(run_text(gs, q, GraphemeClass::Digit));
            let p2 = s2.end_grapheme as int;
            if has_at(gs, p2, seq!['.']) {
                let s3 = s2.after(gs[p2]);
                let s4 = s3.after(run_text(gs, s3.end_grapheme as int, GraphemeClass::Digit));
                (LexOutcome::Produced(TokenKind::Float, s4), s4)
            } else {
                (LexOutcome::Produced(TokenKind::Integer, s2), s2)
            }
        } else if has_at(gs, q, seq!['"']) {
            let s2 = s1.after(g).released();
            let s3 = s2.after(run_text(gs, s2.end_grapheme as int, GraphemeClass::NotQuote));
            let p3 = s3.end_grapheme as int;
            let s4 = if p3 < gs.len() {
                s3.after(gs[p3])
            } else {
                s3
            };
            (LexOutcome::Produced(TokenKind::String, s3), s4)
        } else if has_at(gs, q, seq!['=', '>']) {
            let s2 = s1.after(seq!['=', '>']);
            (LexOutcome::Produced(TokenKind::ThickArrow, s2), s2)
        } else if has_at(gs, q, seq!['=']) {
            (LexOutcome::Produced(TokenKind::Equals, single), single)
        } else if has_at(gs, q, seq![';']) {
            (LexOutcome::Produced(TokenKind::Semicolon, single), single)
        } else if has_at(gs, q, seq!['.', '.', '.']) {
            let s2 = s1.after(seq!['.', '.', '.']);
            (LexOutcome::Produced(TokenKind::Ellipsis, s2), s2)
        } else if has_at(gs, q, seq!['.']) {
            (LexOutcome::Produced(TokenKind::Dot, single), single)
        } else if has_at(gs, q, seq![',']) {
            (LexOutcome::Produced(TokenKind::Comma, single), single)
        } else if has_at(gs, q, seq![':']) {
            (LexOutcome::Produced(TokenKind::Colon, single), single)
        } else if has_at(gs, q, seq!['@']) {
            (LexOutcome::Produced(TokenKind::Strudel, single), single)
        } else if one_of(g, seq!['+'], seq!['-'], seq!['/'], Some(seq!['*'])) {
            (LexOutcome::Produced(TokenKind::Operator, single), single)
        } else if one_of(g, seq!['('], seq!['{'], seq!['['], None) {
            (LexOutcome::Produced(TokenKind::Open, single), single)
        } else if one_of(g, seq![')'], seq!['}'], seq![']'], None) {
            (LexOutcome::Produced(TokenKind::Close, single), single)
        } else {
            (LexOutcome::Unexpected(g), s1)
        }
    }
}

/// Moving a lexing span over text that ends within the source keeps it a lexing span.
pub proof fn lemma_lexing_after(w: Span, v: Seq<char>)
    requires
        lexing_span(w),
        w.end_char + v.len() <= w.body().len(),
    ensures
        lexing_span(w.after(v)),
        lexing_span(w.after(v).released()),
        w.after(v).end_char == w.end_char + v.len(),
        w.after(v).source == w.source,
        w.after(v).start_char == w.start_char,
        w.can_move(v.len() as int),
{
    lemma_after_counts(w, v);
}

/// Skipping the ignorable text keeps within the source.
pub proof fn lemma_ignorable_end(gs: Seq<Seq<char>>, p: int)
    requires
        forall|i: int| 0 <= i < gs.len() ==> (#[trigger] gs[i]).len() > 0,
        0 <= p <= crate::text::concat(gs).len(),
        crate::text::concat(crate::source::spec_graphemes(slashes())) == slashes(),
    ensures
        p + ignorable_text(gs, p).len() <= crate::text::concat(gs).len(),
    decreases (if p < gs.len() {
        gs.len() - p
    } else {
        0
    }),
{
    let w = run_text(gs, p, GraphemeClass::Whitespace);
    let q = p + w.len();
    lemma_run_end(gs, p, GraphemeClass::Whitespace);
    if p <= q < gs.len() && has_at(gs, q, slashes()) {
        lemma_has_at_end(gs, q, slashes());
        let c = run_text(gs, q + 2, GraphemeClass::NotNewline);
        lemma_run_end(gs, q + 2, GraphemeClass::NotNewline);
        lemma_ignorable_end(gs, q + 2 + c.len());
    }
}

impl Lexer {
    /// The lexer's span is a lexing span.
    pub open spec fn wf(&self) -> bool {
        lexing_span(self.window)
    }

    /// A lexer at the start of `source`.
    pub fn new(source: Rc<Source>) -> (r: Lexer)
        requires
            source.wf(),
        ensures
            r.wf(),
            r.window.source == source,
            r.window.start_char == 0,
            r.window.end_char == 0,
    {
        Lexer { window: Span::new(source) }
    }

    fn is_digit(g: &str) -> (r: bool)
        requires
            g@.len() > 0,
        ensures
            r == class_holds(GraphemeClass::Digit, g@),
    {
        class_test(GraphemeClass::Digit, g)
    }

    fn is_whitespace(g: &str) -> (r: bool)
        requires
            g@.len() > 0,
        ensures
            r == class_holds(GraphemeClass::Whitespace, g@),
    {
        class_test(GraphemeClass::Whitespace, g)
    }

    fn is_alphabetic(g: &str) -> (r: bool)
        requires
            g@.len() > 0,
        ensures
            r == class_holds(GraphemeClass::Alphabetic, g@),
    {
        class_test(GraphemeClass::Alphabetic, g)
    }

    fn is_alphanumeric(g: &str) -> (r: bool)
        requires
            g@.len() > 0,
        ensures
            r == class_holds(GraphemeClass::Alphanumeric, g@),
    {
        class_test(GraphemeClass::Alphanumeric, g)
    }

    fn at(&self, target: &str) -> (r: bool)
        ensures
            r == has_at(self.window.graphemes(), self.window.end_grapheme as int, target@),
            crate::text::concat(crate::source::spec_graphemes(target@)) == target@,
    {
        self.window.has(target)
    }

    /// Whether the grapheme at the end of the window is one of `targets`.
    fn at_any(&self, targets: &[&str]) -> (r: bool)
        ensures
            r == (self.window.end_grapheme < self.window.graphemes().len() && exists|i: int|
                0 <= i < targets@.len() && targets@[i]@
                    == self.window.graphemes()[self.window.end_grapheme as int]),
    {
        if let Some(cur) = self.window.cur() {
            let mut i: usize = 0;
            while i < targets.len()
                invariant
                    i <= targets@.len(),
                    self.window.end_grapheme < self.window.graphemes().len(),
                    cur@ == self.window.graphemes()[self.window.end_grapheme as int],
                    forall|j: int| 0 <= j < i ==> targets@[j]@ != cur@,
                decreases targets@.len() - i,
            {
                if same_text(targets[i], cur.as_str()) {
                    assert(targets@[i as int]@ == self.window.graphemes()[self.window.end_grapheme as int]);
                    return true;
                }
                i += 1;
            }
        }
        false
    }

    /// Skips white space and comments (from `//` up to the next newline) until neither
    /// follows, and moves the window's start to its end.
    fn discard_ignorables(&mut self)
        requires
            old(self).wf(),
        ensures
            final(self).wf(),
            final(self).window == discarded(old(self).window),
            final(self).window.source == old(self).window.source,
            final(self).window.end_char >= old(self).window.end_char,
            crate::text::concat(crate::source::spec_graphemes(slashes())) == slashes(),
    {
        let ghost target = discarded(self.window);
        let ghost gs = self.window.graphemes();
        let ghost first = self.window;
        let mut old_span = self.window.copy();
        loop
            invariant
                self.wf(),
                gs == self.window.graphemes(),
                discarded(self.window) == target,
                old_span == self.window,
                self.window.source == first.source,
                self.window.end_char >= first.end_char,
            ensures
                self.wf(),
                self.window == target,
                self.window.source == first.source,
                self.window.end_char >= first.end_char,
                crate::text::concat(crate::source::spec_graphemes(slashes())) == slashes(),
            decreases self.window.body().len() - self.window.end_char, (if self.window.start_line
                == self.window.end_line && self.window.start_char == self.window.end_char
                && self.window.start == self.window.end
                && self.window.start_column == self.window.end_column {
                0int
            } else {
                1int
            }),
        {
            let ghost x = self.window;
            proof {
                lemma_run_end(gs, x.end_char as int, GraphemeClass::Whitespace);
                lemma_lexing_after(x, run_text(gs, x.end_char as int, GraphemeClass::Whitespace));
            }
            self.window.skip_while_class(GraphemeClass::Whitespace);
            let ghost y1 = self.window;
            let comment = self.window.has("//");
            proof {
                reveal_strlit("//");
                assert("//"@ =~= slashes());
            }
            if comment {
                proof {
                    lemma_has_at_end(gs, y1.end_char as int, slashes());
                    lemma_lexing_after(y1, slashes());
                }
                self.window.bump("//");
                let ghost y2 = self.window;
                proof {
                    lemma_run_end(gs, y2.end_char as int, GraphemeClass::NotNewline);
                    lemma_lexing_after(y2, run_text(gs, y2.end_char as int, GraphemeClass::NotNewline));
                }
                self.window.skip_while_class(GraphemeClass::NotNewline);
            }
            proof {
                assert(self.window == discard_round(x, comment));
                lemma_discard_round(x, comment);
            }
            let changed = self.window != old_span;
            old_span = self.window.copy();
            if !changed {
                break;
            }
        }
    }
}

impl Lexer {
    /// The next token, after skipping white space and comments; empty when the source is
    /// used up; an error, without moving, when no token starts at the next grapheme.
    /// See `lex_outcome` for the rules.
    pub fn next_token(&mut self) -> (r: OptionalResult<Token, LexError>)
        requires
            old(self).wf(),
        ensures
            final(self).wf(),
            final(self).window == lex_outcome(discarded(old(self).window)).1,
            match lex_outcome(discarded(old(self).window)).0 {
                LexOutcome::Finished => r is Empty,
                LexOutcome::Unexpected(g) => r matches OptionalResult::Error(
                    LexError::UnexpectedCharacter(s),
                ) && s@ == g,
                LexOutcome::Produced(kind, span) => r matches OptionalResult::Value(t) && t.kind
                    == kind && t.span == span,
            },
            final(self).window.source == old(self).window.source,
            final(self).window.end_char >= old(self).window.end_char,
            r is Value ==> final(self).window.end_char > old(self).window.end_char,
            r matches OptionalResult::Value(t) ==> t.span.in_bounds() && t.span.source
                == old(self).window.source,
            crate::text::concat(crate::source::spec_graphemes(slashes())) == slashes(),
    {
        self.discard_ignorables();
        let ghost s1 = self.window;
        let ghost gs = s1.graphemes();
        let ghost q = s1.end_char as int;
        let ghost body_len = s1.body().len();
        let g = match self.window.cur() {
            None => {
                return OptionalResult::Empty;
            },
            Some(g) => g.clone(),
        };
        proof {
            assert(g@ == gs[q]);
            assert(gs[q].len() > 0);
            lemma_grapheme_end(gs, q);
            lemma_lexing_after(s1, gs[q]);
        }
        if Self::is_alphabetic(g.as_str()) {
            proof {
                lemma_run_end(gs, q, GraphemeClass::Alphanumeric);
                lemma_lexing_after(s1, run_text(gs, q, GraphemeClass::Alphanumeric));
            }
            self.window.bump_while_class(GraphemeClass::Alphanumeric);
            let is_bool = {
                let content = self.window.content();
                same_text(content, "true") || same_text(content, "false")
            };
            proof {
                reveal_strlit("true");
                reveal_strlit("false");
                assert("true"@ =~= seq!['t', 'r', 'u', 'e']);
                assert("false"@ =~= seq!['f', 'a', 'l', 's', 'e']);
            }
            let kind = if is_bool {
                TokenKind::Boolean
            } else {
                TokenKind::Identifier
            };
            return OptionalResult::Value(Token::new(&self.window, kind));
        }
        if Self::is_digit(g.as_str()) {
            proof {
                lemma_run_end(gs, q, GraphemeClass::Digit);
                lemma_lexing_after(s1, run_text(gs, q, GraphemeClass::Digit));
            }
            self.window.bump_while_class(GraphemeClass::Digit);
            let ghost s2 = self.window;
            let dot = self.at(".");
            proof {
                reveal_strlit(".");
                assert("."@ =~= seq!['.']);
            }
            if dot {
                proof {
                    lemma_has_at_end(gs, s2.end_char as int, seq!['.']);
                    lemma_grapheme_end(gs, s2.end_char as int);
                    lemma_lexing_after(s2, gs[s2.end_char as int]);
                }
                let next = match self.window.cur() {
                    Some(c) => c.clone(),
                    None => {
                        proof {
                            assert(false);
                        }
                        return OptionalResult::Empty;
                    },
                };
                self.window.bump(next.as_str());
                let ghost s3 = self.window;
                proof {
                    lemma_run_end(gs, s3.end_char as int, GraphemeClass::Digit);
                    lemma_lexing_after(s3, run_text(gs, s3.end_char as int, GraphemeClass::Digit));
                }
                self.window.bump_while_class(GraphemeClass::Digit);
                return OptionalResult::Value(Token::new(&self.window, TokenKind::Float));
            } else {
                return OptionalResult::Value(Token::new(&self.window, TokenKind::Integer));
            }
        }
        let quote = self.at("\"");
        proof {
            reveal_strlit("\"");
            assert("\""@ =~= seq!['"']);
        }
        if quote {
            self.window.bump_cur();
            self.window.release();
            let ghost s2 = self.window;
            proof {
                lemma_run_end(gs, s2.end_char as int, GraphemeClass::NotQuote);
                lemma_lexing_after(s2, run_text(gs, s2.end_char as int, GraphemeClass::NotQuote));
            }
            self.window.bump_while_class(GraphemeClass::NotQuote);
            let ghost s3 = self.window;
            let span = self.window.copy();
            proof {
                if s3.end_char < gs.len() {
                    lemma_grapheme_end(gs, s3.end_char as int);
                    lemma_lexing_after(s3, gs[s3.end_char as int]);
                }
            }
            self.window.bump_cur();
            return OptionalResult::Value(Token::new(&span, TokenKind::String));
        }
        let arrow = self.at("=>");
        proof {
            reveal_strlit("=>");
            assert("=>"@ =~= seq!['=', '>']);
        }
        if arrow {
            proof {
                lemma_has_at_end(gs, q, seq!['=', '>']);
                lemma_lexing_after(s1, seq!['=', '>']);
            }
            self.window.bump("=>");
            return OptionalResult::Value(Token::new(&self.window, TokenKind::ThickArrow));
        }
        let kind = if self.at("=") {
            Some(TokenKind::Equals)
        } else if self.at(";") {
            Some(TokenKind::Semicolon)
        } else {
            None
        };
        proof {
            reveal_strlit("=");
            reveal_strlit(";");
            assert("="@ =~= seq!['=']);
            assert(";"@ =~= seq![';']);
        }
        if let Some(kind) = kind {
            self.window.bump_cur();
            return OptionalResult::Value(Token::new(&self.window, kind));
        }
        let ellipsis = self.at("...");
        proof {
            reveal_strlit("...");
            assert("..."@ =~= seq!['.', '.', '.']);
        }
        if ellipsis {
            proof {
                lemma_has_at_end(gs, q, seq!['.', '.', '.']);
                lemma_lexing_after(s1, seq!['.', '.', '.']);
            }
            self.window.bump("...");
            return OptionalResult::Value(Token::new(&self.window, TokenKind::Ellipsis));
        }
        let operators: [&str; 4] = ["+", "-", "/", "*"];
        let openers: [&str; 3] = ["(", "{", "["];
        let closers: [&str; 3] = [")", "}", "]"];
        let dot = self.at(".");
        let comma = self.at(",");
        let colon = self.at(":");
        let strudel = self.at("@");
        let operator = self.at_any(&operators);
        let opener = self.at_any(&openers);
        let closer = self.at_any(&closers);
        proof {
            reveal_strlit(".");
            reveal_strlit(",");
            reveal_strlit(":");
            reveal_strlit("@");
            reveal_strlit("+");
            reveal_strlit("-");
            reveal_strlit("/");
            reveal_strlit("*");
            reveal_strlit("(");
            reveal_strlit("{");
            reveal_strlit("[");
            reveal_strlit(")");
            reveal_strlit("}");
            reveal_strlit("]");
            assert("."@ =~= seq!['.']);
            assert(","@ =~= seq![',']);
            assert(":"@ =~= seq![':']);
            assert("@"@ =~= seq!['@']);
            let g0 = gs[q];
            assert(operators@[0]@ =~= seq!['+']);
            assert(operators@[1]@ =~= seq!['-']);
            assert(operators@[2]@ =~= seq!['/']);
            assert(operators@[3]@ =~= seq!['*']);
            assert(openers@[0]@ =~= seq!['(']);
            assert(openers@[1]@ =~= seq!['{']);
            assert(openers@[2]@ =~= seq!['[']);
            assert(closers@[0]@ =~= seq![')']);
            assert(closers@[1]@ =~= seq!['}']);
            assert(closers@[2]@ =~= seq![']']);
            assert(operator == one_of(g0, seq!['+'], seq!['-'], seq!['/'], Some(seq!['*'])));
            assert(opener == one_of(g0, seq!['('], seq!['{'], seq!['['], None));
            assert(closer == one_of(g0, seq![')'], seq!['}'], seq![']'], None));
        }
        let kind = if dot {
            Some(TokenKind::Dot)
        } else if comma {
            Some(TokenKind::Comma)
        } else if colon {
            Some(TokenKind::Colon)
        } else if strudel {
            Some(TokenKind::Strudel)
        } else if operator {
            Some(TokenKind::Operator)
        } else if opener {
            Some(TokenKind::Open)
        } else if closer {
            Some(TokenKind::Close)
        } else {
            None
        };
        if let Some(kind) = kind {
            self.window.bump_cur();
            return OptionalResult::Value(Token::new(&self.window, kind));
        }
        OptionalResult::Error(LexError::UnexpectedCharacter(g))
    }

    /// A copy of the window: the span of the last token, or the empty span after the
    /// skipped text.
    pub fn get_span(&self) -> (r: Span)
        ensures
            r == self.window,
    {
        self.window.copy()
    }
}

/// Moving the start before moving the end does not matter once the start is moved again.
pub proof fn lemma_release_after(s: Span, v: Seq<char>)
    ensures
        s.released().after(v).released() == s.after(v).released(),
    decreases v.len(),
{
    lemma_same_ends_after(s.released(), s, v);
}

/// Spans that agree in source and end counters still agree after moving over `v`.
proof fn lemma_same_ends_after(s: Span, t: Span, v: Seq<char>)
    requires
        s.source == t.source,
        s.end == t.end,
        s.end_char == t.end_char,
        s.end_line == t.end_line,
        s.end_column == t.end_column,
        s.end_grapheme == t.end_grapheme,
    ensures
        s.after(v).released() == t.after(v).released(),
        s.after(v).source == t.after(v).source,
        s.after(v).end == t.after(v).end,
        s.after(v).end_char == t.after(v).end_char,
        s.after(v).end_line == t.after(v).end_line,
        s.after(v).end_column == t.after(v).end_column,
        s.after(v).end_grapheme == t.after(v).end_grapheme,
    decreases v.len(),
{
    if v.len() > 0 {
        lemma_same_ends_after(s, t, v.drop_last());
    }
}

/// One round of the discarding loop: skipping white space from `x`, and, if two slashes
/// follow, skipping them and the rest of the line.
pub open spec fn discard_round(x: Span, comment: bool) -> Span {
    let gs = x.graphemes();
    let y1 = x.after(run_text(gs, x.end_grapheme as int, GraphemeClass::Whitespace)).released();
    if comment {
        let y2 = y1.after(slashes());
        y2.after(run_text(gs, y2.end_grapheme as int, GraphemeClass::NotNewline)).released()
    } else {
        y1
    }
}

/// A round leaves the final position unchanged; a round without a comment reaches it.
proof fn lemma_discard_round(x: Span, comment: bool)
    requires
        lexing_span(x),
        comment == has_at(
            x.graphemes(),
            x.end_char + run_text(x.graphemes(), x.end_grapheme as int, GraphemeClass::Whitespace).len(),
            slashes(),
        ),
        crate::text::concat(crate::source::spec_graphemes(slashes())) == slashes(),
    ensures
        discarded(discard_round(x, comment)) == discarded(x),
        !comment ==> discard_round(x, comment) == discarded(x),
        comment ==> discard_round(x, comment).end_char > x.end_char,
{
    let gs = x.graphemes();
    let p = x.end_char as int;
    let w = run_text(gs, p, GraphemeClass::Whitespace);
    let q = p + w.len();
    let y1 = x.after(w).released();
    lemma_run_end(gs, p, GraphemeClass::Whitespace);
    lemma_lexing_after(x, w);
    lemma_run_len(gs, p, GraphemeClass::Whitespace);
    if comment {
        lemma_has_at_end(gs, q, slashes());
        let y2 = y1.after(slashes());
        lemma_lexing_after(y1, slashes());
        let c = run_text(gs, q + 2, GraphemeClass::NotNewline);
        let y3 = y2.after(c).released();
        lemma_run_end(gs, q + 2, GraphemeClass::NotNewline);
        lemma_lexing_after(y2, c);
        let rest = ignorable_text(gs, q + 2 + c.len());
        assert(ignorable_text(gs, p) == w + slashes() + c + rest);
        // discarded(y3) = y3.after(rest).released()
        lemma_release_after(y2.after(c), rest);
        crate::common::lemma_after_concat(y2, c, rest);
        crate::common::lemma_after_concat(y1, slashes(), c + rest);
        lemma_release_after(x.after(w), slashes() + (c + rest));
        crate::common::lemma_after_concat(x, w, slashes() + (c + rest));
        assert(w + (slashes() + (c + rest)) =~= w + slashes() + c + rest);
    } else {
        assert(ignorable_text(gs, p) == w);
        assert(run_text(gs, q, GraphemeClass::Whitespace).len() == 0);
        assert(ignorable_text(gs, q) =~= Seq::<char>::empty());
        assert(y1.after(Seq::<char>::empty()) == y1);
    }
}

/// Nothing is ignorable where the ignorable text from `p` ends.
pub proof fn lemma_ignorable_fixpoint(gs: Seq<Seq<char>>, p: int)
    requires
        0 <= p,
    ensures
        ignorable_text(gs, p + ignorable_text(gs, p).len()).len() == 0,
    decreases (if p < gs.len() {
        gs.len() - p
    } else {
        0
    }),
{
    let w = run_text(gs, p, GraphemeClass::Whitespace);
    let q = p + w.len();
    lemma_run_len(gs, p, GraphemeClass::Whitespace);
    if p <= q < gs.len() && has_at(gs, q, slashes()) {
        let c = run_text(gs, q + 2, GraphemeClass::NotNewline);
        let r = q + 2 + c.len();
        lemma_ignorable_fixpoint(gs, r);
        assert(p + ignorable_text(gs, p).len() == r + ignorable_text(gs, r).len());
    } else {
        assert(ignorable_text(gs, p) == w);
        assert(run_text(gs, q, GraphemeClass::Whitespace).len() == 0);
        assert(ignorable_text(gs, q) == run_text(gs, q, GraphemeClass::Whitespace));
    }
}

/// Skipping what is ignorable a second time changes nothing.
pub proof fn lemma_discarded_twice(w: Span)
    requires
        lexing_span(w),
        crate::text::concat(crate::source::spec_graphemes(slashes())) == slashes(),
    ensures
        discarded(discarded(w)) == discarded(w),
        lexing_span(discarded(w)),
        discarded(w).source == w.source,
        discarded(w).end_char >= w.end_char,
{
    let gs = w.graphemes();
    let p = w.end_grapheme as int;
    let ign = ignorable_text(gs, p);
    lemma_ignorable_end(gs, p);
    lemma_lexing_after(w, ign);
    let d = discarded(w);
    lemma_ignorable_fixpoint(gs, p);
    assert(d.end_grapheme == p + ign.len());
    assert(ignorable_text(d.graphemes(), d.end_grapheme as int) =~= Seq::<char>::empty());
    assert(d.after(Seq::<char>::empty()) == d);
}

/// Where no token starts, the lexer stays put and says so again on the next call.
pub proof fn law_error_repeats(w: Span)
    requires
        lexing_span(w),
        crate::text::concat(crate::source::spec_graphemes(slashes())) == slashes(),
        lex_outcome(discarded(w)).0 is Unexpected,
    ensures
        lex_outcome(discarded(lex_outcome(discarded(w)).1)) == lex_outcome(discarded(w)),
{
    lemma_discarded_twice(w);
}


/// A token that starts with an alphabetic grapheme is a `Boolean` exactly when its text
/// reads `true` or `false`, and an `Identifier` otherwise.
pub proof fn law_words_true_and_false_are_booleans(s1: Span)
    requires
        s1.end_grapheme < s1.graphemes().len(),
        class_holds(GraphemeClass::Alphabetic, s1.graphemes()[s1.end_grapheme as int]),
    ensures
        lex_outcome(s1).0 matches LexOutcome::Produced(kind, sp) && (kind == TokenKind::Boolean
            <==> (sp.text() == seq!['t', 'r', 'u', 'e'] || sp.text() == seq!['f', 'a', 'l', 's', 'e']))
            && (kind == TokenKind::Boolean || kind == TokenKind::Identifier),
{
}

} // verus!
