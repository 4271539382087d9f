use vstd::prelude::*;
use crate::common::Span;
use crate::text::{debug_text, push_str, same_text, string_of};

verus! {

/// The kinds of token the lexer produces.
#[derive(PartialEq, Eq, Structural, Clone, Copy, Debug)]
pub enum TokenKind {
    Identifier,
    Integer,
    Float,
    String,
    Boolean,
    Semicolon,
    Equals,
    Operator,
    Dot,
    Comma,
    Ellipsis,
    Strudel,
    Open,
    Close,
    Colon,
    ThickArrow,
}

impl TokenKind {
    /// The name of the kind, as `{:?}` writes it.
    pub fn name(&self) -> (r: &'static str)
        ensures
            r@ == kind_name(*self),
    {
        let r = match self {
            TokenKind::Identifier => "Identifier",
            TokenKind::Integer => "Integer",
            TokenKind::Float => "Float",
            TokenKind::String => "String",
            TokenKind::Boolean => "Boolean",
            TokenKind::Semicolon => "Semicolon",
            TokenKind::Equals => "Equals",
            TokenKind::Operator => "Operator",
            TokenKind::Dot => "Dot",
            TokenKind::Comma => "Comma",
            TokenKind::Ellipsis => "Ellipsis",
            TokenKind::Strudel => "Strudel",
            TokenKind::Open => "Open",
            TokenKind::Close => "Close",
            TokenKind::Colon => "Colon",
            TokenKind::ThickArrow => "ThickArrow",
        };
        r
    }
}

/// The name of a token kind.
pub open spec fn kind_name(k: TokenKind) -> Seq<char> {
    match k {
        TokenKind::Identifier => "Identifier"@,
        TokenKind::Integer => "Integer"@,
        TokenKind::Float => "Float"@,
        TokenKind::String => "String"@,
        TokenKind::Boolean => "Boolean"@,
        TokenKind::Semicolon => "Semicolon"@,
        TokenKind::Equals => "Equals"@,
        TokenKind::Operator => "Operator"@,
        TokenKind::Dot => "Dot"@,
        TokenKind::Comma => "Comma"@,
        TokenKind::Ellipsis => "Ellipsis"@,
        TokenKind::Strudel => "Strudel"@,
        TokenKind::Open => "Open"@,
        TokenKind::Close => "Close"@,
        TokenKind::Colon => "Colon"@,
        TokenKind::ThickArrow => "ThickArrow"@,
    }
}

/// A token: a kind and the stretch of source it covers.
#[derive(Debug)]
pub struct Token {
    pub span: Span,
    pub kind: TokenKind,
}

impl Token {
    /// A token of kind `kind` covering a copy of `span`.
    pub fn new(span: &Span, kind: TokenKind) -> (r: Token)
        ensures
            r.span == *span,
            r.kind == kind,
    {
        Token { span: span.copy(), kind }
    }

    /// Another token with the same kind and span.
    pub fn copy(&self) -> (r: Token)
        ensures
            r == *self,
    {
        Token { span: self.span.copy(), kind: self.kind }
    }

    /// A token of kind `kind` over a new source holding just `content`.
    pub fn new_content(content: &str, kind: TokenKind) -> (r: Token)
        requires
            content@.len() < usize::MAX,
        ensures
            r.span.in_bounds(),
            r.span.text() == content@,
            r.kind == kind,
    {
        let span = Span::new_string(content);
        proof {
            assert(span.text() =~= content@);
        }
        Token { span, kind }
    }

    /// Whether the token is of kind `kind`.
    pub fn is(&self, kind: TokenKind) -> (r: bool)
        ensures
            r == (self.kind == kind),
    {
        self.kind == kind
    }

    /// Whether the token's text is `content`.
    pub fn has(&self, content: &str) -> (r: bool)
        requires
            self.span.in_bounds(),
        ensures
            r == (self.span.text() == content@),
    {
        same_text(self.span.content(), content)
    }

    /// The token's text.
    pub fn content(&self) -> (r: String)
        requires
            self.span.in_bounds(),
        ensures
            r@ == self.span.text(),
    {
        string_of(self.span.content())
    }

    /// Whether the token is of kind `kind` and, when `content` is given, has that text.
    pub fn is_and_has_content(&self, kind: TokenKind, content: Option<&str>) -> (r: bool)
        requires
            self.span.in_bounds(),
        ensures
            r == (self.kind == kind && (content matches Some(c) ==> self.span.text() == c@)),
    {
        if self.kind == kind {
            if let Some(content) = content {
                if same_text(self.span.content(), content) {
                    return true;
                }
                return false;
            } else {
                return true;
            }
        }
        false
    }

    /// Tokens are alike when their kinds and texts are.
    pub fn same_as(&self, other: &Token) -> (r: bool)
        requires
            self.span.in_bounds(),
            other.span.in_bounds(),
        ensures
            r == (self.kind == other.kind && self.span.text() == other.span.text()),
    {
        self.kind == other.kind && same_text(self.span.content(), other.span.content())
    }

    /// `<Kind "text">`: the kind's name and the text as `{:?}` writes it.
    pub fn describe(&self) -> (r: String)
        requires
            self.span.in_bounds(),
        ensures
            r@ == seq!['<'] + kind_name(self.kind) + seq![' '] + crate::text::spec_debug_text(
                self.span.text(),
            ) + seq!['>'],
    {
        let mut out = string_of("<");
        push_str(&mut out, self.kind.name());
        push_str(&mut out, " ");
        let text = debug_text(self.span.content());
        push_str(&mut out, text.as_str());
        push_str(&mut out, ">");
        proof {
            reveal_strlit("<");
            reveal_strlit(" ");
            reveal_strlit(">");
            assert("<"@ =~= seq!['<']);
            assert(" "@ =~= seq![' ']);
            assert(">"@ =~= seq!['>']);
            assert(out@ =~= seq!['<'] + kind_name(self.kind) + seq![' '] + crate::text::spec_debug_text(
                self.span.text(),
            ) + seq!['>']);
        }
        out
    }
}

} // verus!
