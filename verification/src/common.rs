use vstd::prelude::*;
use vstd::std_specs::cmp::PartialEqSpecImpl;
use std::rc::Rc;
use crate::source::{split_graphemes, spec_graphemes};
use crate::chars::{char_is_alphabetic, char_is_numeric, char_is_whitespace, first_char, is_emoji, spec_char_is_alphabetic, spec_char_is_numeric, spec_char_is_whitespace, spec_is_emoji};
use crate::text::{chars_of, concat, decimal, push_str, string_of, strings_view, u128_text};

pub use crate::source::Source;

verus! {

/// `Rc::clone`: another handle to the same source.
#[verifier::external_body]
fn rc_clone(source: &Rc<Source>) -> (r: Rc<Source>)
    ensures
        r == *source,
{
    Rc::clone(source)
}

/// A stretch of a source: from `start` to `end`, counted in bytes of UTF-8, with the
/// same two positions counted in characters (`start_char`, `end_char`) and the line,
/// column and grapheme counters kept beside each end.
#[derive(Debug)]
pub struct Span {
    pub source: Rc<Source>,
    pub start: usize,
    pub start_char: usize,
    pub start_line: usize,
    pub start_column: usize,
    pub start_grapheme: usize,
    pub end: usize,
    pub end_char: usize,
    pub end_line: usize,
    pub end_column: usize,
    pub end_grapheme: usize,
}

impl Span {
    /// The text of the source.
    pub open spec fn body(self) -> Seq<char> {
        self.source.body@
    }

    /// The grapheme clusters of the source.
    pub open spec fn graphemes(self) -> Seq<Seq<char>> {
        strings_view(self.source.graphemes@)
    }

    /// The span after its end has moved over the character `c`: the byte position
    /// advances by the width of `c` in UTF-8 (wrapping at `usize::MAX`, as `+=` does in a
    /// release build), every other end counter by one, except that a newline moves to
    /// the next line's column 0.
    pub open spec fn after_char(self, c: char) -> Span {
        Span {
            source: self.source,
            start: self.start,
            start_char: self.start_char,
            start_line: self.start_line,
            start_column: self.start_column,
            start_grapheme: self.start_grapheme,
            end: wrapped_sum(self.end, utf8_width(c)),
            end_char: (self.end_char + 1) as usize,
            end_line: if c == '\n' {
                (self.end_line + 1) as usize
            } else {
                self.end_line
            },
            end_column: if c == '\n' {
                0
            } else {
                (self.end_column + 1) as usize
            },
            end_grapheme: (self.end_grapheme + 1) as usize,
        }
    }

    /// The span after its end has moved over each character of `v` in turn.
    pub open spec fn after(self, v: Seq<char>) -> Span
        decreases v.len(),
    {
        if v.len() == 0 {
            self
        } else {
            self.after(v.drop_last()).after_char(v.last())
        }
    }

    /// Moving over `v` cannot overflow a counter.
    pub open spec fn can_move(self, n: int) -> bool {
        &&& self.end_char + n <= usize::MAX
        &&& self.end_line + n <= usize::MAX
        &&& self.end_column + n <= usize::MAX
        &&& self.end_grapheme + n <= usize::MAX
    }

    /// The span's start and end lie within its source, in order.
    pub open spec fn in_bounds(self) -> bool {
        self.start_char <= self.end_char <= self.body().len()
    }

    /// The text between start and end.
    pub open spec fn text(self) -> Seq<char> {
        self.body().subrange(self.start_char as int, self.end_char as int)
    }

    /// Two spans cover the same positions (the source and the character positions are
    /// not compared).
    pub open spec fn same_place(self, other: Span) -> bool {
        &&& self.start == other.start
        &&& self.start_line == other.start_line
        &&& self.start_column == other.start_column
        &&& self.start_grapheme == other.start_grapheme
        &&& self.end == other.end
        &&& self.end_line == other.end_line
        &&& self.end_column == other.end_column
        &&& self.end_grapheme == other.end_grapheme
    }

    /// An empty span at the start of `source`.
    pub fn new(source: Rc<Source>) -> (r: Span)
        ensures
            r.source == source,
            r.start == 0 && r.start_char == 0 && r.start_line == 0 && r.start_column == 0
                && r.start_grapheme == 0,
            r.end == 0 && r.end_char == 0 && r.end_line == 0 && r.end_column == 0
                && r.end_grapheme == 0,
    {
        Span {
            source,
            start: 0,
            start_char: 0,
            start_column: 0,
            start_line: 0,
            start_grapheme: 0,
            end: 0,
            end_char: 0,
            end_column: 0,
            end_line: 0,
            end_grapheme: 0,
        }
    }

    /// A span over the whole of a new source named `<internal value>` holding `string`.
    /// Its end lies at the length of `string` in bytes, and so does its end column.
    pub fn new_string(string: &str) -> (r: Span)
        requires
            string@.len() < usize::MAX,
        ensures
            r.body() == string@,
            r.source.name@ == "<internal value>"@,
            r.source.wf(),
            r.graphemes() == spec_graphemes(string@),
            r.start == 0 && r.start_char == 0 && r.start_line == 0 && r.start_column == 0
                && r.start_grapheme == 0,
            r.end == utf8_size(string@) && r.end_char == string@.len() && r.end_line == 0
                && r.end_column == utf8_size(string@),
            r.end_grapheme == r.graphemes().len(),
    {
        let source = Source::new("<internal value>", string);
        let end = byte_len(string);
        let end_char = string.unicode_len();
        let end_grapheme = source.graphemes.len();
        Span {
            source: Rc::new(source),
            start: 0,
            start_char: 0,
            start_column: 0,
            start_line: 0,
            start_grapheme: 0,
            end,
            end_char,
            end_column: end,
            end_line: 0,
            end_grapheme,
        }
    }

    /// Another span with the same source and positions.
    pub fn copy(&self) -> (r: Span)
        ensures
            r == *self,
    {
        Span {
            source: rc_clone(&self.source),
            start: self.start,
            start_char: self.start_char,
            start_line: self.start_line,
            start_column: self.start_column,
            start_grapheme: self.start_grapheme,
            end: self.end,
            end_char: self.end_char,
            end_line: self.end_line,
            end_column: self.end_column,
            end_grapheme: self.end_grapheme,
        }
    }

    /// Moves the end over each character of `value` (see `after`).
    pub fn bump(&mut self, value: &str)
        requires
            old(self).can_move(value@.len() as int),
        ensures
            *final(self) == old(self).after(value@),
    {
        let chars = chars_of(value);
        let ghost start = *self;
        let mut i: usize = 0;
        while i < chars.len()
            invariant
                i <= chars@.len(),
                chars@ == value@,
                start.can_move(value@.len() as int),
                *self == start.after(chars@.take(i as int)),
            decreases chars@.len() - i,
        {
            proof {
                lemma_after_counts(start, chars@.take(i as int));
                assert(chars@.take(i + 1).drop_last() =~= chars@.take(i as int));
            }
            let c = chars[i];
            self.end = self.end.wrapping_add(char_width(c));
            self.end_char = self.end_char + 1;
            self.end_column = self.end_column + 1;
            self.end_grapheme = self.end_grapheme + 1;
            if c == '\n' {
                self.end_line = self.end_line + 1;
                self.end_column = 0;
            }
            i += 1;
        }
        assert(chars@.take(chars@.len() as int) =~= value@);
    }

    /// The grapheme at the end of the span, if the source has one there.
    pub fn cur(&self) -> (r: Option<&String>)
        ensures
            r is Some <==> self.end_grapheme < self.graphemes().len(),
            r matches Some(g) ==> g@ == self.graphemes()[self.end_grapheme as int],
    {
        if self.end_grapheme < self.source.graphemes.len() {
            Some(&self.source.graphemes[self.end_grapheme])
        } else {
            None
        }
    }

    /// Moves the end over the grapheme at the end, if there is one.
    pub fn bump_cur(&mut self)
        requires
            old(self).end_grapheme < old(self).graphemes().len() ==> old(self).can_move(
                old(self).graphemes()[old(self).end_grapheme as int].len() as int,
            ),
        ensures
            *final(self) == if old(self).end_grapheme < old(self).graphemes().len() {
                old(self).after(old(self).graphemes()[old(self).end_grapheme as int])
            } else {
                *old(self)
            },
    {
        let next = match self.cur() {
            Some(g) => Some(g.clone()),
            None => None,
        };
        if let Some(g) = next {
            self.bump(g.as_str());
        }
    }

    /// Moves the start up to the end.
    pub fn release(&mut self)
        ensures
            final(self).source == old(self).source,
            final(self).start == old(self).end,
            final(self).start_char == old(self).end_char,
            final(self).start_line == old(self).end_line,
            final(self).start_column == old(self).end_column,
            final(self).start_grapheme == old(self).end_grapheme,
            final(self).end == old(self).end,
            final(self).end_char == old(self).end_char,
            final(self).end_line == old(self).end_line,
            final(self).end_column == old(self).end_column,
            final(self).end_grapheme == old(self).end_grapheme,
    {
        self.start = self.end;
        self.start_char = self.end_char;
        self.start_column = self.end_column;
        self.start_line = self.end_line;
        self.start_grapheme = self.end_grapheme;
    }

    /// The text between the start and the end.
    pub fn content(&self) -> (r: &str)
        requires
            self.in_bounds(),
        ensures
            r@ == self.text(),
    {
        self.source.body.as_str().substring_char(self.start_char, self.end_char)
    }

    /// Whether the graphemes of `value` come next in the source, from the end on.
    pub fn has(&self, value: &str) -> (r: bool)
        ensures
            r == self.has_spec(value@),
            concat(spec_graphemes(value@)) == value@,
            forall|i: int|
                0 <= i < spec_graphemes(value@).len() ==> (#[trigger] spec_graphemes(value@)[i]).len()
                    > 0,
    {
        let wanted = split_graphemes(value);
        proof {
            assert forall|i: int|
                0 <= i < spec_graphemes(value@).len() implies (#[trigger] spec_graphemes(
                value@,
            )[i]).len() > 0 by {
                assert(spec_graphemes(value@)[i] == wanted@[i]@);
            }
        }
        let total = self.source.graphemes.len();
        let mut i: usize = 0;
        while i < wanted.len()
            invariant
                concat(spec_graphemes(value@)) == value@,
                forall|k: int|
                    0 <= k < spec_graphemes(value@).len() ==> (#[trigger] spec_graphemes(
                        value@,
                    )[k]).len() > 0,
                i <= wanted@.len(),
                strings_view(wanted@) == spec_graphemes(value@),
                total == self.graphemes().len(),
                forall|j: int|
                    #![trigger wanted@[j]]
                    0 <= j < i ==> self.end_grapheme + j < self.graphemes().len()
                        && self.graphemes()[self.end_grapheme + j] == wanted@[j]@,
            decreases wanted@.len() - i,
        {
            assert(spec_graphemes(value@)[i as int] == wanted@[i as int]@);
            if self.end_grapheme > usize::MAX - i {
                assert(!(self.end_grapheme + i < self.graphemes().len()));
                return false;
            }
            let at = self.end_grapheme + i;
            if at >= self.source.graphemes.len() {
                assert(!(self.end_grapheme + i < self.graphemes().len()));
                return false;
            }
            if self.source.graphemes[at] != wanted[i] {
                assert(self.graphemes()[self.end_grapheme + i] != spec_graphemes(value@)[i as int]);
                return false;
            }
            i += 1;
        }
        assert forall|j: int|
            0 <= j < spec_graphemes(value@).len() implies self.graphemes()[self.end_grapheme + j]
                == #[trigger] spec_graphemes(value@)[j] by {
            assert(spec_graphemes(value@)[j] == wanted@[j]@);
        }
        if wanted.len() > 0 {
            assert(spec_graphemes(value@)[wanted@.len() - 1] == wanted@[wanted@.len() - 1]@);
        }
        true
    }

    /// The graphemes of `value` come next in the source.
    pub open spec fn has_spec(self, value: Seq<char>) -> bool {
        has_at(self.graphemes(), self.end_grapheme as int, value)
    }

    /// Widens this span to cover `other` too: takes `other`'s start when it is earlier
    /// and `other`'s end when it is later.
    pub fn fit(&mut self, other: &Self)
        ensures
            *final(self) == old(self).fitted(*other),
            final(self).source == old(self).source,
            if other.start < old(self).start {
                &&& final(self).start == other.start
                &&& final(self).start_char == other.start_char
                &&& final(self).start_line == other.start_line
                &&& final(self).start_column == other.start_column
                &&& final(self).start_grapheme == other.start_grapheme
            } else {
                &&& final(self).start == old(self).start
                &&& final(self).start_char == old(self).start_char
                &&& final(self).start_line == old(self).start_line
                &&& final(self).start_column == old(self).start_column
                &&& final(self).start_grapheme == old(self).start_grapheme
            },
            if other.end > old(self).end {
                &&& final(self).end == other.end
                &&& final(self).end_char == other.end_char
                &&& final(self).end_line == other.end_line
                &&& final(self).end_column == other.end_column
                &&& final(self).end_grapheme == other.end_grapheme
            } else {
                &&& final(self).end == old(self).end
                &&& final(self).end_char == old(self).end_char
                &&& final(self).end_line == old(self).end_line
                &&& final(self).end_column == old(self).end_column
                &&& final(self).end_grapheme == old(self).end_grapheme
            },
    {
        if other.start < self.start {
            self.start = other.start;
            self.start_char = other.start_char;
            self.start_line = other.start_line;
            self.start_column = other.start_column;
            self.start_grapheme = other.start_grapheme;
        }
        if other.end > self.end {
            self.end = other.end;
            self.end_char = other.end_char;
            self.end_line = other.end_line;
            self.end_column = other.end_column;
            self.end_grapheme = other.end_grapheme;
        }
    }

    /// `<line:column length n>`, with the line and column of the start counted from 1
    /// and `n` the number of bytes from the start to the end.
    pub fn describe(&self) -> (r: String)
        requires
            self.start <= self.end,
            self.start_line < usize::MAX,
            self.start_column < usize::MAX,
        ensures
            r@ == seq!['<'] + decimal((self.start_line + 1) as nat) + seq![':'] + decimal(
                (self.start_column + 1) as nat,
            ) + " length "@ + decimal((self.end - self.start) as nat) + seq!['>'],
    {
        let mut out = string_of("<");
        let line = u128_text((self.start_line + 1) as u128);
        push_str(&mut out, line.as_str());
        push_str(&mut out, ":");
        let column = u128_text((self.start_column + 1) as u128);
        push_str(&mut out, column.as_str());
        push_str(&mut out, " length ");
        let length = u128_text((self.end - self.start) as u128);
        push_str(&mut out, length.as_str());
        push_str(&mut out, ">");
        proof {
            reveal_strlit("<");
            reveal_strlit(":");
            reveal_strlit(">");
            assert("<"@ =~= seq!['<']);
            assert(":"@ =~= seq![':']);
            assert(">"@ =~= seq!['>']);
            assert(out@ =~= seq!['<'] + decimal((self.start_line + 1) as nat) + seq![':'] + decimal(
                (self.start_column + 1) as nat,
            ) + " length "@ + decimal((self.end - self.start) as nat) + seq!['>']);
        }
        out
    }
}

/// How many bytes UTF-8 takes for `c`.
pub open spec fn utf8_width(c: char) -> nat {
    if (c as u32) < 0x80 {
        1
    } else if (c as u32) < 0x800 {
        2
    } else if (c as u32) < 0x10000 {
        3
    } else {
        4
    }
}

/// How many bytes UTF-8 takes for `s`.
pub open spec fn utf8_size(s: Seq<char>) -> nat
    decreases s.len(),
{
    if s.len() == 0 {
        0
    } else {
        utf8_size(s.drop_last()) + utf8_width(s.last())
    }
}

/// `a + w`, wrapping past `usize::MAX` round to 0.
pub open spec fn wrapped_sum(a: usize, w: nat) -> usize {
    if a + w > usize::MAX {
        (a + w - (usize::MAX + 1)) as usize
    } else {
        (a + w) as usize
    }
}

/// `str::len`: the length of `s` in bytes, which is the size of its UTF-8 encoding.
#[verifier::external_body]
pub(crate) fn byte_len(s: &str) -> (r: usize)
    ensures
        r == utf8_size(s@),
{
    s.len()
}

/// How many bytes UTF-8 takes for `c` (what `char::len_utf8` returns).
pub fn char_width(c: char) -> (r: usize)
    ensures
        r == utf8_width(c),
{
    if (c as u32) < 0x80 {
        1
    } else if (c as u32) < 0x800 {
        2
    } else if (c as u32) < 0x10000 {
        3
    } else {
        4
    }
}

/// The size of a text in UTF-8 adds up over its parts.
pub proof fn lemma_size_concat(a: Seq<char>, b: Seq<char>)
    ensures
        utf8_size(a + b) == utf8_size(a) + utf8_size(b),
    decreases b.len(),
{
    if b.len() == 0 {
        assert(a + b =~= a);
    } else {
        lemma_size_concat(a, b.drop_last());
        assert((a + b).drop_last() =~= a + b.drop_last());
        assert((a + b).last() == b.last());
    }
}

/// The graphemes of `value` stand in `gs` from position `p` on.
pub open spec fn has_at(gs: Seq<Seq<char>>, p: int, value: Seq<char>) -> bool {
    &&& spec_graphemes(value).len() > 0 ==> p + spec_graphemes(value).len() <= gs.len()
    &&& forall|j: int|
        0 <= j < spec_graphemes(value).len() ==> gs[p + j] == #[trigger] spec_graphemes(value)[j]
}

/// A test on a grapheme cluster, by which a span moves over a run of them.
#[derive(Clone, Copy, PartialEq, Eq, Structural, Debug)]
pub enum GraphemeClass {
    /// Its first character is white space.
    Whitespace,
    /// Its first character is a digit from 0 to 9.
    Digit,
    /// Its first character is alphabetic, or it is an emoji, or an underscore.
    Alphabetic,
    /// Its first character is alphabetic or numeric, or it is an emoji, or an underscore.
    Alphanumeric,
    /// It is not a double quote.
    NotQuote,
    /// It does not contain a newline.
    NotNewline,
}

/// Whether the grapheme `g` passes the test `class`.
pub open spec fn class_holds(class: GraphemeClass, g: Seq<char>) -> bool {
    match class {
        GraphemeClass::Whitespace => g.len() > 0 && spec_char_is_whitespace(g[0]),
        GraphemeClass::Digit => g.len() > 0 && '0' <= g[0] <= '9',
        GraphemeClass::Alphabetic => g.len() > 0 && (spec_char_is_alphabetic(g[0])
            || spec_is_emoji(g) || g == seq!['_']),
        GraphemeClass::Alphanumeric => g.len() > 0 && (spec_char_is_alphabetic(g[0])
            || spec_char_is_numeric(g[0]) || spec_is_emoji(g) || g == seq!['_']),
        GraphemeClass::NotQuote => g != seq!['"'],
        GraphemeClass::NotNewline => !g.contains('\n'),
    }
}

/// Whether the grapheme `g` passes the test `class` (a test on the first character
/// fails on the empty text).
#[verifier::loop_isolation(false)]
pub fn class_test(class: GraphemeClass, g: &str) -> (r: bool)
    ensures
        r == class_holds(class, g@),
{
    proof {
        reveal_strlit("_");
        reveal_strlit("\"");
        assert("_"@ =~= seq!['_']);
        assert("\""@ =~= seq!['"']);
    }
    if g.unicode_len() == 0 && class != GraphemeClass::NotQuote && class != GraphemeClass::NotNewline {
        return false;
    }
    match class {
        GraphemeClass::Whitespace => char_is_whitespace(first_char(g)),
        GraphemeClass::Digit => {
            let c = first_char(g);
            '0' <= c && c <= '9'
        },
        GraphemeClass::Alphabetic => {
            let c = first_char(g);
            char_is_alphabetic(c) || is_emoji(g) || str_is(g, "_")
        },
        GraphemeClass::Alphanumeric => {
            let c = first_char(g);
            char_is_alphabetic(c) || char_is_numeric(c) || is_emoji(g) || str_is(g, "_")
        },
        GraphemeClass::NotQuote => !str_is(g, "\""),
        GraphemeClass::NotNewline => {
            let cs = chars_of(g);
            let mut i: usize = 0;
            while i < cs.len()
                invariant
                    i <= cs@.len(),
                    cs@ == g@,
                    forall|j: int| 0 <= j < i ==> cs@[j] != '\n',
                decreases cs@.len() - i,
            {
                if cs[i] == '\n' {
                    assert(g@[i as int] == '\n');
                    assert(g@.contains('\n'));
                    return false;
                }
                i += 1;
            }
            assert(!g@.contains('\n'));
            true
        },
    }
}

/// Whether `a` and `b` hold the same text; `b` is a literal of one or two characters.
fn str_is(a: &str, b: &str) -> (r: bool)
    ensures
        r == (a@ == b@),
{
    string_of(a) == string_of(b)
}

/// The text over which a span moves from grapheme position `p` while the graphemes
/// pass `class`: each passing grapheme is taken whole, and the next one looked at is
/// at `p` plus the number of characters taken so far.
pub open spec fn run_text(gs: Seq<Seq<char>>, p: int, class: GraphemeClass) -> Seq<char>
    decreases (if p < gs.len() {
        gs.len() - p
    } else {
        0
    }),
{
    if 0 <= p < gs.len() && gs[p].len() > 0 && class_holds(class, gs[p]) {
        gs[p] + run_text(gs, p + gs[p].len(), class)
    } else {
        Seq::empty()
    }
}

impl Span {
    /// The span widened to cover `other` too (see `fit`).
    pub open spec fn fitted(self, other: Span) -> Span {
        let s = if other.start < self.start {
            Span {
                start: other.start,
                start_char: other.start_char,
                start_line: other.start_line,
                start_column: other.start_column,
                start_grapheme: other.start_grapheme,
                ..self
            }
        } else {
            self
        };
        if other.end > self.end {
            Span {
                end: other.end,
                end_char: other.end_char,
                end_line: other.end_line,
                end_column: other.end_column,
                end_grapheme: other.end_grapheme,
                ..s
            }
        } else {
            s
        }
    }

    /// The span with its start moved up to its end.
    pub open spec fn released(self) -> Span {
        Span {
            source: self.source,
            start: self.end,
            start_char: self.end_char,
            start_line: self.end_line,
            start_column: self.end_column,
            start_grapheme: self.end_grapheme,
            end: self.end,
            end_char: self.end_char,
            end_line: self.end_line,
            end_column: self.end_column,
            end_grapheme: self.end_grapheme,
        }
    }

    /// Moves the end over the graphemes that `predicate` accepts, one after another (see
    /// `run_to`), stopping at the first it refuses or at the end of the source.
    pub fn bump_while<F: Fn(&str) -> bool>(&mut self, predicate: F)
        requires
            old(self).source.wf(),
            forall|s: &str| #[trigger] call_requires(predicate, (s,)),
            forall|q: int|
                #[trigger] run_to(predicate, old(self).graphemes(), old(self).end_grapheme as int, q)
                    ==> old(self).can_move(q - old(self).end_grapheme),
        ensures
            run_to(
                predicate,
                old(self).graphemes(),
                old(self).end_grapheme as int,
                final(self).end_grapheme as int,
            ),
            stops_at(predicate, old(self).graphemes(), final(self).end_grapheme as int),
            *final(self) == old(self).after(
                run_chars(
                    old(self).graphemes(),
                    old(self).end_grapheme as int,
                    final(self).end_grapheme as int,
                ),
            ),
    {
        let ghost gs = self.graphemes();
        let ghost first = *self;
        let ghost p0 = self.end_grapheme as int;
        loop
            invariant
                self.source == first.source,
                self.source.wf(),
                gs == self.graphemes(),
                gs == first.graphemes(),
                p0 == first.end_grapheme,
                forall|s: &str| #[trigger] call_requires(predicate, (s,)),
                forall|q: int| #[trigger] run_to(predicate, gs, p0, q) ==> first.can_move(q - p0),
                run_to(predicate, gs, p0, self.end_grapheme as int),
                *self == first.after(run_chars(gs, p0, self.end_grapheme as int)),
            ensures
                run_to(predicate, gs, p0, self.end_grapheme as int),
                stops_at(predicate, gs, self.end_grapheme as int),
                *self == first.after(run_chars(gs, p0, self.end_grapheme as int)),
            decreases (if self.end_grapheme < gs.len() {
                gs.len() - self.end_grapheme
            } else {
                0
            }),
        {
            let ghost p = self.end_grapheme as int;
            let ghost done = run_chars(gs, p0, p);
            proof {
                lemma_run_chars_len(predicate, gs, p0, p);
            }
            let next = match self.cur() {
                Some(g) => {
                    let text = g.as_str();
                    let b = predicate(text);
                    proof {
                        assert(text@ == gs[p]);
                        assert(answers(predicate, gs[p], b));
                    }
                    if b {
                        Some(g.clone())
                    } else {
                        None
                    }
                },
                None => None,
            };
            match next {
                Some(g) => {
                    proof {
                        assert(gs[p].len() > 0);
                        lemma_run_extend(predicate, gs, p0, p);
                        lemma_run_chars_len(predicate, gs, p0, p + gs[p].len());
                        lemma_after_counts(first, done);
                    }
                    self.bump(g.as_str());
                    proof {
                        lemma_after_concat(first, done, gs[p]);
                        lemma_after_counts(first, done + gs[p]);
                    }
                },
                None => {
                    break;
                },
            }
        }
    }

    /// `bump_while`, and then the start moves up to the new end.
    pub fn skip_while<F: Fn(&str) -> bool>(&mut self, predicate: F)
        requires
            old(self).source.wf(),
            forall|s: &str| #[trigger] call_requires(predicate, (s,)),
            forall|q: int|
                #[trigger] run_to(predicate, old(self).graphemes(), old(self).end_grapheme as int, q)
                    ==> old(self).can_move(q - old(self).end_grapheme),
        ensures
            run_to(
                predicate,
                old(self).graphemes(),
                old(self).end_grapheme as int,
                final(self).end_grapheme as int,
            ),
            stops_at(predicate, old(self).graphemes(), final(self).end_grapheme as int),
            *final(self) == old(self).after(
                run_chars(
                    old(self).graphemes(),
                    old(self).end_grapheme as int,
                    final(self).end_grapheme as int,
                ),
            ).released(),
    {
        self.bump_while(predicate);
        self.release();
    }

    /// `bump_while` with the test of `class` (see `class_test`): moves the end over the
    /// graphemes that pass `class` (see `run_text`).
    pub fn bump_while_class(&mut self, class: GraphemeClass)
        requires
            old(self).source.wf(),
            old(self).can_move(run_text(old(self).graphemes(), old(self).end_grapheme as int, class).len() as int),
        ensures
            *final(self) == old(self).after(
                run_text(old(self).graphemes(), old(self).end_grapheme as int, class),
            ),
    {
        let ghost gs = self.graphemes();
        let ghost first = *self;
        let ghost p0 = self.end_grapheme as int;
        let test = |g: &str| -> (r: bool)
            ensures
                r == class_holds(class, g@),
            { class_test(class, g) };
        proof {
            lemma_run_len(gs, p0, class);
            assert forall|q: int| #[trigger] run_to(test, gs, p0, q) implies first.can_move(q - p0) by {
                lemma_class_run(test, gs, p0, q, class);
                lemma_run_chars_len(test, gs, p0, q);
            }
        }
        self.bump_while(test);
        proof {
            lemma_class_run(test, gs, p0, self.end_grapheme as int, class);
        }
    }

    /// `bump_while_class`, and then the start moves up to the new end.
    pub fn skip_while_class(&mut self, class: GraphemeClass)
        requires
            old(self).source.wf(),
            old(self).can_move(run_text(old(self).graphemes(), old(self).end_grapheme as int, class).len() as int),
        ensures
            *final(self) == old(self).after(
                run_text(old(self).graphemes(), old(self).end_grapheme as int, class),
            ).released(),
    {
        self.bump_while_class(class);
        self.release();
    }
}

/// `f`, asked about the grapheme `g`, may answer `b`.
pub open spec fn answers<F: Fn(&str) -> bool>(f: F, g: Seq<char>, b: bool) -> bool {
    exists|s: &str| s@ == g && #[trigger] call_ensures(f, (s,), b)
}

/// From grapheme position `p` a span moves to `q` over graphemes that `f` accepts, each
/// taken whole, the next one looked at being at the position plus the characters taken.
pub open spec fn run_to<F: Fn(&str) -> bool>(f: F, gs: Seq<Seq<char>>, p: int, q: int) -> bool
    decreases (if p < q {
        q - p
    } else {
        0
    }),
{
    if p == q {
        true
    } else if p < q && 0 <= p < gs.len() && gs[p].len() > 0 {
        answers(f, gs[p], true) && run_to(f, gs, p + gs[p].len(), q)
    } else {
        false
    }
}

/// The text taken moving from grapheme position `p` to `q` (see `run_to`).
pub open spec fn run_chars(gs: Seq<Seq<char>>, p: int, q: int) -> Seq<char>
    decreases (if p < q {
        q - p
    } else {
        0
    }),
{
    if p < q && 0 <= p < gs.len() && gs[p].len() > 0 {
        gs[p] + run_chars(gs, p + gs[p].len(), q)
    } else {
        Seq::empty()
    }
}

/// A run stops at `q`: the source has no grapheme there, or `f` refuses it.
pub open spec fn stops_at<F: Fn(&str) -> bool>(f: F, gs: Seq<Seq<char>>, q: int) -> bool {
    !(0 <= q < gs.len() && gs[q].len() > 0) || answers(f, gs[q], false)
}

/// A run goes on over one more accepted grapheme.
pub proof fn lemma_run_extend<F: Fn(&str) -> bool>(f: F, gs: Seq<Seq<char>>, p: int, q: int)
    requires
        run_to(f, gs, p, q),
        0 <= q < gs.len(),
        gs[q].len() > 0,
        answers(f, gs[q], true),
    ensures
        run_to(f, gs, p, q + gs[q].len()),
        run_chars(gs, p, q + gs[q].len()) == run_chars(gs, p, q) + gs[q],
    decreases (if p < q {
        q - p
    } else {
        0
    }),
{
    if p == q {
        assert(run_to(f, gs, q + gs[q].len(), q + gs[q].len()));
        assert(run_chars(gs, q + gs[q].len(), q + gs[q].len()) =~= Seq::<char>::empty());
        assert(run_chars(gs, p, q) =~= Seq::<char>::empty());
        assert(run_chars(gs, p, q + gs[q].len()) =~= gs[q]);
    } else {
        let p2 = p + gs[p].len();
        lemma_run_extend(f, gs, p2, q);
        assert(run_chars(gs, p, q + gs[q].len()) =~= gs[p] + run_chars(gs, p2, q + gs[q].len()));
        assert(run_chars(gs, p, q) =~= gs[p] + run_chars(gs, p2, q));
        assert(gs[p] + (run_chars(gs, p2, q) + gs[q]) =~= (gs[p] + run_chars(gs, p2, q)) + gs[q]);
    }
}

/// A run from `p` to `q` takes `q - p` characters.
pub proof fn lemma_run_chars_len<F: Fn(&str) -> bool>(f: F, gs: Seq<Seq<char>>, p: int, q: int)
    requires
        run_to(f, gs, p, q),
    ensures
        p <= q,
        run_chars(gs, p, q).len() == q - p,
    decreases (if p < q {
        q - p
    } else {
        0
    }),
{
    if p != q {
        lemma_run_chars_len(f, gs, p + gs[p].len(), q);
    }
}

/// Where `f` answers as `class` holds, a run that `f` accepts takes no more than the run
/// of `class`, and where it stops it takes exactly that run.
pub proof fn lemma_class_run<F: Fn(&str) -> bool>(f: F, gs: Seq<Seq<char>>, p: int, q: int, class: GraphemeClass)
    requires
        forall|s: &str, b: bool| #[trigger] call_ensures(f, (s,), b) ==> b == class_holds(class, s@),
        run_to(f, gs, p, q),
    ensures
        q - p <= run_text(gs, p, class).len(),
        stops_at(f, gs, q) ==> run_chars(gs, p, q) == run_text(gs, p, class),
    decreases (if p < q {
        q - p
    } else {
        0
    }),
{
    if p == q {
        if stops_at(f, gs, q) {
            if 0 <= q < gs.len() && gs[q].len() > 0 {
                let s = choose|s: &str| s@ == gs[q] && #[trigger] call_ensures(f, (s,), false);
                assert(!class_holds(class, gs[q]));
            }
            assert(run_text(gs, p, class) =~= Seq::<char>::empty());
            assert(run_chars(gs, p, q) =~= Seq::<char>::empty());
        }
    } else {
        let s = choose|s: &str| s@ == gs[p] && #[trigger] call_ensures(f, (s,), true);
        assert(class_holds(class, gs[p]));
        lemma_class_run(f, gs, p + gs[p].len(), q, class);
    }
}

/// A run of graphemes moves a position by the length of its text, and the run from the
/// position reached is empty.
pub proof fn lemma_run_len(gs: Seq<Seq<char>>, p: int, class: GraphemeClass)
    ensures
        run_text(gs, p + run_text(gs, p, class).len(), class).len() == 0,
    decreases (if p < gs.len() {
        gs.len() - p
    } else {
        0
    }),
{
    if 0 <= p < gs.len() && gs[p].len() > 0 && class_holds(class, gs[p]) {
        lemma_run_len(gs, p + gs[p].len(), class);
        assert(p + run_text(gs, p, class).len() == p + gs[p].len() + run_text(gs, p + gs[p].len(), class).len());
    }
}

/// Graphemes written one after another: the parts of `a + b` spell those of `a`, then
/// those of `b`.
pub proof fn lemma_concat_add(a: Seq<Seq<char>>, b: Seq<Seq<char>>)
    ensures
        concat(a + b) == concat(a) + concat(b),
    decreases a.len(),
{
    if a.len() == 0 {
        assert(a + b =~= b);
    } else {
        lemma_concat_add(a.drop_first(), b);
        assert((a + b).drop_first() =~= a.drop_first() + b);
        assert(concat(a + b) =~= concat(a) + concat(b));
    }
}

/// In a sequence of non-empty graphemes, the graphemes from position `k` to `k + m`
/// end at most at the length of the whole text, counted from `k`.
pub proof fn lemma_window_end(gs: Seq<Seq<char>>, k: int, m: int)
    requires
        forall|i: int| 0 <= i < gs.len() ==> (#[trigger] gs[i]).len() > 0,
        0 <= k,
        0 <= m,
        k + m <= gs.len(),
    ensures
        k + concat(gs.subrange(k, k + m)).len() <= concat(gs).len(),
    decreases k,
{
    if k == 0 {
        lemma_concat_add(gs.subrange(0, m), gs.subrange(m, gs.len() as int));
        assert(gs.subrange(0, m) + gs.subrange(m, gs.len() as int) =~= gs);
    } else {
        let rest = gs.drop_first();
        assert forall|i: int| 0 <= i < rest.len() implies (#[trigger] rest[i]).len() > 0 by {
            assert(rest[i] == gs[i + 1]);
        }
        lemma_window_end(rest, k - 1, m);
        assert(rest.subrange(k - 1, k - 1 + m) =~= gs.subrange(k, k + m));
        assert(gs[0].len() > 0);
    }
}

/// One grapheme ends at most at the length of the whole text, counted from its position.
pub proof fn lemma_grapheme_end(gs: Seq<Seq<char>>, k: int)
    requires
        forall|i: int| 0 <= i < gs.len() ==> (#[trigger] gs[i]).len() > 0,
        0 <= k < gs.len(),
    ensures
        k + gs[k].len() <= concat(gs).len(),
{
    lemma_window_end(gs, k, 1);
    assert(gs.subrange(k, k + 1) =~= seq![gs[k]]);
    assert(concat(seq![gs[k]]) =~= gs[k] + concat(seq![gs[k]].drop_first()));
    assert(seq![gs[k]].drop_first() =~= Seq::<Seq<char>>::empty());
    assert(concat(gs.subrange(k, k + 1)) =~= gs[k]);
}

/// Where `has_at` finds the graphemes of `value`, `value` ends within the text.
pub proof fn lemma_has_at_end(gs: Seq<Seq<char>>, p: int, value: Seq<char>)
    requires
        forall|i: int| 0 <= i < gs.len() ==> (#[trigger] gs[i]).len() > 0,
        0 <= p,
        has_at(gs, p, value),
        concat(spec_graphemes(value)) == value,
        value.len() > 0,
    ensures
        p + value.len() <= concat(gs).len(),
        p < gs.len(),
{
    let vs = spec_graphemes(value);
    if vs.len() == 0 {
        assert(concat(vs) =~= Seq::<char>::empty());
    }
    assert(gs.subrange(p, p + vs.len()) =~= vs);
    lemma_window_end(gs, p, vs.len() as int);
}

/// A run of graphemes from position `p` ends at most at the length of the text (or at
/// `p`).
pub proof fn lemma_run_end(gs: Seq<Seq<char>>, p: int, class: GraphemeClass)
    requires
        forall|i: int| 0 <= i < gs.len() ==> (#[trigger] gs[i]).len() > 0,
        0 <= p <= concat(gs).len(),
    ensures
        p + run_text(gs, p, class).len() <= concat(gs).len(),
    decreases (if p < gs.len() {
        gs.len() - p
    } else {
        0
    }),
{
    if 0 <= p < gs.len() && gs[p].len() > 0 && class_holds(class, gs[p]) {
        lemma_grapheme_end(gs, p);
        lemma_run_end(gs, p + gs[p].len(), class);
    }
}

/// The counters after moving over `v`, and the parts that do not move.
pub proof fn lemma_after_counts(s: Span, v: Seq<char>)
    requires
        s.can_move(v.len() as int),
    ensures
        s.after(v).end_char == s.end_char + v.len(),
        s.after(v).end_grapheme == s.end_grapheme + v.len(),
        s.after(v).end_line <= s.end_line + v.len(),
        s.after(v).end_column <= s.end_column + v.len(),
        s.after(v).source == s.source,
        s.after(v).start == s.start,
        s.after(v).start_char == s.start_char,
        s.after(v).start_line == s.start_line,
        s.after(v).start_column == s.start_column,
        s.after(v).start_grapheme == s.start_grapheme,
    decreases v.len(),
{
    if v.len() > 0 {
        lemma_after_counts(s, v.drop_last());
    }
}

/// How many newlines `v` holds.
pub open spec fn newline_count(v: Seq<char>) -> nat
    decreases v.len(),
{
    if v.len() == 0 {
        0
    } else {
        newline_count(v.drop_last()) + if v.last() == '\n' {
            1nat
        } else {
            0nat
        }
    }
}

/// Where no counter can overflow, moving over `v` advances the byte position by the
/// size of `v` in UTF-8 and the line counter by the newlines in `v`.
pub proof fn lemma_after_bytes(s: Span, v: Seq<char>)
    requires
        s.end + utf8_size(v) <= usize::MAX,
        s.can_move(v.len() as int),
    ensures
        s.after(v).end == s.end + utf8_size(v),
        s.after(v).end_line == s.end_line + newline_count(v),
        newline_count(v) <= v.len(),
    decreases v.len(),
{
    if v.len() > 0 {
        lemma_after_bytes(s, v.drop_last());
    }
}

/// Moving a span's end over the text that follows it in its source advances the end by
/// that text: the byte position by its size in UTF-8 (so a byte position that counted
/// the bytes before the end still does), the character position and the grapheme
/// counter by its length in characters, the line counter by its newlines; the covered
/// text grows by it, and the start stays where it was.
pub proof fn law_bump_advances(s: Span, v: Seq<char>)
    requires
        s.source.wf(),
        s.in_bounds(),
        s.end == utf8_size(s.body().take(s.end_char as int)),
        s.end_char + v.len() <= s.body().len(),
        v == s.body().subrange(s.end_char as int, s.end_char + v.len()),
        s.can_move(v.len() as int),
    ensures
        s.after(v).end == utf8_size(s.body().take(s.end_char + v.len())),
        s.after(v).end == s.end + utf8_size(v),
        s.after(v).end_char == s.end_char + v.len(),
        s.after(v).end_grapheme == s.end_grapheme + v.len(),
        s.after(v).end_line == s.end_line + newline_count(v),
        s.after(v).in_bounds(),
        s.after(v).text() == s.text() + v,
        s.after(v).source == s.source,
        s.after(v).start == s.start && s.after(v).start_char == s.start_char,
        s.after(v).start_line == s.start_line && s.after(v).start_column == s.start_column,
        s.after(v).start_grapheme == s.start_grapheme,
{
    let b = s.body();
    let e = s.end_char as int;
    let k = e + v.len();
    assert(b.take(k) =~= b.take(e) + v);
    lemma_size_concat(b.take(e), v);
    assert(b =~= b.take(k) + b.skip(k));
    lemma_size_concat(b.take(k), b.skip(k));
    lemma_after_bytes(s, v);
    lemma_after_counts(s, v);
    assert(b.subrange(s.start_char as int, k) =~= b.subrange(s.start_char as int, e) + v);
}

/// Moving over `a` and then over `b` is moving over `a + b`.
pub proof fn lemma_after_concat(s: Span, a: Seq<char>, b: Seq<char>)
    ensures
        s.after(a).after(b) == s.after(a + b),
    decreases b.len(),
{
    if b.len() == 0 {
        assert(a + b =~= a);
    } else {
        lemma_after_concat(s, a, b.drop_last());
        assert((a + b).drop_last() =~= a + b.drop_last());
        assert((a + b).last() == b.last());
    }
}

impl PartialEq for Span {
    fn eq(&self, other: &Self) -> (r: bool) {
        self.start == other.start && self.start_line == other.start_line && self.start_column
            == other.start_column && self.start_grapheme == other.start_grapheme && self.end
            == other.end && self.end_line == other.end_line && self.end_column == other.end_column
            && self.end_grapheme == other.end_grapheme
    }
}

impl PartialEqSpecImpl for Span {
    open spec fn obeys_eq_spec() -> bool {
        true
    }

    open spec fn eq_spec(&self, other: &Self) -> bool {
        self.same_place(*other)
    }
}

/// A result that may also be empty: a value, an error, or nothing.
#[derive(Clone, Copy, Debug, PartialEq, Eq, Hash)]
pub enum OptionalResult<T, E> {
    Value(T),
    Error(E),
    Empty,
}

pub type OpRes<T, E> = OptionalResult<T, E>;

/// `Some(v)` as a value and `None` as empty.
pub open spec fn optional_of_option<T, E>(o: Option<T>) -> OptionalResult<T, E> {
    match o {
        Some(v) => OptionalResult::Value(v),
        None => OptionalResult::Empty,
    }
}

/// A value as `Some`, anything else as `None`.
pub open spec fn option_of_optional<T, E>(r: OptionalResult<T, E>) -> Option<T> {
    match r {
        OptionalResult::Value(v) => Some(v),
        _ => None,
    }
}

/// `Ok(v)` as a value and `Err(e)` as an error.
pub open spec fn optional_of_result<T, E>(x: Result<T, E>) -> OptionalResult<T, E> {
    match x {
        Ok(v) => OptionalResult::Value(v),
        Err(e) => OptionalResult::Error(e),
    }
}

/// A value as `Ok` and an error as `Err` (nothing for empty).
pub open spec fn result_of_optional<T, E>(r: OptionalResult<T, E>) -> Result<T, E>
    recommends
        !(r is Empty),
{
    match r {
        OptionalResult::Value(v) => Ok(v),
        OptionalResult::Error(e) => Err(e),
        OptionalResult::Empty => arbitrary(),
    }
}

/// Turning an option into an optional result and back gives the option.
pub proof fn law_option_round_trip<T, E>(o: Option<T>)
    ensures
        option_of_optional::<T, E>(optional_of_option::<T, E>(o)) == o,
{
}

/// Turning a result into an optional result and back gives the result.
pub proof fn law_result_round_trip<T, E>(x: Result<T, E>)
    ensures
        result_of_optional::<T, E>(optional_of_result::<T, E>(x)) == x,
{
}

impl<T, E> OptionalResult<T, E> {
    /// The value; there must be one.
    pub fn unwrap(self) -> (r: T)
        requires
            self is Value,
        ensures
            r == self->Value_0,
    {
        match self {
            OptionalResult::Value(v) => v,
            OptionalResult::Error(_) => {
                vstd::pervasive::unreached()
            },
            OptionalResult::Empty => {
                vstd::pervasive::unreached()
            },
        }
    }

    /// Whether this holds a value.
    pub fn is_ok(&self) -> (r: bool)
        ensures
            r == self is Value,
    {
        match self {
            OptionalResult::Value(_) => true,
            _ => false,
        }
    }

    /// Whether this holds an error.
    pub fn is_error(&self) -> (r: bool)
        ensures
            r == self is Error,
    {
        match self {
            OptionalResult::Error(_) => true,
            _ => false,
        }
    }

    /// Whether this is empty.
    pub fn is_none(&self) -> (r: bool)
        ensures
            r == self is Empty,
    {
        match self {
            OptionalResult::Empty => true,
            _ => false,
        }
    }

    /// The value or error as a `Result`; this must not be empty.
    pub fn as_result(self) -> (r: Result<T, E>)
        requires
            !(self is Empty),
        ensures
            self matches OptionalResult::Value(v) ==> r == Ok::<T, E>(v),
            self matches OptionalResult::Error(e) ==> r == Err::<T, E>(e),
            r == result_of_optional(self),
    {
        match self {
            OptionalResult::Value(v) => Ok(v),
            OptionalResult::Error(e) => Err(e),
            OptionalResult::Empty => {
                vstd::pervasive::unreached()
            },
        }
    }

    /// The value, or `None` when empty; this must not be an error.
    pub fn as_option(self) -> (r: Option<T>)
        requires
            !(self is Error),
        ensures
            self matches OptionalResult::Value(v) ==> r == Some(v),
            self is Empty ==> r is None,
            r == option_of_optional(self),
    {
        match self {
            OptionalResult::Value(v) => Some(v),
            OptionalResult::Empty => None,
            OptionalResult::Error(_) => {
                vstd::pervasive::unreached()
            },
        }
    }

    /// The same alternative, holding a reference.
    pub fn as_ref(&self) -> (r: OptionalResult<&T, &E>)
        ensures
            self matches OptionalResult::Value(v) ==> r == OptionalResult::<&T, &E>::Value(&v),
            self matches OptionalResult::Error(e) ==> r == OptionalResult::<&T, &E>::Error(&e),
            self is Empty ==> r is Empty,
    {
        match self {
            OptionalResult::Value(v) => OptionalResult::Value(v),
            OptionalResult::Error(e) => OptionalResult::Error(e),
            OptionalResult::Empty => OptionalResult::Empty,
        }
    }

    /// Applies `op` to the value, if there is one.
    pub fn map<U, F: Fn(T) -> U>(self, op: F) -> (r: OptionalResult<U, E>)
        requires
            self matches OptionalResult::Value(v) ==> op.requires((v,)),
        ensures
            self matches OptionalResult::Value(v) ==> r is Value && op.ensures((v,), r->Value_0),
            self matches OptionalResult::Error(e) ==> r == OptionalResult::<U, E>::Error(e),
            self is Empty ==> r is Empty,
    {
        match self {
            OptionalResult::Value(v) => OptionalResult::Value(op(v)),
            OptionalResult::Error(e) => OptionalResult::Error(e),
            OptionalResult::Empty => OptionalResult::Empty,
        }
    }

    /// The value, or `default` when there is none.
    pub fn unwrap_or(self, default: T) -> (r: T)
        ensures
            r == match self {
                OptionalResult::Value(v) => v,
                _ => default,
            },
    {
        match self {
            OptionalResult::Value(v) => v,
            OptionalResult::Error(_) => default,
            OptionalResult::Empty => default,
        }
    }

    /// `Some(v)` becomes a value and `None` becomes empty.
    pub fn from_option(value: Option<T>) -> (r: Self)
        ensures
            value matches Some(v) ==> r == OptionalResult::<T, E>::Value(v),
            value is None ==> r is Empty,
            r == optional_of_option::<T, E>(value),
    {
        match value {
            Some(v) => OptionalResult::Value(v),
            None => OptionalResult::Empty,
        }
    }

    /// `Ok(v)` becomes a value and `Err(e)` an error.
    pub fn from_result(value: Result<T, E>) -> (r: Self)
        ensures
            value matches Ok(v) ==> r == OptionalResult::<T, E>::Value(v),
            value matches Err(e) ==> r == OptionalResult::<T, E>::Error(e),
            r == optional_of_result(value),
    {
        match value {
            Ok(v) => OptionalResult::Value(v),
            Err(e) => OptionalResult::Error(e),
        }
    }

    /// A value becomes a value.
    pub fn from_value(value: T) -> (r: Self)
        ensures
            r == OptionalResult::<T, E>::Value(value),
    {
        OptionalResult::Value(value)
    }

    /// What `?` goes on with: the value, or else the whole (an error or nothing) to stop
    /// with.
    pub fn branch(self) -> (r: std::ops::ControlFlow<Self, T>)
        ensures
            self matches OptionalResult::Value(v) ==> r == std::ops::ControlFlow::<Self, T>::Continue(v),
            !(self is Value) ==> r == std::ops::ControlFlow::<Self, T>::Break(self),
    {
        match self {
            OptionalResult::Value(v) => std::ops::ControlFlow::Continue(v),
            other => std::ops::ControlFlow::Break(other),
        }
    }

    /// What a block that `?` goes through gives at its end: the value.
    pub fn from_output(output: T) -> (r: Self)
        ensures
            r == OptionalResult::<T, E>::Value(output),
    {
        OptionalResult::Value(output)
    }

    /// What `?` stops with is given back as it is.
    pub fn from_residual(residual: Self) -> (r: Self)
        ensures
            r == residual,
    {
        residual
    }
}

} // verus!
