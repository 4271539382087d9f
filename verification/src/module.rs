use vstd::prelude::*;
use vstd::std_specs::cmp::PartialEqSpecImpl;
use crate::ast::Spanned;
use crate::interpreter::InterpreterError;
use crate::text::{chars_of, push_str, string_of};

verus! {

/// Where an import comes from, as written after `from`:
/// `@dev//package:module`, `@dev//package`, `//package:module`, `//package`,
/// `:module`, `module`, `#module` (a module of `@nakati//std`), or `<name>` (a special
/// module such as `<builtins>`).
#[derive(Debug, Clone)]
pub struct ModuleLabel {
    pub developer: Option<String>,
    pub package: Option<String>,
    pub path: Option<String>,
    pub special: Option<String>,
}

/// A module label as texts.
pub struct LabelView {
    pub developer: Option<Seq<char>>,
    pub package: Option<Seq<char>>,
    pub path: Option<Seq<char>>,
    pub special: Option<Seq<char>>,
}

/// The text of an optional string.
pub open spec fn opt_text(o: Option<String>) -> Option<Seq<char>> {
    match o {
        Some(s) => Some(s@),
        None => None,
    }
}

impl View for ModuleLabel {
    type V = LabelView;

    open spec fn view(&self) -> LabelView {
        LabelView {
            developer: opt_text(self.developer),
            package: opt_text(self.package),
            path: opt_text(self.path),
            special: opt_text(self.special),
        }
    }
}

/// `s` begins with `p`.
pub open spec fn starts_with(s: Seq<char>, p: Seq<char>) -> bool {
    p.len() <= s.len() && s.take(p.len() as int) == p
}

/// How many characters of `s` come before the first place where `stop` begins (all of
/// them when it begins nowhere).
pub open spec fn run_until(s: Seq<char>, stop: Seq<char>) -> nat
    decreases s.len(),
{
    if s.len() == 0 || starts_with(s, stop) {
        0
    } else {
        1 + run_until(s.drop_first(), stop)
    }
}

/// The developer part of a label and what follows it: after a leading `@`, everything
/// up to the first `//`.
pub open spec fn split_developer(v: Seq<char>) -> (Seq<char>, Seq<char>) {
    if starts_with(v, seq!['@']) {
        let r = v.drop_first();
        let k = run_until(r, seq!['/', '/']) as int;
        (r.take(k), r.skip(k))
    } else {
        (Seq::empty(), v)
    }
}

/// The package part of a label and what follows it: after a leading `//`, everything
/// up to the first `:`.
pub open spec fn split_package(v: Seq<char>) -> (Seq<char>, Seq<char>) {
    if starts_with(v, seq!['/', '/']) {
        let r = v.skip(2);
        let k = run_until(r, seq![':']) as int;
        (r.take(k), r.skip(k))
    } else {
        (Seq::empty(), v)
    }
}

/// The module part of a label: the rest, without a leading `:`.
pub open spec fn split_module(v: Seq<char>) -> Seq<char> {
    if starts_with(v, seq![':']) {
        v.drop_first()
    } else {
        v
    }
}

/// What follows the last `/` of `p` (all of `p` when it has none).
pub open spec fn after_last_slash(p: Seq<char>) -> Seq<char>
    decreases p.len(),
{
    if p.len() == 0 {
        p
    } else if p.last() == '/' {
        Seq::empty()
    } else {
        after_last_slash(p.drop_last()).push(p.last())
    }
}

/// `None` for the empty text.
pub open spec fn non_empty(s: Seq<char>) -> Option<Seq<char>> {
    if s.len() == 0 {
        None
    } else {
        Some(s)
    }
}

/// The message of the error for a label with a developer and no package.
pub open spec fn missing_package_message() -> Seq<char> {
    "Package must be specified if developer is specified."@
}

/// The label that `v` reads as, or `None` when it names a developer and no package.
/// `#m` is module `m` of `@nakati//std`; `<s>` is the special module `s`; otherwise
/// the developer, package and module parts are read in turn, and a label with a
/// package but no module names the package's last `/`-separated segment as module.
pub open spec fn parse_label(v: Seq<char>) -> Option<LabelView> {
    if starts_with(v, seq!['#']) {
        Some(
            LabelView {
                developer: Some("nakati"@),
                package: Some("std"@),
                path: Some(v.drop_first()),
                special: None,
            },
        )
    } else if starts_with(v, seq!['<']) && v.last() == '>' {
        Some(
            LabelView {
                developer: None,
                package: None,
                path: None,
                special: Some(v.subrange(1, v.len() - 1)),
            },
        )
    } else {
        let d = split_developer(v).0;
        let p = split_package(split_developer(v).1).0;
        let m = split_module(split_package(split_developer(v).1).1);
        if d.len() > 0 && p.len() == 0 {
            None
        } else {
            Some(
                LabelView {
                    developer: non_empty(d),
                    package: non_empty(p),
                    path: if m.len() > 0 {
                        Some(m)
                    } else if p.len() > 0 {
                        Some(after_last_slash(p))
                    } else {
                        None
                    },
                    special: None,
                },
            )
        }
    }
}

/// Whether the characters of `cs` from `i` on begin with `p`.
fn starts_at(cs: &Vec<char>, i: usize, p: &str) -> (r: bool)
    requires
        i <= cs@.len(),
    ensures
        r == starts_with(cs@.skip(i as int), p@),
{
    let ps = chars_of(p);
    if ps.len() > cs.len() - i {
        return false;
    }
    let mut j: usize = 0;
    while j < ps.len()
        invariant
            j <= ps@.len(),
            ps@ == p@,
            i + ps@.len() <= cs.len(),
            forall|k: int| 0 <= k < j ==> cs@[i + k] == ps@[k],
        decreases ps@.len() - j,
    {
        assert(i + j < cs@.len());
        if cs[i + j] != ps[j] {
            assert(cs@.skip(i as int).take(p@.len() as int)[j as int] != p@[j as int]);
            return false;
        }
        j += 1;
    }
    assert(cs@.skip(i as int).take(p@.len() as int) =~= p@);
    true
}

/// Where, from `i` on, `stop` first begins in `cs` (its length when nowhere).
fn run_until_from(cs: &Vec<char>, i: usize, stop: &str) -> (k: usize)
    requires
        i <= cs@.len(),
    ensures
        i <= k <= cs@.len(),
        k == i + run_until(cs@.skip(i as int), stop@),
{
    let mut k = i;
    while k < cs.len() && !starts_at(cs, k, stop)
        invariant
            i <= k <= cs@.len(),
            run_until(cs@.skip(i as int), stop@) == (k - i) + run_until(cs@.skip(k as int), stop@),
        decreases cs@.len() - k,
    {
        assert(cs@.skip(k as int).drop_first() =~= cs@.skip(k + 1));
        k += 1;
    }
    k
}

/// `None` for the empty string.
fn empty_to_none(part: String) -> (r: Option<String>)
    ensures
        opt_text(r) == non_empty(part@),
{
    if part.as_str().unicode_len() == 0 {
        None
    } else {
        Some(part)
    }
}

/// What follows the last `/` of `p`.
fn last_segment(p: &str) -> (r: String)
    ensures
        r@ == after_last_slash(p@),
{
    let cs = chars_of(p);
    let mut j = cs.len();
    proof {
        lemma_after_last_slash_split(p@, j as int);
    }
    while j > 0 && cs[j - 1] != '/'
        invariant
            j <= cs@.len(),
            cs@ == p@,
            after_last_slash(p@) == after_last_slash(p@.take(j as int)) + p@.skip(j as int),
        decreases j,
    {
        proof {
            let t = p@.take(j as int);
            assert(t.drop_last() =~= p@.take(j - 1));
            assert(p@.skip(j - 1) =~= seq![t.last()] + p@.skip(j as int));
            assert(after_last_slash(t) == after_last_slash(p@.take(j - 1)).push(t.last()));
            assert(after_last_slash(p@.take(j - 1)).push(t.last()) + p@.skip(j as int)
                =~= after_last_slash(p@.take(j - 1)) + p@.skip(j - 1));
        }
        j -= 1;
    }
    proof {
        let t = p@.take(j as int);
        if j > 0 {
            assert(t.last() == '/');
        }
        assert(after_last_slash(t) =~= Seq::<char>::empty());
        assert(Seq::<char>::empty() + p@.skip(j as int) =~= p@.skip(j as int));
    }
    string_of(p.substring_char(j, cs.len()))
}

/// Splitting `p` anywhere leaves the last segment as it is, where nothing after the
/// split is a slash; at the end this is trivial.
proof fn lemma_after_last_slash_split(p: Seq<char>, j: int)
    requires
        j == p.len(),
    ensures
        after_last_slash(p) == after_last_slash(p.take(j)) + p.skip(j),
{
    assert(p.take(j) =~= p);
    assert(p.skip(j) =~= Seq::<char>::empty());
    assert(after_last_slash(p) + Seq::<char>::empty() =~= after_last_slash(p));
}

impl ModuleLabel {
    /// Reads a label (see `parse_label`). A label with a developer but no package is an
    /// `InvalidImport` error at the label's span.
    pub fn parse(label: Spanned<String>) -> (r: Result<ModuleLabel, InterpreterError>)
        ensures
            match parse_label(label.value@) {
                Some(l) => r matches Ok(m) && m@ == l,
                None => r matches Err(InterpreterError::InvalidImport(message, span))
                    && message@ == missing_package_message() && span == label.span,
            },
    {
        let value = label.value.as_str();
        let cs = chars_of(value);
        let n = cs.len();
        proof {
            reveal_strlit("#");
            reveal_strlit("<");
            reveal_strlit("nakati");
            reveal_strlit("std");
            assert("#"@ =~= seq!['#']);
            assert("<"@ =~= seq!['<']);
            assert(cs@.skip(0) =~= cs@);
        }
        if starts_at(&cs, 0, "#") {
            return Ok(
                ModuleLabel {
                    developer: Some(string_of("nakati")),
                    package: Some(string_of("std")),
                    path: Some(string_of(value.substring_char(1, n))),
                    special: None,
                },
            );
        }
        if starts_at(&cs, 0, "<") && cs[n - 1] == '>' {
            return Ok(
                ModuleLabel {
                    developer: None,
                    package: None,
                    path: None,
                    special: Some(string_of(value.substring_char(1, n - 1))),
                },
            );
        }
        let (developer, rest) = Self::parse_developer(value);
        let (package, rest) = Self::parse_package(rest);
        let (module, rest) = Self::parse_module(rest);
        let mut module = empty_to_none(module);
        if developer.as_str().unicode_len() != 0 && package.as_str().unicode_len() == 0 {
            proof {
                reveal_strlit("Package must be specified if developer is specified.");
            }
            return Err(
                InterpreterError::InvalidImport(
                    string_of("Package must be specified if developer is specified."),
                    label.span,
                ),
            );
        }
        if module.is_none() && package.as_str().unicode_len() != 0 {
            module = Some(last_segment(package.as_str()));
        }
        Ok(
            ModuleLabel {
                developer: empty_to_none(developer),
                package: empty_to_none(package),
                path: module,
                special: None,
            },
        )
    }

    /// The developer part and the rest (see `split_developer`).
    fn parse_developer(label: &str) -> (r: (String, &str))
        ensures
            (r.0@, r.1@) == split_developer(label@),
    {
        let cs = chars_of(label);
        proof {
            reveal_strlit("@");
            reveal_strlit("//");
            assert("@"@ =~= seq!['@']);
            assert("//"@ =~= seq!['/', '/']);
            assert(cs@.skip(0) =~= cs@);
        }
        if !starts_at(&cs, 0, "@") {
            return (String::new(), label);
        }
        let k = run_until_from(&cs, 1, "//");
        proof {
            let r = label@.drop_first();
            assert(cs@.skip(1) =~= r);
            assert(r.take(k - 1) =~= label@.subrange(1, k as int));
            assert(r.skip(k - 1) =~= label@.subrange(k as int, label@.len() as int));
        }
        (string_of(label.substring_char(1, k)), label.substring_char(k, cs.len()))
    }

    /// The package part and the rest (see `split_package`).
    fn parse_package(label: &str) -> (r: (String, &str))
        ensures
            (r.0@, r.1@) == split_package(label@),
    {
        let cs = chars_of(label);
        proof {
            reveal_strlit(":");
            reveal_strlit("//");
            assert(":"@ =~= seq![':']);
            assert("//"@ =~= seq!['/', '/']);
            assert(cs@.skip(0) =~= cs@);
        }
        if !starts_at(&cs, 0, "//") {
            return (String::new(), label);
        }
        let k = run_until_from(&cs, 2, ":");
        proof {
            let r = label@.skip(2);
            assert(cs@.skip(2) =~= r);
            assert(r.take(k - 2) =~= label@.subrange(2, k as int));
            assert(r.skip(k - 2) =~= label@.subrange(k as int, label@.len() as int));
        }
        (string_of(label.substring_char(2, k)), label.substring_char(k, cs.len()))
    }

    /// The module part, and the empty rest (see `split_module`).
    fn parse_module(label: &str) -> (r: (String, &str))
        ensures
            r.0@ == split_module(label@),
            r.1@ == Seq::<char>::empty(),
    {
        let cs = chars_of(label);
        proof {
            reveal_strlit(":");
            assert(":"@ =~= seq![':']);
            assert(cs@.skip(0) =~= cs@);
        }
        let from: usize = if starts_at(&cs, 0, ":") {
            1
        } else {
            0
        };
        proof {
            assert(label@.drop_first() =~= label@.subrange(1, label@.len() as int));
            assert(label@ =~= label@.subrange(0, label@.len() as int));
        }
        (string_of(label.substring_char(from, cs.len())), label.substring_char(cs.len(), cs.len()))
    }
}

/// The label `l` with what it leaves open taken from `context`: the developer and
/// package from `context` where `l` has none, the path `/` where `l` has none, and
/// `l`'s special name.
pub open spec fn filled(l: LabelView, context: LabelView) -> LabelView {
    LabelView {
        developer: if l.developer is Some {
            l.developer
        } else {
            context.developer
        },
        package: if l.package is Some {
            l.package
        } else {
            context.package
        },
        path: if l.path is Some {
            l.path
        } else {
            Some(seq!['/'])
        },
        special: l.special,
    }
}

/// Whether `context` supplies what `l` leaves open for filling: a developer and a package.
pub open spec fn can_fill(l: LabelView, context: LabelView) -> bool {
    &&& (l.developer is Some || context.developer is Some)
    &&& (l.package is Some || context.package is Some)
}

/// The absolute name of the module `l` names, read from `context`: `<special>` for a
/// special module, `@developer//package:path` of the filled label otherwise.
pub open spec fn absolute_text(l: LabelView, context: LabelView) -> Seq<char> {
    if l.special is Some {
        seq!['<'] + l.special.unwrap() + seq!['>']
    } else {
        let f = filled(l, context);
        seq!['@'] + f.developer.unwrap() + seq!['/', '/'] + f.package.unwrap() + seq![':']
            + f.path.unwrap()
    }
}

/// A copy of an optional string.
fn copy_text(o: &Option<String>) -> (r: Option<String>)
    ensures
        opt_text(r) == opt_text(*o),
{
    match o {
        Some(s) => Some(string_of(s.as_str())),
        None => None,
    }
}

/// Whether two optional strings are alike.
fn same_opt_text(a: &Option<String>, b: &Option<String>) -> (r: bool)
    ensures
        r == (opt_text(*a) == opt_text(*b)),
{
    match (a, b) {
        (Some(x), Some(y)) => crate::text::same_text(x.as_str(), y.as_str()),
        (None, None) => true,
        _ => false,
    }
}

impl ModuleLabel {
    /// The label with what it leaves open taken from `context` (see `filled`).
    pub fn fill_from(&self, context: ModuleLabel) -> (r: ModuleLabel)
        requires
            can_fill(self@, context@),
        ensures
            r@ == filled(self@, context@),
    {
        let developer = match &self.developer {
            Some(d) => string_of(d.as_str()),
            None => match context.developer {
                Some(d) => d,
                None => {
                    proof {
                        assert(false);
                    }
                    String::new()
                },
            },
        };
        let package = match &self.package {
            Some(p) => string_of(p.as_str()),
            None => match context.package {
                Some(p) => p,
                None => {
                    proof {
                        assert(false);
                    }
                    String::new()
                },
            },
        };
        let path = match &self.path {
            Some(p) => string_of(p.as_str()),
            None => string_of("/"),
        };
        proof {
            reveal_strlit("/");
            assert("/"@ =~= seq!['/']);
        }
        ModuleLabel {
            developer: Some(developer),
            package: Some(package),
            path: Some(path),
            special: copy_text(&self.special),
        }
    }

    /// The label of the special module `special`.
    pub fn from_special(special: &str) -> (r: ModuleLabel)
        ensures
            r@ == (LabelView { developer: None, package: None, path: None, special: Some(special@) }),
    {
        ModuleLabel { developer: None, package: None, path: None, special: Some(string_of(special)) }
    }

    /// The absolute name of the module, read from `context` (see `absolute_text`).
    pub fn absolute(&self, context: ModuleLabel) -> (r: String)
        requires
            self.special is Some || can_fill(self@, context@),
        ensures
            r@ == absolute_text(self@, context@),
    {
        proof {
            reveal_strlit("<");
            reveal_strlit(">");
            reveal_strlit("@");
            reveal_strlit("//");
            reveal_strlit(":");
            assert("<"@ =~= seq!['<']);
            assert(">"@ =~= seq!['>']);
            assert("@"@ =~= seq!['@']);
            assert("//"@ =~= seq!['/', '/']);
            assert(":"@ =~= seq![':']);
        }
        if let Some(special) = &self.special {
            let mut out = string_of("<");
            push_str(&mut out, special.as_str());
            push_str(&mut out, ">");
            return out;
        }
        let filled = self.fill_from(context);
        let mut out = string_of("@");
        match (&filled.developer, &filled.package, &filled.path) {
            (Some(d), Some(p), Some(m)) => {
                push_str(&mut out, d.as_str());
                push_str(&mut out, "//");
                push_str(&mut out, p.as_str());
                push_str(&mut out, ":");
                push_str(&mut out, m.as_str());
                proof {
                    assert(out@ =~= absolute_text(self@, context@));
                }
            },
            _ => {
                proof {
                    assert(false);
                }
            },
        }
        out
    }

    /// An equal copy.
    pub fn copy(&self) -> (r: ModuleLabel)
        ensures
            r@ == self@,
    {
        ModuleLabel {
            developer: copy_text(&self.developer),
            package: copy_text(&self.package),
            path: copy_text(&self.path),
            special: copy_text(&self.special),
        }
    }
}

impl PartialEq for ModuleLabel {
    fn eq(&self, other: &Self) -> (r: bool) {
        same_opt_text(&self.developer, &other.developer) && same_opt_text(&self.package, &other.package)
            && same_opt_text(&self.path, &other.path) && same_opt_text(&self.special, &other.special)
    }
}

impl PartialEqSpecImpl for ModuleLabel {
    open spec fn obeys_eq_spec() -> bool {
        true
    }

    open spec fn eq_spec(&self, other: &Self) -> bool {
        self@ == other@
    }
}

/// Completing a label from a context and then naming it absolutely, from any context,
/// gives the same name as naming the label absolutely from that first context.
pub proof fn law_absolute_of_filled(l: LabelView, context: LabelView, other: LabelView)
    requires
        can_fill(l, context),
        l.special is None,
    ensures
        absolute_text(filled(l, context), other) == absolute_text(l, context),
{
}


/// Where no character of `a` is the first of `stop`, and `b` begins with `stop`, the
/// run up to `stop` in `a + b` is all of `a`.
proof fn lemma_run_until_prefix(a: Seq<char>, b: Seq<char>, stop: Seq<char>)
    requires
        stop.len() > 0,
        starts_with(b, stop),
        !a.contains(stop[0]),
    ensures
        run_until(a + b, stop) == a.len(),
    decreases a.len(),
{
    if a.len() == 0 {
        assert(a + b =~= b);
    } else {
        assert(a[0] != stop[0]);
        assert((a + b)[0] == a[0]);
        assert(!starts_with(a + b, stop)) by {
            if starts_with(a + b, stop) {
                assert((a + b).take(stop.len() as int)[0] == stop[0]);
            }
        }
        assert((a + b).drop_first() =~= a.drop_first() + b);
        assert forall|i: int| 0 <= i < a.drop_first().len() implies a.drop_first()[i] != stop[0] by {
            assert(a.drop_first()[i] == a[i + 1]);
        }
        lemma_run_until_prefix(a.drop_first(), b, stop);
    }
}

/// A label written out in full, `@developer//package:module`, reads back as itself when
/// named absolutely, from any context: where the developer holds no `/`, the package no
/// `:`, and no part is empty.
pub proof fn law_absolute_of_parsed_full(d: Seq<char>, p: Seq<char>, m: Seq<char>, context: LabelView)
    requires
        d.len() > 0,
        p.len() > 0,
        m.len() > 0,
        !d.contains('/'),
        !p.contains(':'),
    ensures
        parse_label(seq!['@'] + d + seq!['/', '/'] + p + seq![':'] + m) is Some,
        absolute_text(
            parse_label(seq!['@'] + d + seq!['/', '/'] + p + seq![':'] + m).unwrap(),
            context,
        ) == seq!['@'] + d + seq!['/', '/'] + p + seq![':'] + m,
{
    let s = seq!['@'] + d + seq!['/', '/'] + p + seq![':'] + m;
    let rest = seq!['/', '/'] + p + seq![':'] + m;
    assert(s[0] == '@');
    assert(s.take(1) =~= seq!['@']);
    assert(!starts_with(s, seq!['#'])) by {
        assert(s.take(1)[0] == '@');
    }
    assert(!starts_with(s, seq!['<'])) by {
        assert(s.take(1)[0] == '@');
    }
    assert(s.drop_first() =~= d + rest);
    assert(rest.take(2) =~= seq!['/', '/']);
    lemma_run_until_prefix(d, rest, seq!['/', '/']);
    assert((d + rest).take(d.len() as int) =~= d);
    assert((d + rest).skip(d.len() as int) =~= rest);
    assert(split_developer(s) == (d, rest));
    let tail = seq![':'] + m;
    assert(rest.skip(2) =~= p + tail);
    assert(tail.take(1) =~= seq![':']);
    lemma_run_until_prefix(p, tail, seq![':']);
    assert((p + tail).take(p.len() as int) =~= p);
    assert((p + tail).skip(p.len() as int) =~= tail);
    assert(split_package(rest) == (p, tail));
    assert(tail.drop_first() =~= m);
    assert(split_module(tail) == m);
}

/// A special label, `<name>`, reads back as itself when named absolutely, from any
/// context.
pub proof fn law_absolute_of_parsed_special(x: Seq<char>, context: LabelView)
    ensures
        parse_label(seq!['<'] + x + seq!['>']) is Some,
        absolute_text(parse_label(seq!['<'] + x + seq!['>']).unwrap(), context) == seq!['<']
            + x + seq!['>'],
{
    let s = seq!['<'] + x + seq!['>'];
    assert(s.take(1) =~= seq!['<']);
    assert(!starts_with(s, seq!['#'])) by {
        assert(s.take(1)[0] == '<');
    }
    assert(s.last() == '>');
    assert(s.subrange(1, s.len() - 1) =~= x);
}


/// Filling a label keeps every part it has and takes from the context only the parts it
/// lacks: the developer and the package come from the context only where the label has
/// none, a missing path becomes `/`, and the special name stays.
pub proof fn law_fill_keeps_own_parts(l: LabelView, context: LabelView)
    ensures
        l.developer is Some ==> filled(l, context).developer == l.developer,
        l.developer is None ==> filled(l, context).developer == context.developer,
        l.package is Some ==> filled(l, context).package == l.package,
        l.package is None ==> filled(l, context).package == context.package,
        l.path is Some ==> filled(l, context).path == l.path,
        l.path is None ==> filled(l, context).path == Some(seq!['/']),
        filled(l, context).special == l.special,
{
}

/// The absolute name of a label that is not special, read from a context, is
/// `@developer//package:path` with the label's own developer, package and path wherever
/// it has them, the context's developer and package where it has none, and the path `/`
/// where it has none.
pub proof fn law_absolute_takes_own_parts_first(l: LabelView, context: LabelView)
    requires
        l.special is None,
    ensures
        absolute_text(l, context) == seq!['@'] + (if l.developer is Some {
            l.developer.unwrap()
        } else {
            context.developer.unwrap()
        }) + seq!['/', '/'] + (if l.package is Some {
            l.package.unwrap()
        } else {
            context.package.unwrap()
        }) + seq![':'] + (if l.path is Some {
            l.path.unwrap()
        } else {
            seq!['/']
        }),
{
}

} // verus!
