use vstd::prelude::*;
use std::rc::Rc;
use crate::ast::{same_tree, tree_eq, Ast, AstNode, SString, Spanned};
use crate::module::{absolute_text, can_fill, missing_package_message, parse_label, LabelView, ModuleLabel};
use crate::text::{decimal, u128_text};
use crate::common::Span;
use crate::parser::ParseError;
use crate::text::{debug_text, push_str, spec_debug_text, string_of};

verus! {

/// Why running a program stopped.
#[derive(Debug)]
pub enum InterpreterError {
    TypeError(String, Span),
    UndefinedVariable(String, Span),
    ArgumentError(String, Span),
    PatternError(String, Span, Span),
    MutabilityError(String),
    SyntaxError(ParseError),
    InvalidImport(String, Span),
}

/// A function built into the language.
#[derive(Clone, Copy, Debug, PartialEq, Eq, Structural)]
pub enum Native {
    /// Writes its arguments as a line of output.
    Print,
}

/// What a function runs: a node of a program (the program, and the child positions
/// that lead from its root to the node), or a function built into the language.
#[derive(Debug)]
pub enum FunctionBody {
    Ast(Rc<AstNode>, Vec<usize>),
    Native(Native),
}

/// A function value: its name, parameters, body, where it was defined, and the scope
/// it was defined in (an index into the world's scopes).
#[derive(Debug)]
pub struct Function {
    pub name: String,
    pub args: Vec<(String, ())>,
    pub return_type: (),
    pub body: FunctionBody,
    pub span: Span,
    pub scope: usize,
    pub variadic: bool,
}

/// An imported module: its absolute name and its scope.
#[derive(Debug)]
pub struct Module {
    pub name: String,
    pub scope: usize,
}

/// A value of a running program.
#[derive(Debug)]
pub enum Value {
    Integer(i128),
    String(String),
    Boolean(bool),
    Function(Function),
    Module(Module),
    Nothing,
}

/// A function body, with the path to its node as a sequence.
pub enum BodyView {
    Ast(Rc<AstNode>, Seq<usize>),
    Native(Native),
}

/// A function, with texts as sequences.
pub struct FunctionView {
    pub name: Seq<char>,
    pub params: Seq<Seq<char>>,
    pub body: BodyView,
    pub span: Span,
    pub scope: nat,
    pub variadic: bool,
}

/// A value, with texts as sequences.
pub enum ValueView {
    Integer(i128),
    String(Seq<char>),
    Boolean(bool),
    Function(FunctionView),
    Module(Seq<char>, nat),
    Nothing,
}

/// The parameter names.
pub open spec fn params_view(args: Seq<(String, ())>) -> Seq<Seq<char>> {
    args.map_values(|a: (String, ())| a.0@)
}

impl View for FunctionBody {
    type V = BodyView;

    open spec fn view(&self) -> BodyView {
        match self {
            FunctionBody::Ast(root, path) => BodyView::Ast(*root, path@),
            FunctionBody::Native(n) => BodyView::Native(*n),
        }
    }
}

impl View for Function {
    type V = FunctionView;

    open spec fn view(&self) -> FunctionView {
        FunctionView {
            name: self.name@,
            params: params_view(self.args@),
            body: self.body@,
            span: self.span,
            scope: self.scope as nat,
            variadic: self.variadic,
        }
    }
}

impl View for Value {
    type V = ValueView;

    open spec fn view(&self) -> ValueView {
        match self {
            Value::Integer(i) => ValueView::Integer(*i),
            Value::String(s) => ValueView::String(s@),
            Value::Boolean(b) => ValueView::Boolean(*b),
            Value::Function(f) => ValueView::Function(f@),
            Value::Module(m) => ValueView::Module(m.name@, m.scope as nat),
            Value::Nothing => ValueView::Nothing,
        }
    }
}

impl Value {
    /// An equal value.
    pub fn copy(&self) -> (r: Value)
        ensures
            r@ == self@,
    {
        match self {
            Value::Integer(i) => Value::Integer(*i),
            Value::String(s) => Value::String(s.clone()),
            Value::Boolean(b) => Value::Boolean(*b),
            Value::Function(f) => Value::Function(f.copy()),
            Value::Module(m) => Value::Module(Module { name: m.name.clone(), scope: m.scope }),
            Value::Nothing => Value::Nothing,
        }
    }
}

impl Function {
    /// An equal function.
    pub fn copy(&self) -> (r: Function)
        ensures
            r@ == self@,
    {
        let mut args: Vec<(String, ())> = Vec::new();
        let mut i: usize = 0;
        while i < self.args.len()
            invariant
                i <= self.args@.len(),
                params_view(args@) == params_view(self.args@.take(i as int)),
            decreases self.args@.len() - i,
        {
            let ghost before = args@;
            args.push((self.args[i].0.clone(), ()));
            proof {
                assert(params_view(args@) =~= params_view(before).push(self.args@[i as int].0@));
                assert(self.args@.take(i + 1) =~= self.args@.take(i as int).push(self.args@[i as int]));
                assert(params_view(args@) =~= params_view(self.args@.take(i + 1)));
            }
            i += 1;
        }
        proof {
            assert(self.args@.take(self.args@.len() as int) =~= self.args@);
        }
        let body = match &self.body {
            FunctionBody::Ast(root, path) => FunctionBody::Ast(Rc::clone(root), path.clone()),
            FunctionBody::Native(n) => FunctionBody::Native(*n),
        };
        Function {
            name: self.name.clone(),
            args,
            return_type: (),
            body,
            span: self.span.copy(),
            scope: self.scope,
            variadic: self.variadic,
        }
    }
}

/// A scope of variables: the scope it sits in (an index into the world's scopes), its
/// variables, and whether it is frozen.
#[derive(Debug)]
pub struct Scope {
    pub parent: Option<usize>,
    pub pairs: Vec<(String, Value)>,
    pub frozen: bool,
}

/// A scope, with its variables as names and value views.
pub struct ScopeView {
    pub parent: Option<nat>,
    pub pairs: Seq<(Seq<char>, ValueView)>,
    pub frozen: bool,
}

/// The variables of a scope, as names and value views.
pub open spec fn pairs_view(pairs: Seq<(String, Value)>) -> Seq<(Seq<char>, ValueView)> {
    pairs.map_values(|p: (String, Value)| (p.0@, p.1@))
}

impl View for Scope {
    type V = ScopeView;

    open spec fn view(&self) -> ScopeView {
        ScopeView {
            parent: match self.parent {
                Some(p) => Some(p as nat),
                None => None,
            },
            pairs: pairs_view(self.pairs@),
            frozen: self.frozen,
        }
    }
}

/// The value of the first variable named `key`, if there is one.
pub open spec fn lookup(pairs: Seq<(Seq<char>, ValueView)>, key: Seq<char>) -> Option<ValueView>
    decreases pairs.len(),
{
    if pairs.len() == 0 {
        None
    } else if pairs[0].0 == key {
        Some(pairs[0].1)
    } else {
        lookup(pairs.drop_first(), key)
    }
}

/// The variables with `key` set to `value`: the first variable named `key` takes the
/// value, or a new one is added at the end.
pub open spec fn assign(pairs: Seq<(Seq<char>, ValueView)>, key: Seq<char>, value: ValueView) -> Seq<(Seq<char>, ValueView)>
    decreases pairs.len(),
{
    if pairs.len() == 0 {
        seq![(key, value)]
    } else if pairs[0].0 == key {
        pairs.update(0, (key, value))
    } else {
        seq![pairs[0]] + assign(pairs.drop_first(), key, value)
    }
}

/// The scopes of a running program and what it has written so far.
pub struct World {
    pub scopes: Vec<Scope>,
    pub pool: Vec<(String, usize)>,
    pub output: Vec<String>,
}

/// The world, with its scopes viewed.
pub struct WorldView {
    pub scopes: Seq<ScopeView>,
    pub pool: Seq<(Seq<char>, nat)>,
    pub output: Seq<Seq<char>>,
}

impl View for World {
    type V = WorldView;

    open spec fn view(&self) -> WorldView {
        WorldView {
            scopes: self.scopes@.map_values(|s: Scope| s@),
            pool: self.pool@.map_values(|p: (String, usize)| (p.0@, p.1 as nat)),
            output: self.output@.map_values(|s: String| s@),
        }
    }
}

/// Every scope sits in an earlier one.
pub open spec fn world_wf(w: WorldView) -> bool {
    forall|i: int|
        0 <= i < w.scopes.len() ==> ((#[trigger] w.scopes[i]).parent matches Some(p) ==> p < i)
}

/// The value of `key` seen from scope `id`: in the scope itself, or else in the scope it
/// sits in, and so on outwards.
pub open spec fn get_spec(w: WorldView, id: nat, key: Seq<char>) -> Option<ValueView>
    decreases id,
{
    if id >= w.scopes.len() {
        None
    } else {
        match lookup(w.scopes[id as int].pairs, key) {
            Some(v) => Some(v),
            None => match w.scopes[id as int].parent {
                Some(p) => if p < id {
                    get_spec(w, p, key)
                } else {
                    None
                },
                None => None,
            },
        }
    }
}

/// The scope that `update` changes for `key` seen from scope `id`: the first scope
/// outwards that holds `key`, provided no scope up to it is frozen.
pub open spec fn update_target(w: WorldView, id: nat, key: Seq<char>) -> Option<nat>
    decreases id,
{
    if id >= w.scopes.len() || w.scopes[id as int].frozen {
        None
    } else if lookup(w.scopes[id as int].pairs, key) is Some {
        Some(id)
    } else {
        match w.scopes[id as int].parent {
            Some(p) => if p < id {
                update_target(w, p, key)
            } else {
                None
            },
            None => None,
        }
    }
}

/// The world with `key` set to `value` in scope `id`.
pub open spec fn set_in(w: WorldView, id: nat, key: Seq<char>, value: ValueView) -> WorldView {
    WorldView {
        scopes: w.scopes.update(
            id as int,
            ScopeView { pairs: assign(w.scopes[id as int].pairs, key, value), ..w.scopes[id as int] },
        ),
        ..w
    }
}

/// The message of the error for defining in a frozen scope.
pub open spec fn frozen_define_message(key: Seq<char>) -> Seq<char> {
    "Cannot define variable "@ + spec_debug_text(key) + " in frozen scope"@
}

/// The message of the error for an update that finds no scope to change.
pub open spec fn frozen_update_message(key: Seq<char>) -> Seq<char> {
    "Cannot mutate frozen variable "@ + spec_debug_text(key)
}

/// `e` is a mutability error with message `m`.
pub open spec fn mutability_error(e: InterpreterError, m: Seq<char>) -> bool {
    e matches InterpreterError::MutabilityError(s) && s@ == m
}

/// `lookup` finds what `assign` set, and leaves other names alone.
pub proof fn lemma_lookup_assign(pairs: Seq<(Seq<char>, ValueView)>, key: Seq<char>, value: ValueView, other: Seq<char>)
    ensures
        lookup(assign(pairs, key, value), key) == Some(value),
        other != key ==> lookup(assign(pairs, key, value), other) == lookup(pairs, other),
    decreases pairs.len(),
{
    if pairs.len() == 0 {
        let a = seq![(key, value)];
        assert(a.drop_first() =~= Seq::<(Seq<char>, ValueView)>::empty());
        assert(a[0] == (key, value));
        if other != key {
            assert(lookup(a, other) == lookup(a.drop_first(), other));
        }
    } else if pairs[0].0 == key {
        let a = pairs.update(0, (key, value));
        assert(a.drop_first() =~= pairs.drop_first());
        assert(a[0] == (key, value));
        if other != key {
            assert(lookup(a, other) == lookup(a.drop_first(), other));
            assert(lookup(pairs, other) == lookup(pairs.drop_first(), other));
        }
    } else {
        lemma_lookup_assign(pairs.drop_first(), key, value, other);
        let a = seq![pairs[0]] + assign(pairs.drop_first(), key, value);
        assert(a.drop_first() =~= assign(pairs.drop_first(), key, value));
        assert(a[0] == pairs[0]);
        assert(a.len() > 0);
    }
}

impl World {
    /// No scopes, nothing imported, nothing written.
    pub fn new() -> (r: World)
        ensures
            r@.scopes.len() == 0,
            r@.pool.len() == 0,
            r@.output.len() == 0,
    {
        let r = World { scopes: Vec::new(), pool: Vec::new(), output: Vec::new() };
        proof {
            assert(r@.scopes =~= Seq::<ScopeView>::empty());
        }
        r
    }

    /// A new empty scope in `parent` (an earlier scope), as the last scope; its index.
    pub fn new_scope(&mut self, parent: Option<usize>) -> (r: usize)
        ensures
            r == old(self)@.scopes.len(),
            final(self)@ == (WorldView {
                scopes: old(self)@.scopes.push(
                    ScopeView {
                        parent: match parent {
                            Some(p) => Some(p as nat),
                            None => None,
                        },
                        pairs: Seq::empty(),
                        frozen: false,
                    },
                ),
                ..old(self)@
            }),
    {
        let r = self.scopes.len();
        self.scopes.push(Scope { parent, pairs: Vec::new(), frozen: false });
        proof {
            assert(pairs_view(Seq::<(String, Value)>::empty()) =~= Seq::<(Seq<char>, ValueView)>::empty());
            assert(self@.scopes =~= old(self)@.scopes.push(
                ScopeView {
                    parent: match parent {
                        Some(p) => Some(p as nat),
                        None => None,
                    },
                    pairs: Seq::empty(),
                    frozen: false,
                },
            ));
        }
        r
    }

    /// A copy of the value of the first variable named `key` in `pairs`.
    fn lookup_in(pairs: &Vec<(String, Value)>, key: &str) -> (r: Option<Value>)
        ensures
            match r {
                Some(v) => lookup(pairs_view(pairs@), key@) == Some(v@),
                None => lookup(pairs_view(pairs@), key@) is None,
            },
    {
        let mut i: usize = 0;
        proof {
            assert(pairs_view(pairs@).skip(0) =~= pairs_view(pairs@));
        }
        while i < pairs.len()
            invariant
                i <= pairs@.len(),
                lookup(pairs_view(pairs@), key@) == lookup(pairs_view(pairs@).skip(i as int), key@),
            decreases pairs@.len() - i,
        {
            proof {
                assert(pairs_view(pairs@).skip(i as int).drop_first() =~= pairs_view(pairs@).skip(
                    i + 1,
                ));
                assert(pairs_view(pairs@).skip(i as int)[0] == (pairs@[i as int].0@, pairs@[i as int].1@));
            }
            if crate::text::same_text(pairs[i].0.as_str(), key) {
                return Some(pairs[i].1.copy());
            }
            i += 1;
        }
        None
    }

    /// The value of `key` seen from scope `id` (see `get_spec`).
    pub fn get(&self, id: usize, key: &str) -> (r: Option<Value>)
        ensures
            match r {
                Some(v) => get_spec(self@, id as nat, key@) == Some(v@),
                None => get_spec(self@, id as nat, key@) is None,
            },
    {
        let mut at = id;
        loop
            invariant
                get_spec(self@, id as nat, key@) == get_spec(self@, at as nat, key@),
            decreases at,
        {
            if at >= self.scopes.len() {
                return None;
            }
            proof {
                assert(self@.scopes[at as int] == self.scopes@[at as int]@);
            }
            match Self::lookup_in(&self.scopes[at].pairs, key) {
                Some(v) => return Some(v),
                None => {},
            }
            match self.scopes[at].parent {
                Some(p) => {
                    if p >= at {
                        return None;
                    }
                    at = p;
                },
                None => return None,
            }
        }
    }

    /// Whether `key` is seen from scope `id`.
    pub fn has(&self, id: usize, key: &str) -> (r: bool)
        ensures
            r == get_spec(self@, id as nat, key@) is Some,
    {
        self.get(id, key).is_some()
    }

    /// Sets `key` to `value` in `pairs` (see `assign`).
    fn assign_in(pairs: &mut Vec<(String, Value)>, key: &str, value: Value)
        ensures
            pairs_view(final(pairs)@) == assign(pairs_view(old(pairs)@), key@, value@),
    {
        let ghost start = pairs_view(pairs@);
        let mut i: usize = 0;
        while i < pairs.len()
            invariant
                i <= pairs@.len(),
                pairs@ == old(pairs)@,
                start == pairs_view(pairs@),
                forall|j: int| 0 <= j < i ==> pairs@[j].0@ != key@,
            decreases pairs@.len() - i,
        {
            if crate::text::same_text(pairs[i].0.as_str(), key) {
                let name = string_of(key);
                pairs.set(i, (name, value));
                proof {
                    lemma_assign_at(start, key@, value@, i as int);
                    assert(pairs_view(pairs@) =~= start.update(i as int, (key@, value@)));
                }
                return;
            }
            i += 1;
        }
        pairs.push((string_of(key), value));
        proof {
            lemma_assign_end(start, key@, value@);
            assert(pairs_view(pairs@) =~= start.push((key@, value@)));
        }
    }

    /// Defines `key` as `value` in scope `id`; an error, changing nothing, where the
    /// scope is frozen.
    pub fn define(&mut self, id: usize, key: &str, value: Value) -> (r: Result<(), InterpreterError>)
        requires
            id < old(self)@.scopes.len(),
        ensures
            old(self)@.scopes[id as int].frozen ==> (r matches Err(e) && mutability_error(
                e,
                frozen_define_message(key@),
            ) && final(self)@ == old(self)@),
            !old(self)@.scopes[id as int].frozen ==> (r is Ok && final(self)@ == set_in(
                old(self)@,
                id as nat,
                key@,
                value@,
            )),
    {
        if self.scopes[id].frozen {
            proof {
                assert(old(self)@.scopes[id as int] == self.scopes@[id as int]@);
            }
            return Err(InterpreterError::MutabilityError(Self::frozen_define(key)));
        }
        let mut scope = self.scopes.remove(id);
        Self::assign_in(&mut scope.pairs, key, value);
        self.scopes.insert(id, scope);
        proof {
            assert(self@.scopes =~= set_in(old(self)@, id as nat, key@, value@).scopes);
        }
        Ok(())
    }

    /// `Cannot define variable "key" in frozen scope`.
    fn frozen_define(key: &str) -> (r: String)
        ensures
            r@ == frozen_define_message(key@),
    {
        let mut m = string_of("Cannot define variable ");
        let k = debug_text(key);
        push_str(&mut m, k.as_str());
        push_str(&mut m, " in frozen scope");
        m
    }

    /// Sets `key` to `value` in the first scope outwards from `id` that holds it, where
    /// no scope up to it is frozen (see `update_target`); otherwise an error, changing
    /// nothing.
    pub fn update(&mut self, id: usize, key: &str, value: Value) -> (r: Result<(), InterpreterError>)
        ensures
            match update_target(old(self)@, id as nat, key@) {
                Some(t) => r is Ok && final(self)@ == set_in(old(self)@, t, key@, value@),
                None => r matches Err(e) && mutability_error(e, frozen_update_message(key@))
                    && final(self)@ == old(self)@,
            },
    {
        let mut at = id;
        loop
            invariant
                *self == *old(self),
                update_target(self@, id as nat, key@) == update_target(self@, at as nat, key@),
            ensures
                *self == *old(self),
                update_target(self@, id as nat, key@) is None,
            decreases at,
        {
            if at >= self.scopes.len() || self.scopes[at].frozen {
                proof {
                    if at < self.scopes@.len() {
                        assert(self@.scopes[at as int] == self.scopes@[at as int]@);
                    }
                }
                break;
            }
            proof {
                assert(self@.scopes[at as int] == self.scopes@[at as int]@);
            }
            if Self::lookup_in(&self.scopes[at].pairs, key).is_some() {
                return self.define(at, key, value);
            }
            match self.scopes[at].parent {
                Some(p) => {
                    if p >= at {
                        break;
                    }
                    at = p;
                },
                None => break,
            }
        }
        let mut m = string_of("Cannot mutate frozen variable ");
        let k = debug_text(key);
        push_str(&mut m, k.as_str());
        Err(InterpreterError::MutabilityError(m))
    }

    /// Freezes scope `id`: nothing more can be defined or updated in it.
    pub fn freeze(&mut self, id: usize)
        requires
            id < old(self)@.scopes.len(),
        ensures
            final(self)@ == (WorldView {
                scopes: old(self)@.scopes.update(
                    id as int,
                    ScopeView { frozen: true, ..old(self)@.scopes[id as int] },
                ),
                ..old(self)@
            }),
    {
        let mut scope = self.scopes.remove(id);
        scope.frozen = true;
        self.scopes.insert(id, scope);
        proof {
            assert(self@.scopes =~= old(self)@.scopes.update(
                id as int,
                ScopeView { frozen: true, ..old(self)@.scopes[id as int] },
            ));
        }
    }
}

/// Setting a name held at position `i` (and nowhere before) replaces it there.
proof fn lemma_assign_at(pairs: Seq<(Seq<char>, ValueView)>, key: Seq<char>, value: ValueView, i: int)
    requires
        0 <= i < pairs.len(),
        pairs[i].0 == key,
        forall|j: int| 0 <= j < i ==> pairs[j].0 != key,
    ensures
        assign(pairs, key, value) == pairs.update(i, (key, value)),
    decreases i,
{
    if i > 0 {
        lemma_assign_at(pairs.drop_first(), key, value, i - 1);
        assert(seq![pairs[0]] + pairs.drop_first().update(i - 1, (key, value)) =~= pairs.update(
            i,
            (key, value),
        ));
    }
}

/// Setting a name held nowhere adds it at the end.
proof fn lemma_assign_end(pairs: Seq<(Seq<char>, ValueView)>, key: Seq<char>, value: ValueView)
    requires
        forall|j: int| 0 <= j < pairs.len() ==> pairs[j].0 != key,
    ensures
        assign(pairs, key, value) == pairs.push((key, value)),
    decreases pairs.len(),
{
    if pairs.len() > 0 {
        lemma_assign_end(pairs.drop_first(), key, value);
        assert(seq![pairs[0]] + pairs.drop_first().push((key, value)) =~= pairs.push((key, value)));
    } else {
        assert(seq![(key, value)] =~= pairs.push((key, value)));
    }
}

/// Reading a variable gives back what defining it in the same scope wrote.
pub proof fn law_define_then_get(w: WorldView, id: nat, key: Seq<char>, value: ValueView)
    requires
        world_wf(w),
        id < w.scopes.len(),
    ensures
        get_spec(set_in(w, id, key, value), id, key) == Some(value),
{
    lemma_lookup_assign(w.scopes[id as int].pairs, key, value, key);
}

/// Defining a variable changes what no other name reads, from any scope.
pub proof fn law_define_keeps_other_names(
    w: WorldView,
    id: nat,
    key: Seq<char>,
    value: ValueView,
    from: nat,
    other: Seq<char>,
)
    requires
        world_wf(w),
        id < w.scopes.len(),
        other != key,
    ensures
        get_spec(set_in(w, id, key, value), from, other) == get_spec(w, from, other),
    decreases from,
{
    let w2 = set_in(w, id, key, value);
    if from < w.scopes.len() {
        if from == id {
            lemma_lookup_assign(w.scopes[id as int].pairs, key, value, other);
        }
        assert(w2.scopes[from as int].parent == w.scopes[from as int].parent);
        match w.scopes[from as int].parent {
            Some(p) => {
                if p < from {
                    law_define_keeps_other_names(w, id, key, value, p, other);
                }
            },
            None => {},
        }
    }
}

/// The scope an update changes is the starting one or an earlier one, and it holds the
/// name.
proof fn lemma_update_target(w: WorldView, id: nat, key: Seq<char>)
    requires
        update_target(w, id, key) is Some,
    ensures
        update_target(w, id, key)->Some_0 <= id,
        update_target(w, id, key)->Some_0 < w.scopes.len(),
        id < w.scopes.len(),
    decreases id,
{
    if lookup(w.scopes[id as int].pairs, key) is None {
        lemma_update_target(w, w.scopes[id as int].parent->Some_0, key);
    }
}

/// Reading a variable gives back what a successful update of it wrote.
pub proof fn law_update_then_get(w: WorldView, id: nat, key: Seq<char>, value: ValueView)
    requires
        world_wf(w),
        update_target(w, id, key) is Some,
    ensures
        get_spec(set_in(w, update_target(w, id, key)->Some_0, key, value), id, key) == Some(
            value,
        ),
    decreases id,
{
    let t = update_target(w, id, key)->Some_0;
    let w2 = set_in(w, t, key, value);
    if lookup(w.scopes[id as int].pairs, key) is Some {
        assert(t == id);
        lemma_lookup_assign(w.scopes[id as int].pairs, key, value, key);
    } else {
        let p = w.scopes[id as int].parent->Some_0;
        lemma_update_target(w, p, key);
        lemma_update_target(w, id, key);
        law_update_then_get(w, p, key, value);
        assert(t != id);
        assert(w2.scopes[id as int] == w.scopes[id as int]);
    }
}

/// Where running stops without an error of the language itself.
#[derive(Clone, Copy, Debug, PartialEq, Eq, Structural)]
pub enum Stop {
    /// A construct that is not carried out yet.
    NotImplemented,
    /// A value that cannot be written out yet (a boolean or a module).
    NotDisplayable,
    /// A call of something that is no function, with no span to report it at.
    MissingSpan,
    /// A span to report that lies outside its source.
    SpanOutsideSource,
    /// An import label that the running module's label cannot complete.
    IncompleteLabel,
    /// An import of a module that is not loaded (it would be read from a file).
    ModuleNotLoaded,
    /// An integer literal beyond the range of integer values.
    IntegerTooLarge,
    /// The built-in functions are not loaded.
    NoBuiltins,
}

/// Why running stopped: an error of the program, a stop, or no steps left.
#[derive(Debug)]
pub enum Halt {
    Error(InterpreterError),
    Stop(Stop),
    Exhausted,
}

/// An error, with its messages as sequences.
pub enum ErrorView {
    TypeError(Seq<char>, Span),
    UndefinedVariable(Seq<char>, Span),
    ArgumentError(Seq<char>, Span),
    PatternError(Seq<char>, Span, Span),
    MutabilityError(Seq<char>),
    SyntaxError,
    InvalidImport(Seq<char>, Span),
}

/// The view of an error.
pub open spec fn error_view(e: InterpreterError) -> ErrorView {
    match e {
        InterpreterError::TypeError(m, s) => ErrorView::TypeError(m@, s),
        InterpreterError::UndefinedVariable(m, s) => ErrorView::UndefinedVariable(m@, s),
        InterpreterError::ArgumentError(m, s) => ErrorView::ArgumentError(m@, s),
        InterpreterError::PatternError(m, a, b) => ErrorView::PatternError(m@, a, b),
        InterpreterError::MutabilityError(m) => ErrorView::MutabilityError(m@),
        InterpreterError::SyntaxError(_) => ErrorView::SyntaxError,
        InterpreterError::InvalidImport(m, s) => ErrorView::InvalidImport(m@, s),
    }
}

/// What evaluating a node gives: a value, an error, a stop, or no steps left.
pub enum Outcome {
    Value(ValueView),
    Error(ErrorView),
    Stop(Stop),
    Exhausted,
}

/// The outcome a result stands for.
pub open spec fn outcome_of(r: Result<Value, Halt>) -> Outcome {
    match r {
        Ok(v) => Outcome::Value(v@),
        Err(Halt::Error(e)) => Outcome::Error(error_view(e)),
        Err(Halt::Stop(s)) => Outcome::Stop(s),
        Err(Halt::Exhausted) => Outcome::Exhausted,
    }
}

/// The `i`th child of a node that evaluation goes into: the nodes of a program or the
/// statements of a block (and then its value), the pattern and the value of a `let`, the
/// value of a static, the body of a function, the callee and then the arguments of a
/// call, the object of a member access; the node itself for anything else.
pub open spec fn child(n: AstNode, i: int) -> AstNode {
    match *n.0.value {
        Ast::Program(nodes) => if 0 <= i < nodes@.len() {
            nodes@[i]
        } else {
            n
        },
        Ast::Let { pattern, body, .. } => if i == 0 {
            pattern
        } else {
            body
        },
        Ast::Static { body, .. } => body,
        Ast::Function { body, .. } => body,
        Ast::Call(function, args) => if i == 0 {
            function
        } else if 1 <= i <= args@.len() {
            args@[i - 1]
        } else {
            n
        },
        Ast::Block { statements, return_value } => if 0 <= i < statements@.len() {
            statements@[i]
        } else {
            match return_value {
                Some(r) => r,
                None => n,
            }
        },
        Ast::MemberAccess(object, _) => object,
        _ => n,
    }
}

/// The node reached from `n` by following the child positions of `path`.
pub open spec fn subtree(n: AstNode, path: Seq<usize>) -> AstNode
    decreases path.len(),
{
    if path.len() == 0 {
        n
    } else {
        child(subtree(n, path.drop_last()), path.last() as int)
    }
}

/// The world after defining `key` as `value` in scope `id`, or the error where the
/// scope is frozen.
pub open spec fn define_spec(w: WorldView, id: nat, key: Seq<char>, value: ValueView) -> Result<WorldView, ErrorView> {
    if w.scopes[id as int].frozen {
        Err(ErrorView::MutabilityError(frozen_define_message(key)))
    } else {
        Ok(set_in(w, id, key, value))
    }
}

/// The world with a new empty scope in `parent` at the end.
pub open spec fn with_scope(w: WorldView, parent: nat) -> WorldView {
    WorldView {
        scopes: w.scopes.push(ScopeView { parent: Some(parent), pairs: Seq::empty(), frozen: false }),
        ..w
    }
}

/// The world with parameter `k` and on set to the arguments in scope `id`, as far as
/// both go.
pub open spec fn bind(w: WorldView, id: nat, params: Seq<Seq<char>>, args: Seq<ValueView>, k: nat) -> WorldView
    decreases params.len() - k,
{
    if k >= params.len() || k >= args.len() {
        w
    } else {
        bind(set_in(w, id, params[k as int], args[k as int]), id, params, args, k + 1)
    }
}

/// An integer in decimal, with a minus sign when negative.
pub open spec fn int_text(i: i128) -> Seq<char> {
    if i < 0 {
        seq!['-'] + decimal((-i) as nat)
    } else {
        decimal(i as nat)
    }
}

/// `true` or `false`.
pub open spec fn bool_text(b: bool) -> Seq<char> {
    if b {
        "true"@
    } else {
        "false"@
    }
}

/// How a value is written out, where it can be: `None`, `<function "name">`, the text of a
/// string, an integer in decimal.
pub open spec fn display(v: ValueView) -> Option<Seq<char>> {
    match v {
        ValueView::Nothing => Some("None"@),
        ValueView::Function(f) => Some("<function "@ + spec_debug_text(f.name) + seq!['>']),
        ValueView::String(s) => Some(s),
        ValueView::Integer(i) => Some(int_text(i)),
        _ => None,
    }
}

/// How a value is described in an error about it.
pub open spec fn describe_value(v: ValueView) -> Seq<char> {
    match v {
        ValueView::Nothing => "None"@,
        ValueView::Integer(i) => "Integer("@ + int_text(i) + seq![')'],
        ValueView::String(s) => "String("@ + spec_debug_text(s) + seq![')'],
        ValueView::Boolean(b) => "Boolean("@ + bool_text(b) + seq![')'],
        ValueView::Function(f) => "Function("@ + spec_debug_text(f.name) + seq![')'],
        ValueView::Module(name, _) => "Module("@ + spec_debug_text(name) + seq![')'],
    }
}

/// The texts of the values joined with single spaces, where each can be written out.
pub open spec fn joined(values: Seq<ValueView>) -> Option<Seq<char>>
    decreases values.len(),
{
    if values.len() == 0 {
        Some(Seq::empty())
    } else if values.len() == 1 {
        display(values[0])
    } else {
        match (joined(values.drop_last()), display(values.last())) {
            (Some(a), Some(b)) => Some(a + seq![' '] + b),
            _ => None,
        }
    }
}

/// The world after writing a line.
pub open spec fn written(w: WorldView, line: Seq<char>) -> WorldView {
    WorldView { output: w.output.push(line), ..w }
}

/// `print`: with no arguments it writes two empty lines and gives nothing; with one it
/// writes that value and gives it back; with more it writes them on one line, separated
/// by spaces, and gives nothing.
pub open spec fn print_spec(w: WorldView, args: Seq<ValueView>) -> (Outcome, WorldView) {
    if args.len() == 0 {
        (Outcome::Value(ValueView::Nothing), written(written(w, Seq::empty()), Seq::empty()))
    } else if args.len() == 1 {
        match display(args[0]) {
            Some(t) => (Outcome::Value(args[0]), written(w, t)),
            None => (Outcome::Stop(Stop::NotDisplayable), w),
        }
    } else {
        match joined(args) {
            Some(t) => (Outcome::Value(ValueView::Nothing), written(w, t)),
            None => (Outcome::Stop(Stop::NotDisplayable), w),
        }
    }
}

/// `<f> takes 2 arguments but 1 was given`.
pub open spec fn argument_message(f: Seq<char>, params: nat, args: nat) -> Seq<char> {
    f + " takes "@ + decimal(params) + seq![' '] + (if params == 1 {
        "argument"@
    } else {
        "arguments"@
    }) + " but "@ + decimal(args) + seq![' '] + (if args == 1 {
        "was"@
    } else {
        "were"@
    }) + " given"@
}

/// The scope the pool holds under `key`, if any.
pub open spec fn pool_lookup(pool: Seq<(Seq<char>, nat)>, key: Seq<char>) -> Option<nat>
    decreases pool.len(),
{
    if pool.len() == 0 {
        None
    } else if pool[0].0 == key {
        Some(pool[0].1)
    } else {
        pool_lookup(pool.drop_first(), key)
    }
}

/// Defines each imported name (or its alias) in scope `cur` as its value in scope `from`,
/// from the `k`th on; an error for a name that `from` does not hold.
pub open spec fn import_names(w: WorldView, cur: nat, from: nat, names: Seq<(SString, Option<SString>)>, module: Seq<char>, k: nat) -> (Outcome, WorldView)
    decreases names.len() - k,
{
    if k >= names.len() {
        (Outcome::Value(ValueView::Nothing), w)
    } else {
        let (import, alias) = names[k as int];
        match get_spec(w, from, import.value@) {
            None => (
                Outcome::Error(
                    ErrorView::UndefinedVariable(
                        "Cannot import "@ + spec_debug_text(import.value@) + " from module "@
                            + spec_debug_text(module) + " as it is not defined"@,
                        import.span,
                    ),
                ),
                w,
            ),
            Some(v) => {
                let target = match alias {
                    Some(a) => a.value@,
                    None => import.value@,
                };
                match define_spec(w, cur, target, v) {
                    Ok(w2) => import_names(w2, cur, from, names, module, k + 1),
                    Err(e) => (Outcome::Error(e), w),
                }
            },
        }
    }
}

/// An import: reads the label, finds the module in the pool, defines the imported names,
/// and the module under its alias where one is given.
pub open spec fn import_spec(w: WorldView, cur: nat, label: LabelView, names: Seq<(SString, Option<SString>)>, module: SString, module_alias: Option<SString>) -> (Outcome, WorldView) {
    match parse_label(module.value@) {
        None => (Outcome::Error(ErrorView::InvalidImport(missing_package_message(), module.span)), w),
        Some(l) => if !(l.special is Some || can_fill(l, label)) {
            (Outcome::Stop(Stop::IncompleteLabel), w)
        } else {
            let name = absolute_text(l, label);
            match pool_lookup(w.pool, name) {
                None => (Outcome::Stop(Stop::ModuleNotLoaded), w),
                Some(from) => {
                    let (o, w2) = import_names(w, cur, from, names, module.value@, 0);
                    if !(o is Value) {
                        (o, w2)
                    } else {
                        match module_alias {
                            Some(a) => match define_spec(w2, cur, a.value@, ValueView::Module(name, from)) {
                                Ok(w3) => (Outcome::Value(ValueView::Nothing), w3),
                                Err(e) => (Outcome::Error(e), w2),
                            },
                            None => (Outcome::Value(ValueView::Nothing), w2),
                        }
                    }
                },
            }
        },
    }
}

/// The parameter names of a function definition.
pub open spec fn arg_names(args: Seq<(String, AstNode)>) -> Seq<Seq<char>> {
    args.map_values(|a: (String, AstNode)| a.0@)
}

/// Evaluates the node at `path` under `root` with scope `stack.last()` current, taking
/// at most `fuel` nested steps; the outcome and the world afterwards.
pub open spec fn eval(w: WorldView, stack: Seq<usize>, label: LabelView, root: Rc<AstNode>, path: Seq<usize>, fuel: nat) -> (Outcome, WorldView)
    decreases fuel, 0nat,
{
    if fuel == 0 {
        (Outcome::Exhausted, w)
    } else {
        let n = subtree(*root, path);
        let f = (fuel - 1) as nat;
        let cur = stack.last() as nat;
        match *n.0.value {
            Ast::Program(nodes) => {
                let (o, w1) = eval_seq(w, stack, label, root, path, nodes@.len(), 0, f);
                if !(o is Value) {
                    (o, w1)
                } else {
                    match get_spec(w1, cur, "main"@) {
                        Some(main) => call_spec(w1, stack, label, main, Seq::empty(), Some("main"@), None, f),
                        None => (Outcome::Value(ValueView::Nothing), w1),
                    }
                }
            },
            Ast::Let { pattern, body, .. } => {
                let (o, w1) = eval(w, stack, label, root, path.push(1), f);
                match o {
                    Outcome::Value(v) => match *pattern.0.value {
                        Ast::VariableAccess(name) => match define_spec(w1, cur, name@, v) {
                            Ok(w2) => (Outcome::Value(ValueView::Nothing), w2),
                            Err(e) => (Outcome::Error(e), w1),
                        },
                        _ => (
                            Outcome::Error(
                                ErrorView::PatternError(
                                    "I dunno what to do with that pattern tbh"@,
                                    pattern.0.span,
                                    body.0.span,
                                ),
                            ),
                            w1,
                        ),
                    },
                    _ => (o, w1),
                }
            },
            Ast::Static { name, .. } => {
                let (o, w1) = eval(w, stack, label, root, path.push(0), f);
                match o {
                    Outcome::Value(v) => match define_spec(w1, cur, name.value@, v) {
                        Ok(w2) => (Outcome::Value(ValueView::Nothing), w2),
                        Err(e) => (Outcome::Error(e), w1),
                    },
                    _ => (o, w1),
                }
            },
            Ast::Function { name, args, variadic, .. } => {
                let fv = FunctionView {
                    name: name.value@,
                    params: arg_names(args@),
                    body: BodyView::Ast(root, path.push(0)),
                    span: n.0.span,
                    scope: cur,
                    variadic,
                };
                match define_spec(w, cur, name.value@, ValueView::Function(fv)) {
                    Ok(w2) => (Outcome::Value(ValueView::Nothing), w2),
                    Err(e) => (Outcome::Error(e), w),
                }
            },
            Ast::Call(function, args) => {
                let (o, w1) = eval(w, stack, label, root, path.push(0), f);
                match o {
                    Outcome::Value(callee) => {
                        let (o2, w2, values, span) = eval_args(w1, stack, label, root, path, args@, 0, function.0.span, Seq::empty(), f);
                        if o2 is Value {
                            call_spec(w2, stack, label, callee, values, None, Some(span), f)
                        } else {
                            (o2, w2)
                        }
                    },
                    _ => (o, w1),
                }
            },
            Ast::Block { statements, return_value } => {
                let (o, w1) = eval_seq(w, stack, label, root, path, statements@.len(), 0, f);
                if !(o is Value) {
                    (o, w1)
                } else {
                    match return_value {
                        Some(_) => eval(w1, stack, label, root, path.push(statements@.len() as usize), f),
                        None => (Outcome::Value(ValueView::Nothing), w1),
                    }
                }
            },
            Ast::Import { names, module, module_alias } => import_spec(w, cur, label, names@, module, module_alias),
            Ast::VariableAccess(name) => match get_spec(w, cur, name@) {
                Some(v) => (Outcome::Value(v), w),
                None => (Outcome::Error(ErrorView::UndefinedVariable(name@, n.0.span)), w),
            },
            Ast::MemberAccess(_, name) => {
                let (o, w1) = eval(w, stack, label, root, path.push(0), f);
                match o {
                    Outcome::Value(ValueView::Module(module, scope)) => match get_spec(w1, scope, name.value@) {
                        Some(v) => (Outcome::Value(v), w1),
                        None => (
                            Outcome::Error(
                                ErrorView::UndefinedVariable(
                                    "Cannot access member variable "@ + spec_debug_text(name.value@) + " of "@
                                        + describe_value(ValueView::Module(module, scope))
                                        + " as it does not exist"@,
                                    name.span,
                                ),
                            ),
                            w1,
                        ),
                    },
                    Outcome::Value(v) => (
                        Outcome::Error(
                            ErrorView::TypeError(
                                "Cannot access field "@ + spec_debug_text(name.value@) + " on "@
                                    + describe_value(v),
                                name.span,
                            ),
                        ),
                        w1,
                    ),
                    _ => (o, w1),
                }
            },
            Ast::String(v) => (Outcome::Value(ValueView::String(v@)), w),
            Ast::Integer(v) => if v <= i128::MAX {
                (Outcome::Value(ValueView::Integer(v as i128)), w)
            } else {
                (Outcome::Stop(Stop::IntegerTooLarge), w)
            },
            _ => (Outcome::Stop(Stop::NotImplemented), w),
        }
    }
}

/// Evaluates the children `k` to `count` of the node at `path` in turn, stopping at the
/// first that gives no value.
pub open spec fn eval_seq(w: WorldView, stack: Seq<usize>, label: LabelView, root: Rc<AstNode>, path: Seq<usize>, count: nat, k: nat, fuel: nat) -> (Outcome, WorldView)
    decreases fuel, count - k,
{
    if k >= count {
        (Outcome::Value(ValueView::Nothing), w)
    } else {
        let (o, w1) = eval(w, stack, label, root, path.push(k as usize), fuel);
        if o is Value {
            eval_seq(w1, stack, label, root, path, count, k + 1, fuel)
        } else {
            (o, w1)
        }
    }
}

/// Evaluates the arguments of the call at `path` from the `k`th on, collecting their
/// values and widening the call's span over each.
pub open spec fn eval_args(w: WorldView, stack: Seq<usize>, label: LabelView, root: Rc<AstNode>, path: Seq<usize>, args: Seq<AstNode>, k: nat, span: Span, values: Seq<ValueView>, fuel: nat) -> (Outcome, WorldView, Seq<ValueView>, Span)
    decreases fuel, args.len() - k,
{
    if k >= args.len() {
        (Outcome::Value(ValueView::Nothing), w, values, span)
    } else {
        let span2 = span.fitted(args[k as int].0.span);
        let (o, w1) = eval(w, stack, label, root, path.push((k + 1) as usize), fuel);
        match o {
            Outcome::Value(v) => eval_args(w1, stack, label, root, path, args, k + 1, span2, values.push(v), fuel),
            _ => (o, w1, values, span2),
        }
    }
}

/// Calls `callee` with `args`: a function of the program runs its body in a new scope
/// within its own, with the parameters bound; `print` writes; anything else is an error.
pub open spec fn call_spec(w: WorldView, stack: Seq<usize>, label: LabelView, callee: ValueView, args: Seq<ValueView>, name: Option<Seq<char>>, span: Option<Span>, fuel: nat) -> (Outcome, WorldView)
    decreases fuel, 1nat,
{
    match callee {
        ValueView::Function(func) => match func.body {
            BodyView::Ast(root, path) => if args.len() != func.params.len() && !func.variadic {
                match span {
                    None => (Outcome::Stop(Stop::MissingSpan), w),
                    Some(s) => (
                        Outcome::Error(
                            ErrorView::ArgumentError(
                                argument_message(display(callee)->Some_0, func.params.len(), args.len()),
                                s,
                            ),
                        ),
                        w,
                    ),
                }
            } else {
                let id = w.scopes.len();
                let w1 = bind(with_scope(w, func.scope), id, func.params, args, 0);
                let inner = stack.push(func.scope as usize).push(id as usize);
                eval(w1, inner, label, root, path, fuel)
            },
            BodyView::Native(Native::Print) => print_spec(w, args),
        },
        _ => match span {
            None => (Outcome::Stop(Stop::MissingSpan), w),
            Some(s) => if !s.in_bounds() {
                (Outcome::Stop(Stop::SpanOutsideSource), w)
            } else {
                (
                    Outcome::Error(
                        ErrorView::TypeError(
                            seq!['`'] + (match name {
                                Some(n) => n,
                                None => s.text(),
                            }) + "` is not a function"@,
                            s,
                        ),
                    ),
                    w,
                )
            },
        },
    }
}

/// The views of some values.
pub open spec fn values_view(v: Seq<Value>) -> Seq<ValueView> {
    v.map_values(|x: Value| x@)
}

/// An integer in decimal, with a minus sign when negative.
fn int_string(i: i128) -> (r: String)
    ensures
        r@ == int_text(i),
{
    if i < 0 {
        let magnitude: u128 = if i == i128::MIN {
            170141183460469231731687303715884105728u128
        } else {
            (-i) as u128
        };
        let mut r = string_of("-");
        let digits = u128_text(magnitude);
        push_str(&mut r, digits.as_str());
        proof {
            reveal_strlit("-");
            assert("-"@ =~= seq!['-']);
        }
        r
    } else {
        u128_text(i as u128)
    }
}

/// How a value is written out, where it can be (see `display`).
fn display_value(v: &Value) -> (r: Option<String>)
    ensures
        match r {
            Some(t) => display(v@) == Some(t@),
            None => display(v@) is None,
        },
{
    proof {
        reveal_strlit("None");
        reveal_strlit("<function ");
        reveal_strlit(">");
        assert(">"@ =~= seq!['>']);
    }
    match v {
        Value::Nothing => Some(string_of("None")),
        Value::Function(f) => {
            let mut t = string_of("<function ");
            let name = debug_text(f.name.as_str());
            push_str(&mut t, name.as_str());
            push_str(&mut t, ">");
            Some(t)
        },
        Value::String(s) => Some(s.clone()),
        Value::Integer(i) => Some(int_string(*i)),
        _ => None,
    }
}

/// How a value is described in an error about it (see `describe_value`).
fn describe(v: &Value) -> (r: String)
    ensures
        r@ == describe_value(v@),
{
    proof {
        reveal_strlit("None");
        reveal_strlit("Integer(");
        reveal_strlit("String(");
        reveal_strlit("Boolean(");
        reveal_strlit("Function(");
        reveal_strlit("Module(");
        reveal_strlit(")");
        reveal_strlit("true");
        reveal_strlit("false");
        assert(")"@ =~= seq![')']);
    }
    let (mut r, inner) = match v {
        Value::Nothing => {
            return string_of("None");
        },
        Value::Integer(i) => (string_of("Integer("), int_string(*i)),
        Value::String(s) => (string_of("String("), debug_text(s.as_str())),
        Value::Boolean(b) => (string_of("Boolean("), string_of(
            if *b {
                "true"
            } else {
                "false"
            },
        )),
        Value::Function(f) => (string_of("Function("), debug_text(f.name.as_str())),
        Value::Module(m) => (string_of("Module("), debug_text(m.name.as_str())),
    };
    push_str(&mut r, inner.as_str());
    push_str(&mut r, ")");
    r
}

/// The child of `n` that evaluation goes into at position `i` (see `child`).
fn child_of(n: &AstNode, i: usize) -> (r: &AstNode)
    ensures
        *r == child(*n, i as int),
{
    match &*n.0.value {
        Ast::Program(nodes) => if i < nodes.len() {
            &nodes[i]
        } else {
            n
        },
        Ast::Let { pattern, body, .. } => if i == 0 {
            pattern
        } else {
            body
        },
        Ast::Static { body, .. } => body,
        Ast::Function { body, .. } => body,
        Ast::Call(function, args) => if i == 0 {
            function
        } else if i <= args.len() {
            &args[i - 1]
        } else {
            n
        },
        Ast::Block { statements, return_value } => if i < statements.len() {
            &statements[i]
        } else {
            match return_value {
                Some(r) => r,
                None => n,
            }
        },
        Ast::MemberAccess(object, _) => object,
        _ => n,
    }
}

/// Two function bodies are equal: equal trees (see `same_tree`), or the same built-in
/// function.
pub open spec fn same_body(a: BodyView, b: BodyView) -> bool {
    match (a, b) {
        (BodyView::Ast(r1, p1), BodyView::Ast(r2, p2)) => same_tree(subtree(*r1, p1), subtree(*r2, p2)),
        (BodyView::Native(x), BodyView::Native(y)) => x == y,
        _ => false,
    }
}

/// Two functions are equal: the same name and parameters, equal bodies, and defined at
/// the same place in the same scope.
pub open spec fn same_function(a: FunctionView, b: FunctionView) -> bool {
    &&& a.name == b.name
    &&& a.params == b.params
    &&& same_body(a.body, b.body)
    &&& a.span.same_place(b.span)
    &&& a.scope == b.scope
}

/// Two values are equal: numbers, texts and booleans by what they hold, functions as
/// `same_function` says, modules by their scope, and nothing with nothing.
pub open spec fn same_value(a: ValueView, b: ValueView) -> bool {
    match (a, b) {
        (ValueView::Integer(x), ValueView::Integer(y)) => x == y,
        (ValueView::String(x), ValueView::String(y)) => x == y,
        (ValueView::Boolean(x), ValueView::Boolean(y)) => x == y,
        (ValueView::Function(f), ValueView::Function(g)) => same_function(f, g),
        (ValueView::Module(_, s1), ValueView::Module(_, s2)) => s1 == s2,
        (ValueView::Nothing, ValueView::Nothing) => true,
        _ => false,
    }
}

/// Whether two lists of parameters have the same names.
fn params_eq(a: &Vec<(String, ())>, b: &Vec<(String, ())>) -> (r: bool)
    ensures
        r == (params_view(a@) == params_view(b@)),
{
    if a.len() != b.len() {
        proof {
            assert(params_view(a@).len() != params_view(b@).len());
        }
        return false;
    }
    let mut i: usize = 0;
    while i < a.len()
        invariant
            i <= a@.len(),
            a@.len() == b@.len(),
            forall|j: int| 0 <= j < i ==> #[trigger] params_view(a@)[j] == params_view(b@)[j],
        decreases a@.len() - i,
    {
        if !crate::text::same_text(a[i].0.as_str(), b[i].0.as_str()) {
            proof {
                assert(params_view(a@)[i as int] != params_view(b@)[i as int]);
            }
            return false;
        }
        assert(params_view(a@)[i as int] == params_view(b@)[i as int]);
        i += 1;
    }
    proof {
        assert(params_view(a@) =~= params_view(b@));
    }
    true
}

impl FunctionBody {
    /// Whether two bodies are equal (see `same_body`).
    pub fn same_as(&self, other: &FunctionBody) -> (r: bool)
        ensures
            r == same_body(self@, other@),
    {
        match (self, other) {
            (FunctionBody::Ast(r1, p1), FunctionBody::Ast(r2, p2)) => tree_eq(
                node_at(r1, p1),
                node_at(r2, p2),
            ),
            (FunctionBody::Native(x), FunctionBody::Native(y)) => *x == *y,
            _ => false,
        }
    }
}

impl Function {
    /// Whether two functions are equal (see `same_function`).
    pub fn same_as(&self, other: &Function) -> (r: bool)
        ensures
            r == same_function(self@, other@),
    {
        crate::text::same_text(self.name.as_str(), other.name.as_str()) && params_eq(
            &self.args,
            &other.args,
        ) && self.body.same_as(&other.body) && self.span == other.span && self.scope
            == other.scope
    }
}

impl Module {
    /// Whether two modules are the same one: whether they have the same scope.
    pub fn same_as(&self, other: &Module) -> (r: bool)
        ensures
            r == (self.scope == other.scope),
    {
        self.scope == other.scope
    }
}

impl Value {
    /// Whether two values are equal (see `same_value`).
    pub fn same_as(&self, other: &Value) -> (r: bool)
        ensures
            r == same_value(self@, other@),
    {
        match (self, other) {
            (Value::Integer(x), Value::Integer(y)) => *x == *y,
            (Value::String(x), Value::String(y)) => crate::text::same_text(x.as_str(), y.as_str()),
            (Value::Boolean(x), Value::Boolean(y)) => *x == *y,
            (Value::Function(f), Value::Function(g)) => f.same_as(g),
            (Value::Module(m1), Value::Module(m2)) => m1.same_as(m2),
            (Value::Nothing, Value::Nothing) => true,
            _ => false,
        }
    }
}

/// The node reached from `root` by following `path` (see `subtree`).
fn node_at<'a>(root: &'a AstNode, path: &Vec<usize>) -> (r: &'a AstNode)
    ensures
        *r == subtree(*root, path@),
{
    let mut cur = root;
    let mut k: usize = 0;
    proof {
        assert(path@.take(0) =~= Seq::<usize>::empty());
    }
    while k < path.len()
        invariant
            k <= path@.len(),
            *cur == subtree(*root, path@.take(k as int)),
        decreases path@.len() - k,
    {
        proof {
            assert(path@.take(k + 1).drop_last() =~= path@.take(k as int));
            assert(path@.take(k + 1).last() == path@[k as int]);
        }
        cur = child_of(cur, path[k]);
        k += 1;
    }
    proof {
        assert(path@.take(path@.len() as int) =~= path@);
    }
    cur
}

/// `path` with `i` added at the end.
fn extended(path: &Vec<usize>, i: usize) -> (r: Vec<usize>)
    ensures
        r@ == path@.push(i),
{
    let mut r = path.clone();
    r.push(i);
    r
}

/// Going one child further down.
proof fn lemma_subtree_push(root: &AstNode, path: Seq<usize>, i: usize)
    ensures
        subtree(*root, path.push(i)) == child(subtree(*root, path), i as int),
{
    assert(path.push(i).drop_last() =~= path);
}

impl World {
    /// Writes a line of output.
    pub fn write(&mut self, line: String)
        ensures
            final(self)@ == written(old(self)@, line@),
    {
        self.output.push(line);
        proof {
            assert(self@.output =~= old(self)@.output.push(line@));
            assert(self@.scopes =~= old(self)@.scopes);
            assert(self@.pool =~= old(self)@.pool);
        }
    }

    /// The scope that the pool holds under `key` (see `pool_lookup`).
    pub fn pool_get(&self, key: &str) -> (r: Option<usize>)
        ensures
            match r {
                Some(id) => pool_lookup(self@.pool, key@) == Some(id as nat),
                None => pool_lookup(self@.pool, key@) is None,
            },
    {
        let mut i: usize = 0;
        proof {
            assert(self@.pool.skip(0) =~= self@.pool);
        }
        while i < self.pool.len()
            invariant
                i <= self.pool@.len(),
                self@.pool.len() == self.pool@.len(),
                pool_lookup(self@.pool, key@) == pool_lookup(self@.pool.skip(i as int), key@),
            decreases self.pool@.len() - i,
        {
            proof {
                assert(self@.pool.skip(i as int).drop_first() =~= self@.pool.skip(i + 1));
                assert(self@.pool.skip(i as int)[0] == (self.pool@[i as int].0@, self.pool@[i as int].1 as nat));
            }
            if crate::text::same_text(self.pool[i].0.as_str(), key) {
                return Some(self.pool[i].1);
            }
            i += 1;
        }
        None
    }

    /// Puts `scope` in the pool under `key`, after the entries there.
    pub fn set_pool(&mut self, key: &str, scope: usize)
        ensures
            final(self)@ == (WorldView { pool: old(self)@.pool.push((key@, scope as nat)), ..old(self)@ }),
    {
        self.pool.push((string_of(key), scope));
        proof {
            assert(self@.pool =~= old(self)@.pool.push((key@, scope as nat)));
            assert(self@.scopes =~= old(self)@.scopes);
            assert(self@.output =~= old(self)@.output);
        }
    }
}

/// Runs the syntax tree of a module: the world of scopes, the stack of scopes in use
/// (the last is current), and the label of the module being run.
pub struct Interpreter {
    pub world: World,
    pub scope_stack: Vec<usize>,
    pub label: ModuleLabel,
}

impl Interpreter {
    /// There is a current scope, and it is in the world.
    pub open spec fn wf(&self) -> bool {
        &&& self.scope_stack@.len() > 0
        &&& self.scope_stack@.last() < self.world@.scopes.len()
    }

    /// The current scope.
    fn current_scope(&self) -> (r: usize)
        requires
            self.wf(),
        ensures
            r == self.scope_stack@.last(),
    {
        self.scope_stack[self.scope_stack.len() - 1]
    }

    /// Writes its arguments (see `print_spec`).
    fn print(&mut self, values: Vec<Value>) -> (r: Result<Value, Halt>)
        ensures
            (outcome_of(r), final(self).world@) == print_spec(old(self).world@, values_view(values@)),
            final(self).scope_stack@ == old(self).scope_stack@,
            final(self).label == old(self).label,
    {
        let ghost vs = values_view(values@);
        if values.len() == 0 {
            self.world.write(String::new());
        }
        if values.len() == 1 {
            let value = values[0].copy();
            match display_value(&value) {
                Some(t) => {
                    self.world.write(t);
                    Ok(value)
                },
                None => Err(Halt::Stop(Stop::NotDisplayable)),
            }
        } else {
            let mut line = String::new();
            let mut i: usize = 0;
            while i < values.len()
                invariant
                    i <= values@.len(),
                    values@.len() != 1,
                    vs == values_view(values@),
                    self.scope_stack@ == old(self).scope_stack@,
                    self.label == old(self).label,
                    values@.len() == 0 ==> self.world@ == written(old(self).world@, Seq::empty()),
                    values@.len() > 0 ==> self.world@ == old(self).world@,
                    i > 0 ==> joined(vs.take(i as int)) == Some(line@),
                    i == 0 ==> line@ == Seq::<char>::empty(),
                decreases values@.len() - i,
            {
                match display_value(&values[i]) {
                    Some(t) => {
                        if i > 0 {
                            push_str(&mut line, " ");
                        }
                        push_str(&mut line, t.as_str());
                        proof {
                            reveal_strlit(" ");
                            assert(vs.take(i + 1).drop_last() =~= vs.take(i as int));
                            assert(vs.take(i + 1).last() == vs[i as int]);
                            if i == 0 {
                                assert(vs.take(1)[0] == vs[0]);
                                assert(line@ =~= t@);
                            } else {
                                assert(line@ =~= vs_join_step(joined(vs.take(i as int))->Some_0, t@));
                            }
                        }
                    },
                    None => {
                        proof {
                            lemma_joined_fails(vs, i as int);
                        }
                        return Err(Halt::Stop(Stop::NotDisplayable));
                    },
                }
                i += 1;
            }
            proof {
                assert(vs.take(vs.len() as int) =~= vs);
            }
            self.world.write(line);
            Ok(Value::Nothing)
        }
    }
}

/// One more text after a joined line.
pub open spec fn vs_join_step(a: Seq<char>, b: Seq<char>) -> Seq<char> {
    a + seq![' '] + b
}

/// Where a value cannot be written out, no longer list including it can be joined.
proof fn lemma_joined_fails(vs: Seq<ValueView>, i: int)
    requires
        0 <= i < vs.len(),
        vs.len() != 1,
        display(vs[i]) is None,
    ensures
        joined(vs) is None,
    decreases vs.len(),
{
    if i == vs.len() - 1 {
        assert(vs.last() == vs[i]);
        assert(display(vs.last()) is None);
    } else {
        assert(vs.drop_last()[i] == vs[i]);
        if vs.len() - 1 == 1 {
            assert(vs.drop_last()[0] == vs[0]);
            assert(joined(vs.drop_last()) == display(vs.drop_last()[0]));
        } else {
            lemma_joined_fails(vs.drop_last(), i);
        }
        assert(joined(vs.drop_last()) is None);
    }
}

/// The text of an optional string slice.
pub open spec fn opt_text_of(o: Option<&str>) -> Option<Seq<char>> {
    match o {
        Some(s) => Some(s@),
        None => None,
    }
}

/// `result` is what defining in the world gave: the world afterwards, or the error with
/// the world unchanged.
pub open spec fn defined_as(
    result: Result<WorldView, ErrorView>,
    r: Result<(), InterpreterError>,
    old_world: WorldView,
    new_world: WorldView,
) -> bool {
    match result {
        Ok(w2) => r is Ok && new_world == w2,
        Err(e) => r matches Err(e2) && error_view(e2) == e && new_world == old_world,
    }
}

impl Interpreter {
    /// Defines `key` in the current scope (see `define_spec`).
    fn define_here(&mut self, key: &str, value: Value) -> (r: Result<(), InterpreterError>)
        requires
            old(self).wf(),
        ensures
            final(self).wf(),
            final(self).scope_stack@ == old(self).scope_stack@,
            final(self).label == old(self).label,
            defined_as(
                define_spec(old(self).world@, old(self).scope_stack@.last() as nat, key@, value@),
                r,
                old(self).world@,
                final(self).world@,
            ),
    {
        let cur = self.current_scope();
        let r = self.world.define(cur, key, value);
        proof {
            if old(self).world@.scopes[cur as int].frozen {
                assert(mutability_error(r->Err_0, frozen_define_message(key@)));
            }
        }
        r
    }

    /// Binds a pattern to a value; only a variable can be bound so far.
    fn unpack(&mut self, pattern: &AstNode, value: Value, value_span: Span) -> (r: Result<(), InterpreterError>)
        requires
            old(self).wf(),
        ensures
            final(self).wf(),
            final(self).scope_stack@ == old(self).scope_stack@,
            final(self).label == old(self).label,
            match *pattern.0.value {
                Ast::VariableAccess(name) => defined_as(
                    define_spec(old(self).world@, old(self).scope_stack@.last() as nat, name@, value@),
                    r,
                    old(self).world@,
                    final(self).world@,
                ),
                _ => (r matches Err(InterpreterError::PatternError(m, a, b)) && m@
                    == "I dunno what to do with that pattern tbh"@ && a == pattern.0.span && b
                    == value_span && final(self).world@ == old(self).world@),
            },
    {
        match &*pattern.0.value {
            Ast::VariableAccess(name) => self.define_here(name.as_str(), value),
            _ => {
                proof {
                    reveal_strlit("I dunno what to do with that pattern tbh");
                }
                Err(
                    InterpreterError::PatternError(
                        string_of("I dunno what to do with that pattern tbh"),
                        pattern.span(),
                        value_span,
                    ),
                )
            },
        }
    }

    /// Carries out an import (see `import_spec`).
    fn import(
        &mut self,
        names: &Vec<(SString, Option<SString>)>,
        module: &SString,
        module_alias: &Option<SString>,
    ) -> (r: Result<Value, Halt>)
        requires
            old(self).wf(),
        ensures
            final(self).wf(),
            final(self).scope_stack@ == old(self).scope_stack@,
            final(self).label == old(self).label,
            (outcome_of(r), final(self).world@) == import_spec(
                old(self).world@,
                old(self).scope_stack@.last() as nat,
                old(self).label@,
                names@,
                *module,
                *module_alias,
            ),
    {
        let cur = self.current_scope();
        let resolver = match ModuleLabel::parse(Spanned::new(module.value.clone(), module.span.copy())) {
            Ok(l) => l,
            Err(e) => {
                return Err(Halt::Error(e));
            },
        };
        let fillable = resolver.special.is_some() || ((resolver.developer.is_some()
            || self.label.developer.is_some()) && (resolver.package.is_some()
            || self.label.package.is_some()));
        if !fillable {
            return Err(Halt::Stop(Stop::IncompleteLabel));
        }
        let name = resolver.absolute(self.label.copy());
        let from = match self.world.pool_get(name.as_str()) {
            Some(id) => id,
            None => {
                return Err(Halt::Stop(Stop::ModuleNotLoaded));
            },
        };
        let ghost w0 = self.world@;
        let mut k: usize = 0;
        while k < names.len()
            invariant
                self.wf(),
                self.scope_stack@ == old(self).scope_stack@,
                self.label == old(self).label,
                cur == self.scope_stack@.last(),
                k <= names@.len(),
                w0 == old(self).world@,
                parse_label(module.value@) == Some(resolver@),
                resolver@.special is Some || can_fill(resolver@, self.label@),
                name@ == absolute_text(resolver@, self.label@),
                pool_lookup(w0.pool, name@) == Some(from as nat),
                import_names(w0, cur as nat, from as nat, names@, module.value@, 0) == import_names(
                    self.world@,
                    cur as nat,
                    from as nat,
                    names@,
                    module.value@,
                    k as nat,
                ),
            decreases names@.len() - k,
        {
            let (import, alias) = &names[k];
            let value = match self.world.get(from, import.value.as_str()) {
                Some(v) => v,
                None => {
                    let mut m = string_of("Cannot import ");
                    let i = debug_text(import.value.as_str());
                    push_str(&mut m, i.as_str());
                    push_str(&mut m, " from module ");
                    let mn = debug_text(module.value.as_str());
                    push_str(&mut m, mn.as_str());
                    push_str(&mut m, " as it is not defined");
                    proof {
                        reveal_strlit("Cannot import ");
                        reveal_strlit(" from module ");
                        reveal_strlit(" as it is not defined");
                    }
                    return Err(Halt::Error(InterpreterError::UndefinedVariable(m, import.span.copy())));
                },
            };
            let target = match alias {
                Some(a) => a.value.as_str(),
                None => import.value.as_str(),
            };
            match self.define_here(target, value) {
                Ok(()) => {},
                Err(e) => {
                    return Err(Halt::Error(e));
                },
            }
            k += 1;
        }
        match module_alias {
            Some(a) => {
                let module_value = Value::Module(Module { name: resolver.absolute(self.label.copy()), scope: from });
                match self.define_here(a.value.as_str(), module_value) {
                    Ok(()) => Ok(Value::Nothing),
                    Err(e) => Err(Halt::Error(e)),
                }
            },
            None => Ok(Value::Nothing),
        }
    }
}

impl Interpreter {
    /// Calls `value` with `args` (see `call_spec`); `name` and `span` are what an error
    /// reports.
    fn call_function(
        &mut self,
        value: &Value,
        args: Vec<Value>,
        name: Option<&str>,
        span: Option<Span>,
        fuel: u64,
    ) -> (r: Result<Value, Halt>)
        requires
            old(self).wf(),
        ensures
            final(self).wf(),
            final(self).scope_stack@ == old(self).scope_stack@,
            final(self).label == old(self).label,
            (outcome_of(r), final(self).world@) == call_spec(
                old(self).world@,
                old(self).scope_stack@,
                old(self).label@,
                value@,
                values_view(args@),
                opt_text_of(name),
                span,
                fuel as nat,
            ),
        decreases fuel, 1nat,
    {
        match value {
            Value::Function(func) => match &func.body {
                FunctionBody::Ast(root, path) => {
                    if args.len() != func.args.len() && !func.variadic {
                        match span {
                            None => Err(Halt::Stop(Stop::MissingSpan)),
                            Some(s) => {
                                let mut m = match display_value(value) {
                                    Some(t) => t,
                                    None => {
                                        proof {
                                            assert(false);
                                        }
                                        String::new()
                                    },
                                };
                                push_str(&mut m, " takes ");
                                let p = u128_text(func.args.len() as u128);
                                push_str(&mut m, p.as_str());
                                push_str(&mut m, " ");
                                push_str(
                                    &mut m,
                                    if func.args.len() == 1 {
                                        "argument"
                                    } else {
                                        "arguments"
                                    },
                                );
                                push_str(&mut m, " but ");
                                let a = u128_text(args.len() as u128);
                                push_str(&mut m, a.as_str());
                                push_str(&mut m, " ");
                                push_str(
                                    &mut m,
                                    if args.len() == 1 {
                                        "was"
                                    } else {
                                        "were"
                                    },
                                );
                                push_str(&mut m, " given");
                                proof {
                                    reveal_strlit(" takes ");
                                    reveal_strlit(" ");
                                    reveal_strlit("argument");
                                    reveal_strlit("arguments");
                                    reveal_strlit(" but ");
                                    reveal_strlit("was");
                                    reveal_strlit("were");
                                    reveal_strlit(" given");
                                    assert(" "@ =~= seq![' ']);
                                    assert(m@ =~= argument_message(
                                        display(value@)->Some_0,
                                        func.args@.len(),
                                        args@.len(),
                                    ));
                                }
                                Err(Halt::Error(InterpreterError::ArgumentError(m, s)))
                            },
                        }
                    } else {
                        let root = Rc::clone(root);
                        let path = path.clone();
                        let ghost w = self.world@;
                        self.scope_stack.push(func.scope);
                        let id = self.world.new_scope(Some(func.scope));
                        self.scope_stack.push(id);
                        let ghost params = params_view(func.args@);
                        let ghost vals = values_view(args@);
                        let ghost w1 = self.world@;
                        let mut k: usize = 0;
                        while k < args.len() && k < func.args.len()
                            invariant
                                self.wf(),
                                self.scope_stack@ == old(self).scope_stack@.push(func.scope).push(id),
                                self.label == old(self).label,
                                id == w.scopes.len(),
                                self.world@.scopes.len() == w.scopes.len() + 1,
                                !self.world@.scopes[id as int].frozen,
                                k <= args@.len(),
                                params == params_view(func.args@),
                                vals == values_view(args@),
                                bind(w1, id as nat, params, vals, 0) == bind(self.world@, id as nat, params, vals, k as nat),
                            decreases args@.len() - k,
                        {
                            let r = self.world.define(id, func.args[k].0.as_str(), args[k].copy());
                            k += 1;
                        }
                        let node = node_at(&*root, &path);
                        let result = self.interpret_internal(&root, &path, node, fuel);
                        self.scope_stack.pop();
                        self.scope_stack.pop();
                        proof {
                            assert(self.scope_stack@ =~= old(self).scope_stack@);
                        }
                        result
                    }
                },
                FunctionBody::Native(Native::Print) => self.print(args),
            },
            _ => match span {
                None => Err(Halt::Stop(Stop::MissingSpan)),
                Some(s) => {
                    let body_len = s.source.body.as_str().unicode_len();
                    if !(s.start_char <= s.end_char && s.end_char <= body_len) {
                        return Err(Halt::Stop(Stop::SpanOutsideSource));
                    }
                    let mut m = string_of("`");
                    match name {
                        Some(n) => push_str(&mut m, n),
                        None => push_str(&mut m, s.content()),
                    }
                    push_str(&mut m, "` is not a function");
                    proof {
                        reveal_strlit("`");
                        reveal_strlit("` is not a function");
                        assert("`"@ =~= seq!['`']);
                    }
                    Err(Halt::Error(InterpreterError::TypeError(m, s)))
                },
            },
        }
    }

    /// Evaluates `node`, the node at `path` under `root`, in the current scope, taking at
    /// most `fuel` nested steps (see `eval`).
    fn interpret_internal(&mut self, root: &Rc<AstNode>, path: &Vec<usize>, node: &AstNode, fuel: u64) -> (r: Result<Value, Halt>)
        requires
            old(self).wf(),
            *node == subtree(**root, path@),
        ensures
            final(self).wf(),
            final(self).scope_stack@ == old(self).scope_stack@,
            final(self).label == old(self).label,
            (outcome_of(r), final(self).world@) == eval(
                old(self).world@,
                old(self).scope_stack@,
                old(self).label@,
                *root,
                path@,
                fuel as nat,
            ),
        decreases fuel, 0nat,
    {
        if fuel == 0 {
            return Err(Halt::Exhausted);
        }
        let f = fuel - 1;
        let cur = self.current_scope();
        match &*node.0.value {
            Ast::Program(nodes) => {
                let ghost w0 = self.world@;
                let mut i: usize = 0;
                while i < nodes.len()
                    invariant
                        self.wf(),
                        self.scope_stack@ == old(self).scope_stack@,
                        self.label == old(self).label,
                        *node == subtree(**root, path@),
                        *node.0.value == Ast::Program(*nodes),
                        i <= nodes@.len(),
                        fuel > 0,
                        f == fuel - 1,
                        w0 == old(self).world@,
                        eval_seq(w0, self.scope_stack@, self.label@, *root, path@, nodes@.len(), 0, f as nat)
                            == eval_seq(self.world@, self.scope_stack@, self.label@, *root, path@, nodes@.len(), i as nat, f as nat),
                    decreases nodes@.len() - i,
                {
                    let p = extended(path, i);
                    proof {
                        lemma_subtree_push(&**root, path@, i);
                    }
                    match self.interpret_internal(root, &p, &nodes[i], f) {
                        Ok(_) => {},
                        Err(h) => {
                            return Err(h);
                        },
                    }
                    i += 1;
                }
                let cur = self.current_scope();
                proof {
                    reveal_strlit("main");
                }
                let no_args: Vec<Value> = Vec::new();
                proof {
                    assert(values_view(no_args@) =~= Seq::<ValueView>::empty());
                }
                match self.world.get(cur, "main") {
                    Some(main) => self.call_function(&main, no_args, Some("main"), None, f),
                    None => Ok(Value::Nothing),
                }
            },
            Ast::Let { pattern, body, .. } => {
                let p = extended(path, 1);
                proof {
                    lemma_subtree_push(&**root, path@, 1);
                }
                let value = match self.interpret_internal(root, &p, body, f) {
                    Ok(v) => v,
                    Err(h) => {
                        return Err(h);
                    },
                };
                match self.unpack(pattern, value, body.span()) {
                    Ok(()) => Ok(Value::Nothing),
                    Err(e) => Err(Halt::Error(e)),
                }
            },
            Ast::Static { name, body, .. } => {
                let p = extended(path, 0);
                proof {
                    lemma_subtree_push(&**root, path@, 0);
                }
                let value = match self.interpret_internal(root, &p, body, f) {
                    Ok(v) => v,
                    Err(h) => {
                        return Err(h);
                    },
                };
                match self.define_here(name.value.as_str(), value) {
                    Ok(()) => Ok(Value::Nothing),
                    Err(e) => Err(Halt::Error(e)),
                }
            },
            Ast::Function { name, args, variadic, .. } => {
                let mut params: Vec<(String, ())> = Vec::new();
                let mut k: usize = 0;
                while k < args.len()
                    invariant
                        k <= args@.len(),
                        params_view(params@) == arg_names(args@.take(k as int)),
                    decreases args@.len() - k,
                {
                    let ghost before = params@;
                    params.push((args[k].0.clone(), ()));
                    proof {
                        assert(params_view(params@) =~= params_view(before).push(args@[k as int].0@));
                        assert(args@.take(k + 1) =~= args@.take(k as int).push(args@[k as int]));
                        assert(arg_names(args@.take(k + 1)) =~= arg_names(args@.take(k as int)).push(
                            args@[k as int].0@,
                        ));
                    }
                    k += 1;
                }
                proof {
                    assert(args@.take(args@.len() as int) =~= args@);
                }
                let function = Function {
                    name: name.value.clone(),
                    args: params,
                    return_type: (),
                    body: FunctionBody::Ast(Rc::clone(root), extended(path, 0)),
                    span: node.span(),
                    scope: cur,
                    variadic: *variadic,
                };
                match self.define_here(name.value.as_str(), Value::Function(function)) {
                    Ok(()) => Ok(Value::Nothing),
                    Err(e) => Err(Halt::Error(e)),
                }
            },
            Ast::Call(function, args) => {
                let p = extended(path, 0);
                proof {
                    lemma_subtree_push(&**root, path@, 0);
                }
                let callee = match self.interpret_internal(root, &p, function, f) {
                    Ok(v) => v,
                    Err(h) => {
                        return Err(h);
                    },
                };
                let ghost w1 = self.world@;
                let ghost callee_outcome = outcome_of(Ok::<Value, Halt>(callee));
                let mut span = function.span();
                let mut values: Vec<Value> = Vec::new();
                let mut i: usize = 0;
                proof {
                    assert(values_view(values@) =~= Seq::<ValueView>::empty());
                }
                while i < args.len()
                    invariant
                        self.wf(),
                        self.scope_stack@ == old(self).scope_stack@,
                        self.label == old(self).label,
                        *node == subtree(**root, path@),
                        *node.0.value == Ast::Call(*function, *args),
                        i <= args@.len(),
                        fuel > 0,
                        f == fuel - 1,
                        (callee_outcome, w1) == eval(old(self).world@, old(self).scope_stack@, old(self).label@, *root, path@.push(0), f as nat),
                        callee_outcome == Outcome::Value(callee@),
                        eval_args(w1, self.scope_stack@, self.label@, *root, path@, args@, 0, function.0.span, Seq::empty(), f as nat)
                            == eval_args(self.world@, self.scope_stack@, self.label@, *root, path@, args@, i as nat, span, values_view(values@), f as nat),
                    decreases args@.len() - i,
                {
                    span.fit(&args[i].span());
                    let p = extended(path, i + 1);
                    proof {
                        lemma_subtree_push(&**root, path@, (i + 1) as usize);
                    }
                    let v = match self.interpret_internal(root, &p, &args[i], f) {
                        Ok(v) => v,
                        Err(h) => {
                            return Err(h);
                        },
                    };
                    let ghost before = values@;
                    values.push(v);
                    proof {
                        assert(values_view(values@) =~= values_view(before).push(v@));
                    }
                    i += 1;
                }
                self.call_function(&callee, values, None, Some(span), f)
            },
            Ast::Block { statements, return_value } => {
                let ghost w0 = self.world@;
                let mut i: usize = 0;
                while i < statements.len()
                    invariant
                        self.wf(),
                        self.scope_stack@ == old(self).scope_stack@,
                        self.label == old(self).label,
                        *node == subtree(**root, path@),
                        *node.0.value == (Ast::Block { statements: *statements, return_value: *return_value }),
                        i <= statements@.len(),
                        fuel > 0,
                        f == fuel - 1,
                        w0 == old(self).world@,
                        eval_seq(w0, self.scope_stack@, self.label@, *root, path@, statements@.len(), 0, f as nat)
                            == eval_seq(self.world@, self.scope_stack@, self.label@, *root, path@, statements@.len(), i as nat, f as nat),
                    decreases statements@.len() - i,
                {
                    let p = extended(path, i);
                    proof {
                        lemma_subtree_push(&**root, path@, i);
                    }
                    match self.interpret_internal(root, &p, &statements[i], f) {
                        Ok(_) => {},
                        Err(h) => {
                            return Err(h);
                        },
                    }
                    i += 1;
                }
                match return_value {
                    Some(value) => {
                        let p = extended(path, statements.len());
                        proof {
                            lemma_subtree_push(&**root, path@, statements@.len() as usize);
                        }
                        self.interpret_internal(root, &p, value, f)
                    },
                    None => Ok(Value::Nothing),
                }
            },
            Ast::Import { names, module, module_alias } => self.import(names, module, module_alias),
            Ast::VariableAccess(name) => match self.world.get(cur, name.as_str()) {
                Some(v) => Ok(v),
                None => Err(Halt::Error(InterpreterError::UndefinedVariable(name.clone(), node.span()))),
            },
            Ast::MemberAccess(object, name) => {
                let p = extended(path, 0);
                proof {
                    lemma_subtree_push(&**root, path@, 0);
                }
                let value = match self.interpret_internal(root, &p, object, f) {
                    Ok(v) => v,
                    Err(h) => {
                        return Err(h);
                    },
                };
                proof {
                    reveal_strlit("Cannot access member variable ");
                    reveal_strlit(" of ");
                    reveal_strlit(" as it does not exist");
                    reveal_strlit("Cannot access field ");
                    reveal_strlit(" on ");
                }
                match &value {
                    Value::Module(module) => match self.world.get(module.scope, name.value.as_str()) {
                        Some(v) => Ok(v),
                        None => {
                            let mut m = string_of("Cannot access member variable ");
                            let n = debug_text(name.value.as_str());
                            push_str(&mut m, n.as_str());
                            push_str(&mut m, " of ");
                            let d = describe(&value);
                            push_str(&mut m, d.as_str());
                            push_str(&mut m, " as it does not exist");
                            Err(Halt::Error(InterpreterError::UndefinedVariable(m, name.span.copy())))
                        },
                    },
                    _ => {
                        let mut m = string_of("Cannot access field ");
                        let n = debug_text(name.value.as_str());
                        push_str(&mut m, n.as_str());
                        push_str(&mut m, " on ");
                        let d = describe(&value);
                        push_str(&mut m, d.as_str());
                        Err(Halt::Error(InterpreterError::TypeError(m, name.span.copy())))
                    },
                }
            },
            Ast::String(v) => Ok(Value::String(v.clone())),
            Ast::Integer(v) => {
                if *v <= 170141183460469231731687303715884105727u128 {
                    Ok(Value::Integer(*v as i128))
                } else {
                    Err(Halt::Stop(Stop::IntegerTooLarge))
                }
            },
            _ => Err(Halt::Stop(Stop::NotImplemented)),
        }
    }
}

/// Scope `s` holds the built-in functions: it sits in no other scope, is frozen, and
/// holds just `print`, a variadic function of one parameter `value`, defined in scope
/// `id`.
pub open spec fn builtins_scope(s: ScopeView, id: nat) -> bool {
    &&& s.parent is None
    &&& s.frozen
    &&& s.pairs.len() == 1
    &&& s.pairs[0].0 == "print"@
    &&& s.pairs[0].1 matches ValueView::Function(f) && f.name == "print"@ && f.params == seq![
        "value"@] && f.body == BodyView::Native(Native::Print) && f.scope == id && f.variadic
        && print_span(f.span)
}

/// The span the built-in `print` is defined at: the whole of an internal source that
/// reads `pub fn print() { ... }`.
pub open spec fn print_span(sp: Span) -> bool {
    &&& sp.body() == "pub fn print() { ... }"@
    &&& sp.source.name@ == "<internal value>"@
    &&& sp.graphemes() == crate::source::spec_graphemes(sp.body())
    &&& sp.start == 0 && sp.start_char == 0 && sp.start_line == 0 && sp.start_column == 0
    &&& sp.start_grapheme == 0
    &&& sp.end == crate::common::utf8_size(sp.body()) && sp.end_char == sp.body().len()
    &&& sp.end_line == 0 && sp.end_column == crate::common::utf8_size(sp.body())
    &&& sp.end_grapheme == sp.graphemes().len()
}

/// The world a program starts in: the built-ins in scope 0, the module `@nakati//std:io`
/// in scope 1 (within the built-ins) holding `life` as 42, both in the pool, and nothing
/// written.
pub open spec fn default_world(w: WorldView) -> bool {
    &&& w.scopes.len() == 2
    &&& builtins_scope(w.scopes[0], 0)
    &&& w.scopes[1] == (ScopeView { parent: Some(0), pairs: seq![("life"@, ValueView::Integer(42))], frozen: false })
    &&& w.pool == seq![("<builtins>"@, 0nat), ("@nakati//std:io"@, 1nat)]
    &&& w.output.len() == 0
}

/// What running a module gives: where the built-ins are missing, a stop; otherwise the
/// outcome of evaluating its tree in a new scope within the built-ins, and that scope.
pub open spec fn module_spec(w: WorldView, label: LabelView, root: Rc<AstNode>, fuel: nat) -> (Outcome, nat, WorldView) {
    match pool_lookup(w.pool, "<builtins>"@) {
        None => (Outcome::Stop(Stop::NoBuiltins), 0, w),
        Some(b) => {
            let id = w.scopes.len();
            let (o, w2) = eval(with_scope(w, b), seq![b as usize, id as usize], label, root, Seq::empty(), fuel);
            (o, id, w2)
        },
    }
}

/// The halt that an outcome other than a value stands for.
pub open spec fn halted(r: Result<usize, Halt>, o: Outcome, id: nat) -> bool {
    match o {
        Outcome::Value(_) => r == Ok::<usize, Halt>(id as usize),
        _ => r matches Err(h) && outcome_of(Err(h)) == o,
    }
}

/// Adds the scope of built-in functions to the world; its index.
pub fn make_builtins(world: &mut World) -> (r: usize)
    ensures
        r == old(world)@.scopes.len(),
        final(world)@.scopes.len() == r + 1,
        final(world)@.scopes.take(r as int) == old(world)@.scopes,
        builtins_scope(final(world)@.scopes[r as int], r as nat),
        final(world)@.pool == old(world)@.pool,
        final(world)@.output == old(world)@.output,
{
    let builtins = world.new_scope(None);
    let mut args: Vec<(String, ())> = Vec::new();
    args.push((string_of("value"), ()));
    proof {
        reveal_strlit("pub fn print() { ... }");
    }
    let print_span = Span::new_string("pub fn print() { ... }");
    let print = Function {
        name: string_of("print"),
        args,
        return_type: (),
        body: FunctionBody::Native(Native::Print),
        span: print_span,
        scope: builtins,
        variadic: true,
    };
    let ghost pv = print@;
    proof {
        reveal_strlit("pub fn print() { ... }");
        assert(params_view(print.args@) =~= seq!["value"@]);
    }
    let defined = world.define(builtins, "print", Value::Function(print));
    world.freeze(builtins);
    proof {
        assert(final(world)@.scopes.take(builtins as int) =~= old(world)@.scopes);
        assert(Seq::<(Seq<char>, ValueView)>::empty().len() == 0);
        assert(assign(Seq::<(Seq<char>, ValueView)>::empty(), "print"@, ValueView::Function(pv)) =~= seq![("print"@, ValueView::Function(pv))]);
    }
    builtins
}

/// The world a program starts in (see `default_world`).
pub fn make_default_imports() -> (r: World)
    ensures
        default_world(r@),
{
    let mut world = World::new();
    let builtins = make_builtins(&mut world);
    world.set_pool("<builtins>", builtins);
    let io = world.new_scope(Some(builtins));
    let defined = world.define(io, "life", Value::Integer(42));
    world.set_pool("@nakati//std:io", io);
    proof {
        assert(assign(Seq::<(Seq<char>, ValueView)>::empty(), "life"@, ValueView::Integer(42)) =~= seq![("life"@, ValueView::Integer(42))]);
        assert(world@.pool =~= seq![("<builtins>"@, 0nat), ("@nakati//std:io"@, 1nat)]);
        assert(world@.scopes[0] == world@.scopes.take(1)[0]);
    }
    world
}

impl Interpreter {
    /// Runs the tree of a module (with `label`) in a new scope within the built-ins of
    /// `world`: the scope it defined, or why it stopped, and the world afterwards (see
    /// `module_spec`).
    pub fn evaluate_module(ast: Rc<AstNode>, label: ModuleLabel, world: World, fuel: u64) -> (r: (Result<usize, Halt>, World))
        ensures
            module_spec(world@, label@, ast, fuel as nat).2 == r.1@,
            halted(r.0, module_spec(world@, label@, ast, fuel as nat).0, module_spec(world@, label@, ast, fuel as nat).1),
    {
        proof {
            reveal_strlit("<builtins>");
        }
        let builtins = match world.pool_get("<builtins>") {
            Some(b) => b,
            None => {
                return (Err(Halt::Stop(Stop::NoBuiltins)), world);
            },
        };
        let mut this = Interpreter { world, scope_stack: Vec::new(), label };
        this.scope_stack.push(builtins);
        let id = this.world.new_scope(Some(builtins));
        this.scope_stack.push(id);
        let root: Vec<usize> = Vec::new();
        proof {
            assert(subtree(*ast, root@) == *ast);
            assert(this.scope_stack@ =~= seq![builtins, id]);
        }
        let r = this.interpret_internal(&ast, &root, &*ast, fuel);
        match r {
            Ok(_) => {
                let scope = this.current_scope();
                this.scope_stack.pop();
                (Ok(scope), this.world)
            },
            Err(h) => (Err(h), this.world),
        }
    }

    /// Runs a program with the given label from the world it starts in: the outcome (the
    /// program's result is not kept: a program that runs through gives nothing) and the
    /// world afterwards, with the lines it wrote.
    pub fn interpret(ast: AstNode, label: ModuleLabel) -> (r: (Result<Value, Halt>, World))
        ensures
            exists|w0: WorldView|
                default_world(w0) && #[trigger] module_spec(w0, label@, Rc::new(ast), u64::MAX as nat).2
                    == r.1@ && match module_spec(w0, label@, Rc::new(ast), u64::MAX as nat).0 {
                    Outcome::Value(_) => r.0 matches Ok(v) && v@ == ValueView::Nothing,
                    o => r.0 matches Err(h) && outcome_of(Err(h)) == o,
                },
    {
        let root = Rc::new(ast);
        let world = make_default_imports();
        let ghost w0 = world@;
        let (scope, world) = Self::evaluate_module(root, label, world, u64::MAX);
        match scope {
            Ok(_) => (Ok(Value::Nothing), world),
            Err(h) => (Err(h), world),
        }
    }
}


/// Setting a name in a scope keeps the world's shape.
proof fn lemma_set_in_wf(w: WorldView, id: nat, key: Seq<char>, value: ValueView)
    requires
        world_wf(w),
        id < w.scopes.len(),
    ensures
        world_wf(set_in(w, id, key, value)),
        set_in(w, id, key, value).scopes.len() == w.scopes.len(),
{
    let w2 = set_in(w, id, key, value);
    assert forall|i: int| 0 <= i < w2.scopes.len() implies ((#[trigger] w2.scopes[i]).parent matches Some(
        p,
    ) ==> p < i) by {
        assert(w2.scopes[i].parent == w.scopes[i].parent);
    }
}

/// Binding parameters `k` and on keeps what a name that none of them has reads, and the
/// world's shape.
proof fn lemma_bind_keeps(
    w: WorldView,
    id: nat,
    params: Seq<Seq<char>>,
    args: Seq<ValueView>,
    k: nat,
    key: Seq<char>,
)
    requires
        world_wf(w),
        id < w.scopes.len(),
        forall|i: int| k <= i < params.len() ==> #[trigger] params[i] != key,
    ensures
        get_spec(bind(w, id, params, args, k), id, key) == get_spec(w, id, key),
        world_wf(bind(w, id, params, args, k)),
        bind(w, id, params, args, k).scopes.len() == w.scopes.len(),
    decreases params.len() - k,
{
    if k < params.len() && k < args.len() {
        let w1 = set_in(w, id, params[k as int], args[k as int]);
        law_define_keeps_other_names(w, id, params[k as int], args[k as int], id, key);
        lemma_set_in_wf(w, id, params[k as int], args[k as int]);
        lemma_bind_keeps(w1, id, params, args, k + 1, key);
    }
}

/// Binding from parameter `k` on gives parameter `j` (at or after `k`) its argument.
proof fn lemma_bind_sets(w: WorldView, id: nat, params: Seq<Seq<char>>, args: Seq<ValueView>, k: nat, j: int)
    requires
        world_wf(w),
        id < w.scopes.len(),
        k <= j < params.len(),
        j < args.len(),
        forall|a: int, b: int| 0 <= a < b < params.len() ==> #[trigger] params[a] != #[trigger] params[b],
    ensures
        get_spec(bind(w, id, params, args, k), id, params[j]) == Some(args[j]),
    decreases j - k,
{
    let w1 = set_in(w, id, params[k as int], args[k as int]);
    lemma_set_in_wf(w, id, params[k as int], args[k as int]);
    if k == j {
        law_define_then_get(w, id, params[j], args[j]);
        assert forall|i: int| k + 1 <= i < params.len() implies #[trigger] params[i] != params[j] by {
            assert(params[j] != params[i]);
        }
        lemma_bind_keeps(w1, id, params, args, k + 1, params[j]);
    } else {
        lemma_bind_sets(w1, id, params, args, k + 1, j);
    }
}

/// A call gives each parameter its own argument: after binding the arguments of a call
/// in the callee's new scope, each parameter (with the parameters named apart) reads the
/// argument in the same place, for as many places as both lists have.
pub proof fn law_call_binds_each_parameter(
    w: WorldView,
    id: nat,
    params: Seq<Seq<char>>,
    args: Seq<ValueView>,
    j: int,
)
    requires
        world_wf(w),
        id < w.scopes.len(),
        0 <= j < params.len(),
        j < args.len(),
        forall|a: int, b: int| 0 <= a < b < params.len() ==> #[trigger] params[a] != #[trigger] params[b],
    ensures
        get_spec(bind(w, id, params, args, 0), id, params[j]) == Some(args[j]),
{
    lemma_bind_sets(w, id, params, args, 0, j);
}

} // verus!
