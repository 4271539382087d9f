use vstd::prelude::*;
use vstd::std_specs::cmp::PartialEqSpecImpl;
use crate::text::{join, push_str, string_of};

verus! {

/// The name of a type variable or type constructor.
#[derive(Debug)]
pub struct TypeName(pub String);

impl View for TypeName {
    type V = Seq<char>;

    open spec fn view(&self) -> Seq<char> {
        self.0@
    }
}

impl TypeName {
    /// A type name holding the given text.
    pub fn new(name: &str) -> (r: TypeName)
        ensures
            r@ == name@,
    {
        TypeName(string_of(name))
    }

    /// A copy of this name.
    pub fn copy(&self) -> (r: TypeName)
        ensures
            r@ == self@,
    {
        TypeName(self.0.clone())
    }
}

/// A monotype: a type variable, or a type constructor applied to arguments.
#[derive(Debug)]
pub enum Monotype {
    Variable(TypeName),
    Application(Box<Monotype>, Vec<Monotype>),
}

/// The mathematical value of a `Monotype`.
pub enum MonoView {
    Var(Seq<char>),
    App(Box<MonoView>, Seq<MonoView>),
}

pub open spec fn mono_view(m: Monotype) -> MonoView
    decreases m,
{
    match m {
        Monotype::Variable(name) => MonoView::Var(name@),
        Monotype::Application(f, args) => MonoView::App(
            Box::new(mono_view(*f)),
            Seq::new(
                args@.len(),
                |i: int|
                    if 0 <= i < args@.len() {
                        mono_view(args@[i])
                    } else {
                        MonoView::Var(Seq::empty())
                    },
            ),
        ),
    }
}

impl View for Monotype {
    type V = MonoView;

    open spec fn view(&self) -> MonoView {
        mono_view(*self)
    }
}

/// A polytype: a monotype under zero or more universal quantifiers.
#[derive(Debug)]
pub enum Polytype {
    Monotype(Monotype),
    Quantifier(TypeName, Box<Polytype>),
}

/// The mathematical value of a `Polytype`.
pub enum PolyView {
    Mono(MonoView),
    Forall(Seq<char>, Box<PolyView>),
}

pub open spec fn poly_view(p: Polytype) -> PolyView
    decreases p,
{
    match p {
        Polytype::Monotype(m) => PolyView::Mono(mono_view(m)),
        Polytype::Quantifier(name, body) => PolyView::Forall(name@, Box::new(poly_view(*body))),
    }
}

impl View for Polytype {
    type V = PolyView;

    open spec fn view(&self) -> PolyView {
        poly_view(*self)
    }
}

/// One replacement `from ↦ to` of a substitution.
#[derive(Debug)]
pub struct Maplet(pub Polytype, pub Polytype);

impl View for Maplet {
    type V = (PolyView, PolyView);

    open spec fn view(&self) -> (PolyView, PolyView) {
        (self.0@, self.1@)
    }
}

/// A substitution: an ordered list of maplets, the first matching one applies.
#[derive(Debug)]
pub struct Substitution(pub Vec<Maplet>);

pub type SubstView = Seq<(PolyView, PolyView)>;

impl View for Substitution {
    type V = SubstView;

    open spec fn view(&self) -> SubstView {
        maplets_view(self.0@)
    }
}

// ---------------------------------------------------------------------------
// The mathematical model of substitution.
// ---------------------------------------------------------------------------
/// The polytype made of a bare type variable.
pub open spec fn var_key(x: Seq<char>) -> PolyView {
    PolyView::Mono(MonoView::Var(x))
}

/// The right-hand side of the first maplet of `s` whose left-hand side is `k`.
pub open spec fn lookup(s: SubstView, k: PolyView) -> Option<PolyView>
    decreases s.len(),
{
    if s.len() == 0 {
        None
    } else if s[0].0 == k {
        Some(s[0].1)
    } else {
        lookup(s.drop_first(), k)
    }
}

/// Holds of the maplets whose left-hand side is not `k`.
pub open spec fn keeps(k: PolyView) -> spec_fn((PolyView, PolyView)) -> bool {
    |m: (PolyView, PolyView)| m.0 != k
}

/// `s` with every maplet whose left-hand side is `k` removed.
pub open spec fn exclude_spec(s: SubstView, k: PolyView) -> SubstView {
    s.filter(keeps(k))
}

/// Substituting into `m` does not meet a variable that `s` maps to a quantified type.
pub open spec fn mono_ok(s: SubstView, m: MonoView) -> bool
    decreases m,
{
    match m {
        MonoView::Var(x) => !(lookup(s, var_key(x)) matches Some(PolyView::Forall(_, _))),
        MonoView::App(f, args) => mono_ok(s, *f) && forall|i: int|
            0 <= i < args.len() ==> mono_ok(s, #[trigger] args[i]),
    }
}

/// Applying `s` to the monotype `m`: each variable is replaced by the first matching maplet.
pub open spec fn subst_mono(s: SubstView, m: MonoView) -> MonoView
    decreases m,
{
    match m {
        MonoView::Var(x) => match lookup(s, var_key(x)) {
            Some(PolyView::Mono(r)) => r,
            _ => m,
        },
        MonoView::App(f, args) => MonoView::App(
            Box::new(subst_mono(s, *f)),
            Seq::new(
                args.len(),
                |i: int|
                    if 0 <= i < args.len() {
                        subst_mono(s, args[i])
                    } else {
                        MonoView::Var(Seq::empty())
                    },
            ),
        ),
    }
}

/// Substituting into `p` does not meet a variable that `s` maps to a quantified type.
pub open spec fn poly_ok(s: SubstView, p: PolyView) -> bool
    decreases p,
{
    match p {
        PolyView::Mono(m) => mono_ok(s, m),
        PolyView::Forall(x, b) => poly_ok(exclude_spec(s, var_key(x)), *b),
    }
}

/// Applying `s` to the polytype `p`; a quantified variable is not substituted under its binder.
pub open spec fn subst_poly(s: SubstView, p: PolyView) -> PolyView
    decreases p,
{
    match p {
        PolyView::Mono(m) => PolyView::Mono(subst_mono(s, m)),
        PolyView::Forall(x, b) => PolyView::Forall(
            x,
            Box::new(subst_poly(exclude_spec(s, var_key(x)), *b)),
        ),
    }
}

/// The left-hand sides of the maplets of `s`, in order.
pub open spec fn keys(s: SubstView) -> Seq<PolyView> {
    s.map_values(|m: (PolyView, PolyView)| m.0)
}

/// `ks` with later repetitions dropped.
pub open spec fn unique(ks: Seq<PolyView>) -> Seq<PolyView>
    decreases ks.len(),
{
    if ks.len() == 0 {
        ks
    } else {
        let r = unique(ks.drop_last());
        if r.contains(ks.last()) {
            r
        } else {
            r.push(ks.last())
        }
    }
}

/// The maplet that composition gives the key `k`.
pub open spec fn compose_entry(s1: SubstView, s2: SubstView) -> spec_fn(PolyView) -> (PolyView, PolyView) {
    |k: PolyView| (k, subst_poly(s1, subst_poly(s2, k)))
}

/// The composition of `s1` after `s2`: each key of either maps to `s1(s2(key))`.
pub open spec fn compose_spec(s1: SubstView, s2: SubstView) -> SubstView {
    unique(keys(s1 + s2)).map_values(compose_entry(s1, s2))
}

/// The values of a sequence of polytypes.
pub open spec fn polys_view(v: Seq<Polytype>) -> Seq<PolyView> {
    v.map_values(|p: Polytype| p@)
}

/// The values of a sequence of maplets.
pub open spec fn maplets_view(v: Seq<Maplet>) -> SubstView {
    v.map_values(|m: Maplet| m@)
}

/// Composing `s1` after `s2` meets no variable mapped to a quantified type.
pub open spec fn compose_ok(s1: SubstView, s2: SubstView) -> bool {
    forall|i: int|
        0 <= i < (s1 + s2).len() ==> {
            &&& poly_ok(s2, #[trigger] (s1 + s2)[i].0)
            &&& poly_ok(s1, subst_poly(s2, (s1 + s2)[i].0))
        }
}

// ---------------------------------------------------------------------------
// Equality and copies.
// ---------------------------------------------------------------------------
impl Monotype {
    /// Structural equality of two monotypes.
    #[verifier::loop_isolation(false)]
    pub fn same_as(&self, other: &Monotype) -> (r: bool)
        ensures
            r == (self@ == other@),
        decreases self,
    {
        match (self, other) {
            (Monotype::Variable(a), Monotype::Variable(b)) => a.0 == b.0,
            (Monotype::Application(f, xs), Monotype::Application(g, ys)) => {
                if !f.same_as(g) {
                    return false;
                }
                if xs.len() != ys.len() {
                    assert(self@->App_1.len() != other@->App_1.len());
                    return false;
                }
                let mut i: usize = 0;
                while i < xs.len()
                    invariant
                        xs@.len() == ys@.len(),
                        i <= xs@.len(),
                        forall|j: int| 0 <= j < i ==> mono_view(#[trigger] xs@[j]) == mono_view(ys@[j]),
                    decreases xs@.len() - i,
                {
                    if !xs[i].same_as(&ys[i]) {
                        assert(self@->App_1[i as int] != other@->App_1[i as int]);
                        return false;
                    }
                    i += 1;
                }
                assert(self@->App_1 =~= other@->App_1);
                true
            },
            _ => false,
        }
    }

    /// A copy of this monotype with the same value.
    #[verifier::loop_isolation(false)]
    pub fn copy(&self) -> (r: Monotype)
        ensures
            r@ == self@,
        decreases self,
    {
        match self {
            Monotype::Variable(a) => Monotype::Variable(a.copy()),
            Monotype::Application(f, xs) => {
                let g = f.copy();
                let mut ys: Vec<Monotype> = Vec::new();
                let mut i: usize = 0;
                while i < xs.len()
                    invariant
                        i <= xs@.len(),
                        ys@.len() == i,
                        forall|j: int| 0 <= j < i ==> mono_view(#[trigger] ys@[j]) == mono_view(xs@[j]),
                    decreases xs@.len() - i,
                {
                    let y = xs[i].copy();
                    ys.push(y);
                    i += 1;
                }
                let r = Monotype::Application(Box::new(g), ys);
                assert(r@->App_1 =~= self@->App_1);
                r
            },
        }
    }
}

impl Polytype {
    /// The polytype made of the type variable `name`.
    pub fn from_typename(name: &str) -> (r: Polytype)
        ensures
            r@ == var_key(name@),
    {
        Polytype::Monotype(Monotype::Variable(TypeName::new(name)))
    }

    /// Structural equality of two polytypes.
    pub fn same_as(&self, other: &Polytype) -> (r: bool)
        ensures
            r == (self@ == other@),
        decreases self,
    {
        match (self, other) {
            (Polytype::Monotype(a), Polytype::Monotype(b)) => a.same_as(b),
            (Polytype::Quantifier(x, a), Polytype::Quantifier(y, b)) => x.0 == y.0 && a.same_as(b),
            _ => false,
        }
    }

    /// A copy of this polytype with the same value.
    pub fn copy(&self) -> (r: Polytype)
        ensures
            r@ == self@,
        decreases self,
    {
        match self {
            Polytype::Monotype(m) => Polytype::Monotype(m.copy()),
            Polytype::Quantifier(x, b) => Polytype::Quantifier(x.copy(), Box::new(b.copy())),
        }
    }
}

impl Maplet {
    /// The maplet `from ↦ to` between two type variables.
    pub fn map(from: &str, to: &str) -> (r: Maplet)
        ensures
            r@ == (var_key(from@), var_key(to@)),
    {
        Maplet(Polytype::from_typename(from), Polytype::from_typename(to))
    }

    /// A copy of this maplet.
    pub fn copy(&self) -> (r: Maplet)
        ensures
            r@ == self@,
    {
        Maplet(self.0.copy(), self.1.copy())
    }

    /// Replaces `mono` when it is the left-hand side of this maplet.
    pub fn apply_mono(&self, mono: &Monotype) -> (r: Option<Monotype>)
        requires
            self.0@ == PolyView::Mono(mono@) ==> self.1@ is Mono,
        ensures
            r is Some <==> self.0@ == PolyView::Mono(mono@),
            r matches Some(x) ==> PolyView::Mono(x@) == self.1@,
    {
        let same = match &self.0 {
            Polytype::Monotype(m) => m.same_as(mono),
            Polytype::Quantifier(_, _) => false,
        };
        if same {
            match &self.1 {
                Polytype::Monotype(to) => Some(to.copy()),
                Polytype::Quantifier(_, _) => {
                    assert(false);
                    None
                },
            }
        } else {
            None
        }
    }

    /// Replaces `poly` when it is the left-hand side of this maplet.
    pub fn apply(&self, poly: &Polytype) -> (r: Option<Polytype>)
        ensures
            r is Some <==> poly@ == self.0@,
            r matches Some(x) ==> x@ == self.1@,
    {
        if poly.same_as(&self.0) {
            Some(self.1.copy())
        } else {
            None
        }
    }
}


/// Whether `v` holds a polytype equal to `p`.
fn contains_poly(v: &Vec<Polytype>, p: &Polytype) -> (r: bool)
    ensures
        r == polys_view(v@).contains(p@),
{
    let mut i: usize = 0;
    while i < v.len()
        invariant
            i <= v@.len(),
            forall|j: int| 0 <= j < i ==> v@[j]@ != p@,
        decreases v@.len() - i,
    {
        if v[i].same_as(p) {
            assert(polys_view(v@)[i as int] == p@);
            return true;
        }
        i += 1;
    }
    proof {
        if polys_view(v@).contains(p@) {
            let j = choose|j: int| 0 <= j < polys_view(v@).len() && polys_view(v@)[j] == p@;
            assert(v@[j]@ == p@);
        }
    }
    false
}

/// A key that `unique` keeps occurs in the given sequence, and conversely.
pub proof fn lemma_unique_contains(ks: Seq<PolyView>, k: PolyView)
    ensures
        unique(ks).contains(k) <==> ks.contains(k),
    decreases ks.len(),
{
    if ks.len() > 0 {
        let r = unique(ks.drop_last());
        lemma_unique_contains(ks.drop_last(), k);
        if ks.contains(k) && !ks.drop_last().contains(k) {
            let j = choose|j: int| 0 <= j < ks.len() && ks[j] == k;
            if j < ks.len() - 1 {
                assert(ks.drop_last()[j] == k);
            }
            assert(ks.last() == k);
            if !r.contains(ks.last()) {
                assert(r.push(ks.last())[r.len() as int] == k);
            }
        }
        if ks.drop_last().contains(k) {
            let j = choose|j: int| 0 <= j < ks.drop_last().len() && ks.drop_last()[j] == k;
            assert(ks[j] == k);
            if !r.contains(ks.last()) {
                let i = choose|i: int| 0 <= i < r.len() && r[i] == k;
                assert(r.push(ks.last())[i] == k);
            }
        }
        if unique(ks).contains(k) && !r.contains(k) {
            assert(k == ks.last());
            assert(ks[ks.len() - 1] == k);
        }
    }
}

impl Substitution {
    /// Applies this substitution to a monotype: each variable is replaced by the
    /// right-hand side of the first maplet whose left-hand side is that variable.
    #[verifier::loop_isolation(false)]
    pub fn substitute_monotype(&self, mono: &Monotype) -> (r: Monotype)
        requires
            mono_ok(self@, mono@),
        ensures
            r@ == subst_mono(self@, mono@),
        decreases mono,
    {
        match mono {
            Monotype::Variable(_) => {
                let ghost key = PolyView::Mono(mono@);
                assert(self@.subrange(0, self@.len() as int) =~= self@);
                let mut i: usize = 0;
                while i < self.0.len()
                    invariant
                        i <= self@.len(),
                        lookup(self@, key) == lookup(self@.subrange(i as int, self@.len() as int), key),
                    decreases self.0@.len() - i,
                {
                    let ghost rest = self@.subrange(i as int, self@.len() as int);
                    assert(rest[0] == self@[i as int]);
                    if let Some(applied) = self.0[i].apply_mono(mono) {
                        return applied;
                    }
                    assert(rest.drop_first() =~= self@.subrange(i + 1, self@.len() as int));
                    i += 1;
                }
                mono.copy()
            },
            Monotype::Application(function, args) => {
                let f = self.substitute_monotype(function);
                let mut out: Vec<Monotype> = Vec::new();
                let mut i: usize = 0;
                while i < args.len()
                    invariant
                        i <= args@.len(),
                        out@.len() == i,
                        forall|j: int|
                            0 <= j < i ==> mono_view(#[trigger] out@[j]) == subst_mono(
                                self@,
                                mono_view(args@[j]),
                            ),
                    decreases args@.len() - i,
                {
                    assert(mono@->App_1[i as int] == mono_view(args@[i as int]));
                    let y = self.substitute_monotype(&args[i]);
                    out.push(y);
                    i += 1;
                }
                let r = Monotype::Application(Box::new(f), out);
                assert(r@->App_1 =~= subst_mono(self@, mono@)->App_1);
                r
            },
        }
    }

    /// Applies this substitution to a polytype; under a quantifier, maplets for the
    /// quantified variable are left out.
    pub fn substitute(&self, poly: &Polytype) -> (r: Polytype)
        requires
            poly_ok(self@, poly@),
        ensures
            r@ == subst_poly(self@, poly@),
        decreases poly,
    {
        match poly {
            Polytype::Monotype(m) => Polytype::Monotype(self.substitute_monotype(m)),
            Polytype::Quantifier(forall, body) => {
                let key = Polytype::Monotype(Monotype::Variable(forall.copy()));
                let inner = self.exclude(&key);
                Polytype::Quantifier(forall.copy(), Box::new(inner.substitute(body)))
            },
        }
    }

    /// This substitution without the maplets whose left-hand side is `poly`.
    pub fn exclude(&self, poly: &Polytype) -> (r: Self)
        ensures
            r@ == exclude_spec(self@, poly@),
    {
        let mut out: Vec<Maplet> = Vec::new();
        let mut i: usize = 0;
        while i < self.0.len()
            invariant
                i <= self@.len(),
                maplets_view(out@) == self@.take(i as int).filter(keeps(poly@)),
            decreases self.0@.len() - i,
        {
            proof {
                reveal_with_fuel(Seq::filter, 1);
                assert(self@.take(i + 1).drop_last() =~= self@.take(i as int));
            }
            if !self.0[i].0.same_as(poly) {
                let m = self.0[i].copy();
                out.push(m);
                assert(maplets_view(out@) =~= self@.take(i + 1).filter(keeps(poly@)));
            }
            i += 1;
        }
        assert(self@.take(self@.len() as int) =~= self@);
        Substitution(out)
    }

    /// Composes two substitutions so that it is equivalent to `self(other(...))`: every
    /// left-hand side of either, in order and once, maps to `self(other(key))`.
    #[verifier::loop_isolation(false)]
    pub fn compose(&self, other: &Self) -> (r: Self)
        requires
            compose_ok(self@, other@),
        ensures
            r@ == compose_spec(self@, other@),
    {
        let ghost k1 = keys(self@);
        let ghost k2 = keys(other@);
        let mut ks: Vec<Polytype> = Vec::new();
        let mut i: usize = 0;
        while i < self.0.len()
            invariant
                i <= self@.len(),
                polys_view(ks@) == unique(k1.take(i as int)),
            decreases self.0@.len() - i,
        {
            assert(k1.take(i + 1).drop_last() =~= k1.take(i as int));
            if !contains_poly(&ks, &self.0[i].0) {
                let k = self.0[i].0.copy();
                ks.push(k);
                assert(polys_view(ks@) =~= unique(k1.take(i + 1)));
            }
            i += 1;
        }
        assert(k1.take(self@.len() as int) =~= k1 + k2.take(0));
        let mut j: usize = 0;
        while j < other.0.len()
            invariant
                j <= other@.len(),
                polys_view(ks@) == unique(k1 + k2.take(j as int)),
            decreases other.0@.len() - j,
        {
            assert((k1 + k2.take(j + 1)).drop_last() =~= k1 + k2.take(j as int));
            assert((k1 + k2.take(j + 1)).last() == other@[j as int].0);
            if !contains_poly(&ks, &other.0[j].0) {
                let k = other.0[j].0.copy();
                ks.push(k);
                assert(polys_view(ks@) =~= unique(k1 + k2.take(j + 1)));
            }
            j += 1;
        }
        assert(k1 + k2.take(other@.len() as int) =~= keys(self@ + other@));
        let ghost all = unique(keys(self@ + other@));
        let mut out: Vec<Maplet> = Vec::new();
        let mut n: usize = 0;
        while n < ks.len()
            invariant
                n <= ks@.len(),
                polys_view(ks@) == all,
                maplets_view(out@) == all.take(n as int).map_values(compose_entry(self@, other@)),
            decreases ks@.len() - n,
        {
            proof {
                let k = ks@[n as int]@;
                assert(all[n as int] == k);
                assert(all.contains(k));
                lemma_unique_contains(keys(self@ + other@), k);
                let t = choose|t: int| 0 <= t < keys(self@ + other@).len() && keys(self@ + other@)[t] == k;
                assert((self@ + other@)[t].0 == k);
            }
            let inner = other.substitute(&ks[n]);
            let outer = self.substitute(&inner);
            let m = Maplet(ks[n].copy(), outer);
            assert(m@ == (compose_entry(self@, other@))(all[n as int]));
            let ghost before = out@;
            out.push(m);
            assert(maplets_view(out@) =~= maplets_view(before).push(m@));
            assert(all.take(n + 1).map_values(compose_entry(self@, other@)) =~= all.take(
                n as int,
            ).map_values(compose_entry(self@, other@)).push(m@));
            n += 1;
        }
        assert(all.take(ks@.len() as int) =~= all);
        Substitution(out)
    }
}


/// A lookup that succeeds finds a left-hand side of `s`.
proof fn lemma_lookup_key(s: SubstView, k: PolyView)
    ensures
        lookup(s, k) is Some ==> keys(s).contains(k),
        !keys(s).contains(k) ==> lookup(s, k) is None,
    decreases s.len(),
{
    if s.len() > 0 {
        lemma_lookup_key(s.drop_first(), k);
        if s[0].0 == k {
            assert(keys(s)[0] == k);
        } else if keys(s.drop_first()).contains(k) {
            let j = choose|j: int| 0 <= j < keys(s.drop_first()).len() && keys(s.drop_first())[j] == k;
            assert(keys(s)[j + 1] == k);
        }
    }
}

/// Looking up a key in a sequence of maplets built from keys by `entry`.
proof fn lemma_lookup_entries(ks: Seq<PolyView>, entry: spec_fn(PolyView) -> (PolyView, PolyView), k: PolyView)
    requires
        forall|x: PolyView| #[trigger] entry(x).0 == x,
    ensures
        lookup(ks.map_values(entry), k) == if ks.contains(k) {
            Some(entry(k).1)
        } else {
            None
        },
    decreases ks.len(),
{
    if ks.len() > 0 {
        let m = ks.map_values(entry);
        assert(m.drop_first() =~= ks.drop_first().map_values(entry));
        lemma_lookup_entries(ks.drop_first(), entry, k);
        assert(m[0] == entry(ks[0]));
        if ks[0] != k {
            if ks.contains(k) {
                let j = choose|j: int| 0 <= j < ks.len() && ks[j] == k;
                assert(ks.drop_first()[j - 1] == k);
            }
            if ks.drop_first().contains(k) {
                let j = choose|j: int| 0 <= j < ks.drop_first().len() && ks.drop_first()[j] == k;
                assert(ks[j + 1] == k);
            }
        } else {
            assert(ks[0] == k);
        }
    }
}

/// What composition gives a type variable.
proof fn lemma_compose_lookup(s1: SubstView, s2: SubstView, x: Seq<char>)
    requires
        compose_ok(s1, s2),
    ensures
        keys(s1 + s2).contains(var_key(x)) ==> {
            &&& lookup(compose_spec(s1, s2), var_key(x)) == Some(
                subst_poly(s1, subst_poly(s2, var_key(x))),
            )
            &&& poly_ok(s2, var_key(x))
            &&& poly_ok(s1, subst_poly(s2, var_key(x)))
        },
        !keys(s1 + s2).contains(var_key(x)) ==> {
            &&& lookup(compose_spec(s1, s2), var_key(x)) is None
            &&& lookup(s1, var_key(x)) is None
            &&& lookup(s2, var_key(x)) is None
        },
{
    let k = var_key(x);
    let entry = compose_entry(s1, s2);
    assert forall|y: PolyView| #[trigger] entry(y).0 == y by {}
    lemma_unique_contains(keys(s1 + s2), k);
    lemma_lookup_entries(unique(keys(s1 + s2)), entry, k);
    if keys(s1 + s2).contains(k) {
        let t = choose|t: int| 0 <= t < keys(s1 + s2).len() && keys(s1 + s2)[t] == k;
        assert((s1 + s2)[t].0 == k);
    } else {
        lemma_lookup_key(s1, k);
        lemma_lookup_key(s2, k);
        if keys(s1).contains(k) {
            let t = choose|t: int| 0 <= t < keys(s1).len() && keys(s1)[t] == k;
            assert(keys(s1 + s2)[t] == k);
        }
        if keys(s2).contains(k) {
            let t = choose|t: int| 0 <= t < keys(s2).len() && keys(s2)[t] == k;
            assert(keys(s1 + s2)[s1.len() + t] == k);
        }
    }
}

/// Composition is application in sequence: wherever `compose` does not panic, the
/// composed substitution applied to any monotype equals `s1` applied to the result of
/// `s2`, and neither side panics.
pub proof fn law_compose_monotype(s1: SubstView, s2: SubstView, m: MonoView)
    requires
        compose_ok(s1, s2),
    ensures
        mono_ok(s2, m),
        mono_ok(s1, subst_mono(s2, m)),
        mono_ok(compose_spec(s1, s2), m),
        subst_mono(compose_spec(s1, s2), m) == subst_mono(s1, subst_mono(s2, m)),
    decreases m,
{
    match m {
        MonoView::Var(x) => {
            lemma_compose_lookup(s1, s2, x);
        },
        MonoView::App(f, args) => {
            law_compose_monotype(s1, s2, *f);
            assert forall|i: int| 0 <= i < args.len() implies {
                &&& mono_ok(s2, #[trigger] args[i])
                &&& mono_ok(s1, subst_mono(s2, args[i]))
                &&& mono_ok(compose_spec(s1, s2), args[i])
                &&& subst_mono(compose_spec(s1, s2), args[i]) == subst_mono(s1, subst_mono(s2, args[i]))
            } by {
                law_compose_monotype(s1, s2, args[i]);
            }
            let inner = subst_mono(s2, m);
            assert forall|i: int| 0 <= i < args.len() implies mono_ok(s1, #[trigger] inner->App_1[i]) by {
                assert(inner->App_1[i] == subst_mono(s2, args[i]));
            }
            assert(subst_mono(compose_spec(s1, s2), m)->App_1 =~= subst_mono(s1, inner)->App_1);
        },
    }
}

/// Composition on polytypes without quantifiers is application in sequence as well.
pub proof fn law_compose_unquantified(s1: SubstView, s2: SubstView, m: MonoView)
    requires
        compose_ok(s1, s2),
    ensures
        poly_ok(compose_spec(s1, s2), PolyView::Mono(m)),
        subst_poly(compose_spec(s1, s2), PolyView::Mono(m)) == subst_poly(
            s1,
            subst_poly(s2, PolyView::Mono(m)),
        ),
{
    law_compose_monotype(s1, s2, m);
}


// ---------------------------------------------------------------------------
// Text forms.
// ---------------------------------------------------------------------------
/// The name of the function type constructor.
pub open spec fn arrow_name() -> Seq<char> {
    seq!['-', '>']
}

/// The separator between arguments: an arrow for function types, else a space.
pub open spec fn arg_separator(f: MonoView) -> Seq<char> {
    if f == MonoView::Var(arrow_name()) {
        seq![' ', '\u{2192}', ' ']
    } else {
        seq![' ']
    }
}

/// The text of a monotype: a variable is its name; an application with arguments is
/// its arguments in brackets, between them an arrow for a function type and a space
/// otherwise; an application without arguments is its constructor.
pub open spec fn mono_text(m: MonoView) -> Seq<char>
    decreases m,
{
    match m {
        MonoView::App(f, args) => if args.len() == 0 {
            mono_text(*f)
        } else {
            seq!['('] + join(mono_texts(args), arg_separator(*f)) + seq![')']
        },
        MonoView::Var(name) => name,
    }
}

/// The texts of a sequence of monotypes.
pub open spec fn mono_texts(ms: Seq<MonoView>) -> Seq<Seq<char>>
    decreases ms,
{
    if ms.len() == 0 {
        Seq::empty()
    } else {
        mono_texts(ms.drop_last()).push(mono_text(ms.last()))
    }
}

/// The text of a polytype: `(∀name.body)` for a quantifier.
pub open spec fn poly_text(p: PolyView) -> Seq<char>
    decreases p,
{
    match p {
        PolyView::Mono(m) => mono_text(m),
        PolyView::Forall(name, body) => seq!['(', '\u{2200}'] + name + seq!['.'] + poly_text(*body)
            + seq![')'],
    }
}

/// The text of a maplet: `from ↦ to`.
pub open spec fn maplet_text(m: (PolyView, PolyView)) -> Seq<char> {
    poly_text(m.0) + seq![' ', '\u{21a6}', ' '] + poly_text(m.1)
}

/// The text of a substitution: its maplets between braces, separated by commas.
pub open spec fn subst_text(s: SubstView) -> Seq<char> {
    seq!['{'] + join(s.map_values(|m: (PolyView, PolyView)| maplet_text(m)), seq![',', ' ']) + seq![
        '}',
    ]
}

impl TypeName {
    /// The text of this name.
    pub fn to_string(&self) -> (r: String)
        ensures
            r@ == self@,
    {
        self.0.clone()
    }
}

impl Monotype {
    /// The text of this monotype (see `mono_text`).
    #[verifier::loop_isolation(false)]
    pub fn to_string(&self) -> (r: String)
        ensures
            r@ == mono_text(self@),
        decreases self,
    {
        match self {
            Monotype::Variable(name) => {
                let r = name.0.clone();
                assert(r@ == name@);
                assert(self@ == MonoView::Var(name@));
                assert(mono_text(self@) == name@);
                r
            },
            Monotype::Application(f, args) => {
                if args.len() == 0 {
                    return f.to_string();
                }
                let arrow = string_of("->");
                proof {
                    reveal_strlit("->");
                    assert("->"@ =~= seq!['-', '>']);
                    assert(arrow@ =~= arrow_name());
                }
                let is_arrow = match &**f {
                    Monotype::Variable(name) => name.0 == arrow,
                    Monotype::Application(_, _) => false,
                };
                let sep = if is_arrow {
                    string_of(" \u{2192} ")
                } else {
                    string_of(" ")
                };
                proof {
                    reveal_strlit(" \u{2192} ");
                    assert(" \u{2192} "@ =~= seq![' ', '\u{2192}', ' ']);
                    reveal_strlit(" ");
                    assert(" "@ =~= seq![' ']);
                    assert(sep@ =~= arg_separator(mono_view(**f)));
                }
                let ghost a = self@->App_1;
                let mut out = string_of("(");
                proof {
                    reveal_strlit("(");
                    assert("("@ =~= seq!['(']);
                }
                let mut i: usize = 0;
                while i < args.len()
                    invariant
                        i <= args@.len(),
                        out@ == seq!['('] + join(mono_texts(a.take(i as int)), sep@),
                    decreases args@.len() - i,
                {
                    assert(a[i as int] == mono_view(args@[i as int]));
                    let part = args[i].to_string();
                    if i > 0 {
                        push_str(&mut out, sep.as_str());
                    }
                    push_str(&mut out, part.as_str());
                    proof {
                        assert(a.take(i + 1).drop_last() =~= a.take(i as int));
                        assert(a.take(i + 1).last() == a[i as int]);
                        let ps = mono_texts(a.take(i + 1));
                        assert(ps.drop_last() == mono_texts(a.take(i as int)));
                        if i == 0 {
                            assert(ps.len() == 1);
                            assert(join(ps, sep@) == ps[0]);
                        } else {
                            assert(ps.len() > 1);
                        }
                        assert(out@ =~= seq!['('] + join(ps, sep@));
                    }
                    i += 1;
                }
                push_str(&mut out, ")");
                proof {
                    reveal_strlit(")");
                    assert(")"@ =~= seq![')']);
                    assert(a.take(args@.len() as int) =~= a);
                    assert(out@ == mono_text(self@));
                }
                out
            },
        }
    }
}

impl Polytype {
    /// The text of this polytype (see `poly_text`).
    pub fn to_string(&self) -> (r: String)
        ensures
            r@ == poly_text(self@),
        decreases self,
    {
        match self {
            Polytype::Monotype(m) => m.to_string(),
            Polytype::Quantifier(name, body) => {
                let mut out = string_of("(\u{2200}");
                push_str(&mut out, name.0.as_str());
                push_str(&mut out, ".");
                let b = body.to_string();
                push_str(&mut out, b.as_str());
                push_str(&mut out, ")");
                proof {
                    reveal_strlit("(\u{2200}");
                    assert("(\u{2200}"@ =~= seq!['(', '\u{2200}']);
                    reveal_strlit(".");
                    assert("."@ =~= seq!['.']);
                    reveal_strlit(")");
                    assert(")"@ =~= seq![')']);
                }
                out
            },
        }
    }
}

impl Maplet {
    /// The text of this maplet (see `maplet_text`).
    pub fn to_string(&self) -> (r: String)
        ensures
            r@ == maplet_text(self@),
    {
        let mut out = self.0.to_string();
        push_str(&mut out, " \u{21a6} ");
        let to = self.1.to_string();
        push_str(&mut out, to.as_str());
        proof {
            reveal_strlit(" \u{21a6} ");
            assert(" \u{21a6} "@ =~= seq![' ', '\u{21a6}', ' ']);
        }
        out
    }
}

impl Substitution {
    /// The text of this substitution (see `subst_text`).
    pub fn to_string(&self) -> (r: String)
        ensures
            r@ == subst_text(self@),
    {
        let ghost parts = self@.map_values(|m: (PolyView, PolyView)| maplet_text(m));
        let mut out = string_of("{");
        proof {
            reveal_strlit("{");
            assert("{"@ =~= seq!['{']);
            reveal_strlit(", ");
            assert(", "@ =~= seq![',', ' ']);
        }
        let mut i: usize = 0;
        while i < self.0.len()
            invariant
                i <= self@.len(),
                parts == self@.map_values(|m: (PolyView, PolyView)| maplet_text(m)),
                out@ == seq!['{'] + join(parts.take(i as int), seq![',', ' ']),
            decreases self.0@.len() - i,
        {
            let part = self.0[i].to_string();
            if i > 0 {
                push_str(&mut out, ", ");
            }
            push_str(&mut out, part.as_str());
            proof {
                reveal_strlit(", ");
                assert(", "@ =~= seq![',', ' ']);
                assert(parts.take(i + 1).drop_last() =~= parts.take(i as int));
                if i == 0 {
                    assert(join(parts.take(1), seq![',', ' ']) == parts[0]);
                }
                assert(out@ =~= seq!['{'] + join(parts.take(i + 1), seq![',', ' ']));
            }
            i += 1;
        }
        push_str(&mut out, "}");
        proof {
            reveal_strlit("}");
            assert("}"@ =~= seq!['}']);
            assert(parts.take(self@.len() as int) =~= parts);
            assert(out@ =~= seq!['{'] + join(parts, seq![',', ' ']) + seq!['}']);
        }
        out
    }
}

/// The type of the identity function, `∀α. α → α`.
pub fn identity() -> (r: Polytype)
    ensures
        r@ == PolyView::Forall(
            seq!['\u{3b1}'],
            Box::new(
                PolyView::Mono(
                    MonoView::App(
                        Box::new(MonoView::Var(arrow_name())),
                        seq![MonoView::Var(seq!['\u{3b1}']), MonoView::Var(seq!['\u{3b1}'])],
                    ),
                ),
            ),
        ),
{
    let alpha = "\u{3b1}";
    let arrow = "->";
    proof {
        reveal_strlit("\u{3b1}");
        reveal_strlit("->");
        assert(alpha@ =~= seq!['\u{3b1}']);
        assert(arrow@ =~= arrow_name());
    }
    let a1 = Monotype::Variable(TypeName::new(alpha));
    let a2 = Monotype::Variable(TypeName::new(alpha));
    let f = Monotype::Variable(TypeName::new(arrow));
    assert(a1@ == MonoView::Var(seq!['\u{3b1}']));
    let mut args: Vec<Monotype> = Vec::new();
    args.push(a1);
    args.push(a2);
    assert(mono_view(args@[0]) == MonoView::Var(seq!['\u{3b1}']));
    assert(args@.len() == 2);
    assert(mono_view(args@[1]) == MonoView::Var(seq!['\u{3b1}']));
    let ghost fv = f@;
    let app = Monotype::Application(Box::new(f), args);
    assert(app@->App_0 == Box::new(fv));
    assert(app@->App_1[0] == mono_view(args@[0]));
    assert(app@->App_1.len() == 2);
    assert(app@->App_1 =~= seq![MonoView::Var(seq!['\u{3b1}']), MonoView::Var(seq!['\u{3b1}'])]);
    let body = Polytype::Monotype(app);
    assert(body@ == PolyView::Mono(app@));
    let r = Polytype::Quantifier(TypeName::new(alpha), Box::new(body));
    proof {
        reveal_strlit("\u{3b1}");
        assert("\u{3b1}"@ =~= seq!['\u{3b1}']);
        reveal_strlit("->");
        assert("->"@ =~= seq!['-', '>']);
        assert("->"@ =~= arrow_name());
        assert(r@->Forall_1->Mono_0->App_1 =~= seq![
            MonoView::Var(seq!['\u{3b1}']),
            MonoView::Var(seq!['\u{3b1}']),
        ]);
    }
    r
}


// ---------------------------------------------------------------------------
// Equality.
// ---------------------------------------------------------------------------
impl Maplet {
    /// Whether two maplets have equal sides.
    pub fn same_as(&self, other: &Maplet) -> (r: bool)
        ensures
            r == (self@ == other@),
    {
        self.0.same_as(&other.0) && self.1.same_as(&other.1)
    }
}

/// How often `m` occurs among the maplets of `v`.
fn count_maplet(v: &Vec<Maplet>, m: &Maplet) -> (r: usize)
    ensures
        r == maplets_view(v@).to_multiset().count(m@),
{
    broadcast use vstd::seq_lib::group_to_multiset_ensures, vstd::multiset::group_multiset_axioms;

    let mut n: usize = 0;
    let mut i: usize = 0;
    while i < v.len()
        invariant
            i <= v@.len(),
            n == maplets_view(v@).take(i as int).to_multiset().count(m@),
            n <= i,
        decreases v@.len() - i,
    {
        let ghost pre = maplets_view(v@).take(i as int);
        assert(maplets_view(v@).take(i + 1) =~= pre.push(v@[i as int]@));
        proof {
            vstd::seq_lib::to_multiset_build(pre, v@[i as int]@);
        }
        if v[i].same_as(m) {
            n += 1;
        }
        i += 1;
    }
    assert(maplets_view(v@).take(v@.len() as int) =~= maplets_view(v@));
    n
}

impl Substitution {
    /// Equality up to the order of the maplets: both hold the same maplets, each as
    /// often.
    pub fn same_as(&self, other: &Substitution) -> (r: bool)
        ensures
            r == (self@.to_multiset() == other@.to_multiset()),
    {
        broadcast use vstd::seq_lib::group_to_multiset_ensures;

        let mut i: usize = 0;
        while i < self.0.len()
            invariant
                i <= self@.len(),
                forall|j: int|
                    0 <= j < i ==> self@.to_multiset().count(#[trigger] self@[j])
                        == other@.to_multiset().count(self@[j]),
            decreases self.0@.len() - i,
        {
            if count_maplet(&self.0, &self.0[i]) != count_maplet(&other.0, &self.0[i]) {
                return false;
            }
            i += 1;
        }
        let mut j: usize = 0;
        while j < other.0.len()
            invariant
                j <= other@.len(),
                forall|k: int|
                    0 <= k < j ==> self@.to_multiset().count(#[trigger] other@[k])
                        == other@.to_multiset().count(other@[k]),
            decreases other.0@.len() - j,
        {
            if count_maplet(&self.0, &other.0[j]) != count_maplet(&other.0, &other.0[j]) {
                return false;
            }
            j += 1;
        }
        proof {
            assert forall|x: (PolyView, PolyView)|
                self@.to_multiset().count(x) == other@.to_multiset().count(x) by {
                if self@.contains(x) {
                    let k = choose|k: int| 0 <= k < self@.len() && self@[k] == x;
                    assert(self@.to_multiset().count(self@[k]) == other@.to_multiset().count(self@[k]));
                } else if other@.contains(x) {
                    let k = choose|k: int| 0 <= k < other@.len() && other@[k] == x;
                    assert(self@.to_multiset().count(other@[k]) == other@.to_multiset().count(other@[k]));
                }
            }
            assert(self@.to_multiset() =~= other@.to_multiset());
        }
        true
    }
}

impl PartialEq for Monotype {
    fn eq(&self, other: &Self) -> (r: bool) {
        self.same_as(other)
    }
}

impl PartialEqSpecImpl for Monotype {
    open spec fn obeys_eq_spec() -> bool {
        true
    }

    open spec fn eq_spec(&self, other: &Self) -> bool {
        self@ == other@
    }
}

impl PartialEq for Polytype {
    fn eq(&self, other: &Self) -> (r: bool) {
        self.same_as(other)
    }
}

impl PartialEqSpecImpl for Polytype {
    open spec fn obeys_eq_spec() -> bool {
        true
    }

    open spec fn eq_spec(&self, other: &Self) -> bool {
        self@ == other@
    }
}

impl PartialEq for Maplet {
    fn eq(&self, other: &Self) -> (r: bool) {
        self.same_as(other)
    }
}

impl PartialEqSpecImpl for Maplet {
    open spec fn obeys_eq_spec() -> bool {
        true
    }

    open spec fn eq_spec(&self, other: &Self) -> bool {
        self@ == other@
    }
}

impl PartialEq for Substitution {
    fn eq(&self, other: &Self) -> (r: bool) {
        self.same_as(other)
    }
}

impl PartialEqSpecImpl for Substitution {
    open spec fn obeys_eq_spec() -> bool {
        true
    }

    open spec fn eq_spec(&self, other: &Self) -> bool {
        self@.to_multiset() == other@.to_multiset()
    }
}


/// Whether the type variable `x` does not occur in `m`.
pub open spec fn mono_avoids(m: MonoView, x: Seq<char>) -> bool
    decreases m,
{
    match m {
        MonoView::Var(y) => y != x,
        MonoView::App(f, args) => mono_avoids(*f, x) && forall|i: int|
            0 <= i < args.len() ==> mono_avoids(#[trigger] args[i], x),
    }
}

/// Removing the maplets for `k` leaves what `s` gives for every other key, and gives
/// nothing for `k`.
proof fn lemma_lookup_exclude(s: SubstView, k: PolyView, k2: PolyView)
    ensures
        k2 != k ==> lookup(exclude_spec(s, k), k2) == lookup(s, k2),
        lookup(exclude_spec(s, k), k) is None,
    decreases s.len(),
{
    if s.len() == 0 {
        reveal_with_fuel(Seq::filter, 1);
        assert(exclude_spec(s, k) =~= Seq::<(PolyView, PolyView)>::empty());
    } else {
        let t = s.drop_first();
        assert(seq![s[0]] + t =~= s);
        t.lemma_filter_prepend(s[0], keeps(k));
        lemma_lookup_exclude(t, k, k2);
        let e = exclude_spec(t, k);
        if s[0].0 != k {
            assert(exclude_spec(s, k) == seq![s[0]] + e);
            assert((seq![s[0]] + e).drop_first() =~= e);
        } else {
            assert(exclude_spec(s, k) =~= e);
        }
    }
}

/// Without the maplets for `x`, a substitution does the same to a monotype that does
/// not mention `x`, and to any monotype where it has no maplet for `x` anyway.
proof fn lemma_subst_exclude(s: SubstView, x: Seq<char>, m: MonoView)
    requires
        mono_avoids(m, x) || lookup(s, var_key(x)) is None,
    ensures
        subst_mono(exclude_spec(s, var_key(x)), m) == subst_mono(s, m),
    decreases m,
{
    match m {
        MonoView::Var(y) => {
            lemma_lookup_exclude(s, var_key(x), var_key(y));
            let e = exclude_spec(s, var_key(x));
            if y == x {
                assert(lookup(s, var_key(x)) is None);
                assert(lookup(e, var_key(y)) is None);
                assert(subst_mono(e, m) == m);
                assert(subst_mono(s, m) == m);
            } else {
                assert(var_key(y) != var_key(x));
                assert(lookup(e, var_key(y)) == lookup(s, var_key(y)));
                assert(subst_mono(e, m) == subst_mono(s, m));
            }
        },
        MonoView::App(f, args) => {
            lemma_subst_exclude(s, x, *f);
            let e = exclude_spec(s, var_key(x));
            assert forall|i: int| 0 <= i < args.len() implies subst_mono(e, #[trigger] args[i])
                == subst_mono(s, args[i]) by {
                lemma_subst_exclude(s, x, args[i]);
            }
            assert(subst_mono(e, m)->App_1 =~= subst_mono(s, m)->App_1);
        },
    }
}

/// Under a quantifier `∀x`, substituting replaces the variables of the body as it does
/// outside the quantifier, wherever the quantified `x` does not get in the way: where
/// the body does not mention `x`, or the substitution has no maplet for `x`.
pub proof fn law_substitute_under_quantifier(s: SubstView, x: Seq<char>, m: MonoView)
    requires
        mono_avoids(m, x) || lookup(s, var_key(x)) is None,
    ensures
        subst_poly(s, PolyView::Forall(x, Box::new(PolyView::Mono(m)))) == PolyView::Forall(
            x,
            Box::new(subst_poly(s, PolyView::Mono(m))),
        ),
{
    lemma_subst_exclude(s, x, m);
    let e = exclude_spec(s, var_key(x));
    assert(subst_poly(e, PolyView::Mono(m)) == PolyView::Mono(subst_mono(e, m)));
    assert(subst_poly(s, PolyView::Mono(m)) == PolyView::Mono(subst_mono(s, m)));
}

/// The quantified variable itself is never replaced under its quantifier, whatever the
/// substitution maps it to.
pub proof fn law_quantified_variable_stays(s: SubstView, x: Seq<char>)
    ensures
        subst_poly(s, PolyView::Forall(x, Box::new(PolyView::Mono(MonoView::Var(x))))) == PolyView::Forall(
            x,
            Box::new(PolyView::Mono(MonoView::Var(x))),
        ),
{
    lemma_lookup_exclude(s, var_key(x), var_key(x));
    let e = exclude_spec(s, var_key(x));
    assert(subst_mono(e, MonoView::Var(x)) == MonoView::Var(x));
    assert(subst_poly(e, PolyView::Mono(MonoView::Var(x))) == PolyView::Mono(MonoView::Var(x)));
}

} // verus!
