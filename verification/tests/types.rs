use nakati::types::{identity, Maplet, Monotype, Polytype, Substitution, TypeName};

#[test]
fn do_it() {
    assert_eq!(identity().to_string(), "(∀α.(α → α))");
}

#[test]
fn example_3() {
    // αβγδε

    let s_1 = Substitution(vec![Maplet::map("α", "γ"), Maplet::map("ε", "δ")]);
    let s_2 = Substitution(vec![
        Maplet::map("α", "β"),
        Maplet::map("β", "ε"),
        Maplet::map("γ", "α"),
    ]);
    let s_3 = Substitution(vec![
        Maplet::map("α", "β"),
        Maplet::map("β", "δ"),
        Maplet::map("γ", "γ"),
        Maplet::map("ε", "δ"),
    ]);

    assert_eq!(s_1.compose(&s_2), s_3);
}

fn var(name: &str) -> Monotype {
    Monotype::Variable(TypeName::new(name))
}

#[test]
fn substitution_replaces_free_variables_only() {
    let s = Substitution(vec![Maplet::map("α", "β")]);
    let free = Polytype::Monotype(Monotype::Application(
        Box::new(var("->")),
        vec![var("α"), var("γ")],
    ));
    assert_eq!(s.substitute(&free).to_string(), "(β → γ)");
    assert_eq!(s.substitute(&identity()).to_string(), "(∀α.(α → α))");
}

#[test]
fn composition_law_on_a_monotype() {
    let s1 = Substitution(vec![Maplet::map("α", "γ"), Maplet::map("ε", "δ")]);
    let s2 = Substitution(vec![Maplet::map("α", "β"), Maplet::map("β", "ε")]);
    let t = Polytype::Monotype(Monotype::Application(
        Box::new(var("f")),
        vec![var("α"), var("β"), var("ε")],
    ));
    assert_eq!(
        s1.compose(&s2).substitute(&t),
        s1.substitute(&s2.substitute(&t))
    );
    assert_eq!(s1.compose(&s2).substitute(&t).to_string(), "(β δ δ)");
}

#[test]
fn maplet_applies_to_its_variable() {
    let m = Maplet::map("α", "β");
    assert_eq!(m.apply_mono(&var("α")), Some(var("β")));
    assert_eq!(m.apply_mono(&var("γ")), None);
    assert_eq!(Polytype::from_typename("α").to_string(), "α");
}
