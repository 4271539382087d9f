use vstd::prelude::*;
use crate::common::Span;
use crate::text::{decimal, debug_text, push_str, spec_debug_text, string_of, strings_view, u128_text};

verus! {

/// A syntax tree node.
#[allow(inconsistent_fields)]
#[derive(Debug)]
pub enum Ast {
    Program(Vec<AstNode>),
    Import { names: Vec<(SString, Option<SString>)>, module: SString, module_alias: Option<SString> },
    Static { public: bool, name: SString, type_: AstNode, body: AstNode },
    Let { pattern: AstNode, type_: Option<AstNode>, body: AstNode },
    Assignment { pattern: AstNode, body: AstNode },
    Class { public: bool, name: SString, body: Vec<AstNode> },
    Function {
        public: bool,
        name: SString,
        args: Vec<(String, AstNode)>,
        return_type: Option<AstNode>,
        body: AstNode,
        variadic: bool,
    },
    TypeName(String),
    Integer(u128),
    String(String),
    Boolean(bool),
    Float(u128, u128),
    VariableAccess(String),
    MemberAccess(AstNode, SString),
    Call(AstNode, Vec<AstNode>),
    Block { statements: Vec<AstNode>, return_value: Option<AstNode> },
}

/// A string with the span it was read from.
pub type SString = Spanned<String>;

/// A boxed syntax tree node with its span.
pub type AstNode = BoxSpanned<Ast>;

/// A value with the span of source it came from.
#[derive(Debug)]
pub struct Spanned<T> {
    pub value: T,
    pub span: Span,
}

impl<T> Spanned<T> {
    /// Pairs `value` with `span`.
    pub fn new(value: T, span: Span) -> (r: Spanned<T>)
        ensures
            r.value == value,
            r.span == span,
    {
        Spanned { value, span }
    }
}

/// A boxed value with the span of source it came from.
#[derive(Debug)]
pub struct BoxSpanned<T>(pub Spanned<Box<T>>);

impl<T> BoxSpanned<T> {
    /// Boxes `value` and pairs it with `span`.
    pub fn new(value: T, span: Span) -> (r: BoxSpanned<T>)
        ensures
            *r.0.value == value,
            r.0.span == span,
    {
        BoxSpanned(Spanned::new(Box::new(value), span))
    }

    /// A copy of the span.
    pub fn span(&self) -> (r: Span)
        ensures
            r == self.0.span,
    {
        self.0.span.copy()
    }
}

/// Two spaces for each level of depth.
pub open spec fn indent_text(depth: nat) -> Seq<char>
    decreases depth,
{
    if depth == 0 {
        Seq::empty()
    } else {
        indent_text((depth - 1) as nat) + seq![' ', ' ']
    }
}

/// `<name>`, indented.
pub open spec fn node_line(name: Seq<char>, depth: nat) -> Seq<char> {
    indent_text(depth) + seq!['<'] + name + seq!['>']
}

/// `<name value>`, indented.
pub open spec fn value_line(name: Seq<char>, value: Seq<char>, depth: nat) -> Seq<char> {
    indent_text(depth) + seq!['<'] + name + seq![' '] + value + seq!['>']
}

/// `name:`, indented.
pub open spec fn category_line(name: Seq<char>, depth: nat) -> Seq<char> {
    indent_text(depth) + name + seq![':']
}

/// `label: content`, indented.
pub open spec fn labeled_line(label: Seq<char>, content: Seq<char>, depth: nat) -> Seq<char> {
    indent_text(depth) + label + seq![':', ' '] + content
}

/// `true` or `false`.
pub open spec fn bool_text(b: bool) -> Seq<char> {
    if b {
        "true"@
    } else {
        "false"@
    }
}

/// An optional string as `{:?}` writes it: `Some("…")` or `None`.
pub open spec fn option_debug(o: Option<Seq<char>>) -> Seq<char> {
    match o {
        Some(s) => "Some("@ + spec_debug_text(s) + seq![')'],
        None => "None"@,
    }
}

/// The text of an optional spanned string.
pub open spec fn opt_value(o: Option<SString>) -> Option<Seq<char>> {
    match o {
        Some(s) => Some(s.value@),
        None => None,
    }
}

/// The lines of an optional node two levels down, or `None` there.
pub open spec fn optional_lines(o: Option<AstNode>, depth: nat) -> Seq<Seq<char>>
    decreases o,
{
    match o {
        Some(n) => node_lines(n, depth),
        None => seq![indent_text(depth) + "None"@],
    }
}

/// The lines of each node in turn, all at `depth`.
pub open spec fn nodes_lines(nodes: Seq<AstNode>, depth: nat) -> Seq<Seq<char>>
    decreases nodes,
{
    if nodes.len() == 0 {
        Seq::empty()
    } else {
        nodes_lines(nodes.subrange(0, nodes.len() - 1), depth) + node_lines(
            nodes[nodes.len() - 1],
            depth,
        )
    }
}

/// The lines of a function's arguments: for each, `arg:`, its name and its type.
pub open spec fn args_lines(args: Seq<(String, AstNode)>, depth: nat) -> Seq<Seq<char>>
    decreases args,
{
    if args.len() == 0 {
        Seq::empty()
    } else {
        let a = args[args.len() - 1];
        args_lines(args.subrange(0, args.len() - 1), depth) + seq![
            category_line("arg"@, depth),
            labeled_line("name"@, spec_debug_text(a.0@), depth + 1),
            category_line("type"@, depth + 1),
        ] + node_lines(a.1, depth + 2)
    }
}

/// The lines of imported names: each name, then its alias.
pub open spec fn names_lines(names: Seq<(SString, Option<SString>)>, depth: nat) -> Seq<Seq<char>>
    decreases names.len(),
{
    if names.len() == 0 {
        Seq::empty()
    } else {
        let n = names[names.len() - 1];
        names_lines(names.subrange(0, names.len() - 1), depth) + seq![
            indent_text(depth) + n.0.value@,
            labeled_line("alias"@, option_debug(opt_value(n.1)), depth),
        ]
    }
}

/// The lines that `print_tree` writes for a node at `depth`.
pub open spec fn node_lines(n: AstNode, depth: nat) -> Seq<Seq<char>>
    decreases n,
{
    match *n.0.value {
        Ast::Program(nodes) => seq!["<Program>"@] + nodes_lines(nodes@, depth + 1),
        Ast::Import { names, module, module_alias } => seq![
            node_line("Import"@, depth),
            category_line("name"@, depth + 1),
        ] + names_lines(names@, depth + 2) + seq![
            labeled_line("module alias"@, option_debug(opt_value(module_alias)), depth + 1),
            labeled_line("from"@, spec_debug_text(module.value@), depth + 1),
        ],
        Ast::Static { public, name, type_, body } => seq![
            node_line("Static"@, depth),
            labeled_line("public"@, bool_text(public), depth + 1),
            labeled_line("name"@, spec_debug_text(name.value@), depth + 1),
            category_line("type"@, depth + 1),
        ] + node_lines(type_, depth + 2) + seq![category_line("body"@, depth + 1)] + node_lines(
            body,
            depth + 2,
        ),
        Ast::Let { pattern, type_, body } => seq![
            node_line("Let"@, depth),
            category_line("pattern"@, depth + 1),
        ] + node_lines(pattern, depth + 2) + seq![category_line("type"@, depth + 1)]
            + optional_lines(type_, depth + 2) + node_lines(body, depth + 1),
        Ast::Assignment { pattern, body } => seq![
            node_line("Assignment"@, depth),
            category_line("pattern"@, depth + 1),
        ] + node_lines(pattern, depth + 2) + node_lines(body, depth + 1),
        Ast::Class { public, name, body } => seq![
            value_line("Class"@, name.value@, depth),
            labeled_line("public"@, bool_text(public), depth + 1),
        ] + nodes_lines(body@, depth + 1),
        Ast::Function { public, name, args, return_type, body, variadic } => seq![
            value_line("Function"@, name.value@, depth),
            labeled_line("public"@, bool_text(public), depth + 1),
            category_line("args"@, depth + 1),
        ] + args_lines(args@, depth + 2) + seq![category_line("type"@, depth + 1)]
            + optional_lines(return_type, depth + 2) + seq![
            labeled_line("variadic"@, bool_text(variadic), depth + 1),
        ] + node_lines(body, depth + 1),
        Ast::TypeName(name) => seq![value_line("TypeName"@, name@, depth)],
        Ast::Integer(value) => seq![value_line("Integer"@, decimal(value as nat), depth)],
        Ast::String(value) => seq![value_line("String"@, value@, depth)],
        Ast::Boolean(value) => seq![value_line("Boolean"@, bool_text(value), depth)],
        Ast::Float(integral, fractional) => seq![
            value_line(
                "Float"@,
                decimal(integral as nat) + seq!['.'] + decimal(fractional as nat),
                depth,
            ),
        ],
        Ast::VariableAccess(name) => seq![value_line("VariableAccess"@, name@, depth)],
        Ast::MemberAccess(object, name) => seq![value_line("MemberAccess"@, name.value@, depth)]
            + node_lines(object, depth + 1),
        Ast::Call(function, args) => seq![node_line("Call"@, depth)] + node_lines(
            function,
            depth + 1,
        ) + seq![category_line("args"@, depth + 1)] + nodes_lines(args@, depth + 1),
        Ast::Block { statements, return_value } => seq![node_line("Block"@, depth)] + nodes_lines(
            statements@,
            depth + 1,
        ) + seq![category_line("return"@, depth + 1)] + optional_lines(return_value, depth + 2),
    }
}

/// The larger of two numbers.
pub open spec fn max_nat(a: nat, b: nat) -> nat {
    if a < b {
        b
    } else {
        a
    }
}

/// The height of an optional node (0 for none).
pub open spec fn optional_height(o: Option<AstNode>) -> nat
    decreases o,
{
    match o {
        Some(n) => height(n),
        None => 0,
    }
}

/// The greatest height among the nodes (0 for none).
pub open spec fn heights(nodes: Seq<AstNode>) -> nat
    decreases nodes,
{
    if nodes.len() == 0 {
        0
    } else {
        max_nat(heights(nodes.subrange(0, nodes.len() - 1)), height(nodes[nodes.len() - 1]))
    }
}

/// The greatest height among the argument types (0 for none).
pub open spec fn args_height(args: Seq<(String, AstNode)>) -> nat
    decreases args,
{
    if args.len() == 0 {
        0
    } else {
        max_nat(args_height(args.subrange(0, args.len() - 1)), height(args[args.len() - 1].1))
    }
}

/// The number of levels of the tree: one more than the highest child.
pub open spec fn height(n: AstNode) -> nat
    decreases n,
{
    1 + match *n.0.value {
        Ast::Program(nodes) => heights(nodes@),
        Ast::Static { type_, body, .. } => max_nat(height(type_), height(body)),
        Ast::Let { pattern, type_, body } => max_nat(
            max_nat(height(pattern), optional_height(type_)),
            height(body),
        ),
        Ast::Assignment { pattern, body } => max_nat(height(pattern), height(body)),
        Ast::Class { body, .. } => heights(body@),
        Ast::Function { args, return_type, body, .. } => max_nat(
            max_nat(args_height(args@), optional_height(return_type)),
            height(body),
        ),
        Ast::MemberAccess(object, _) => height(object),
        Ast::Call(function, args) => max_nat(height(function), heights(args@)),
        Ast::Block { statements, return_value } => max_nat(
            heights(statements@),
            optional_height(return_value),
        ),
        _ => 0,
    }
}

/// Each node is at most as high as the highest.
pub proof fn lemma_heights(nodes: Seq<AstNode>, i: int)
    requires
        0 <= i < nodes.len(),
    ensures
        height(nodes[i]) <= heights(nodes),
    decreases nodes.len(),
{
    if i < nodes.len() - 1 {
        lemma_heights(nodes.subrange(0, nodes.len() - 1), i);
        assert(nodes.subrange(0, nodes.len() - 1)[i] == nodes[i]);
    }
}

/// Each argument type is at most as high as the highest.
pub proof fn lemma_args_height(args: Seq<(String, AstNode)>, i: int)
    requires
        0 <= i < args.len(),
    ensures
        height(args[i].1) <= args_height(args),
    decreases args.len(),
{
    if i < args.len() - 1 {
        lemma_args_height(args.subrange(0, args.len() - 1), i);
        assert(args.subrange(0, args.len() - 1)[i] == args[i]);
    }
}

/// Appends a line.
fn emit(out: &mut Vec<String>, line: String)
    ensures
        strings_view(final(out)@) == strings_view(old(out)@).push(line@),
{
    out.push(line);
    proof {
        assert(strings_view(out@) =~= strings_view(old(out)@).push(line@));
    }
}

/// Two spaces for each level of depth.
fn indent(depth: usize) -> (r: String)
    ensures
        r@ == indent_text(depth as nat),
{
    let mut r = String::new();
    let mut i: usize = 0;
    while i < depth
        invariant
            i <= depth,
            r@ == indent_text(i as nat),
        decreases depth - i,
    {
        push_str(&mut r, "  ");
        proof {
            reveal_strlit("  ");
            assert("  "@ =~= seq![' ', ' ']);
        }
        i += 1;
    }
    r
}

/// Appends `<name>`, indented.
fn print_node(name: &str, depth: usize, out: &mut Vec<String>)
    ensures
        strings_view(final(out)@) == strings_view(old(out)@).push(node_line(name@, depth as nat)),
{
    let mut line = indent(depth);
    push_str(&mut line, "<");
    push_str(&mut line, name);
    push_str(&mut line, ">");
    proof {
        reveal_strlit("<");
        reveal_strlit(">");
        assert("<"@ =~= seq!['<']);
        assert(">"@ =~= seq!['>']);
        assert(line@ =~= node_line(name@, depth as nat));
    }
    emit(out, line);
}

/// Appends `<name value>`, indented.
fn print_node_with_value(name: &str, value: &str, depth: usize, out: &mut Vec<String>)
    ensures
        strings_view(final(out)@) == strings_view(old(out)@).push(
            value_line(name@, value@, depth as nat),
        ),
{
    let mut line = indent(depth);
    push_str(&mut line, "<");
    push_str(&mut line, name);
    push_str(&mut line, " ");
    push_str(&mut line, value);
    push_str(&mut line, ">");
    proof {
        reveal_strlit("<");
        reveal_strlit(" ");
        reveal_strlit(">");
        assert("<"@ =~= seq!['<']);
        assert(" "@ =~= seq![' ']);
        assert(">"@ =~= seq!['>']);
        assert(line@ =~= value_line(name@, value@, depth as nat));
    }
    emit(out, line);
}

/// Appends `name:`, indented.
fn print_category(name: &str, depth: usize, out: &mut Vec<String>)
    ensures
        strings_view(final(out)@) == strings_view(old(out)@).push(
            category_line(name@, depth as nat),
        ),
{
    let mut line = indent(depth);
    push_str(&mut line, name);
    push_str(&mut line, ":");
    proof {
        reveal_strlit(":");
        assert(":"@ =~= seq![':']);
        assert(line@ =~= category_line(name@, depth as nat));
    }
    emit(out, line);
}

/// Appends `content`, indented.
fn print_indented(content: &str, depth: usize, out: &mut Vec<String>)
    ensures
        strings_view(final(out)@) == strings_view(old(out)@).push(indent_text(depth as nat) + content@),
{
    let mut line = indent(depth);
    push_str(&mut line, content);
    emit(out, line);
}

/// Appends `label: content`, indented.
fn print_labeled(label: &str, content: &str, depth: usize, out: &mut Vec<String>)
    ensures
        strings_view(final(out)@) == strings_view(old(out)@).push(
            labeled_line(label@, content@, depth as nat),
        ),
{
    let mut line = indent(depth);
    push_str(&mut line, label);
    push_str(&mut line, ": ");
    push_str(&mut line, content);
    proof {
        reveal_strlit(": ");
        assert(": "@ =~= seq![':', ' ']);
        assert(line@ =~= labeled_line(label@, content@, depth as nat));
    }
    emit(out, line);
}

/// `true` or `false`.
fn bool_string(b: bool) -> (r: &'static str)
    ensures
        r@ == bool_text(b),
{
    proof {
        reveal_strlit("true");
        reveal_strlit("false");
    }
    if b {
        "true"
    } else {
        "false"
    }
}

/// An optional spanned string as `{:?}` writes its text.
fn option_string(o: &Option<SString>) -> (r: String)
    ensures
        r@ == option_debug(opt_value(*o)),
{
    proof {
        reveal_strlit("Some(");
        reveal_strlit(")");
        reveal_strlit("None");
        assert(")"@ =~= seq![')']);
    }
    match o {
        Some(s) => {
            let mut r = string_of("Some(");
            let d = debug_text(s.value.as_str());
            push_str(&mut r, d.as_str());
            push_str(&mut r, ")");
            r
        },
        None => string_of("None"),
    }
}

/// The lines that show the tree under `node`, one string per line, the way the tree
/// is printed: each node as `<Kind>` or `<Kind value>`, its parts below it, two
/// spaces deeper for each level (see `node_lines`).
pub fn print_tree(node: &AstNode) -> (lines: Vec<String>)
    requires
        4 * height(*node) <= usize::MAX,
    ensures
        strings_view(lines@) == node_lines(*node, 0),
{
    let mut out: Vec<String> = Vec::new();
    print_tree_internal(node, 0, &mut out);
    proof {
        assert(strings_view(Seq::<String>::empty()) =~= Seq::<Seq<char>>::empty());
        assert(Seq::<Seq<char>>::empty() + node_lines(*node, 0) =~= node_lines(*node, 0));
    }
    out
}

/// Appends the lines of each node in turn, all at `depth`.
fn print_nodes(nodes: &Vec<AstNode>, depth: usize, out: &mut Vec<String>)
    requires
        depth + 4 * heights(nodes@) <= usize::MAX,
    ensures
        strings_view(final(out)@) == strings_view(old(out)@) + nodes_lines(nodes@, depth as nat),
    decreases nodes,
{
    let ghost start = strings_view(out@);
    let mut i: usize = 0;
    proof {
        assert(nodes@.take(0) =~= Seq::<AstNode>::empty());
        assert(start + Seq::<Seq<char>>::empty() =~= start);
    }
    while i < nodes.len()
        invariant
            i <= nodes@.len(),
            depth + 4 * heights(nodes@) <= usize::MAX,
            strings_view(out@) == start + nodes_lines(nodes@.take(i as int), depth as nat),
        decreases nodes@.len() - i,
    {
        proof {
            lemma_heights(nodes@, i as int);
            assert(nodes@.take(i + 1).subrange(0, i as int) =~= nodes@.take(i as int));
            assert(nodes@.take(i + 1)[i as int] == nodes@[i as int]);
        }
        print_tree_internal(&nodes[i], depth, out);
        proof {
            assert(strings_view(out@) =~= start + nodes_lines(nodes@.take(i + 1), depth as nat));
        }
        i += 1;
    }
    proof {
        assert(nodes@.take(nodes@.len() as int) =~= nodes@);
    }
}

/// Appends the lines of a function's arguments.
fn print_args(args: &Vec<(String, AstNode)>, depth: usize, out: &mut Vec<String>)
    requires
        depth + 2 + 4 * args_height(args@) <= usize::MAX,
    ensures
        strings_view(final(out)@) == strings_view(old(out)@) + args_lines(args@, depth as nat),
    decreases args,
{
    let ghost start = strings_view(out@);
    let mut i: usize = 0;
    proof {
        assert(args@.take(0) =~= Seq::<(String, AstNode)>::empty());
        assert(start + Seq::<Seq<char>>::empty() =~= start);
    }
    while i < args.len()
        invariant
            i <= args@.len(),
            depth + 2 + 4 * args_height(args@) <= usize::MAX,
            strings_view(out@) == start + args_lines(args@.take(i as int), depth as nat),
        decreases args@.len() - i,
    {
        proof {
            lemma_args_height(args@, i as int);
            assert(args@.take(i + 1).subrange(0, i as int) =~= args@.take(i as int));
            assert(args@.take(i + 1)[i as int] == args@[i as int]);
        }
        let ghost before = strings_view(out@);
        print_category("arg", depth, out);
        let name = debug_text(args[i].0.as_str());
        print_labeled("name", name.as_str(), depth + 1, out);
        print_category("type", depth + 1, out);
        print_tree_internal(&args[i].1, depth + 2, out);
        proof {
            reveal_strlit("arg");
            reveal_strlit("name");
            reveal_strlit("type");
            assert(strings_view(out@) =~= start + args_lines(args@.take(i + 1), depth as nat));
        }
        i += 1;
    }
    proof {
        assert(args@.take(args@.len() as int) =~= args@);
    }
}

/// Appends the lines of imported names.
fn print_names(names: &Vec<(SString, Option<SString>)>, depth: usize, out: &mut Vec<String>)
    ensures
        strings_view(final(out)@) == strings_view(old(out)@) + names_lines(names@, depth as nat),
{
    let ghost start = strings_view(out@);
    let mut i: usize = 0;
    proof {
        assert(names@.take(0) =~= Seq::<(SString, Option<SString>)>::empty());
        assert(start + Seq::<Seq<char>>::empty() =~= start);
    }
    while i < names.len()
        invariant
            i <= names@.len(),
            strings_view(out@) == start + names_lines(names@.take(i as int), depth as nat),
        decreases names@.len() - i,
    {
        proof {
            assert(names@.take(i + 1).subrange(0, i as int) =~= names@.take(i as int));
            assert(names@.take(i + 1)[i as int] == names@[i as int]);
        }
        print_indented(names[i].0.value.as_str(), depth, out);
        let alias = option_string(&names[i].1);
        print_labeled("alias", alias.as_str(), depth, out);
        proof {
            reveal_strlit("alias");
            assert(strings_view(out@) =~= start + names_lines(names@.take(i + 1), depth as nat));
        }
        i += 1;
    }
    proof {
        assert(names@.take(names@.len() as int) =~= names@);
    }
}

/// Appends the lines of an optional node, or `None`.
fn print_optional(o: &Option<AstNode>, depth: usize, out: &mut Vec<String>)
    requires
        depth + 4 * optional_height(*o) <= usize::MAX,
    ensures
        strings_view(final(out)@) == strings_view(old(out)@) + optional_lines(*o, depth as nat),
    decreases o,
{
    match o {
        Some(n) => print_tree_internal(n, depth, out),
        None => {
            print_indented("None", depth, out);
            proof {
                reveal_strlit("None");
                assert(strings_view(out@) =~= strings_view(old(out)@) + optional_lines(
                    *o,
                    depth as nat,
                ));
            }
        },
    }
}

/// Appends the lines of `node` at `depth` (see `node_lines`).
#[verifier::rlimit(60)]
#[verifier::spinoff_prover]
fn print_tree_internal(node: &AstNode, depth: usize, out: &mut Vec<String>)
    requires
        depth + 4 * height(*node) <= usize::MAX,
    ensures
        strings_view(final(out)@) == strings_view(old(out)@) + node_lines(*node, depth as nat),
    decreases node,
{
    let ghost start = strings_view(out@);
    let ghost expected = node_lines(*node, depth as nat);
    proof {
        reveal_strlit("<Program>");
        reveal_strlit("Import");
        reveal_strlit("name");
        reveal_strlit("module alias");
        reveal_strlit("from");
        reveal_strlit("Static");
        reveal_strlit("public");
        reveal_strlit("type");
        reveal_strlit("body");
        reveal_strlit("Let");
        reveal_strlit("pattern");
        reveal_strlit("Assignment");
        reveal_strlit("Class");
        reveal_strlit("Function");
        reveal_strlit("args");
        reveal_strlit("variadic");
        reveal_strlit("TypeName");
        reveal_strlit("Integer");
        reveal_strlit("String");
        reveal_strlit("Boolean");
        reveal_strlit("Float");
        reveal_strlit("VariableAccess");
        reveal_strlit("MemberAccess");
        reveal_strlit("Call");
        reveal_strlit("Block");
        reveal_strlit("return");
        reveal_strlit(".");
    }
    match &*node.0.value {
        Ast::Program(nodes) => {
            emit(out, string_of("<Program>"));
            print_nodes(nodes, depth + 1, out);
        },
        Ast::Import { names, module, module_alias } => {
            print_node("Import", depth, out);
            print_category("name", depth + 1, out);
            print_names(names, depth + 2, out);
            let alias = option_string(module_alias);
            print_labeled("module alias", alias.as_str(), depth + 1, out);
            let from = debug_text(module.value.as_str());
            print_labeled("from", from.as_str(), depth + 1, out);
        },
        Ast::Static { public, name, type_, body } => {
            print_node("Static", depth, out);
            print_labeled("public", bool_string(*public), depth + 1, out);
            let n = debug_text(name.value.as_str());
            print_labeled("name", n.as_str(), depth + 1, out);
            print_category("type", depth + 1, out);
            print_tree_internal(type_, depth + 2, out);
            print_category("body", depth + 1, out);
            print_tree_internal(body, depth + 2, out);
        },
        Ast::Let { pattern, type_, body } => {
            print_node("Let", depth, out);
            print_category("pattern", depth + 1, out);
            print_tree_internal(pattern, depth + 2, out);
            print_category("type", depth + 1, out);
            print_optional(type_, depth + 2, out);
            print_tree_internal(body, depth + 1, out);
        },
        Ast::Assignment { pattern, body } => {
            print_node("Assignment", depth, out);
            print_category("pattern", depth + 1, out);
            print_tree_internal(pattern, depth + 2, out);
            print_tree_internal(body, depth + 1, out);
        },
        Ast::Class { public, name, body } => {
            print_node_with_value("Class", name.value.as_str(), depth, out);
            print_labeled("public", bool_string(*public), depth + 1, out);
            print_nodes(body, depth + 1, out);
        },
        Ast::Function { public, name, args, return_type, body, variadic } => {
            print_node_with_value("Function", name.value.as_str(), depth, out);
            print_labeled("public", bool_string(*public), depth + 1, out);
            print_category("args", depth + 1, out);
            print_args(args, depth + 2, out);
            print_category("type", depth + 1, out);
            print_optional(return_type, depth + 2, out);
            print_labeled("variadic", bool_string(*variadic), depth + 1, out);
            print_tree_internal(body, depth + 1, out);
        },
        Ast::TypeName(name) => print_node_with_value("TypeName", name.as_str(), depth, out),
        Ast::Integer(value) => {
            let v = u128_text(*value);
            print_node_with_value("Integer", v.as_str(), depth, out);
        },
        Ast::String(value) => print_node_with_value("String", value.as_str(), depth, out),
        Ast::Boolean(value) => print_node_with_value("Boolean", bool_string(*value), depth, out),
        Ast::Float(integral, fractional) => {
            let mut v = u128_text(*integral);
            push_str(&mut v, ".");
            let f = u128_text(*fractional);
            push_str(&mut v, f.as_str());
            proof {
                assert("."@ =~= seq!['.']);
            }
            print_node_with_value("Float", v.as_str(), depth, out);
        },
        Ast::VariableAccess(name) => print_node_with_value(
            "VariableAccess",
            name.as_str(),
            depth,
            out,
        ),
        Ast::MemberAccess(object, name) => {
            print_node_with_value("MemberAccess", name.value.as_str(), depth, out);
            print_tree_internal(object, depth + 1, out);
        },
        Ast::Call(function, args) => {
            print_node("Call", depth, out);
            print_tree_internal(function, depth + 1, out);
            print_category("args", depth + 1, out);
            print_nodes(args, depth + 1, out);
        },
        Ast::Block { statements, return_value } => {
            print_node("Block", depth, out);
            print_nodes(statements, depth + 1, out);
            print_category("return", depth + 1, out);
            print_optional(return_value, depth + 2, out);
        },
    }
    proof {
        assert(strings_view(out@) =~= start + expected);
    }
}

/// A syntax tree without spans, with texts as sequences.
#[allow(inconsistent_fields)]
pub enum AstView {
    Program(Seq<AstView>),
    Import {
        names: Seq<(Seq<char>, Option<Seq<char>>)>,
        module: Seq<char>,
        module_alias: Option<Seq<char>>,
    },
    Static { public: bool, name: Seq<char>, type_: Box<AstView>, body: Box<AstView> },
    Let { pattern: Box<AstView>, type_: Option<Box<AstView>>, body: Box<AstView> },
    Assignment { pattern: Box<AstView>, body: Box<AstView> },
    Class { public: bool, name: Seq<char>, body: Seq<AstView> },
    Function {
        public: bool,
        name: Seq<char>,
        args: Seq<(Seq<char>, AstView)>,
        return_type: Option<Box<AstView>>,
        body: Box<AstView>,
        variadic: bool,
    },
    TypeName(Seq<char>),
    Integer(u128),
    String(Seq<char>),
    Boolean(bool),
    Float(u128, u128),
    VariableAccess(Seq<char>),
    MemberAccess(Box<AstView>, Seq<char>),
    Call(Box<AstView>, Seq<AstView>),
    Block { statements: Seq<AstView>, return_value: Option<Box<AstView>> },
}

/// The text of an optional spanned string.
pub open spec fn opt_name(o: Option<SString>) -> Option<Seq<char>> {
    match o {
        Some(s) => Some(s.value@),
        None => None,
    }
}

/// The views of some nodes.
pub open spec fn nodes_view(nodes: Seq<AstNode>) -> Seq<AstView>
    decreases nodes,
{
    if nodes.len() == 0 {
        Seq::empty()
    } else {
        nodes_view(nodes.subrange(0, nodes.len() - 1)).push(ast_view(nodes[nodes.len() - 1]))
    }
}

/// The views of some function arguments.
pub open spec fn args_view(args: Seq<(String, AstNode)>) -> Seq<(Seq<char>, AstView)>
    decreases args,
{
    if args.len() == 0 {
        Seq::empty()
    } else {
        args_view(args.subrange(0, args.len() - 1)).push(
            (args[args.len() - 1].0@, ast_view(args[args.len() - 1].1)),
        )
    }
}

/// The view of an optional node.
pub open spec fn optional_view(o: Option<AstNode>) -> Option<Box<AstView>>
    decreases o,
{
    match o {
        Some(n) => Some(Box::new(ast_view(n))),
        None => None,
    }
}

/// The view of imported names.
pub open spec fn names_view(names: Seq<(SString, Option<SString>)>) -> Seq<(Seq<char>, Option<Seq<char>>)> {
    names.map_values(|n: (SString, Option<SString>)| (n.0.value@, opt_name(n.1)))
}

/// A node without its spans.
pub open spec fn ast_view(n: AstNode) -> AstView
    decreases n,
{
    match *n.0.value {
        Ast::Program(nodes) => AstView::Program(nodes_view(nodes@)),
        Ast::Import { names, module, module_alias } => AstView::Import {
            names: names_view(names@),
            module: module.value@,
            module_alias: opt_name(module_alias),
        },
        Ast::Static { public, name, type_, body } => AstView::Static {
            public,
            name: name.value@,
            type_: Box::new(ast_view(type_)),
            body: Box::new(ast_view(body)),
        },
        Ast::Let { pattern, type_, body } => AstView::Let {
            pattern: Box::new(ast_view(pattern)),
            type_: optional_view(type_),
            body: Box::new(ast_view(body)),
        },
        Ast::Assignment { pattern, body } => AstView::Assignment {
            pattern: Box::new(ast_view(pattern)),
            body: Box::new(ast_view(body)),
        },
        Ast::Class { public, name, body } => AstView::Class {
            public,
            name: name.value@,
            body: nodes_view(body@),
        },
        Ast::Function { public, name, args, return_type, body, variadic } => AstView::Function {
            public,
            name: name.value@,
            args: args_view(args@),
            return_type: optional_view(return_type),
            body: Box::new(ast_view(body)),
            variadic,
        },
        Ast::TypeName(name) => AstView::TypeName(name@),
        Ast::Integer(v) => AstView::Integer(v),
        Ast::String(v) => AstView::String(v@),
        Ast::Boolean(v) => AstView::Boolean(v),
        Ast::Float(a, b) => AstView::Float(a, b),
        Ast::VariableAccess(name) => AstView::VariableAccess(name@),
        Ast::MemberAccess(object, name) => AstView::MemberAccess(Box::new(ast_view(object)), name.value@),
        Ast::Call(function, args) => AstView::Call(Box::new(ast_view(function)), nodes_view(args@)),
        Ast::Block { statements, return_value } => AstView::Block {
            statements: nodes_view(statements@),
            return_value: optional_view(return_value),
        },
    }
}

/// A node added at the end adds its view at the end.
pub proof fn lemma_nodes_view_push(nodes: Seq<AstNode>, n: AstNode)
    ensures
        nodes_view(nodes.push(n)) == nodes_view(nodes).push(ast_view(n)),
{
    assert(nodes.push(n).subrange(0, nodes.len() as int) =~= nodes);
}

/// An argument added at the end adds its view at the end.
pub proof fn lemma_args_view_push(args: Seq<(String, AstNode)>, a: (String, AstNode))
    ensures
        args_view(args.push(a)) == args_view(args).push((a.0@, ast_view(a.1))),
{
    assert(args.push(a).subrange(0, args.len() as int) =~= args);
}


/// Two spanned strings are equal: the same text at the same place.
pub open spec fn same_name(a: SString, b: SString) -> bool {
    a.value@ == b.value@ && a.span.same_place(b.span)
}

/// Two optional spanned strings are equal.
pub open spec fn same_opt_name(a: Option<SString>, b: Option<SString>) -> bool {
    match (a, b) {
        (Some(x), Some(y)) => same_name(x, y),
        (None, None) => true,
        _ => false,
    }
}

/// Two imported names (with their aliases) are equal.
pub open spec fn same_entry(x: (SString, Option<SString>), y: (SString, Option<SString>)) -> bool {
    same_name(x.0, y.0) && same_opt_name(x.1, y.1)
}

/// Two lists of imported names are equal, pair by pair.
pub open spec fn same_names(a: Seq<(SString, Option<SString>)>, b: Seq<(SString, Option<SString>)>) -> bool {
    a.len() == b.len() && forall|i: int| 0 <= i < a.len() ==> #[trigger] same_entry(a[i], b[i])
}

/// Two trees are equal: the same kinds of node holding equal values at the same places
/// (the sources of the spans are not compared).
pub open spec fn same_tree(a: AstNode, b: AstNode) -> bool
    decreases a,
{
    a.0.span.same_place(b.0.span) && match (*a.0.value, *b.0.value) {
        (Ast::Program(x), Ast::Program(y)) => same_trees(x@, y@),
        (
            Ast::Import { names: n1, module: m1, module_alias: a1 },
            Ast::Import { names: n2, module: m2, module_alias: a2 },
        ) => same_names(n1@, n2@) && same_name(m1, m2) && same_opt_name(a1, a2),
        (
            Ast::Static { public: p1, name: n1, type_: t1, body: b1 },
            Ast::Static { public: p2, name: n2, type_: t2, body: b2 },
        ) => p1 == p2 && same_name(n1, n2) && same_tree(t1, t2) && same_tree(b1, b2),
        (
            Ast::Let { pattern: p1, type_: t1, body: b1 },
            Ast::Let { pattern: p2, type_: t2, body: b2 },
        ) => same_tree(p1, p2) && same_opt_tree(t1, t2) && same_tree(b1, b2),
        (Ast::Assignment { pattern: p1, body: b1 }, Ast::Assignment { pattern: p2, body: b2 }) =>
            same_tree(p1, p2) && same_tree(b1, b2),
        (Ast::Class { public: p1, name: n1, body: b1 }, Ast::Class { public: p2, name: n2, body: b2 }) =>
            p1 == p2 && same_name(n1, n2) && same_trees(b1@, b2@),
        (
            Ast::Function { public: p1, name: n1, args: a1, return_type: r1, body: b1, variadic: v1 },
            Ast::Function { public: p2, name: n2, args: a2, return_type: r2, body: b2, variadic: v2 },
        ) => p1 == p2 && same_name(n1, n2) && same_args(a1@, a2@) && same_opt_tree(r1, r2)
            && same_tree(b1, b2) && v1 == v2,
        (Ast::TypeName(x), Ast::TypeName(y)) => x@ == y@,
        (Ast::Integer(x), Ast::Integer(y)) => x == y,
        (Ast::String(x), Ast::String(y)) => x@ == y@,
        (Ast::Boolean(x), Ast::Boolean(y)) => x == y,
        (Ast::Float(x1, x2), Ast::Float(y1, y2)) => x1 == y1 && x2 == y2,
        (Ast::VariableAccess(x), Ast::VariableAccess(y)) => x@ == y@,
        (Ast::MemberAccess(o1, n1), Ast::MemberAccess(o2, n2)) => same_tree(o1, o2) && same_name(n1, n2),
        (Ast::Call(f1, a1), Ast::Call(f2, a2)) => same_tree(f1, f2) && same_trees(a1@, a2@),
        (
            Ast::Block { statements: s1, return_value: r1 },
            Ast::Block { statements: s2, return_value: r2 },
        ) => same_trees(s1@, s2@) && same_opt_tree(r1, r2),
        _ => false,
    }
}

/// Two lists of trees are equal, tree by tree.
pub open spec fn same_trees(a: Seq<AstNode>, b: Seq<AstNode>) -> bool
    decreases a,
{
    if a.len() != b.len() {
        false
    } else if a.len() == 0 {
        true
    } else {
        same_trees(a.subrange(0, a.len() - 1), b.subrange(0, b.len() - 1)) && same_tree(
            a[a.len() - 1],
            b[b.len() - 1],
        )
    }
}

/// Two optional trees are equal.
pub open spec fn same_opt_tree(a: Option<AstNode>, b: Option<AstNode>) -> bool
    decreases a,
{
    match (a, b) {
        (Some(x), Some(y)) => same_tree(x, y),
        (None, None) => true,
        _ => false,
    }
}

/// Two lists of function arguments are equal: the same names with equal types.
pub open spec fn same_args(a: Seq<(String, AstNode)>, b: Seq<(String, AstNode)>) -> bool
    decreases a,
{
    if a.len() != b.len() {
        false
    } else if a.len() == 0 {
        true
    } else {
        same_args(a.subrange(0, a.len() - 1), b.subrange(0, b.len() - 1)) && a[a.len() - 1].0@
            == b[b.len() - 1].0@ && same_tree(a[a.len() - 1].1, b[b.len() - 1].1)
    }
}

/// Whether two spanned strings are equal.
fn name_eq(a: &SString, b: &SString) -> (r: bool)
    ensures
        r == same_name(*a, *b),
{
    crate::text::same_text(a.value.as_str(), b.value.as_str()) && a.span == b.span
}

/// Whether two optional spanned strings are equal.
fn opt_name_eq(a: &Option<SString>, b: &Option<SString>) -> (r: bool)
    ensures
        r == same_opt_name(*a, *b),
{
    match (a, b) {
        (Some(x), Some(y)) => name_eq(x, y),
        (None, None) => true,
        _ => false,
    }
}

/// Whether two lists of imported names are equal.
fn names_eq(a: &Vec<(SString, Option<SString>)>, b: &Vec<(SString, Option<SString>)>) -> (r: bool)
    ensures
        r == same_names(a@, b@),
{
    if a.len() != b.len() {
        return false;
    }
    let mut i: usize = 0;
    while i < a.len()
        invariant
            i <= a@.len(),
            a@.len() == b@.len(),
            forall|j: int| 0 <= j < i ==> #[trigger] same_entry(a@[j], b@[j]),
        decreases a@.len() - i,
    {
        if !name_eq(&a[i].0, &b[i].0) || !opt_name_eq(&a[i].1, &b[i].1) {
            assert(!same_entry(a@[i as int], b@[i as int]));
            return false;
        }
        assert(same_entry(a@[i as int], b@[i as int]));
        i += 1;
    }
    true
}

/// Whether two trees are equal (see `same_tree`).
pub fn tree_eq(a: &AstNode, b: &AstNode) -> (r: bool)
    ensures
        r == same_tree(*a, *b),
    decreases *a,
{
    if !(a.0.span == b.0.span) {
        return false;
    }
    match (&*a.0.value, &*b.0.value) {
        (Ast::Program(x), Ast::Program(y)) => trees_eq(x, y),
        (
            Ast::Import { names: n1, module: m1, module_alias: a1 },
            Ast::Import { names: n2, module: m2, module_alias: a2 },
        ) => names_eq(n1, n2) && name_eq(m1, m2) && opt_name_eq(a1, a2),
        (
            Ast::Static { public: p1, name: n1, type_: t1, body: b1 },
            Ast::Static { public: p2, name: n2, type_: t2, body: b2 },
        ) => *p1 == *p2 && name_eq(n1, n2) && tree_eq(t1, t2) && tree_eq(b1, b2),
        (
            Ast::Let { pattern: p1, type_: t1, body: b1 },
            Ast::Let { pattern: p2, type_: t2, body: b2 },
        ) => tree_eq(p1, p2) && opt_tree_eq(t1, t2) && tree_eq(b1, b2),
        (Ast::Assignment { pattern: p1, body: b1 }, Ast::Assignment { pattern: p2, body: b2 }) =>
            tree_eq(p1, p2) && tree_eq(b1, b2),
        (Ast::Class { public: p1, name: n1, body: b1 }, Ast::Class { public: p2, name: n2, body: b2 }) =>
            *p1 == *p2 && name_eq(n1, n2) && trees_eq(b1, b2),
        (
            Ast::Function { public: p1, name: n1, args: a1, return_type: r1, body: b1, variadic: v1 },
            Ast::Function { public: p2, name: n2, args: a2, return_type: r2, body: b2, variadic: v2 },
        ) => *p1 == *p2 && name_eq(n1, n2) && args_eq(a1, a2) && opt_tree_eq(r1, r2) && tree_eq(
            b1,
            b2,
        ) && *v1 == *v2,
        (Ast::TypeName(x), Ast::TypeName(y)) => crate::text::same_text(x.as_str(), y.as_str()),
        (Ast::Integer(x), Ast::Integer(y)) => *x == *y,
        (Ast::String(x), Ast::String(y)) => crate::text::same_text(x.as_str(), y.as_str()),
        (Ast::Boolean(x), Ast::Boolean(y)) => *x == *y,
        (Ast::Float(x1, x2), Ast::Float(y1, y2)) => *x1 == *y1 && *x2 == *y2,
        (Ast::VariableAccess(x), Ast::VariableAccess(y)) => crate::text::same_text(x.as_str(), y.as_str()),
        (Ast::MemberAccess(o1, n1), Ast::MemberAccess(o2, n2)) => tree_eq(o1, o2) && name_eq(n1, n2),
        (Ast::Call(f1, a1), Ast::Call(f2, a2)) => tree_eq(f1, f2) && trees_eq(a1, a2),
        (
            Ast::Block { statements: s1, return_value: r1 },
            Ast::Block { statements: s2, return_value: r2 },
        ) => trees_eq(s1, s2) && opt_tree_eq(r1, r2),
        _ => false,
    }
}

/// Whether two lists of trees are equal.
fn trees_eq(a: &Vec<AstNode>, b: &Vec<AstNode>) -> (r: bool)
    ensures
        r == same_trees(a@, b@),
    decreases a@,
{
    if a.len() != b.len() {
        return false;
    }
    let mut i: usize = 0;
    let mut same = true;
    while i < a.len()
        invariant
            i <= a@.len(),
            a@.len() == b@.len(),
            same == same_trees(a@.subrange(0, i as int), b@.subrange(0, i as int)),
        decreases a@.len() - i,
    {
        proof {
            assert(a@.subrange(0, i + 1).subrange(0, i as int) =~= a@.subrange(0, i as int));
            assert(b@.subrange(0, i + 1).subrange(0, i as int) =~= b@.subrange(0, i as int));
        }
        let e = tree_eq(&a[i], &b[i]);
        same = same && e;
        i += 1;
    }
    proof {
        assert(a@.subrange(0, a@.len() as int) =~= a@);
        assert(b@.subrange(0, b@.len() as int) =~= b@);
    }
    same
}

/// Whether two optional trees are equal.
fn opt_tree_eq(a: &Option<AstNode>, b: &Option<AstNode>) -> (r: bool)
    ensures
        r == same_opt_tree(*a, *b),
    decreases *a,
{
    match (a, b) {
        (Some(x), Some(y)) => tree_eq(x, y),
        (None, None) => true,
        _ => false,
    }
}

/// Whether two lists of function arguments are equal.
fn args_eq(a: &Vec<(String, AstNode)>, b: &Vec<(String, AstNode)>) -> (r: bool)
    ensures
        r == same_args(a@, b@),
    decreases a@,
{
    if a.len() != b.len() {
        return false;
    }
    let mut i: usize = 0;
    let mut same = true;
    while i < a.len()
        invariant
            i <= a@.len(),
            a@.len() == b@.len(),
            same == same_args(a@.subrange(0, i as int), b@.subrange(0, i as int)),
        decreases a@.len() - i,
    {
        proof {
            assert(a@.subrange(0, i + 1).subrange(0, i as int) =~= a@.subrange(0, i as int));
            assert(b@.subrange(0, i + 1).subrange(0, i as int) =~= b@.subrange(0, i as int));
        }
        let n = crate::text::same_text(a[i].0.as_str(), b[i].0.as_str());
        let e = tree_eq(&a[i].1, &b[i].1);
        same = same && n && e;
        i += 1;
    }
    proof {
        assert(a@.subrange(0, a@.len() as int) =~= a@);
        assert(b@.subrange(0, b@.len() as int) =~= b@);
    }
    same
}

} // verus!
