use oxc_modernize_core::reading::{assemble, Construct};
use oxc_modernize_core::syntax::{DeclKind, DeclaredName, Node};

fn ident(position: usize, name: u32) -> Node {
    Node::Identifier { position, name }
}

fn group(children: Vec<Node>) -> Node {
    Node::Group { children }
}

fn parts(n: u32) -> Vec<Node> {
    (0..n).map(|i| ident(i as usize, i)).collect()
}

#[test]
fn functions_and_blocks_hold_their_parts() {
    assert_eq!(assemble(Construct::Function, parts(2)), Node::Function { body: parts(2) });
    assert_eq!(assemble(Construct::Block, parts(3)), Node::Block { body: parts(3) });
    assert_eq!(assemble(Construct::Other, parts(1)), group(parts(1)));
    assert_eq!(assemble(Construct::Other, Vec::new()), group(vec![]));
}

#[test]
fn the_last_part_of_a_for_loop_is_its_body() {
    assert_eq!(
        assemble(Construct::For { position: 9 }, parts(4)),
        Node::Loop { position: 9, header: parts(3), body: vec![ident(3, 3)] }
    );
    assert_eq!(
        assemble(Construct::For { position: 9 }, parts(1)),
        Node::Loop { position: 9, header: vec![], body: vec![ident(0, 0)] }
    );
    assert_eq!(assemble(Construct::For { position: 9 }, Vec::new()), group(vec![]));
}

#[test]
fn for_each_over_a_target_stores_to_the_target() {
    let stored = Node::Assignment {
        compound: false,
        target: Box::new(ident(0, 0)),
        value: Box::new(group(vec![])),
    };
    assert_eq!(
        assemble(Construct::ForEach { position: 5, declares: false }, parts(3)),
        Node::Loop { position: 5, header: vec![stored, ident(1, 1)], body: vec![ident(2, 2)] }
    );
    assert_eq!(
        assemble(Construct::ForEach { position: 5, declares: true }, parts(3)),
        Node::Loop { position: 5, header: parts(2), body: vec![ident(2, 2)] }
    );
    assert_eq!(
        assemble(Construct::ForEach { position: 5, declares: false }, parts(1)),
        Node::Loop { position: 5, header: vec![], body: vec![ident(0, 0)] }
    );
    assert_eq!(
        assemble(Construct::ForEach { position: 5, declares: false }, Vec::new()),
        group(vec![])
    );
}

#[test]
fn declarations_and_bound_names() {
    let names = vec![
        DeclaredName { name: 4, initialized: true },
        DeclaredName { name: 5, initialized: false },
    ];
    assert_eq!(
        assemble(
            Construct::Declaration { position: 7, kind: DeclKind::Var, names: names.clone() },
            parts(1)
        ),
        Node::Declaration { position: 7, kind: DeclKind::Var, names, initializers: parts(1) }
    );
    assert_eq!(
        assemble(Construct::Bound { position: 3, name: 8 }, Vec::new()),
        Node::Declaration {
            position: 3,
            kind: DeclKind::Let,
            names: vec![DeclaredName { name: 8, initialized: true }],
            initializers: vec![],
        }
    );
    assert_eq!(assemble(Construct::Identifier { position: 3, name: 8 }, Vec::new()), ident(3, 8));
}

#[test]
fn assignments_and_updates() {
    assert_eq!(
        assemble(Construct::Assignment { compound: false }, parts(2)),
        Node::Assignment {
            compound: false,
            target: Box::new(ident(0, 0)),
            value: Box::new(ident(1, 1)),
        }
    );
    assert_eq!(
        assemble(Construct::Assignment { compound: true }, parts(2)),
        Node::Assignment {
            compound: true,
            target: Box::new(ident(0, 0)),
            value: Box::new(ident(1, 1)),
        }
    );
    assert_eq!(assemble(Construct::Assignment { compound: true }, parts(3)), group(parts(3)));
    assert_eq!(
        assemble(Construct::Update, parts(1)),
        Node::Assignment {
            compound: true,
            target: Box::new(ident(0, 0)),
            value: Box::new(group(vec![])),
        }
    );
    assert_eq!(assemble(Construct::Update, parts(2)), group(parts(2)));
}

#[test]
fn patterns_keep_defaults_and_keys_apart_from_targets() {
    assert_eq!(assemble(Construct::Pattern, parts(2)), Node::Pattern { elements: parts(2) });
    assert_eq!(
        assemble(Construct::PatternWithDefault, parts(3)),
        Node::Pattern { elements: vec![ident(0, 0), group(vec![ident(1, 1), ident(2, 2)])] }
    );
    assert_eq!(
        assemble(Construct::PatternWithDefault, parts(1)),
        Node::Pattern { elements: vec![ident(0, 0), group(vec![])] }
    );
    assert_eq!(
        assemble(Construct::PatternWithDefault, Vec::new()),
        Node::Pattern { elements: vec![] }
    );
    assert_eq!(
        assemble(Construct::PatternProperty, parts(3)),
        Node::Pattern { elements: vec![group(parts(2)), ident(2, 2)] }
    );
    assert_eq!(assemble(Construct::PatternProperty, Vec::new()), Node::Pattern { elements: vec![] });
}

#[test]
fn dynamic_constructs_are_marked_after_their_parts() {
    assert_eq!(
        assemble(Construct::Dynamic, parts(1)),
        group(vec![ident(0, 0), Node::Dynamic])
    );
}
