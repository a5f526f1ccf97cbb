use oxc_modernize_core::outline::{Access, ScopeKind};
use oxc_modernize_core::syntax::{DeclKind, DeclaredName, Node};
use oxc_modernize_core::graph::analyze;
use oxc_modernize_core::statements::declarations_of;
use oxc_modernize_core::verdict::{classify, CaptureSemanticsChange, UnsafeReason, Verdict};
use oxc_modernize_core::visitor::{analyze_and_rewrite, Entry};

const A: u32 = 1;
const B: u32 = 2;
const I: u32 = 3;
const FNS: u32 = 4;
const CONSOLE: u32 = 5;

fn ident(position: usize, name: u32) -> Node {
    Node::Identifier { position, name }
}

fn group(children: Vec<Node>) -> Node {
    Node::Group { children }
}

fn assign(target: Node, value: Node) -> Node {
    Node::Assignment { compound: false, target: Box::new(target), value: Box::new(value) }
}

fn update(target: Node) -> Node {
    Node::Assignment { compound: true, target: Box::new(target), value: Box::new(group(vec![])) }
}

fn declare(position: usize, kind: DeclKind, names: &[(u32, bool)], initializers: Vec<Node>) -> Node {
    Node::Declaration {
        position,
        kind,
        names: names.iter().map(|&(name, initialized)| DeclaredName { name, initialized }).collect(),
        initializers,
    }
}

fn var(position: usize, name: u32) -> Node {
    declare(position, DeclKind::Var, &[(name, true)], vec![group(vec![])])
}

fn kinds(tree: &Node) -> Vec<DeclKind> {
    declarations_of(tree).iter().map(|s| s.kind).collect()
}

fn entry_of(report: &[Entry], name: u32) -> Entry {
    *report.iter().find(|e| e.name == name).expect("the name is declared")
}

/// `for (var i = 0; i < 10; i++) { <body> }` starting at position 10.
fn counting_loop(body: Vec<Node>) -> Node {
    Node::Loop {
        position: 10,
        header: vec![
            var(15, I),
            group(vec![ident(26, I)]),
            update(ident(34, I)),
        ],
        body: vec![Node::Block { body }],
    }
}

#[test]
fn initialized_and_never_reassigned_becomes_const() {
    // var a = 1; console.log(a);
    let program = group(vec![var(0, A), group(vec![ident(11, CONSOLE), ident(23, A)])]);
    let (tree, report) = analyze_and_rewrite(&program);
    assert_eq!(entry_of(&report, A).verdict, Some(Verdict::Immutable));
    assert_eq!(entry_of(&report, A).flag, None);
    assert_eq!(kinds(&tree), vec![DeclKind::Const]);
}

#[test]
fn later_plain_assignment_makes_mutable() {
    // var a = 1; a = 2;
    let program = group(vec![var(0, A), assign(ident(11, A), group(vec![]))]);
    let (tree, report) = analyze_and_rewrite(&program);
    assert_eq!(entry_of(&report, A).verdict, Some(Verdict::Mutable));
    assert_eq!(kinds(&tree), vec![DeclKind::Let]);
}

#[test]
fn read_before_declaration_is_unsafe_and_tree_unchanged() {
    // console.log(a); var a = 1;
    let program = group(vec![group(vec![ident(0, CONSOLE), ident(12, A)]), var(16, A)]);
    let (tree, report) = analyze_and_rewrite(&program);
    assert_eq!(
        entry_of(&report, A).verdict,
        Some(Verdict::Unsafe(UnsafeReason::UseBeforeDeclaration))
    );
    assert_eq!(tree, program);
}

#[test]
fn write_before_declaration_is_unsafe() {
    // a = 2; var a = 1;
    let program = group(vec![assign(ident(0, A), group(vec![])), var(7, A)]);
    let (tree, report) = analyze_and_rewrite(&program);
    assert_eq!(
        entry_of(&report, A).verdict,
        Some(Verdict::Unsafe(UnsafeReason::UseBeforeDeclaration))
    );
    assert_eq!(kinds(&tree), vec![DeclKind::Var]);
}

#[test]
fn loop_counter_without_closure_is_mutable_and_unflagged() {
    // for (var i = 0; i < 10; i++) { console.log(i); }
    let program = group(vec![counting_loop(vec![group(vec![ident(40, CONSOLE), ident(52, I)])])]);
    let (tree, report) = analyze_and_rewrite(&program);
    assert_eq!(entry_of(&report, I).verdict, Some(Verdict::Mutable));
    assert_eq!(entry_of(&report, I).flag, None);
    assert_eq!(kinds(&tree), vec![DeclKind::Let]);
}

#[test]
fn loop_counter_captured_by_closure_is_flagged_at_the_loop() {
    // for (var i = 0; i < 10; i++) { fns.push(function () { return i; }); }
    let closure = Node::Function { body: vec![group(vec![ident(70, I)])] };
    let program = group(vec![counting_loop(vec![group(vec![ident(40, FNS), closure])])]);
    let (tree, report) = analyze_and_rewrite(&program);
    assert_eq!(entry_of(&report, I).verdict, Some(Verdict::Mutable));
    assert_eq!(entry_of(&report, I).flag, Some(CaptureSemanticsChange { loop_position: 10 }));
    assert_eq!(kinds(&tree), vec![DeclKind::Let]);
}

#[test]
fn closure_in_loop_header_is_not_a_capture_in_the_body() {
    // for (var i = 0; (function () { return i; })(); i++) {}
    let closure = Node::Function { body: vec![group(vec![ident(30, I)])] };
    let program = group(vec![Node::Loop {
        position: 0,
        header: vec![var(5, I), group(vec![closure]), update(ident(50, I))],
        body: vec![Node::Block { body: vec![] }],
    }]);
    let (_, report) = analyze_and_rewrite(&program);
    assert_eq!(entry_of(&report, I).verdict, Some(Verdict::Mutable));
    assert_eq!(entry_of(&report, I).flag, None);
}

#[test]
fn closure_after_the_loop_is_not_a_capture_in_the_body() {
    // for (var i = 0; i < 10; i++) {} fns.push(function () { return i; });
    let closure = Node::Function { body: vec![group(vec![ident(70, I)])] };
    let program = group(vec![counting_loop(vec![]), group(vec![ident(50, FNS), closure])]);
    let (_, report) = analyze_and_rewrite(&program);
    assert_eq!(entry_of(&report, I).flag, None);
}

#[test]
fn loop_variable_never_written_is_still_mutable() {
    // for (var a of b) {}
    let program = group(vec![Node::Loop {
        position: 0,
        header: vec![declare(5, DeclKind::Var, &[(A, false)], vec![]), group(vec![ident(14, B)])],
        body: vec![Node::Block { body: vec![] }],
    }]);
    let (tree, report) = analyze_and_rewrite(&program);
    assert_eq!(entry_of(&report, A).verdict, Some(Verdict::Mutable));
    assert_eq!(kinds(&tree), vec![DeclKind::Let]);
}

#[test]
fn statement_with_one_mutable_name_becomes_let_as_a_whole() {
    // var a = 1, b = 2; b = 3;
    let program = group(vec![
        declare(0, DeclKind::Var, &[(A, true), (B, true)], vec![group(vec![])]),
        assign(ident(18, B), group(vec![])),
    ]);
    let (tree, report) = analyze_and_rewrite(&program);
    assert_eq!(entry_of(&report, A).verdict, Some(Verdict::Immutable));
    assert_eq!(entry_of(&report, B).verdict, Some(Verdict::Mutable));
    assert_eq!(kinds(&tree), vec![DeclKind::Let]);
}

#[test]
fn statement_with_one_unsafe_name_stays_var() {
    // b; var a = 1, b = 2;
    let program = group(vec![
        group(vec![ident(0, B)]),
        declare(3, DeclKind::Var, &[(A, true), (B, true)], vec![group(vec![])]),
    ]);
    let (tree, report) = analyze_and_rewrite(&program);
    assert_eq!(entry_of(&report, A).verdict, Some(Verdict::Immutable));
    assert_eq!(
        entry_of(&report, B).verdict,
        Some(Verdict::Unsafe(UnsafeReason::UseBeforeDeclaration))
    );
    assert_eq!(tree, program);
}

#[test]
fn uninitialized_declaration_is_mutable() {
    // var a;
    let program = group(vec![declare(0, DeclKind::Var, &[(A, false)], vec![])]);
    let (tree, report) = analyze_and_rewrite(&program);
    assert_eq!(entry_of(&report, A).verdict, Some(Verdict::Mutable));
    assert_eq!(kinds(&tree), vec![DeclKind::Let]);
}

#[test]
fn compound_assignment_and_increment_make_mutable() {
    // var a = 1; a += 2;
    let program = group(vec![
        var(0, A),
        Node::Assignment {
            compound: true,
            target: Box::new(ident(11, A)),
            value: Box::new(group(vec![])),
        },
    ]);
    let graph = analyze(&program);
    assert_eq!(graph.references().len(), 1);
    assert_eq!(graph.references()[0].access, Access::ReadWrite);
    assert_eq!(classify(&graph), vec![Some(Verdict::Mutable)]);
}

#[test]
fn destructuring_reassignment_makes_mutable() {
    // var a = 1, b = 2; [a, b = a] = [b, a];
    let program = group(vec![
        declare(0, DeclKind::Var, &[(A, true), (B, true)], vec![group(vec![])]),
        assign(
            Node::Pattern {
                elements: vec![ident(19, A), ident(22, B), group(vec![ident(26, A)])],
            },
            group(vec![ident(32, B), ident(35, A)]),
        ),
    ]);
    let graph = analyze(&program);
    let accesses: Vec<Access> = graph.references().iter().map(|r| r.access).collect();
    assert_eq!(
        accesses,
        vec![
            Access::DestructureBind,
            Access::DestructureBind,
            Access::Read,
            Access::Read,
            Access::Read
        ]
    );
    assert_eq!(classify(&graph), vec![Some(Verdict::Mutable), Some(Verdict::Mutable)]);
}

#[test]
fn assignment_to_a_member_only_reads_the_object() {
    // var a = {}; a.b = 1;
    let program = group(vec![var(0, A), assign(group(vec![ident(12, A)]), group(vec![]))]);
    let (tree, report) = analyze_and_rewrite(&program);
    assert_eq!(entry_of(&report, A).verdict, Some(Verdict::Immutable));
    assert_eq!(kinds(&tree), vec![DeclKind::Const]);
}

#[test]
fn dynamic_construct_makes_every_binding_around_it_unsafe() {
    // var a = 1; function f() { var b = 2; eval(""); }
    let program = group(vec![
        var(0, A),
        Node::Function { body: vec![var(26, B), Node::Dynamic] },
    ]);
    let (tree, report) = analyze_and_rewrite(&program);
    assert_eq!(entry_of(&report, A).verdict, Some(Verdict::Unsafe(UnsafeReason::DynamicScope)));
    assert_eq!(entry_of(&report, B).verdict, Some(Verdict::Unsafe(UnsafeReason::DynamicScope)));
    assert_eq!(tree, program);
}

#[test]
fn dynamic_construct_does_not_reach_sibling_functions() {
    // function f() { eval(""); } function g() { var b = 2; }
    let program = group(vec![
        Node::Function { body: vec![Node::Dynamic] },
        Node::Function { body: vec![var(42, B)] },
    ]);
    let (_, report) = analyze_and_rewrite(&program);
    assert_eq!(entry_of(&report, B).verdict, Some(Verdict::Immutable));
}

#[test]
fn dynamic_construct_wins_over_use_before_declaration() {
    // a; var a = 1; eval("");
    let program = group(vec![group(vec![ident(0, A)]), var(3, A), Node::Dynamic]);
    let (_, report) = analyze_and_rewrite(&program);
    assert_eq!(entry_of(&report, A).verdict, Some(Verdict::Unsafe(UnsafeReason::DynamicScope)));
}

#[test]
fn use_in_a_closure_before_the_declaration_is_no_early_use() {
    // function f() { return a; } var a = 1;
    let program = group(vec![Node::Function { body: vec![group(vec![ident(22, A)])] }, var(27, A)]);
    let graph = analyze(&program);
    assert_eq!(graph.references().len(), 1);
    assert_eq!(graph.references()[0].depth, 1);
    assert_eq!(classify(&graph), vec![Some(Verdict::Immutable)]);
}

#[test]
fn closure_depth_counts_function_boundaries() {
    // var a = 1; function f() { { function g() { a; } } }
    let program = group(vec![
        var(0, A),
        Node::Function {
            body: vec![Node::Block {
                body: vec![Node::Function { body: vec![group(vec![ident(44, A)])] }],
            }],
        },
    ]);
    let graph = analyze(&program);
    assert_eq!(graph.scopes().len(), 4);
    assert_eq!(graph.scopes()[0].kind, ScopeKind::Module);
    assert_eq!(graph.scopes()[0].parent, None);
    assert_eq!(graph.scopes()[1].kind, ScopeKind::Function);
    assert_eq!(graph.scopes()[2].kind, ScopeKind::Block);
    assert_eq!(graph.scopes()[3].parent, Some(2));
    assert_eq!(graph.references().len(), 1);
    assert_eq!(graph.references()[0].binding, 0);
    assert_eq!(graph.references()[0].scope, 3);
    assert_eq!(graph.references()[0].depth, 2);
}

#[test]
fn var_in_a_block_is_hoisted_to_the_function() {
    // function f() { { var a = 1; } a; }
    let program = group(vec![Node::Function {
        body: vec![Node::Block { body: vec![var(19, A)] }, group(vec![ident(32, A)])],
    }]);
    let graph = analyze(&program);
    assert_eq!(graph.bindings().len(), 1);
    assert_eq!(graph.bindings()[0].scope, 1);
    assert!(graph.bindings()[0].function_scoped);
    assert_eq!(graph.references().len(), 1);
    assert_eq!(graph.references()[0].binding, 0);
    assert_eq!(graph.references()[0].depth, 0);
}

#[test]
fn repeated_var_merges_into_one_binding() {
    // var a = 1; a; var a; a = 2;
    let program = group(vec![
        var(0, A),
        group(vec![ident(11, A)]),
        declare(14, DeclKind::Var, &[(A, false)], vec![]),
        assign(ident(21, A), group(vec![])),
    ]);
    let graph = analyze(&program);
    assert_eq!(graph.bindings().len(), 1);
    assert_eq!(*graph.owners(), vec![0, 0]);
    assert_eq!(graph.bindings()[0].position, 0);
    assert!(!graph.bindings()[0].initialized);
    assert_eq!(graph.references().len(), 2);
    let (tree, report) = analyze_and_rewrite(&program);
    assert_eq!(report.len(), 2);
    assert_eq!(report[0].verdict, Some(Verdict::Mutable));
    assert_eq!(report[1].verdict, Some(Verdict::Mutable));
    assert_eq!(kinds(&tree), vec![DeclKind::Let, DeclKind::Let]);
}

#[test]
fn let_in_a_nested_block_shadows_the_var() {
    // var a = 1; { let a = 2; a = 3; } a;
    let program = group(vec![
        var(0, A),
        Node::Block {
            body: vec![
                declare(13, DeclKind::Let, &[(A, true)], vec![group(vec![])]),
                assign(ident(24, A), group(vec![])),
            ],
        },
        group(vec![ident(33, A)]),
    ]);
    let graph = analyze(&program);
    assert_eq!(graph.bindings().len(), 2);
    assert_eq!(graph.bindings()[0].scope, 0);
    assert_eq!(graph.bindings()[1].scope, 1);
    let bound: Vec<usize> = graph.references().iter().map(|r| r.binding).collect();
    assert_eq!(bound, vec![1, 0]);
    assert_eq!(classify(&graph), vec![Some(Verdict::Immutable), None]);
    let (tree, _) = analyze_and_rewrite(&program);
    assert_eq!(kinds(&tree), vec![DeclKind::Const, DeclKind::Let]);
}

#[test]
fn var_that_redeclares_a_parameter_is_left_alone() {
    // function f(a) { var a = 1; }
    let program = group(vec![Node::Function {
        body: vec![declare(11, DeclKind::Let, &[(A, true)], vec![]), var(16, A)],
    }]);
    let (tree, report) = analyze_and_rewrite(&program);
    assert_eq!(report[1].kind, DeclKind::Var);
    assert_eq!(report[1].verdict, None);
    assert_eq!(tree, program);
}

#[test]
fn unresolved_names_leave_no_reference() {
    // console.log(b);
    let program = group(vec![group(vec![ident(0, CONSOLE), ident(12, B)])]);
    let graph = analyze(&program);
    assert!(graph.bindings().is_empty());
    assert!(graph.references().is_empty());
    let (tree, report) = analyze_and_rewrite(&program);
    assert!(report.is_empty());
    assert_eq!(tree, program);
}

#[test]
fn analysis_is_deterministic() {
    fn build() -> Node {
        let closure = Node::Function { body: vec![group(vec![ident(70, I)])] };
        group(vec![
            var(0, A),
            counting_loop(vec![group(vec![ident(40, FNS), closure])]),
            assign(ident(90, A), group(vec![])),
        ])
    }
    let program = build();
    let copy = build();
    assert_eq!(analyze_and_rewrite(&program), analyze_and_rewrite(&copy));
    assert_eq!(analyze_and_rewrite(&program), analyze_and_rewrite(&program));
}

#[test]
fn verdicts_agree_with_the_references() {
    // var a = 1, b = 2; b = a; a;
    let program = group(vec![
        declare(0, DeclKind::Var, &[(A, true), (B, true)], vec![group(vec![])]),
        assign(ident(18, B), group(vec![ident(22, A)])),
        group(vec![ident(25, A)]),
    ]);
    let graph = analyze(&program);
    let verdicts = classify(&graph);
    for (b, verdict) in verdicts.iter().enumerate() {
        let written = graph.references().iter().any(|r| r.binding == b && r.access != Access::Read);
        let early = graph
            .references()
            .iter()
            .any(|r| r.binding == b && r.depth == 0 && r.position < graph.bindings()[b].position);
        match verdict {
            Some(Verdict::Mutable) => assert!(written),
            Some(Verdict::Immutable) => assert!(!written && !early),
            other => panic!("unexpected verdict {:?}", other),
        }
    }
    assert_eq!(verdicts, vec![Some(Verdict::Immutable), Some(Verdict::Mutable)]);
}

#[test]
fn block_scoped_program_is_unchanged() {
    // let a = 1; const b = 2; a = b;
    let program = group(vec![
        declare(0, DeclKind::Let, &[(A, true)], vec![group(vec![])]),
        declare(11, DeclKind::Const, &[(B, true)], vec![group(vec![])]),
        assign(ident(24, A), group(vec![ident(28, B)])),
    ]);
    let (tree, report) = analyze_and_rewrite(&program);
    assert_eq!(tree, program);
    assert_eq!(report.len(), 2);
    assert_eq!(report[0].verdict, None);
    assert_eq!(report[1].verdict, None);
}

#[test]
fn rewriting_the_result_again_changes_nothing() {
    // var a = 1; var b = 2; b = 3;
    let program = group(vec![var(0, A), var(11, B), assign(ident(22, B), group(vec![]))]);
    let (once, _) = analyze_and_rewrite(&program);
    assert_eq!(kinds(&once), vec![DeclKind::Const, DeclKind::Let]);
    let (twice, _) = analyze_and_rewrite(&once);
    assert_eq!(twice, once);
}

#[test]
fn only_declaration_keywords_change() {
    // var a = 1; for (var i = 0; i < 10; i++) { a; }
    let program = group(vec![var(0, A), counting_loop(vec![group(vec![ident(40, A)])])]);
    let (tree, _) = analyze_and_rewrite(&program);
    let expected = group(vec![
        declare(0, DeclKind::Const, &[(A, true)], vec![group(vec![])]),
        Node::Loop {
            position: 10,
            header: vec![
                declare(15, DeclKind::Let, &[(I, true)], vec![group(vec![])]),
                group(vec![ident(26, I)]),
                update(ident(34, I)),
            ],
            body: vec![Node::Block { body: vec![group(vec![ident(40, A)])] }],
        },
    ]);
    assert_eq!(tree, expected);
}
