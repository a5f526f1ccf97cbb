use oxc_modernize_core::binding::{list_declared_in, list_references_to, Binding, Reference};
use oxc_modernize_core::graph::analyze;
use oxc_modernize_core::outline::{
    survey, Access, LoopHeader, Scope, ScopeKind, Site, Statement, Use,
};
use oxc_modernize_core::rewrite::{apply, decide, rewrite, rewrite_all};
use oxc_modernize_core::scope::{enclosing, enclosing_function, is_enclosed, lies_under_body};
use oxc_modernize_core::statements::declarations_of;
use oxc_modernize_core::syntax::{DeclKind, DeclaredName, Node};
use oxc_modernize_core::verdict::{
    classify, flags, is_captured, is_tainted, judge, CaptureSemanticsChange, UnsafeReason, Verdict,
};
use oxc_modernize_core::visitor::{report, SmartVarToLetVisitor};

fn scope(kind: ScopeKind, parent: usize) -> Scope {
    Scope { kind, parent: Some(parent), in_loop_body: false }
}

/// module 0 > function 1 > block 2 > loop 3 > block 4 (loop body) > function 5,
/// and function 6 directly in the module.
fn arena() -> Vec<Scope> {
    vec![
        Scope { kind: ScopeKind::Module, parent: None, in_loop_body: false },
        scope(ScopeKind::Function, 0),
        scope(ScopeKind::Block, 1),
        scope(ScopeKind::Loop, 2),
        Scope { kind: ScopeKind::Block, parent: Some(3), in_loop_body: true },
        scope(ScopeKind::Function, 4),
        scope(ScopeKind::Function, 0),
    ]
}

fn binding(scope: usize, name: u32) -> Binding {
    Binding {
        scope,
        name,
        function_scoped: true,
        position: 0,
        initialized: true,
        in_loop_header: false,
    }
}

fn ident(position: usize, name: u32) -> Node {
    Node::Identifier { position, name }
}

fn group(children: Vec<Node>) -> Node {
    Node::Group { children }
}

fn declaration(position: usize, kind: DeclKind, name: u32) -> Node {
    Node::Declaration {
        position,
        kind,
        names: vec![DeclaredName { name, initialized: true }],
        initializers: vec![],
    }
}

#[test]
fn function_scoped_names_belong_to_the_nearest_function_or_the_module() {
    let scopes = arena();
    assert_eq!(enclosing_function(&scopes, 0), 0);
    assert_eq!(enclosing_function(&scopes, 1), 1);
    assert_eq!(enclosing_function(&scopes, 2), 1);
    assert_eq!(enclosing_function(&scopes, 4), 1);
    assert_eq!(enclosing_function(&scopes, 5), 5);
    assert_eq!(enclosing_function(&scopes, 6), 6);
}

#[test]
fn a_scope_encloses_itself_and_what_lies_in_it() {
    let scopes = arena();
    assert!(is_enclosed(&scopes, 0, 5));
    assert!(is_enclosed(&scopes, 1, 5));
    assert!(is_enclosed(&scopes, 5, 5));
    assert!(!is_enclosed(&scopes, 5, 1));
    assert!(!is_enclosed(&scopes, 6, 5));
    assert!(!is_enclosed(&scopes, 1, 6));
    assert!(!is_enclosed(&scopes, 6, 0));
}

#[test]
fn loop_body_reaches_down_but_not_up() {
    let scopes = arena();
    assert!(lies_under_body(&scopes, 4, 3));
    assert!(lies_under_body(&scopes, 5, 3));
    assert!(!lies_under_body(&scopes, 3, 3));
    assert!(!lies_under_body(&scopes, 2, 3));
    assert!(!lies_under_body(&scopes, 5, 2));
    assert!(!lies_under_body(&scopes, 6, 3));
}

fn declared(position: usize, kind: DeclKind, name: u32, initialized: bool) -> Node {
    Node::Declaration {
        position,
        kind,
        names: vec![DeclaredName { name, initialized }],
        initializers: vec![],
    }
}

#[test]
fn scopes_outside_the_arena_have_no_parent() {
    let scopes = arena();
    assert_eq!(enclosing(&scopes, 0), None);
    assert_eq!(enclosing(&scopes, 1), Some(0));
    assert_eq!(enclosing(&scopes, 5), Some(4));
    assert_eq!(enclosing(&scopes, 7), None);
    assert_eq!(enclosing_function(&scopes, 9), 9);
    assert!(is_enclosed(&scopes, 9, 9));
    assert!(!is_enclosed(&scopes, 0, 9));
    assert!(!lies_under_body(&scopes, 9, 3));
    let twisted = vec![
        Scope { kind: ScopeKind::Block, parent: Some(1), in_loop_body: true },
        Scope { kind: ScopeKind::Block, parent: Some(1), in_loop_body: true },
    ];
    assert_eq!(enclosing(&twisted, 1), None);
    assert_eq!(enclosing_function(&twisted, 1), 1);
    assert!(!is_enclosed(&twisted, 0, 1));
    assert!(!lies_under_body(&twisted, 1, 1));
}

#[test]
fn analysis_hoists_var_and_merges_repeats() {
    // The scopes come out as in `arena`.
    let program = group(vec![
        Node::Function {
            body: vec![Node::Block {
                body: vec![
                    declared(0, DeclKind::Var, 7, true),
                    declared(10, DeclKind::Let, 7, true),
                    Node::Loop {
                        position: 99,
                        header: vec![declared(20, DeclKind::Var, 7, false)],
                        body: vec![Node::Block {
                            body: vec![Node::Function {
                                body: vec![declared(30, DeclKind::Var, 7, true)],
                            }],
                        }],
                    },
                    declared(40, DeclKind::Const, 7, true),
                ],
            }],
        },
        Node::Function { body: vec![] },
    ]);
    let graph = analyze(&program);
    assert_eq!(*graph.scopes(), arena());
    assert_eq!(*graph.owners(), vec![0, 1, 0, 2, 1]);
    assert_eq!(
        *graph.bindings(),
        vec![
            Binding {
                scope: 1,
                name: 7,
                function_scoped: true,
                position: 0,
                initialized: false,
                in_loop_header: true,
            },
            Binding {
                scope: 2,
                name: 7,
                function_scoped: false,
                position: 10,
                initialized: true,
                in_loop_header: false,
            },
            Binding {
                scope: 5,
                name: 7,
                function_scoped: true,
                position: 30,
                initialized: true,
                in_loop_header: false,
            },
        ]
    );
    assert_eq!(list_declared_in(graph.bindings(), 1), vec![graph.bindings()[0]]);
    assert_eq!(list_declared_in(graph.bindings(), 0), vec![]);
}

#[test]
fn var_merged_with_a_block_scoped_name_is_no_longer_function_scoped() {
    let program = Node::Function {
        body: vec![declared(0, DeclKind::Var, 7, true), declared(10, DeclKind::Let, 7, true)],
    };
    let graph = analyze(&program);
    assert_eq!(*graph.owners(), vec![0, 0]);
    assert_eq!(graph.bindings().len(), 1);
    assert!(!graph.bindings()[0].function_scoped);
}

#[test]
fn names_resolve_to_the_nearest_binding_and_count_function_boundaries() {
    // The scopes come out as in `arena`; 7 is bound in scopes 0 and 4, 8 in scope 1.
    let program = group(vec![
        declared(0, DeclKind::Var, 7, true),
        Node::Function {
            body: vec![
                declared(1, DeclKind::Var, 8, true),
                Node::Block {
                    body: vec![
                        ident(2, 8),
                        Node::Loop {
                            position: 3,
                            header: vec![ident(4, 7)],
                            body: vec![Node::Block {
                                body: vec![
                                    declared(5, DeclKind::Let, 7, true),
                                    Node::Assignment {
                                        compound: false,
                                        target: Box::new(ident(6, 7)),
                                        value: Box::new(group(vec![])),
                                    },
                                    Node::Function {
                                        body: vec![ident(7, 7), ident(8, 8), ident(9, 9)],
                                    },
                                ],
                            }],
                        },
                    ],
                },
            ],
        },
        Node::Function { body: vec![ident(10, 7), ident(11, 9)] },
        ident(12, 7),
    ]);
    let graph = analyze(&program);
    assert_eq!(*graph.scopes(), arena());
    let read = |binding, depth, position, scope| Reference {
        binding,
        access: Access::Read,
        depth,
        position,
        scope,
    };
    let references = vec![
        read(1, 0, 2, 2),
        read(0, 1, 4, 3),
        Reference { binding: 2, access: Access::Write, depth: 0, position: 6, scope: 4 },
        read(2, 1, 7, 5),
        read(1, 1, 8, 5),
        read(0, 1, 10, 6),
        read(0, 0, 12, 0),
    ];
    assert_eq!(*graph.references(), references);
    assert_eq!(
        list_references_to(graph.references(), 0),
        vec![references[1], references[5], references[6]]
    );
    assert_eq!(list_references_to(graph.references(), 2), vec![references[2], references[3]]);
    assert_eq!(list_references_to(graph.references(), 3), vec![]);
}

#[test]
fn judge_orders_its_reasons() {
    let var = binding(0, 7);
    let lexical = Binding { function_scoped: false, ..var };
    let bare = Binding { initialized: false, ..var };
    let looped = Binding { in_loop_header: true, ..var };
    assert_eq!(judge(lexical, true, true, true), None);
    assert_eq!(judge(var, true, true, true), Some(Verdict::Unsafe(UnsafeReason::DynamicScope)));
    assert_eq!(
        judge(var, false, true, true),
        Some(Verdict::Unsafe(UnsafeReason::UseBeforeDeclaration))
    );
    assert_eq!(judge(var, false, false, true), Some(Verdict::Mutable));
    assert_eq!(judge(bare, false, false, false), Some(Verdict::Mutable));
    assert_eq!(judge(looped, false, false, false), Some(Verdict::Mutable));
    assert_eq!(judge(var, false, false, false), Some(Verdict::Immutable));
}

#[test]
fn taint_reaches_the_scopes_around_the_construct() {
    let scopes = arena();
    let dynamic = vec![5];
    assert!(is_tainted(&scopes, &dynamic, 5));
    assert!(is_tainted(&scopes, &dynamic, 1));
    assert!(is_tainted(&scopes, &dynamic, 0));
    assert!(!is_tainted(&scopes, &dynamic, 6));
    assert!(!is_tainted(&scopes, &Vec::new(), 0));
}

/// var a = 1; for (var i = 0; i; i++) { f(function () { i; }); } with a = 1, i = 2, f = 3.
fn looping() -> Node {
    group(vec![
        declaration(0, DeclKind::Var, 1),
        Node::Loop {
            position: 11,
            header: vec![
                declaration(16, DeclKind::Var, 2),
                group(vec![ident(27, 2)]),
                Node::Assignment {
                    compound: true,
                    target: Box::new(ident(30, 2)),
                    value: Box::new(group(vec![])),
                },
            ],
            body: vec![Node::Block {
                body: vec![group(vec![ident(37, 3), Node::Function { body: vec![ident(53, 2)] }])],
            }],
        },
    ])
}

#[test]
fn survey_records_scopes_sites_and_uses_in_source_order() {
    let outline = survey(&looping());
    assert_eq!(
        outline.scopes,
        vec![
            Scope { kind: ScopeKind::Module, parent: None, in_loop_body: false },
            Scope { kind: ScopeKind::Loop, parent: Some(0), in_loop_body: false },
            Scope { kind: ScopeKind::Block, parent: Some(1), in_loop_body: true },
            Scope { kind: ScopeKind::Function, parent: Some(2), in_loop_body: false },
        ]
    );
    assert_eq!(
        outline.statements,
        vec![
            Statement { position: 0, kind: DeclKind::Var },
            Statement { position: 16, kind: DeclKind::Var },
        ]
    );
    assert_eq!(
        outline.sites,
        vec![
            Site {
                statement: 0,
                scope: 0,
                kind: DeclKind::Var,
                name: 1,
                initialized: true,
                position: 0,
                header: None,
            },
            Site {
                statement: 1,
                scope: 1,
                kind: DeclKind::Var,
                name: 2,
                initialized: true,
                position: 16,
                header: Some(LoopHeader { scope: 1, position: 11 }),
            },
        ]
    );
    assert_eq!(
        outline.uses,
        vec![
            Use { scope: 1, name: 2, access: Access::Read, position: 27 },
            Use { scope: 1, name: 2, access: Access::ReadWrite, position: 30 },
            Use { scope: 2, name: 3, access: Access::Read, position: 37 },
            Use { scope: 3, name: 2, access: Access::Read, position: 53 },
        ]
    );
    assert!(outline.dynamic.is_empty());
    let graph = analyze(&looping());
    assert_eq!(*graph.owners(), vec![0, 1]);
    assert_eq!(graph.bindings()[1].scope, 0);
    assert!(graph.bindings()[1].in_loop_header);
    assert_eq!(graph.references().len(), 3);
    assert_eq!(graph.references()[2].depth, 1);
}

#[test]
fn capture_and_flags_go_by_the_loop_of_the_site() {
    let graph = analyze(&looping());
    assert!(is_captured(&graph, 1, 1));
    assert!(!is_captured(&graph, 1, 0));
    assert!(!is_captured(&graph, 0, 1));
    assert_eq!(flags(&graph), vec![None, Some(CaptureSemanticsChange { loop_position: 11 })]);
    let verdicts = classify(&graph);
    assert_eq!(verdicts, vec![Some(Verdict::Immutable), Some(Verdict::Mutable)]);
    assert_eq!(decide(&graph), vec![Some(DeclKind::Const), Some(DeclKind::Let)]);
    let entries = report(&graph);
    assert_eq!(entries.len(), 2);
    assert_eq!(entries[1].statement, 1);
    assert_eq!(entries[1].position, 16);
    assert_eq!(entries[1].kind, DeclKind::Var);
    assert_eq!(entries[1].name, 2);
}

#[test]
fn apply_changes_only_var_and_stops_at_the_end_of_the_decisions() {
    let decisions = vec![Some(DeclKind::Const), None, Some(DeclKind::Let)];
    assert_eq!(apply(DeclKind::Var, &decisions, 0), (DeclKind::Const, 1));
    assert_eq!(apply(DeclKind::Var, &decisions, 1), (DeclKind::Var, 2));
    assert_eq!(apply(DeclKind::Var, &decisions, 2), (DeclKind::Let, 3));
    assert_eq!(apply(DeclKind::Let, &decisions, 0), (DeclKind::Let, 1));
    assert_eq!(apply(DeclKind::Const, &decisions, 2), (DeclKind::Const, 3));
    assert_eq!(apply(DeclKind::Var, &decisions, 3), (DeclKind::Var, 3));
    assert_eq!(apply(DeclKind::Var, &decisions, 9), (DeclKind::Var, 9));
}

#[test]
fn rewrite_hands_out_decisions_in_source_order() {
    let decisions = vec![Some(DeclKind::Const), Some(DeclKind::Let), None];
    let (tree, next) = rewrite(&looping(), &decisions, 0);
    assert_eq!(next, 2);
    assert_eq!(
        declarations_of(&tree),
        vec![
            Statement { position: 0, kind: DeclKind::Const },
            Statement { position: 16, kind: DeclKind::Let },
        ]
    );
    let (shifted, next) = rewrite(&looping(), &decisions, 1);
    assert_eq!(next, 3);
    assert_eq!(
        declarations_of(&shifted),
        vec![
            Statement { position: 0, kind: DeclKind::Let },
            Statement { position: 16, kind: DeclKind::Var },
        ]
    );
    let (list, next) = rewrite_all(&vec![looping(), looping()], &decisions, 0);
    assert_eq!(next, 3);
    assert_eq!(list.len(), 2);
    assert_eq!(list[0], tree);
    assert_eq!(
        declarations_of(&list[1]),
        vec![
            Statement { position: 0, kind: DeclKind::Var },
            Statement { position: 16, kind: DeclKind::Var },
        ]
    );
}

#[test]
fn visitor_walks_the_statements_of_the_analyzed_program() {
    let program = looping();
    let graph = analyze(&program);
    let mut visitor = SmartVarToLetVisitor::new(&graph);
    assert_eq!(visitor.visit_variable_declaration(DeclKind::Var), DeclKind::Const);
    assert_eq!(visitor.visit_variable_declaration(DeclKind::Var), DeclKind::Let);
    assert_eq!(visitor.visit_variable_declaration(DeclKind::Var), DeclKind::Var);

    let mut visitor = SmartVarToLetVisitor::new(&graph);
    let tree = visitor.visit_node(&program);
    assert_eq!(
        declarations_of(&tree),
        vec![
            Statement { position: 0, kind: DeclKind::Const },
            Statement { position: 16, kind: DeclKind::Let },
        ]
    );
    assert_eq!(visitor.visit_variable_declaration(DeclKind::Var), DeclKind::Var);
}
