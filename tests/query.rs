use rune::ast::{Call, Expr, ExprClosure, FnArg, ItemFn, Span, StructBody};
use rune::compile::{Compiler, Inst, Unit, UnitFn};
use rune::error::{IrErrorKind, MetaTag, QueryErrorKind, UnitBuilderError};
use rune::ir::{BinOp, Ir, IrKind};
use rune::item::{Component, Item, NameHint, Registry};
use rune::meta::{Capture, MetaKind};
use rune::query::{Query, Visit};

fn sp(start: usize, end: usize) -> Span {
    Span { start, end }
}

fn named(parent: &Item, name: &str) -> Item {
    parent.join(Component::Str(name.to_string()))
}

fn var(name: &str, span: Span) -> Expr {
    Expr::Var(name.to_string(), span)
}

fn function_code<'a>(c: &'a Compiler, item: &Item) -> &'a Vec<Inst> {
    let f = c.unit.functions.iter().find(|f| f.item.same(item)).expect("function in unit");
    &f.insts
}

#[test]
fn bare_closure_loads_function() {
    let mut q = Query::new();
    let mut reg = Registry::new();
    let main = named(&Item::root(), "main");
    let clos = reg.register(&main, NameHint::Anonymous);
    let ast = ExprClosure { args: vec![], body: Expr::Integer(1, sp(27, 28)), span: sp(24, 28) };
    q.index_closure(clos.duplicate(), ast, vec![], Call::Immediate, 0).unwrap();
    let body = Expr::Let {
        name: "f".to_string(),
        span: sp(16, 29),
        value: Box::new(Expr::Closure(clos.duplicate(), sp(24, 28))),
        body: Box::new(Expr::Call(Box::new(var("f", sp(31, 32))), sp(31, 34))),
    };
    q.index_function(main.duplicate(), ItemFn { args: vec![], body, span: sp(0, 36) }, Call::Immediate, 0).unwrap();
    let mut c = Compiler::new(q);
    assert!(c.query.query_meta(&main).unwrap().is_some());
    let mut v: Vec<Visit> = Vec::new();
    c.compile(&mut v).unwrap();
    assert_eq!(c.unit.functions.len(), 2);
    assert_ne!(main.hash(), clos.hash());
    assert_ne!(c.unit.functions[0].hash, c.unit.functions[1].hash);
    let code = function_code(&c, &main);
    assert!(code.contains(&Inst::LoadFn { hash: clos.hash() }));
    assert!(!code.iter().any(|i| matches!(i, Inst::Closure { .. })));
    assert!(v.is_empty());
}

#[test]
fn closure_capturing_one_local() {
    let mut q = Query::new();
    let mut reg = Registry::new();
    let main = named(&Item::root(), "main");
    let clos = reg.register(&main, NameHint::Anonymous);
    let captures = vec![Capture { ident: "x".to_string() }];
    let ast = ExprClosure { args: vec![], body: var("x", sp(38, 39)), span: sp(35, 39) };
    q.index_closure(clos.duplicate(), ast, captures, Call::Immediate, 0).unwrap();
    let body = Expr::Let {
        name: "x".to_string(),
        span: sp(16, 26),
        value: Box::new(Expr::Integer(7, sp(24, 25))),
        body: Box::new(Expr::Let {
            name: "f".to_string(),
            span: sp(27, 40),
            value: Box::new(Expr::Closure(clos.duplicate(), sp(35, 39))),
            body: Box::new(Expr::Call(Box::new(var("f", sp(41, 42))), sp(41, 44))),
        }),
    };
    q.index_function(main.duplicate(), ItemFn { args: vec![], body, span: sp(0, 46) }, Call::Immediate, 0).unwrap();
    let mut c = Compiler::new(q);
    c.query.query_meta(&main).unwrap();
    let mut v: Vec<Visit> = Vec::new();
    c.compile(&mut v).unwrap();
    let h = clos.hash();
    assert_eq!(
        function_code(&c, &main).clone(),
        vec![
            Inst::Integer { value: 7 },
            Inst::Copy { slot: 0 },
            Inst::Closure { hash: h, count: 1 },
            Inst::Copy { slot: 1 },
            Inst::CallFn { args: 0 },
            Inst::Clean { count: 1 },
            Inst::Clean { count: 1 },
            Inst::Return,
        ]
    );
    assert_eq!(
        function_code(&c, &clos).clone(),
        vec![Inst::PushTuple, Inst::Copy { slot: 0 }, Inst::Clean { count: 1 }, Inst::Return]
    );
}

#[test]
fn variant_builds_parent_enum_first() {
    let mut q = Query::new();
    let e = named(&Item::root(), "E");
    let a = named(&e, "A");
    let b = named(&e, "B");
    q.index_enum(e.duplicate(), 0, sp(0, 20)).unwrap();
    q.index_variant(a.duplicate(), e.duplicate(), StructBody::Empty, 0, sp(9, 10)).unwrap();
    q.index_variant(b.duplicate(), e.duplicate(), StructBody::Tuple(1), 0, sp(12, 18)).unwrap();
    let meta = q.query_meta(&b).unwrap().unwrap();
    assert!(q.metas.get(&e).is_some());
    assert!(q.indexed.get(&e).is_none());
    match meta.kind {
        MetaKind::TupleVariant { type_of, enum_item, args } => {
            assert_eq!(args, 1);
            assert_eq!(type_of, b.hash());
            assert!(enum_item.same(&e));
        }
        other => panic!("unexpected {:?}", other),
    }
    assert_ne!(e.hash(), b.hash());
    assert_ne!(a.hash(), b.hash());
    assert_eq!(b.hash(), named(&named(&Item::root(), "E"), "B").hash());
    let meta_a = q.query_meta(&a).unwrap().unwrap();
    assert!(matches!(meta_a.kind, MetaKind::TupleVariant { args: 0, .. }));
}

#[test]
fn duplicate_item_conflicts_at_first_definition() {
    let mut q = Query::new();
    let foo = named(&Item::root(), "foo");
    let first = ItemFn { args: vec![], body: Expr::Integer(0, sp(9, 10)), span: sp(0, 12) };
    let second = ItemFn { args: vec![], body: Expr::Integer(0, sp(22, 23)), span: sp(13, 25) };
    q.index_function(foo.duplicate(), first, Call::Immediate, 0).unwrap();
    let err = q.index_function(foo.duplicate(), second, Call::Immediate, 0).unwrap_err();
    assert_eq!(err.span(), sp(0, 12));
    assert!(matches!(err.kind(), QueryErrorKind::ItemConflict { .. }));
    q.query_meta(&foo).unwrap();
    let third = ItemFn { args: vec![], body: Expr::Integer(0, sp(30, 31)), span: sp(26, 33) };
    let err = q.index_function(foo.duplicate(), third, Call::Immediate, 0).unwrap_err();
    assert_eq!(err.span(), sp(0, 12));
}

#[test]
fn self_referencing_const_exhausts_budget() {
    let mut q = Query::new();
    let a = named(&Item::root(), "A");
    let ir = Ir {
        span: sp(10, 15),
        kind: IrKind::Binary(
            BinOp::Add,
            Box::new(Ir { span: sp(10, 11), kind: IrKind::Const(a.duplicate()) }),
            Box::new(Ir { span: sp(14, 15), kind: IrKind::Value(1) }),
        ),
    };
    q.index_const(a.duplicate(), 0, ir, sp(0, 16)).unwrap();
    let g = named(&Item::root(), "g");
    q.index_function(g.duplicate(), ItemFn { args: vec![], body: Expr::Integer(3, sp(30, 31)), span: sp(20, 33) }, Call::Immediate, 0).unwrap();
    let err = q.query_meta(&a).unwrap_err();
    assert_eq!(err.span(), sp(10, 11));
    assert!(matches!(err.kind(), QueryErrorKind::IrError { error: IrErrorKind::BudgetExceeded }));
    let mut c = Compiler::new(Query::new());
    c.query = q;
    c.query.query_meta(&g).unwrap();
    let mut v: Vec<Visit> = Vec::new();
    c.compile(&mut v).unwrap();
    assert_eq!(function_code(&c, &g).clone(), vec![Inst::Integer { value: 3 }, Inst::Return]);
}

#[test]
fn unused_closure_is_still_emitted() {
    let mut q = Query::new();
    let mut reg = Registry::new();
    let main = named(&Item::root(), "main");
    let clos = reg.register(&main, NameHint::Anonymous);
    let ast = ExprClosure { args: vec![FnArg::Ident("y".to_string(), sp(5, 6))], body: var("y", sp(8, 9)), span: sp(4, 9) };
    q.index_closure(clos.duplicate(), ast, vec![], Call::Immediate, 7).unwrap();
    q.index_function(main.duplicate(), ItemFn { args: vec![], body: Expr::Integer(0, sp(20, 21)), span: sp(0, 22) }, Call::Immediate, 7).unwrap();
    let mut c = Compiler::new(q);
    c.query.query_meta(&main).unwrap();
    c.drain().unwrap();
    assert!(c.query.indexed.get(&clos).is_some());
    let mut v: Vec<Visit> = Vec::new();
    c.compile(&mut v).unwrap();
    assert_eq!(v.len(), 1);
    assert_eq!(v[0].source_id, 7);
    assert!(v[0].meta.item.same(&clos));
    assert_eq!(v[0].span, sp(4, 9));
    assert!(matches!(c.query.metas.get(&clos).unwrap().kind, MetaKind::Closure { .. }));
    assert_eq!(
        function_code(&c, &clos).clone(),
        vec![Inst::Copy { slot: 0 }, Inst::Clean { count: 1 }, Inst::Return]
    );
    assert_eq!(c.query.indexed.len(), 0);
    assert_eq!(c.query.queue.len(), 0);
}

#[test]
fn query_meta_is_idempotent() {
    let mut q = Query::new();
    let s = named(&Item::root(), "S");
    q.index_struct(s.duplicate(), StructBody::Named(vec!["a".to_string(), "b".to_string()]), 0, sp(0, 20)).unwrap();
    assert!(q.indexed.get(&s).is_some());
    let m1 = q.query_meta(&s).unwrap().unwrap();
    assert!(q.indexed.get(&s).is_none());
    let m2 = q.query_meta(&s).unwrap().unwrap();
    assert_eq!(format!("{:?}", m1), format!("{:?}", m2));
    match m1.kind {
        MetaKind::Struct { type_of, fields } => {
            assert_eq!(type_of, s.hash());
            assert_eq!(fields, vec!["a".to_string(), "b".to_string()]);
        }
        other => panic!("unexpected {:?}", other),
    }
    let unknown = named(&Item::root(), "T");
    assert!(q.query_meta(&unknown).unwrap().is_none());
}

#[test]
fn closure_meta_captures_match_build_entry() {
    let mut q = Query::new();
    let f = named(&Item::root(), "f");
    let captures = vec![Capture { ident: "a".to_string() }, Capture { ident: "b".to_string() }];
    let ast = ExprClosure { args: vec![], body: var("a", sp(3, 4)), span: sp(0, 4) };
    q.index_closure(f.duplicate(), ast, captures, Call::Async, 2).unwrap();
    let m = q.query_meta(&f).unwrap().unwrap();
    let entry = q.queue.last().unwrap();
    match (&m.kind, &entry.build) {
        (MetaKind::Closure { captures, call, .. }, rune::meta::Build::Closure(c)) => {
            let a: Vec<&String> = captures.iter().map(|c| &c.ident).collect();
            let b: Vec<&String> = c.captures.iter().map(|c| &c.ident).collect();
            assert_eq!(a, b);
            assert_eq!(a, vec!["a", "b"]);
            assert_eq!(*call, Call::Async);
        }
        _ => panic!("expected a closure"),
    }
}

#[test]
fn closure_with_self_parameter_is_refused() {
    let mut c = Compiler::new(Query::new());
    let args = vec![FnArg::SelfValue(sp(1, 5))];
    let err = c.compile_closure_body(&args, &Expr::Integer(0, sp(7, 8)), &vec![], sp(0, 8)).unwrap_err();
    assert!(matches!(err.kind(), QueryErrorKind::UnsupportedSelf));
    assert_eq!(err.span(), sp(1, 5));
}

#[test]
fn closure_expression_on_a_function_is_expected_meta() {
    let mut q = Query::new();
    let g = named(&Item::root(), "g");
    q.index_function(g.duplicate(), ItemFn { args: vec![], body: Expr::Integer(0, sp(0, 1)), span: sp(0, 1) }, Call::Immediate, 0).unwrap();
    let mut c = Compiler::new(q);
    let err = c.compile_closure_expr(&g, sp(3, 4)).unwrap_err();
    assert!(matches!(err.kind(), QueryErrorKind::ExpectedMeta { expected: MetaTag::Closure, actual: MetaTag::Function }));
    let missing = named(&Item::root(), "nothing");
    let err = c.compile_closure_expr(&missing, sp(5, 6)).unwrap_err();
    assert!(matches!(err.kind(), QueryErrorKind::MissingType { .. }));
}

#[test]
fn missing_capture_is_variable_not_found() {
    let mut q = Query::new();
    let f = named(&Item::root(), "f");
    let ast = ExprClosure { args: vec![], body: var("z", sp(3, 4)), span: sp(0, 4) };
    q.index_closure(f.duplicate(), ast, vec![Capture { ident: "z".to_string() }], Call::Immediate, 0).unwrap();
    let mut c = Compiler::new(q);
    let err = c.compile_closure_expr(&f, sp(0, 4)).unwrap_err();
    assert!(matches!(err.kind(), QueryErrorKind::VariableNotFound { name } if name == "z"));
}

#[test]
fn function_parameters_and_shadowing() {
    let mut c = Compiler::new(Query::new());
    let args = vec![
        FnArg::SelfValue(sp(0, 4)),
        FnArg::Ident("a".to_string(), sp(5, 6)),
        FnArg::Ignore(sp(7, 8)),
    ];
    c.compile_fn_body(&args, &var("a", sp(10, 11)), sp(0, 12)).unwrap();
    assert_eq!(c.code, vec![Inst::Copy { slot: 1 }, Inst::Clean { count: 3 }, Inst::Return]);
    let mut c = Compiler::new(Query::new());
    let args = vec![FnArg::Ident("a".to_string(), sp(5, 6)), FnArg::Ident("a".to_string(), sp(8, 9))];
    let err = c.compile_fn_body(&args, &var("a", sp(10, 11)), sp(0, 12)).unwrap_err();
    assert!(matches!(err.kind(), QueryErrorKind::ShadowingInSameScope { name } if name == "a"));
    assert_eq!(err.span(), sp(8, 9));
}

#[test]
fn unused_const_is_evaluated_and_queued() {
    let mut q = Query::new();
    let k = named(&Item::root(), "K");
    let ir = Ir { span: sp(10, 15), kind: IrKind::Binary(BinOp::Mul, Box::new(Ir { span: sp(10, 11), kind: IrKind::Value(6) }), Box::new(Ir { span: sp(14, 15), kind: IrKind::Value(7) })) };
    q.index_const(k.duplicate(), 0, ir, sp(0, 16)).unwrap();
    let mut v: Vec<Visit> = Vec::new();
    assert!(q.queue_unused_entries(&mut v).unwrap());
    assert_eq!(v.len(), 1);
    assert!(matches!(q.metas.get(&k).unwrap().kind, MetaKind::Const { value: 42 }));
    assert!(matches!(q.queue.last().unwrap().build, rune::meta::Build::UnusedConst(_)));
    assert!(!q.queue_unused_entries(&mut v).unwrap());
}

#[test]
fn const_referring_to_const() {
    let mut q = Query::new();
    let a = named(&Item::root(), "A");
    let b = named(&Item::root(), "B");
    let ir_b = Ir { span: sp(30, 35), kind: IrKind::Binary(BinOp::Shl, Box::new(Ir { span: sp(30, 31), kind: IrKind::Const(a.duplicate()) }), Box::new(Ir { span: sp(34, 35), kind: IrKind::Value(2) })) };
    q.index_const(b.duplicate(), 0, ir_b, sp(20, 36)).unwrap();
    q.index_const(a.duplicate(), 0, Ir { span: sp(10, 11), kind: IrKind::Value(5) }, sp(0, 12)).unwrap();
    let m = q.query_meta(&b).unwrap().unwrap();
    assert!(matches!(m.kind, MetaKind::Const { value: 20 }));
    assert!(matches!(q.metas.get(&a).unwrap().kind, MetaKind::Const { value: 5 }));
    assert_eq!(q.queue.len(), 0);
}

#[test]
fn anonymous_items_are_unique() {
    let mut reg = Registry::new();
    let parent = named(&Item::root(), "main");
    let items: Vec<Item> = (0..5).map(|_| reg.register(&parent, NameHint::Anonymous)).collect();
    for i in 0..items.len() {
        for j in 0..items.len() {
            if i != j {
                assert!(!items[i].same(&items[j]));
                assert_ne!(items[i].hash(), items[j].hash());
            }
        }
    }
    let n1 = reg.register(&parent, NameHint::Named("x".to_string()));
    let n2 = reg.register(&parent, NameHint::Named("x".to_string()));
    assert!(n1.same(&n2));
    let other = named(&Item::root(), "other");
    let first = reg.register(&other, NameHint::Anonymous);
    assert!(first.same(&other.join(Component::Anon(0))));
    assert!(items[4].same(&parent.join(Component::Anon(4))));
    let mut q = Query::new();
    for (n, it) in items.iter().enumerate() {
        let ast = ExprClosure { args: vec![], body: Expr::Integer(0, sp(n, n + 1)), span: sp(n, n + 1) };
        q.index_closure(it.duplicate(), ast, vec![], Call::Immediate, 0).unwrap();
    }
    assert_eq!(q.indexed.len(), 5);
}

#[test]
fn item_hash_values() {
    assert_eq!(Item::root().hash(), 0xcbf29ce484222325);
    let p = 0x100000001b3u64;
    let mix = |h: u64, x: u64| (h ^ x).wrapping_mul(p);
    let anon = Item::root().join(Component::Anon(3));
    assert_eq!(anon.hash(), mix(mix(0xcbf29ce484222325, 2), 3));
    let s = Item::root().join(Component::Str("ab".to_string()));
    let h = mix(mix(mix(0xcbf29ce484222325, 1), 'a' as u64), 'b' as u64);
    assert_eq!(s.hash(), mix(h, 0xff));
    let ab = named(&named(&Item::root(), "a"), "b");
    let ba = named(&named(&Item::root(), "b"), "a");
    assert_ne!(ab.hash(), ba.hash());
}

#[test]
fn colliding_hashes_are_refused() {
    let p = 0x100000001b3u64;
    let mix = |h: u64, x: u64| (h ^ x).wrapping_mul(p);
    let base = 0xcbf29ce484222325u64;
    let n = mix(base, 1) ^ mix(base, 2) ^ 0xff;
    let named_empty = Item::root().join(Component::Str(String::new()));
    let anon = Item::root().join(Component::Anon(n as usize));
    assert_eq!(named_empty.hash(), anon.hash());
    let mut q = Query::new();
    q.index_enum(named_empty.duplicate(), 0, sp(0, 3)).unwrap();
    let err = q.index_enum(anon.duplicate(), 0, sp(5, 9)).unwrap_err();
    assert_eq!(err.span(), sp(5, 9));
    assert!(matches!(err.kind(), QueryErrorKind::HashConflict { existing } if existing.same(&named_empty)));
    assert_eq!(q.indexed.len(), 1);
}

#[test]
fn unit_refuses_a_taken_hash() {
    let mut u = Unit::new();
    let a = named(&Item::root(), "a");
    let b = named(&Item::root(), "b");
    assert!(u.insert_fn(UnitFn { item: a.duplicate(), hash: 5, insts: vec![Inst::Return] }).is_ok());
    assert_eq!(
        u.insert_fn(UnitFn { item: b.duplicate(), hash: 5, insts: vec![] }),
        Err(UnitBuilderError::FunctionConflict { hash: 5 })
    );
    assert_eq!(u.functions.len(), 1);
}

fn self_ref_const(q: &mut Query, a: &Item) {
    let ir = Ir {
        span: sp(10, 15),
        kind: IrKind::Binary(
            BinOp::Add,
            Box::new(Ir { span: sp(10, 11), kind: IrKind::Const(a.duplicate()) }),
            Box::new(Ir { span: sp(14, 15), kind: IrKind::Value(1) }),
        ),
    };
    q.index_const(a.duplicate(), 3, ir, sp(0, 16)).unwrap();
}

#[test]
fn equal_const_queries_agree() {
    let a = named(&Item::root(), "A");
    let mut q1 = Query::new();
    let mut q2 = Query::new();
    self_ref_const(&mut q1, &a);
    self_ref_const(&mut q2, &a);
    let e1 = q1.query_meta(&a).unwrap_err();
    let e2 = q2.query_meta(&a).unwrap_err();
    assert_eq!(e1.span(), e2.span());
    assert_eq!(format!("{:?}", e1.kind()), format!("{:?}", e2.kind()));
    assert!(q1.metas.get(&a).is_none());
    assert_eq!(q1.queue.len(), 0);
}

#[test]
fn failing_const_in_unused_pass_is_tagged() {
    let mut q = Query::new();
    let a = named(&Item::root(), "A");
    self_ref_const(&mut q, &a);
    let mut v: Vec<Visit> = Vec::new();
    let (sid, err) = q.queue_unused_entries(&mut v).unwrap_err();
    assert_eq!(sid, 3);
    assert!(matches!(err.kind(), QueryErrorKind::IrError { error: IrErrorKind::BudgetExceeded }));
    assert!(v.is_empty());
}

#[test]
fn used_queries_of_consts_and_variants_queue_nothing() {
    let mut q = Query::new();
    let e = named(&Item::root(), "E");
    let b = named(&e, "B");
    let k = named(&Item::root(), "K");
    q.index_enum(e.duplicate(), 0, sp(0, 20)).unwrap();
    q.index_variant(b.duplicate(), e.duplicate(), StructBody::Named(vec!["x".to_string(), "x".to_string()]), 0, sp(12, 18)).unwrap();
    q.index_const(k.duplicate(), 0, Ir { span: sp(30, 31), kind: IrKind::Value(9) }, sp(25, 32)).unwrap();
    let mb = q.query_meta(&b).unwrap().unwrap();
    assert!(matches!(mb.kind, MetaKind::ObjectVariant { .. }));
    let mk = q.query_meta(&k).unwrap().unwrap();
    assert!(matches!(mk.kind, MetaKind::Const { value: 9 }));
    assert_eq!(q.queue.len(), 0);
    assert_eq!(q.indexed.len(), 0);
}

#[test]
fn unused_pass_visits_every_pending_item() {
    let mut q = Query::new();
    let e = named(&Item::root(), "E");
    let a = named(&e, "A");
    let f = named(&Item::root(), "f");
    q.index_variant(a.duplicate(), e.duplicate(), StructBody::Empty, 1, sp(5, 6)).unwrap();
    q.index_enum(e.duplicate(), 2, sp(0, 10)).unwrap();
    q.index_function(f.duplicate(), ItemFn { args: vec![], body: Expr::Integer(1, sp(20, 21)), span: sp(15, 22) }, Call::Immediate, 4).unwrap();
    let mut v: Vec<Visit> = Vec::new();
    assert!(q.queue_unused_entries(&mut v).unwrap());
    assert_eq!(v.len(), 3);
    assert_eq!((v[0].source_id, v[0].span), (1, sp(5, 6)));
    assert!(v[0].meta.item.same(&a));
    assert_eq!((v[1].source_id, v[1].span), (2, sp(0, 10)));
    assert!(v[1].meta.item.same(&e));
    assert_eq!((v[2].source_id, v[2].span), (4, sp(15, 22)));
    assert_eq!(q.queue.len(), 1);
    assert_eq!(q.queue[0].used, rune::meta::Used::Unused);
    assert_eq!(q.indexed.len(), 0);
}

#[test]
fn drain_emits_in_queue_order() {
    let mut q = Query::new();
    let names = ["a", "b", "c"];
    for (n, name) in names.iter().enumerate() {
        let it = named(&Item::root(), name);
        q.index_function(it, ItemFn { args: vec![], body: Expr::Integer(n as i64, sp(n, n + 1)), span: sp(n, n + 1) }, Call::Immediate, 0).unwrap();
    }
    let mut c = Compiler::new(q);
    for name in names.iter().rev() {
        c.query.query_meta(&named(&Item::root(), name)).unwrap();
    }
    c.drain().unwrap();
    let order: Vec<bool> = c.unit.functions.iter().zip(names.iter().rev()).map(|(f, n)| f.item.same(&named(&Item::root(), n))).collect();
    assert_eq!(order, vec![true, true, true]);
    assert_eq!(c.unit.functions[0].insts, vec![Inst::Integer { value: 2 }, Inst::Return]);
}
