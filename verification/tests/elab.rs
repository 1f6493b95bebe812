use moore::diag::DiagKind;
use moore::hir::{
    BuiltinType, HirNode, HirStore, Inst, InstTarget, Module, Name, NodeId, Spanned, Type,
    TypeKind, ValueParam,
};
use moore::inst_details::InstVerbosityVisitor;
use moore::numeric::Num;
use moore::param_env::{ParamBinding, ParamEnvData};
use moore::queries::QueryContext;
use moore::source::Span;

fn sp() -> Span {
    Span { source: 0, begin: 0, end: 0 }
}

fn named(n: u64) -> Spanned<Name> {
    Spanned { value: Name(n), span: sp() }
}

const M: u64 = 100;
const P: u64 = 101;

/// A module `M` with one value parameter `P` (default 1), an `int` type
/// node, and instantiation targets binding `P` to the given literals; one
/// instance per target.
fn build_design(target_values: &[Option<u32>], insts_per_target: usize) -> (QueryContext, Vec<NodeId>) {
    let mut store = HirStore::new();
    let ty = store.add(HirNode::Type(Type {
        id: 0,
        span: sp(),
        kind: TypeKind::Builtin(BuiltinType::Int),
    }));
    let dflt = store.add(HirNode::Expr(moore::hir::Expr {
        id: 1,
        span: sp(),
        kind: moore::hir::ExprKind::IntConst(Num::from_u32(1)),
    }));
    let param = store.add(HirNode::ValueParam(ValueParam {
        id: 2,
        name: named(P),
        span: sp(),
        local: false,
        ty,
        default: Some(dflt),
    }));
    let module = store.add(HirNode::Module(Module {
        id: 3,
        name: named(M),
        span: sp(),
        ports: vec![],
        params: vec![param],
        insts: vec![],
        decls: vec![],
        procs: vec![],
    }));
    let mut inst_ids = Vec::new();
    for v in target_values {
        let pos = match v {
            Some(v) => {
                let e = store.next_id();
                store.add(HirNode::Expr(moore::hir::Expr {
                    id: e,
                    span: sp(),
                    kind: moore::hir::ExprKind::IntConst(Num::from_u32(*v)),
                }));
                vec![(sp(), e)]
            }
            None => vec![],
        };
        let t = store.next_id();
        store.add(HirNode::InstTarget(InstTarget {
            id: t,
            name: named(M),
            span: sp(),
            pos_params: pos,
            named_params: vec![],
        }));
        for _ in 0..insts_per_target {
            let i = store.next_id();
            store.add(HirNode::Inst(Inst {
                id: i,
                name: named(200 + i as u64),
                span: sp(),
                target: t,
                pos_ports: vec![],
                named_ports: vec![],
            }));
            inst_ids.push(i);
        }
    }
    let mut cx = QueryContext::new(store);
    cx.register_module(Name(M), module);
    (cx, inst_ids)
}

#[test]
fn shared_instance_target() {
    let (mut cx, insts) = build_design(&[Some(7)], 2);
    let env = cx.default_param_env();
    let d1 = cx.inst_details(insts[0], env).unwrap();
    let d2 = cx.inst_details(insts[1], env).unwrap();
    assert_eq!(d1.target.inner_env, d2.target.inner_env);
    // the shared target was resolved once, by memoisation
    assert_eq!(cx.itd_cache.len(), 1);
    // but each instance got its own details
    assert_eq!(cx.id_cache.len(), 2);
}

#[test]
fn diverging_environments() {
    let (mut cx, insts) = build_design(&[Some(1), Some(2), Some(1)], 1);
    let env = cx.default_param_env();
    let d1 = cx.inst_details(insts[0], env).unwrap();
    let d2 = cx.inst_details(insts[1], env).unwrap();
    let d3 = cx.inst_details(insts[2], env).unwrap();
    // different bindings give distinct inner environments
    assert_ne!(d1.target.inner_env, d2.target.inner_env);
    // equal bindings through a distinct target give the same environment
    assert_eq!(d1.target.inner_env, d3.target.inner_env);
}

#[test]
fn default_parameter_binding() {
    let (mut cx, insts) = build_design(&[None], 1);
    let env = cx.default_param_env();
    let d = cx.inst_details(insts[0], env).unwrap();
    let data = cx.param_env_data(d.target.inner_env);
    assert_eq!(data.bindings.len(), 1);
    match &data.bindings[0].1 {
        ParamBinding::ValueBinding(n) => {
            assert!(!n.negative);
            assert_eq!(n.mag, vec![1]);
        }
        _ => panic!("expected a value binding"),
    }
}

#[test]
fn query_idempotence() {
    let (mut cx, insts) = build_design(&[Some(5)], 1);
    let env = cx.default_param_env();
    let first = cx.inst_details(insts[0], env);
    let second = cx.inst_details(insts[0], env);
    assert_eq!(first, second);
    let t1 = cx.inst_target_details(first.unwrap().target.inst_target, env);
    let t2 = cx.inst_target_details(first.unwrap().target.inst_target, env);
    assert_eq!(t1, t2);
}

#[test]
fn env_canonicalisation() {
    let (mut cx, _) = build_design(&[], 0);
    let data1 = ParamEnvData {
        bindings: vec![(2, ParamBinding::ValueBinding(Num::from_u32(9)))],
    };
    let data2 = ParamEnvData {
        bindings: vec![(2, ParamBinding::ValueBinding(Num::from_u32(9)))],
    };
    let data3 = ParamEnvData {
        bindings: vec![(2, ParamBinding::ValueBinding(Num::from_u32(8)))],
    };
    let h1 = cx.intern_env(data1);
    let h2 = cx.intern_env(data2);
    let h3 = cx.intern_env(data3);
    assert_eq!(h1, h2);
    assert_ne!(h1, h3);
}

#[test]
fn unknown_module_is_diagnosed_once() {
    let mut store = HirStore::new();
    let t = store.add(HirNode::InstTarget(InstTarget {
        id: 0,
        name: named(999),
        span: sp(),
        pos_params: vec![],
        named_params: vec![],
    }));
    let mut cx = QueryContext::new(store);
    let env = cx.default_param_env();
    assert!(cx.inst_target_details(t, env).is_err());
    assert!(cx.inst_target_details(t, env).is_err());
    let unknowns = cx
        .diags
        .iter()
        .filter(|d| matches!(d.kind, DiagKind::UnknownModule(_)))
        .count();
    assert_eq!(unknowns, 1);
}

#[test]
fn superfluous_parameter_is_diagnosed() {
    let (mut cx, insts) = build_design(&[Some(1)], 1);
    // a second positional binding for a one-parameter module
    let e = {
        let id = cx.store.next_id();
        cx.store.add(HirNode::Expr(moore::hir::Expr {
            id,
            span: sp(),
            kind: moore::hir::ExprKind::IntConst(Num::from_u32(3)),
        }))
    };
    let t = {
        let id = cx.store.next_id();
        cx.store.add(HirNode::InstTarget(InstTarget {
            id,
            name: named(M),
            span: sp(),
            pos_params: vec![(sp(), e), (sp(), e)],
            named_params: vec![],
        }))
    };
    let env = cx.default_param_env();
    assert!(cx.inst_target_details(t, env).is_err());
    assert!(cx
        .diags
        .iter()
        .any(|d| matches!(d.kind, DiagKind::SuperfluousParam)));
    let _ = insts;
}

#[test]
fn verbosity_visitor_notes_instances() {
    // a top module A holding one instance of M
    let (mut cx, _) = build_design(&[], 0);
    let e = {
        let id = cx.store.next_id();
        cx.store.add(HirNode::Expr(moore::hir::Expr {
            id,
            span: sp(),
            kind: moore::hir::ExprKind::IntConst(Num::from_u32(4)),
        }))
    };
    let t = {
        let id = cx.store.next_id();
        cx.store.add(HirNode::InstTarget(InstTarget {
            id,
            name: named(M),
            span: sp(),
            pos_params: vec![(sp(), e)],
            named_params: vec![],
        }))
    };
    let i = {
        let id = cx.store.next_id();
        cx.store.add(HirNode::Inst(Inst {
            id,
            name: named(300),
            span: sp(),
            target: t,
            pos_ports: vec![],
            named_ports: vec![],
        }))
    };
    let a = {
        let id = cx.store.next_id();
        cx.store.add(HirNode::Module(Module {
            id,
            name: named(400),
            span: sp(),
            ports: vec![],
            params: vec![],
            insts: vec![i],
            decls: vec![],
            procs: vec![],
        }))
    };
    cx.register_module(Name(400), a);
    let v = InstVerbosityVisitor::new(&cx);
    v.visit_module(&mut cx, a, 16);
    let notes = cx
        .diags
        .iter()
        .filter(|d| matches!(d.kind, DiagKind::InstNote(_)))
        .count();
    assert_eq!(notes, 1);
}

#[test]
fn find_module_first_registration_wins() {
    let (mut cx, _) = build_design(&[], 0);
    let m = cx.find_module(Name(M)).unwrap();
    cx.register_module(Name(M), 0);
    assert_eq!(cx.find_module(Name(M)), Some(m));
    assert_eq!(cx.find_module(Name(12345)), None);
}

#[test]
fn parameter_reference_through_outer_env() {
    // module M has parameter P (default 1); module A has parameter Q and
    // instantiates M #(Q). Elaborating A's instance under an environment
    // binding Q to 5 must bind P to 5 in the inner environment.
    let mut store = HirStore::new();
    let ty = store.add(HirNode::Type(Type {
        id: 0,
        span: sp(),
        kind: TypeKind::Builtin(BuiltinType::Int),
    }));
    let m_dflt = store.add(HirNode::Expr(moore::hir::Expr {
        id: 1,
        span: sp(),
        kind: moore::hir::ExprKind::IntConst(Num::from_u32(1)),
    }));
    let p = store.add(HirNode::ValueParam(ValueParam {
        id: 2,
        name: named(P),
        span: sp(),
        local: false,
        ty,
        default: Some(m_dflt),
    }));
    let m = store.add(HirNode::Module(Module {
        id: 3,
        name: named(M),
        span: sp(),
        ports: vec![],
        params: vec![p],
        insts: vec![],
        decls: vec![],
        procs: vec![],
    }));
    let q = store.add(HirNode::ValueParam(ValueParam {
        id: 4,
        name: named(500),
        span: sp(),
        local: false,
        ty,
        default: None,
    }));
    let q_ref = store.add(HirNode::Expr(moore::hir::Expr {
        id: 5,
        span: sp(),
        kind: moore::hir::ExprKind::Ident(named(500)),
    }));
    let t = store.add(HirNode::InstTarget(InstTarget {
        id: 6,
        name: named(M),
        span: sp(),
        pos_params: vec![(sp(), q_ref)],
        named_params: vec![],
    }));
    let i = store.add(HirNode::Inst(Inst {
        id: 7,
        name: named(501),
        span: sp(),
        target: t,
        pos_ports: vec![],
        named_ports: vec![],
    }));
    let a = store.add(HirNode::Module(Module {
        id: 8,
        name: named(502),
        span: sp(),
        ports: vec![],
        params: vec![q],
        insts: vec![i],
        decls: vec![],
        procs: vec![],
    }));
    let five = store.add(HirNode::Expr(moore::hir::Expr {
        id: 9,
        span: sp(),
        kind: moore::hir::ExprKind::IntConst(Num::from_u32(5)),
    }));
    let mut cx = QueryContext::new(store);
    cx.register_module(Name(M), m);
    cx.register_module(Name(502), a);
    let outer = cx
        .param_env(moore::queries::ParamEnvSource::ModuleInst {
            module: a,
            inst: i,
            env: 0,
            pos: vec![(sp(), five)],
            named: vec![],
        })
        .unwrap();
    let d = cx.inst_details(i, outer).unwrap();
    let data = cx.param_env_data(d.target.inner_env);
    assert_eq!(data.bindings.len(), 1);
    assert_eq!(data.bindings[0].0, p);
    match &data.bindings[0].1 {
        ParamBinding::ValueBinding(n) => {
            assert!(!n.negative);
            assert_eq!(n.mag, vec![5]);
        }
        _ => panic!("expected a value binding"),
    }
}

#[test]
fn unbound_parameter_without_default() {
    let mut store = HirStore::new();
    let ty = store.add(HirNode::Type(Type {
        id: 0,
        span: sp(),
        kind: TypeKind::Builtin(BuiltinType::Int),
    }));
    let p = store.add(HirNode::ValueParam(ValueParam {
        id: 1,
        name: named(P),
        span: sp(),
        local: false,
        ty,
        default: None,
    }));
    let m = store.add(HirNode::Module(Module {
        id: 2,
        name: named(M),
        span: sp(),
        ports: vec![],
        params: vec![p],
        insts: vec![],
        decls: vec![],
        procs: vec![],
    }));
    let t = store.add(HirNode::InstTarget(InstTarget {
        id: 3,
        name: named(M),
        span: sp(),
        pos_params: vec![],
        named_params: vec![],
    }));
    let mut cx = QueryContext::new(store);
    cx.register_module(Name(M), m);
    let env = cx.default_param_env();
    assert!(cx.inst_target_details(t, env).is_err());
    assert!(cx
        .diags
        .iter()
        .any(|d| matches!(d.kind, DiagKind::UnboundParam(_))));
}

#[test]
fn port_mapping_binds_declared_ports() {
    // module M with ports a (no default) and b (default expression);
    // an instance connects a positionally and leaves b to its default.
    let mut store = HirStore::new();
    let ty = store.add(HirNode::Type(Type {
        id: 0,
        span: sp(),
        kind: TypeKind::Builtin(BuiltinType::Bit),
    }));
    let b_dflt = store.add(HirNode::Expr(moore::hir::Expr {
        id: 1,
        span: sp(),
        kind: moore::hir::ExprKind::IntConst(Num::from_u32(0)),
    }));
    let port_a = store.add(HirNode::Port(moore::hir::Port {
        id: 2,
        name: named(600),
        span: sp(),
        dir: moore::hir::PortDir::Input,
        ty,
        default: None,
    }));
    let port_b = store.add(HirNode::Port(moore::hir::Port {
        id: 3,
        name: named(601),
        span: sp(),
        dir: moore::hir::PortDir::Output,
        ty,
        default: Some(b_dflt),
    }));
    let m = store.add(HirNode::Module(Module {
        id: 4,
        name: named(M),
        span: sp(),
        ports: vec![port_a, port_b],
        params: vec![],
        insts: vec![],
        decls: vec![],
        procs: vec![],
    }));
    let conn = store.add(HirNode::Expr(moore::hir::Expr {
        id: 5,
        span: sp(),
        kind: moore::hir::ExprKind::Ident(named(602)),
    }));
    let t = store.add(HirNode::InstTarget(InstTarget {
        id: 6,
        name: named(M),
        span: sp(),
        pos_params: vec![],
        named_params: vec![],
    }));
    let i = store.add(HirNode::Inst(Inst {
        id: 7,
        name: named(603),
        span: sp(),
        target: t,
        pos_ports: vec![(sp(), conn)],
        named_ports: vec![],
    }));
    let mut cx = QueryContext::new(store);
    cx.register_module(Name(M), m);
    let env = cx.default_param_env();
    let d = cx.inst_details(i, env).unwrap();
    let pm = &cx.port_mappings[d.ports];
    assert_eq!(pm.bindings.len(), 2);
    assert_eq!(pm.bindings[0].0, port_a);
    assert_eq!(pm.bindings[0].2, conn);
    assert!(pm.bindings[0].1.is_some());
    assert_eq!(pm.bindings[1].0, port_b);
    assert_eq!(pm.bindings[1].2, b_dflt);
    assert!(pm.bindings[1].1.is_none());
}

#[test]
fn port_mapping_named_connection() {
    let mut store = HirStore::new();
    let ty = store.add(HirNode::Type(Type {
        id: 0,
        span: sp(),
        kind: TypeKind::Builtin(BuiltinType::Bit),
    }));
    let port_a = store.add(HirNode::Port(moore::hir::Port {
        id: 1,
        name: named(600),
        span: sp(),
        dir: moore::hir::PortDir::Input,
        ty,
        default: None,
    }));
    let m = store.add(HirNode::Module(Module {
        id: 2,
        name: named(M),
        span: sp(),
        ports: vec![port_a],
        params: vec![],
        insts: vec![],
        decls: vec![],
        procs: vec![],
    }));
    let conn = store.add(HirNode::Expr(moore::hir::Expr {
        id: 3,
        span: sp(),
        kind: moore::hir::ExprKind::Ident(named(602)),
    }));
    let t = store.add(HirNode::InstTarget(InstTarget {
        id: 4,
        name: named(M),
        span: sp(),
        pos_params: vec![],
        named_params: vec![],
    }));
    let i = store.add(HirNode::Inst(Inst {
        id: 5,
        name: named(603),
        span: sp(),
        target: t,
        pos_ports: vec![],
        named_ports: vec![(sp(), named(600), conn)],
    }));
    let mut cx = QueryContext::new(store);
    cx.register_module(Name(M), m);
    let env = cx.default_param_env();
    let d = cx.inst_details(i, env).unwrap();
    let pm = &cx.port_mappings[d.ports];
    assert_eq!(pm.bindings.len(), 1);
    assert_eq!(pm.bindings[0].0, port_a);
    assert_eq!(pm.bindings[0].2, conn);
    assert!(pm.bindings[0].1.is_some());
}

#[test]
fn param_env_failure_is_cached() {
    // a module whose one parameter has no default: building its
    // environment with no bindings fails once, and the repeated build
    // returns the recorded failure without a second diagnostic
    let mut store = HirStore::new();
    let ty = store.add(HirNode::Type(Type {
        id: 0,
        span: sp(),
        kind: TypeKind::Builtin(BuiltinType::Int),
    }));
    let p = store.add(HirNode::ValueParam(ValueParam {
        id: 1,
        name: named(P),
        span: sp(),
        local: false,
        ty,
        default: None,
    }));
    let m = store.add(HirNode::Module(Module {
        id: 2,
        name: named(M),
        span: sp(),
        ports: vec![],
        params: vec![p],
        insts: vec![],
        decls: vec![],
        procs: vec![],
    }));
    let mut cx = QueryContext::new(store);
    cx.register_module(Name(M), m);
    let r1 = cx.param_env(moore::queries::ParamEnvSource::ModuleInst {
        module: m,
        inst: 3,
        env: 0,
        pos: vec![],
        named: vec![],
    });
    let n1 = cx.diags.len();
    let r2 = cx.param_env(moore::queries::ParamEnvSource::ModuleInst {
        module: m,
        inst: 3,
        env: 0,
        pos: vec![],
        named: vec![],
    });
    assert!(r1.is_err() && r2.is_err());
    assert_eq!(cx.diags.len(), n1);
    assert_eq!(n1, 1);
}
