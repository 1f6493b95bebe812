//! Instance elaboration.
//!
//! Turns an instantiation target plus an outer parameter environment into
//! a fully resolved binding — the instantiated module and the interned
//! inner environment — and an instantiation into that plus a port mapping.
//! Both queries are memoised by `(node, environment)` key, failures
//! included, so each is computed at most once per key and a failing
//! dependency never reports its cause twice.

use vstd::prelude::*;

use crate::diag::{DiagKind, Diagnostic, Severity};
use crate::hir::{HirNode, Name, NamedParam, NodeId, PosParam};
use crate::param_env::{spec_build_ok, ParamEnv};
use crate::queries::{lemma_bindings_determined, lemma_env_canonicalisation};
use crate::queries::{
    cache_find, env_bindings_built, spec_find_module, spec_module_params, spec_module_ports,
    InstDetails,
    InstTargetDetails, ParamEnvSource, PortBinding, PortMapping, QueryContext,
};
use crate::source::Span;

verus! {

/// The name carried by a port declaration node, if `id` names one.
pub open spec fn port_name_of(nodes: Seq<HirNode>, id: NodeId) -> Option<Name> {
    if id < nodes.len() {
        match nodes[id as int] {
            HirNode::Port(p) => Some(p.name.value),
            _ => None,
        }
    } else {
        None
    }
}

/// The default connection carried by a port declaration node, if any.
pub open spec fn port_default_of(nodes: Seq<HirNode>, id: NodeId) -> Option<NodeId> {
    if id < nodes.len() {
        match nodes[id as int] {
            HirNode::Port(p) => p.default,
            _ => None,
        }
    } else {
        None
    }
}

/// The span and node a named connection list binds under `name`: the first
/// match.
pub open spec fn spec_named_lookup_span(named: Seq<NamedParam>, name: Name) -> Option<
    (Span, NodeId),
>
    decreases named.len(),
{
    if named.len() == 0 {
        None
    } else if named[0].1.value == name {
        Some((named[0].0, named[0].2))
    } else {
        spec_named_lookup_span(named.drop_first(), name)
    }
}

/// Whether a port declaration with the given name stands in `ports[j..]`.
pub open spec fn spec_port_search(
    nodes: Seq<HirNode>,
    ports: Seq<NodeId>,
    name: Name,
    j: int,
) -> bool
    decreases ports.len() - j when 0 <= j <= ports.len()
{
    if j >= ports.len() {
        false
    } else {
        port_name_of(nodes, ports[j]) == Some(name) || spec_port_search(nodes, ports, name, j + 1)
    }
}

/// The connection bound to the `j`-th declared port: the `j`-th positional
/// connection and its span where one exists, else the named connection
/// matching the port's name with its span, else the port's declared
/// default, spanless.
pub open spec fn spec_port_binding(
    nodes: Seq<HirNode>,
    ports: Seq<NodeId>,
    pos: Seq<PosParam>,
    named: Seq<NamedParam>,
    j: int,
) -> Option<(Option<Span>, NodeId)> {
    if j < pos.len() {
        Some((Some(pos[j].0), pos[j].1))
    } else {
        match port_name_of(nodes, ports[j]) {
            Some(nm) => match spec_named_lookup_span(named, nm) {
                Some(sa) => Some((Some(sa.0), sa.1)),
                None => match port_default_of(nodes, ports[j]) {
                    Some(d) => Some((None, d)),
                    None => None,
                },
            },
            None => None,
        }
    }
}

/// When binding an instance's connections succeeds: no more positional
/// connections than declared ports; every named connection names a
/// declared, not positionally bound, port, and no name twice; and every
/// declared port ends up connected to an expression.
pub open spec fn spec_ports_ok(
    nodes: Seq<HirNode>,
    ports: Seq<NodeId>,
    pos: Seq<PosParam>,
    named: Seq<NamedParam>,
) -> bool {
    &&& pos.len() <= ports.len()
    &&& forall|k: int|
        0 <= k < named.len() ==> spec_port_search(
            nodes,
            ports,
            (#[trigger] named[k]).1.value,
            pos.len() as int,
        )
    &&& forall|k1: int, k2: int|
        0 <= k1 < k2 < named.len() ==> (#[trigger] named[k1]).1.value != (
        #[trigger] named[k2]).1.value
    &&& forall|j: int|
        0 <= j < ports.len() ==> (match spec_port_binding(nodes, ports, pos, named, j) {
            Some(b) => b.1 < nodes.len() && nodes[b.1 as int] is Expr && (
            #[trigger] ports[j]) < nodes.len() && nodes[ports[j] as int] is Port,
            None => false,
        })
}

/// A port mapping records, in declaration order, each declared port with
/// the span and node of its chosen connection.
pub open spec fn port_mapping_built(
    pm: PortMapping,
    nodes: Seq<HirNode>,
    ports: Seq<NodeId>,
    pos: Seq<PosParam>,
    named: Seq<NamedParam>,
) -> bool {
    &&& pm.bindings@.len() == ports.len()
    &&& forall|j: int|
        0 <= j < ports.len() ==> ((#[trigger] pm.bindings@[j]).0 == ports[j] && Some(
            (pm.bindings@[j].1, pm.bindings@[j].2),
        ) == spec_port_binding(nodes, ports, pos, named, j))
}

/// When resolving an instantiation target succeeds: the node is an
/// instantiation target, its name resolves to a module, and the module's
/// parameters accept the target's bindings.
pub open spec fn spec_itd_ok(
    nodes: Seq<HirNode>,
    modules: Seq<(Name, NodeId)>,
    envs: Seq<crate::param_env::ParamEnvData>,
    node: NodeId,
    env: ParamEnv,
) -> bool {
    &&& node < nodes.len()
    &&& match nodes[node as int] {
        HirNode::InstTarget(t) => match spec_find_module(modules, t.name.value) {
            Some(m) => match spec_module_params(nodes, m) {
                Some(mp) => spec_build_ok(
                    nodes,
                    envs[env as int].bindings@,
                    mp,
                    t.pos_params@,
                    t.named_params@,
                ),
                None => false,
            },
            None => false,
        },
        _ => false,
    }
}

/// What a fresh, successful target resolution pins down: the target and
/// outer environment it was asked about, the module its name resolves to,
/// and an interned inner environment holding exactly the bindings the
/// target's parameter lists build.
pub open spec fn itd_sound(
    d: InstTargetDetails,
    nodes: Seq<HirNode>,
    modules: Seq<(Name, NodeId)>,
    envs: Seq<crate::param_env::ParamEnvData>,
    node: NodeId,
    env: ParamEnv,
) -> bool {
    &&& d.inst_target == node
    &&& d.outer_env == env
    &&& node < nodes.len()
    &&& match nodes[node as int] {
        HirNode::InstTarget(t) => spec_find_module(modules, t.name.value) == Some(d.module)
            && match spec_module_params(nodes, d.module) {
            Some(mp) => d.inner_env < envs.len() && env_bindings_built(
                envs[d.inner_env as int],
                nodes,
                envs[env as int].bindings@,
                mp,
                t.pos_params@,
                t.named_params@,
            ),
            None => false,
        },
        _ => false,
    }
}

/// Hash-consing at the instantiation level: two successful target
/// resolutions under one outer environment, whose targets name the same
/// module and carry structurally identical binding lists, share one inner
/// environment handle.
pub proof fn lemma_inner_env_canonical(
    cx: &QueryContext,
    d1: InstTargetDetails,
    d2: InstTargetDetails,
    t1: NodeId,
    t2: NodeId,
    env: ParamEnv,
)
    requires
        cx.wf(),
        itd_sound(d1, cx.store.nodes@, cx.modules@, cx.envs@, t1, env),
        itd_sound(d2, cx.store.nodes@, cx.modules@, cx.envs@, t2, env),
        ({
            let nodes = cx.store.nodes@;
            match (nodes[t1 as int], nodes[t2 as int]) {
                (HirNode::InstTarget(a), HirNode::InstTarget(b)) => a.name.value == b.name.value
                    && a.pos_params@ == b.pos_params@ && a.named_params@ == b.named_params@,
                _ => false,
            }
        }),
    ensures
        d1.inner_env == d2.inner_env,
{
    let nodes = cx.store.nodes@;
    match (nodes[t1 as int], nodes[t2 as int]) {
        (HirNode::InstTarget(a), HirNode::InstTarget(b)) => {
            assert(d1.module == d2.module);
            match spec_module_params(nodes, d1.module) {
                Some(mp) => {
                    lemma_bindings_determined(
                        cx.envs@[d1.inner_env as int],
                        cx.envs@[d2.inner_env as int],
                        nodes,
                        cx.envs@[env as int].bindings@,
                        mp,
                        a.pos_params@,
                        a.named_params@,
                    );
                    lemma_env_canonicalisation(cx.envs@, d1.inner_env, d2.inner_env);
                },
                None => {
                    assert(false);
                },
            }
        },
        _ => {
            assert(false);
        },
    }
}

/// Resolve an instantiation target under an outer environment, uncached:
/// look the target up, resolve the module it names — an unknown name is
/// diagnosed here — and intern the parameter environment its bindings
/// generate.
pub fn compute_inst_target(cx: &mut QueryContext, node: NodeId, env: ParamEnv) -> (r: Result<
    InstTargetDetails,
    (),
>)
    requires
        old(cx).wf(),
        env < old(cx).envs@.len(),
    ensures
        final(cx).wf(),
        final(cx).store == old(cx).store,
        final(cx).modules == old(cx).modules,
        final(cx).port_mappings == old(cx).port_mappings,
        final(cx).itd_cache == old(cx).itd_cache,
        final(cx).id_cache == old(cx).id_cache,
        old(cx).envs@.len() <= final(cx).envs@.len(),
        final(cx).envs@.subrange(0, old(cx).envs@.len() as int) =~= old(cx).envs@,
        old(cx).diags@.len() <= final(cx).diags@.len(),
        final(cx).diags@.subrange(0, old(cx).diags@.len() as int) =~= old(cx).diags@,
        (r is Ok) == spec_itd_ok(
            old(cx).store.nodes@,
            old(cx).modules@,
            old(cx).envs@,
            node,
            env,
        ),
        match r {
            Ok(d) => itd_sound(
                d,
                old(cx).store.nodes@,
                old(cx).modules@,
                final(cx).envs@,
                node,
                env,
            ),
            Err(_) => (final(cx).diags@ =~= old(cx).diags@ || final(cx).diags@.len() == old(cx).diags@.len() + 1) && final(cx).envs@ == old(cx).envs@,
        },
        ({
            // an unknown module name is diagnosed exactly once, as an
            // error at the name's span; a node of the wrong kind is an
            // internal bug
            let nodes = old(cx).store.nodes@;
            if node < nodes.len() {
                match nodes[node as int] {
                    HirNode::InstTarget(t) => spec_find_module(old(cx).modules@, t.name.value)
                        is None ==> r is Err && final(cx).diags@ =~= old(cx).diags@.push(
                        Diagnostic {
                            severity: Severity::Error,
                            kind: DiagKind::UnknownModule(t.name.value),
                            span: Some(t.name.span),
                        },
                    ),
                    _ => r is Err && final(cx).diags@ =~= old(cx).diags@.push(
                        (Diagnostic {
                            severity: Severity::Error,
                            kind: DiagKind::InternalBug,
                            span: None,
                        }),
                    ),
                }
            } else {
                r is Err && final(cx).diags@ =~= old(cx).diags@.push(
                    (Diagnostic {
                        severity: Severity::Error,
                        kind: DiagKind::InternalBug,
                        span: None,
                    }),
                )
            }
        }),
{
    let (tname, tname_span, tpos, tnamed) = match cx.store.inst_target(node) {
        Some(t) => (
            t.name.value,
            t.name.span,
            crate::copy_vec(&t.pos_params),
            crate::copy_vec(&t.named_params),
        ),
        None => {
            cx.diags.push(
                Diagnostic { severity: Severity::Error, kind: DiagKind::InternalBug, span: None },
            );
            return Err(());
        },
    };
    let module = match cx.find_module(tname) {
        Some(m) => m,
        None => {
            cx.diags.push(Diagnostic::error(DiagKind::UnknownModule(tname), tname_span));
            return Err(());
        },
    };
    let inner = match cx.param_env(
        ParamEnvSource::ModuleInst { module, inst: node, env, pos: tpos, named: tnamed },
    ) {
        Ok(h) => h,
        Err(()) => {
            return Err(());
        },
    };
    Ok(InstTargetDetails { inst_target: node, module, outer_env: env, inner_env: inner })
}

impl QueryContext {
    /// The memoised form of [`compute_inst_target`].
    ///
    /// Computed at most once per `(node, environment)` key: a repeated call
    /// finds the cached result — success or failure — returns exactly it,
    /// and changes nothing, so any two calls under one key yield identical
    /// results; the cache always ends up holding the returned result.
    pub fn inst_target_details(&mut self, node: NodeId, env: ParamEnv) -> (r: Result<
        InstTargetDetails,
        (),
    >)
        requires
            old(self).wf(),
            env < old(self).envs@.len(),
        ensures
            final(self).wf(),
            final(self).store == old(self).store,
            final(self).modules == old(self).modules,
            final(self).port_mappings == old(self).port_mappings,
            final(self).id_cache == old(self).id_cache,
            old(self).envs@.len() <= final(self).envs@.len(),
            final(self).envs@.subrange(0, old(self).envs@.len() as int) =~= old(self).envs@,
            old(self).diags@.len() <= final(self).diags@.len(),
            final(self).diags@.subrange(0, old(self).diags@.len() as int) =~= old(self).diags@,
            match cache_find(old(self).itd_cache@, node, env) {
                Some(c) => r == c && *final(self) == *old(self),
                None => final(self).itd_cache@ =~= old(self).itd_cache@.push((node, env, r)) && ((
                r is Ok) == spec_itd_ok(
                    old(self).store.nodes@,
                    old(self).modules@,
                    old(self).envs@,
                    node,
                    env,
                )) && (match r {
                    Ok(d) => itd_sound(
                        d,
                        old(self).store.nodes@,
                        old(self).modules@,
                        final(self).envs@,
                        node,
                        env,
                    ),
                    Err(_) => final(self).diags@ =~= old(self).diags@ || final(self).diags@.len() == old(self).diags@.len() + 1,
                }),
            },
            cache_find(final(self).itd_cache@, node, env) == Some(r),
            match r {
                Ok(d) => d.inst_target == node && d.outer_env == env && d.inst_target
                    < final(self).store.nodes@.len() && d.inner_env < final(self).envs@.len()
                    && d.module < final(self).store.nodes@.len(),
                Err(_) => true,
            },
    {
        proof {
            assert(self.itd_cache@.skip(0) =~= self.itd_cache@);
        }
        let mut i: usize = 0;
        while i < self.itd_cache.len()
            invariant
                *self == *old(self),
                self.wf(),
                i <= self.itd_cache@.len(),
                cache_find(self.itd_cache@, node, env) == cache_find(
                    self.itd_cache@.skip(i as int),
                    node,
                    env,
                ),
            decreases self.itd_cache@.len() - i,
        {
            proof {
                assert(self.itd_cache@.skip(i as int)[0] == self.itd_cache@[i as int]);
                assert(self.itd_cache@.skip(i as int).drop_first() =~= self.itd_cache@.skip(
                    i + 1,
                ));
            }
            let (n, e, res) = self.itd_cache[i];
            if n == node && e == env {
                return res;
            }
            i = i + 1;
        }
        let r = compute_inst_target(self, node, env);
        let ghost pre_cache = self.itd_cache@;
        self.itd_cache.push((node, env, r));
        proof {
            lemma_cache_find_push(pre_cache, node, env, r);
            assert(cache_find(pre_cache, node, env) is None);
            assert forall|ii: int| 0 <= ii < self.itd_cache@.len() && ii < pre_cache.len() implies
                #[trigger] self.itd_cache@[ii] == pre_cache[ii] by {}
        }
        r
    }
}

/// The span and node a named connection list binds under `name`,
/// executably.
fn named_search_span(named: &Vec<NamedParam>, name: Name) -> (r: Option<(Span, NodeId)>)
    ensures
        r == spec_named_lookup_span(named@, name),
{
    proof {
        assert(named@.skip(0) =~= named@);
    }
    let mut i: usize = 0;
    while i < named.len()
        invariant
            i <= named@.len(),
            spec_named_lookup_span(named@, name) == spec_named_lookup_span(
                named@.skip(i as int),
                name,
            ),
        decreases named@.len() - i,
    {
        proof {
            assert(named@.skip(i as int)[0] == named@[i as int]);
            assert(named@.skip(i as int).drop_first() =~= named@.skip(i + 1));
        }
        if named[i].1.value == name {
            return Some((named[i].0, named[i].2));
        }
        i = i + 1;
    }
    None
}

impl QueryContext {
    /// The name of a port declaration node, executably.
    fn port_name(&self, id: NodeId) -> (r: Option<Name>)
        ensures
            r == port_name_of(self.store.nodes@, id),
    {
        match self.store.get(id) {
            Some(n) => match n {
                HirNode::Port(p) => Some(p.name.value),
                _ => None,
            },
            None => None,
        }
    }

    /// The default connection of a port declaration node, executably.
    fn port_default(&self, id: NodeId) -> (r: Option<NodeId>)
        ensures
            r == port_default_of(self.store.nodes@, id),
    {
        match self.store.get(id) {
            Some(n) => match n {
                HirNode::Port(p) => p.default,
                _ => None,
            },
            None => None,
        }
    }

    /// Bind an instance's connections to its module's declared ports:
    /// positional connections cover the leading declared ports, named
    /// connections their matching declarations, and the rest fall back to
    /// their declared defaults. Fails, with the diagnostic to report, on a
    /// superfluous positional connection, an unknown or duplicated name, an
    /// unconnected port without default, or a connection that is not an
    /// expression.
    fn build_port_mapping(
        &self,
        ports: &Vec<NodeId>,
        pos: &Vec<PosParam>,
        named: &Vec<NamedParam>,
    ) -> (r: Result<PortMapping, Diagnostic>)
        requires
            self.wf(),
        ensures
            ({
                let nodes = self.store.nodes@;
                match r {
                    Ok(pm) => spec_ports_ok(nodes, ports@, pos@, named@) && port_mapping_built(
                        pm,
                        nodes,
                        ports@,
                        pos@,
                        named@,
                    ),
                    Err(_) => !spec_ports_ok(nodes, ports@, pos@, named@),
                }
            }),
    {
        let ghost nodes = self.store.nodes@;
        if pos.len() > ports.len() {
            return Err(Diagnostic::error(DiagKind::SuperfluousParam, pos[ports.len()].0));
        }
        let mut k1: usize = 0;
        while k1 < named.len()
            invariant
                k1 <= named@.len(),
                forall|a: int, b: int|
                    0 <= a < b < named@.len() && a < k1 ==> (#[trigger] named@[a]).1.value != (
                    #[trigger] named@[b]).1.value,
            decreases named@.len() - k1,
        {
            let mut k2: usize = k1 + 1;
            while k2 < named.len()
                invariant
                    k1 < k2 <= named@.len() || (k1 + 1 == k2 && k2 > named@.len()),
                    k1 < named@.len(),
                    forall|a: int, b: int|
                        0 <= a < b < named@.len() && a < k1 ==> (#[trigger] named@[a]).1.value != (
                        #[trigger] named@[b]).1.value,
                    forall|b: int|
                        k1 < b < k2 ==> (#[trigger] named@[b]).1.value != named@[k1 as int].1.value,
                decreases named@.len() - k2,
            {
                if named[k1].1.value == named[k2].1.value {
                    return Err(
                        Diagnostic::error(
                            DiagKind::DuplicateParamBinding(named[k2].1.value),
                            named[k2].0,
                        ),
                    );
                }
                k2 = k2 + 1;
            }
            k1 = k1 + 1;
        }
        let mut k: usize = 0;
        while k < named.len()
            invariant
                self.wf(),
                nodes == self.store.nodes@,
                pos@.len() <= ports@.len(),
                forall|a: int, b: int|
                    0 <= a < b < named@.len() ==> (#[trigger] named@[a]).1.value != (
                    #[trigger] named@[b]).1.value,
                k <= named@.len(),
                forall|kk: int|
                    0 <= kk < k ==> spec_port_search(
                        nodes,
                        ports@,
                        (#[trigger] named@[kk]).1.value,
                        pos@.len() as int,
                    ),
            decreases named@.len() - k,
        {
            let name = named[k].1.value;
            let mut j: usize = pos.len();
            let mut found = false;
            while j < ports.len() && !found
                invariant
                    self.wf(),
                    nodes == self.store.nodes@,
                    k < named@.len(),
                    name == named@[k as int].1.value,
                    forall|a: int, b: int|
                        0 <= a < b < named@.len() ==> (#[trigger] named@[a]).1.value != (
                        #[trigger] named@[b]).1.value,
                    forall|kk: int|
                        0 <= kk < k ==> spec_port_search(
                            nodes,
                            ports@,
                            (#[trigger] named@[kk]).1.value,
                            pos@.len() as int,
                        ),
                    pos@.len() <= j <= ports@.len(),
                    !found ==> spec_port_search(nodes, ports@, name, pos@.len() as int)
                        == spec_port_search(nodes, ports@, name, j as int),
                    found ==> spec_port_search(nodes, ports@, name, pos@.len() as int),
                decreases ports@.len() - j + (if found {
                    0int
                } else {
                    1int
                }),
            {
                let is_match = match self.port_name(ports[j]) {
                    Some(pn) => pn == name,
                    None => false,
                };
                if is_match {
                    found = true;
                } else {
                    j = j + 1;
                }
            }
            if !found {
                proof {
                    assert(!spec_port_search(nodes, ports@, name, ports@.len() as int));
                }
                return Err(Diagnostic::error(DiagKind::UnknownParamName(name), named[k].0));
            }
            k = k + 1;
        }
        let mut bindings: Vec<PortBinding> = Vec::new();
        let mut j: usize = 0;
        while j < ports.len()
            invariant
                self.wf(),
                nodes == self.store.nodes@,
                pos@.len() <= ports@.len(),
                forall|a: int, b: int|
                    0 <= a < b < named@.len() ==> (#[trigger] named@[a]).1.value != (
                    #[trigger] named@[b]).1.value,
                forall|kk: int|
                    0 <= kk < named@.len() ==> spec_port_search(
                        nodes,
                        ports@,
                        (#[trigger] named@[kk]).1.value,
                        pos@.len() as int,
                    ),
                j <= ports@.len(),
                bindings@.len() == j,
                forall|jj: int|
                    0 <= jj < j ==> ((#[trigger] bindings@[jj]).0 == ports@[jj] && Some(
                        (bindings@[jj].1, bindings@[jj].2),
                    ) == spec_port_binding(nodes, ports@, pos@, named@, jj) && bindings@[jj].2
                        < nodes.len() && nodes[bindings@[jj].2 as int] is Expr && ports@[jj]
                        < nodes.len() && nodes[ports@[jj] as int] is Port),
            decreases ports@.len() - j,
        {
            let pid = ports[j];
            let sp: Option<Span>;
            let actual: NodeId;
            if j < pos.len() {
                sp = Some(pos[j].0);
                actual = pos[j].1;
            } else {
                match self.port_name(pid) {
                    None => {
                        return Err(
                            Diagnostic {
                                severity: Severity::Error,
                                kind: DiagKind::InternalBug,
                                span: None,
                            },
                        );
                    },
                    Some(pname) => {
                        match named_search_span(named, pname) {
                            Some(sa) => {
                                sp = Some(sa.0);
                                actual = sa.1;
                            },
                            None => {
                                match self.port_default(pid) {
                                    Some(d) => {
                                        sp = None;
                                        actual = d;
                                    },
                                    None => {
                                        return Err(
                                            Diagnostic {
                                                severity: Severity::Error,
                                                kind: DiagKind::UnboundParam(pname),
                                                span: None,
                                            },
                                        );
                                    },
                                }
                            },
                        }
                    },
                }
            }
            proof {
                assert(spec_port_binding(nodes, ports@, pos@, named@, j as int) == Some(
                    (sp, actual),
                ));
            }
            let port_is_port = match self.store.get(pid) {
                Some(n) => matches!(n, HirNode::Port(_)),
                None => false,
            };
            if !port_is_port {
                return Err(
                    Diagnostic {
                        severity: Severity::Error,
                        kind: DiagKind::InternalBug,
                        span: None,
                    },
                );
            }
            match self.store.expr(actual) {
                Some(_) => {
                    bindings.push((pid, sp, actual));
                },
                None => {
                    return Err(
                        Diagnostic {
                            severity: Severity::Error,
                            kind: DiagKind::ParamKindMismatch,
                            span: None,
                        },
                    );
                },
            }
            j = j + 1;
        }
        let pm = PortMapping { bindings };
        proof {
            assert forall|j2: int| 0 <= j2 < ports@.len() implies (match spec_port_binding(
                nodes,
                ports@,
                pos@,
                named@,
                j2,
            ) {
                Some(b) => b.1 < nodes.len() && nodes[b.1 as int] is Expr && (
                #[trigger] ports@[j2]) < nodes.len() && nodes[ports@[j2] as int] is Port,
                None => false,
            }) by {
                assert((pm.bindings@[j2]).0 == ports@[j2]);
            }
        }
        Ok(pm)
    }
}

/// When resolving an instantiation is owed success: the node is an
/// instantiation, its target resolves (and the module's parameters accept
/// the target's bindings), and the module's ports accept the instance's
/// connections.
pub open spec fn spec_inst_ok(
    nodes: Seq<HirNode>,
    modules: Seq<(Name, NodeId)>,
    envs: Seq<crate::param_env::ParamEnvData>,
    node: NodeId,
    env: ParamEnv,
) -> bool {
    &&& node < nodes.len()
    &&& match nodes[node as int] {
        HirNode::Inst(i) => {
            &&& spec_itd_ok(nodes, modules, envs, i.target, env)
            &&& match nodes[i.target as int] {
                HirNode::InstTarget(t) => match spec_find_module(modules, t.name.value) {
                    Some(m) => match spec_module_ports(nodes, m) {
                        Some(ps) => spec_ports_ok(nodes, ps, i.pos_ports@, i.named_ports@),
                        None => false,
                    },
                    None => false,
                },
                _ => false,
            }
        },
        _ => false,
    }
}

/// Whether the target of an instantiation node is already cached as failed
/// under `env`; a later query for the instantiation then short-circuits.
pub open spec fn target_cached_err(
    nodes: Seq<HirNode>,
    cache: Seq<(NodeId, ParamEnv, Result<InstTargetDetails, ()>)>,
    node: NodeId,
    env: ParamEnv,
) -> bool {
    node < nodes.len() && match nodes[node as int] {
        HirNode::Inst(i) => match cache_find(cache, i.target, env) {
            Some(c) => c is Err,
            None => false,
        },
        _ => false,
    }
}

/// Whether the target of an instantiation node has no cached result yet
/// under `env`.
pub open spec fn target_uncached(
    nodes: Seq<HirNode>,
    cache: Seq<(NodeId, ParamEnv, Result<InstTargetDetails, ()>)>,
    node: NodeId,
    env: ParamEnv,
) -> bool {
    node < nodes.len() && match nodes[node as int] {
        HirNode::Inst(i) => cache_find(cache, i.target, env) is None,
        _ => false,
    }
}

/// Resolve one instantiation under an environment, uncached: resolve its
/// target, then bind its port connections to the target module's declared
/// ports under the instantiation's inner environment. A failed target
/// resolution short-circuits without a further diagnostic. Success is owed
/// whenever the instantiation is sound and its target not already resolved
/// to something else; every failure either records a diagnostic or
/// short-circuits a target failure that recorded one when first found.
pub fn compute_inst(cx: &mut QueryContext, node: NodeId, env: ParamEnv) -> (r: Result<
    InstDetails,
    (),
>)
    requires
        old(cx).wf(),
        env < old(cx).envs@.len(),
    ensures
        final(cx).wf(),
        final(cx).store == old(cx).store,
        final(cx).modules == old(cx).modules,
        final(cx).id_cache == old(cx).id_cache,
        old(cx).envs@.len() <= final(cx).envs@.len(),
        final(cx).envs@.subrange(0, old(cx).envs@.len() as int) =~= old(cx).envs@,
        old(cx).port_mappings@.len() <= final(cx).port_mappings@.len(),
        final(cx).port_mappings@.subrange(0, old(cx).port_mappings@.len() as int) =~= old(cx).port_mappings@,
        old(cx).diags@.len() <= final(cx).diags@.len(),
        final(cx).diags@.subrange(0, old(cx).diags@.len() as int) =~= old(cx).diags@,
        old(cx).itd_cache@.len() <= final(cx).itd_cache@.len(),
        final(cx).itd_cache@.subrange(0, old(cx).itd_cache@.len() as int) =~= old(cx).itd_cache@,
        match r {
            Ok(d) => {
                // the returned target details are exactly the memoised
                // target query's result for this instantiation's target
                let nodes = old(cx).store.nodes@;
                node < nodes.len() && (match nodes[node as int] {
                    HirNode::Inst(i) => (match cache_find(final(cx).itd_cache@, i.target, env) {
                        Some(c) => c == Ok::<InstTargetDetails, ()>(d.target),
                        None => false,
                    }),
                    _ => false,
                })
            },
            Err(_) => true,
        },
        (spec_inst_ok(old(cx).store.nodes@, old(cx).modules@, old(cx).envs@, node, env)
            && target_uncached(old(cx).store.nodes@, old(cx).itd_cache@, node, env)) ==> r is Ok,
        r is Err ==> final(cx).diags@.len() > old(cx).diags@.len() || final(cx).diags@ =~= old(cx).diags@ || target_cached_err(old(cx).store.nodes@, old(cx).itd_cache@, node, env),
        // a target failure found in the cache short-circuits in silence
        target_cached_err(old(cx).store.nodes@, old(cx).itd_cache@, node, env) ==> r is Err
            && *final(cx) == *old(cx),
        // asking about a node that is no instantiation is a compiler bug,
        // recorded exactly once
        !(node < old(cx).store.nodes@.len() && old(cx).store.nodes@[node as int] is Inst) ==> r
            is Err && final(cx).diags@ =~= old(cx).diags@.push(
            (Diagnostic { severity: Severity::Error, kind: DiagKind::InternalBug, span: None }),
        ),
        match r {
            Ok(d) => {
                let nodes = old(cx).store.nodes@;
                &&& d.inst == node
                &&& d.target.inst_target < nodes.len()
                &&& d.target.outer_env < final(cx).envs@.len()
                &&& node < nodes.len()
                &&& d.ports < final(cx).port_mappings@.len()
                &&& d.target.inner_env < final(cx).envs@.len()
                &&& d.target.module < nodes.len()
                &&& match (nodes[node as int], nodes[d.target.module as int]) {
                    (HirNode::Inst(i), HirNode::Module(m)) => d.target.inst_target == i.target
                        && port_mapping_built(
                        final(cx).port_mappings@[d.ports as int],
                        nodes,
                        m.ports@,
                        i.pos_ports@,
                        i.named_ports@,
                    ),
                    _ => false,
                }
            },
            Err(_) => true,
        },
{
    let (target, tpos, tnamed) = match cx.store.inst(node) {
        Some(i) => (i.target, crate::copy_vec(&i.pos_ports), crate::copy_vec(&i.named_ports)),
        None => {
            cx.diags.push(
                Diagnostic { severity: Severity::Error, kind: DiagKind::InternalBug, span: None },
            );
            return Err(());
        },
    };
    let td = match cx.inst_target_details(target, env) {
        Ok(td) => td,
        Err(()) => {
            proof {
                match cache_find(old(cx).itd_cache@, target, env) {
                    Some(c) => {
                        assert(target_cached_err(
                            old(cx).store.nodes@,
                            old(cx).itd_cache@,
                            node,
                            env,
                        ));
                    },
                    None => {
                        assert(final(cx).diags@ =~= old(cx).diags@ || final(cx).diags@.len()
                            > old(cx).diags@.len());
                    },
                }
            }
            return Err(());
        },
    };
    let mports = match cx.store.module(td.module) {
        Some(m) => crate::copy_vec(&m.ports),
        None => {
            cx.diags.push(
                Diagnostic { severity: Severity::Error, kind: DiagKind::InternalBug, span: None },
            );
            return Err(());
        },
    };
    match cx.build_port_mapping(&mports, &tpos, &tnamed) {
        Ok(pm) => {
            let pmid = cx.port_mappings.len();
            let ghost pre = cx.port_mappings@;
            cx.port_mappings.push(pm);
            proof {
                assert(cx.port_mappings@.subrange(0, pre.len() as int) =~= pre);
            }
            Ok(InstDetails { inst: node, target: td, ports: pmid })
        },
        Err(d) => {
            cx.diags.push(d);
            Err(())
        },
    }
}

impl QueryContext {
    /// The memoised form of [`compute_inst`].
    ///
    /// Computed at most once per `(node, environment)` key: a repeated call
    /// finds the cached result — success or failure — returns exactly it,
    /// and changes nothing, so any two calls under one key yield identical
    /// results; the cache always ends up holding the returned result.
    pub fn inst_details(&mut self, node: NodeId, env: ParamEnv) -> (r: Result<InstDetails, ()>)
        requires
            old(self).wf(),
            env < old(self).envs@.len(),
        ensures
            final(self).wf(),
            final(self).store == old(self).store,
            final(self).modules == old(self).modules,
            old(self).envs@.len() <= final(self).envs@.len(),
            final(self).envs@.subrange(0, old(self).envs@.len() as int) =~= old(self).envs@,
            old(self).diags@.len() <= final(self).diags@.len(),
            final(self).diags@.subrange(0, old(self).diags@.len() as int) =~= old(self).diags@,
            old(self).port_mappings@.len() <= final(self).port_mappings@.len(),
            final(self).port_mappings@.subrange(0, old(self).port_mappings@.len() as int)
                =~= old(self).port_mappings@,
            old(self).itd_cache@.len() <= final(self).itd_cache@.len(),
            final(self).itd_cache@.subrange(0, old(self).itd_cache@.len() as int)
                =~= old(self).itd_cache@,
            match cache_find(old(self).id_cache@, node, env) {
                Some(c) => r == c && *final(self) == *old(self),
                None => final(self).id_cache@ =~= old(self).id_cache@.push((node, env, r)) && ((
                spec_inst_ok(
                    old(self).store.nodes@,
                    old(self).modules@,
                    old(self).envs@,
                    node,
                    env,
                ) && target_uncached(old(self).store.nodes@, old(self).itd_cache@, node, env))
                    ==> r is Ok) && (r is Err ==> final(self).diags@.len() > old(
                    self,
                ).diags@.len() || final(self).diags@ =~= old(self).diags@ || target_cached_err(
                    old(self).store.nodes@,
                    old(self).itd_cache@,
                    node,
                    env,
                )) && (match r {
                    Ok(d) => {
                        let nodes = old(self).store.nodes@;
                        &&& d.inst == node
                        &&& node < nodes.len()
                        &&& d.ports < final(self).port_mappings@.len()
                        &&& (match (nodes[node as int], nodes[d.target.module as int]) {
                            (HirNode::Inst(i), HirNode::Module(m)) => d.target.inst_target
                                == i.target && port_mapping_built(
                                final(self).port_mappings@[d.ports as int],
                                nodes,
                                m.ports@,
                                i.pos_ports@,
                                i.named_ports@,
                            ) && (match cache_find(final(self).itd_cache@, i.target, env) {
                                Some(c) => c == Ok::<InstTargetDetails, ()>(d.target),
                                None => false,
                            }),
                            _ => false,
                        })
                    },
                    Err(_) => true,
                }),
            },
            cache_find(final(self).id_cache@, node, env) == Some(r),
            match r {
                Ok(d) => d.inst == node && d.target.inner_env < final(self).envs@.len()
                    && d.target.module < final(self).store.nodes@.len() && d.ports
                    < final(self).port_mappings@.len(),
                Err(_) => true,
            },
    {
        proof {
            assert(self.id_cache@.skip(0) =~= self.id_cache@);
        }
        let mut i: usize = 0;
        while i < self.id_cache.len()
            invariant
                *self == *old(self),
                self.wf(),
                i <= self.id_cache@.len(),
                cache_find(self.id_cache@, node, env) == cache_find(
                    self.id_cache@.skip(i as int),
                    node,
                    env,
                ),
            decreases self.id_cache@.len() - i,
        {
            proof {
                assert(self.id_cache@.skip(i as int)[0] == self.id_cache@[i as int]);
                assert(self.id_cache@.skip(i as int).drop_first() =~= self.id_cache@.skip(i + 1));
            }
            let (n, e, res) = self.id_cache[i];
            if n == node && e == env {
                return res;
            }
            i = i + 1;
        }
        let r = compute_inst(self, node, env);
        let ghost pre_cache = self.id_cache@;
        self.id_cache.push((node, env, r));
        proof {
            lemma_cache_find_push(pre_cache, node, env, r);
            assert(cache_find(pre_cache, node, env) is None);
            assert forall|ii: int| 0 <= ii < self.id_cache@.len() && ii < pre_cache.len() implies
                #[trigger] self.id_cache@[ii] == pre_cache[ii] by {}
        }
        r
    }
}

/// A visitor that, on each instantiation it reaches, requests the resolved
/// instantiation details, records a note diagnostic for them, and descends
/// into the instantiated module under the instantiation's inner
/// environment. Shared targets re-enter the memoised queries, so each is
/// elaborated once per distinct environment. `fuel` bounds the descent
/// depth through self-instantiating hierarchies.
pub struct InstVerbosityVisitor {
    /// The environment the visited subtree is elaborated under.
    pub env: ParamEnv,
}

impl InstVerbosityVisitor {
    /// A visitor starting from the default environment.
    pub fn new(cx: &QueryContext) -> (r: InstVerbosityVisitor)
        requires
            cx.wf(),
        ensures
            r.env == 0,
            r.env < cx.envs@.len(),
    {
        InstVerbosityVisitor { env: cx.default_param_env() }
    }

    /// Visit every instantiation of a module, in source order.
    pub fn visit_module(&self, cx: &mut QueryContext, module: NodeId, fuel: u64)
        requires
            old(cx).wf(),
            self.env < old(cx).envs@.len(),
        ensures
            final(cx).wf(),
            final(cx).store == old(cx).store,
            final(cx).modules == old(cx).modules,
            old(cx).envs@.len() <= final(cx).envs@.len(),
            old(cx).diags@.len() <= final(cx).diags@.len(),
            final(cx).diags@.subrange(0, old(cx).diags@.len() as int) =~= old(cx).diags@,
            fuel == 0 ==> *final(cx) == *old(cx),
            !(module < old(cx).store.nodes@.len() && old(cx).store.nodes@[module as int]
                is Module) ==> *final(cx) == *old(cx),
            ({
                // the module's first instance, when already resolved
                // successfully, is noted
                let nodes = old(cx).store.nodes@;
                (fuel > 1 && module < nodes.len() && (match nodes[module as int] {
                    HirNode::Module(m) => m.insts@.len() > 0 && (match (
                        nodes[m.insts@[0] as int],
                        cache_find(old(cx).id_cache@, m.insts@[0], self.env),
                    ) {
                        (HirNode::Inst(_), Some(Result::Ok(_))) => m.insts@[0] < nodes.len(),
                        _ => false,
                    }),
                    _ => false,
                })) ==> final(cx).diags@.len() > old(cx).diags@.len()
            }),
        decreases fuel, 1int,
    {
        if fuel == 0 {
            return ;
        }
        let insts = match cx.store.module(module) {
            Some(m) => crate::copy_vec(&m.insts),
            None => {
                return ;
            },
        };
        let mut i: usize = 0;
        while i < insts.len()
            invariant
                fuel >= 1,
                cx.wf(),
                cx.store == old(cx).store,
                cx.modules == old(cx).modules,
                old(cx).envs@.len() <= cx.envs@.len(),
                old(cx).diags@.len() <= cx.diags@.len(),
                cx.diags@.subrange(0, old(cx).diags@.len() as int) =~= old(cx).diags@,
                self.env < cx.envs@.len(),
                i == 0 ==> *cx == *old(cx),
                ({
                    let nodes = old(cx).store.nodes@;
                    (fuel > 1 && i > 0 && insts@.len() > 0 && (match (
                        nodes[insts@[0] as int],
                        cache_find(old(cx).id_cache@, insts@[0], self.env),
                    ) {
                        (HirNode::Inst(_), Some(Result::Ok(_))) => insts@[0] < nodes.len(),
                        _ => false,
                    })) ==> cx.diags@.len() > old(cx).diags@.len()
                }),
            decreases insts@.len() - i,
        {
            self.visit_inst(cx, insts[i], fuel - 1);
            i = i + 1;
        }
    }

    /// Visit one instantiation: record its resolved details and descend
    /// into its module under the inner environment.
    pub fn visit_inst(&self, cx: &mut QueryContext, inst: NodeId, fuel: u64)
        requires
            old(cx).wf(),
            self.env < old(cx).envs@.len(),
        ensures
            final(cx).wf(),
            final(cx).store == old(cx).store,
            final(cx).modules == old(cx).modules,
            old(cx).envs@.len() <= final(cx).envs@.len(),
            old(cx).diags@.len() <= final(cx).diags@.len(),
            final(cx).diags@.subrange(0, old(cx).diags@.len() as int) =~= old(cx).diags@,
            fuel == 0 ==> *final(cx) == *old(cx),
            !(inst < old(cx).store.nodes@.len() && old(cx).store.nodes@[inst as int] is Inst)
                ==> *final(cx) == *old(cx),
            ({
                // a failed resolution that is already cached is passed
                // over in silence
                (fuel > 0 && (match cache_find(old(cx).id_cache@, inst, self.env) {
                    Some(c) => c is Err,
                    None => false,
                })) ==> *final(cx) == *old(cx)
            }),
            ({
                // a successful, already-resolved instantiation is noted:
                // the first recorded diagnostic is the instance-note at
                // the instance's name span
                let nodes = old(cx).store.nodes@;
                inst < nodes.len() ==> (match (
                    nodes[inst as int],
                    cache_find(old(cx).id_cache@, inst, self.env),
                ) {
                    (HirNode::Inst(i), Some(Result::Ok(_))) => fuel > 0 ==> final(cx).diags@.len() > old(cx).diags@.len() && final(cx).diags@[old(cx).diags@.len() as int] == (Diagnostic {
                        severity: Severity::Note,
                        kind: DiagKind::InstNote(inst),
                        span: Some(i.name.span),
                    }),
                    _ => true,
                })
            }),
            ({
                // the descent is real: the resolved module is then visited
                // under the instantiation's inner environment, so its own
                // first resolved instance is noted too
                let nodes = old(cx).store.nodes@;
                inst < nodes.len() ==> (match (
                    nodes[inst as int],
                    cache_find(old(cx).id_cache@, inst, self.env),
                ) {
                    (HirNode::Inst(_), Some(Result::Ok(d))) => (fuel > 2 && d.target.module
                        < nodes.len() && (match nodes[d.target.module as int] {
                        HirNode::Module(m) => m.insts@.len() > 0 && m.insts@[0] < nodes.len() && (
                        match (
                            nodes[m.insts@[0] as int],
                            cache_find(old(cx).id_cache@, m.insts@[0], d.target.inner_env),
                        ) {
                            (HirNode::Inst(_), Some(Result::Ok(_))) => true,
                            _ => false,
                        }),
                        _ => false,
                    })) ==> final(cx).diags@.len() > old(cx).diags@.len() + 1,
                    _ => true,
                })
            }),
        decreases fuel, 0int,
    {
        if fuel == 0 {
            return ;
        }
        let span = match cx.store.inst(inst) {
            Some(i) => i.name.span,
            None => {
                return ;
            },
        };
        match cx.inst_details(inst, self.env) {
            Ok(d) => {
                cx.diags.push(Diagnostic::note(DiagKind::InstNote(inst), span));
                let ghost mid = cx.diags@;
                let sub = InstVerbosityVisitor { env: d.target.inner_env };
                sub.visit_module(cx, d.target.module, fuel - 1);
                proof {
                    assert(cx.diags@.subrange(0, mid.len() as int) =~= mid);
                    assert(cx.diags@[mid.len() - 1] == mid[mid.len() - 1]);
                }
            },
            Err(()) => {},
        }
    }
}

/// Appending a result under a key not yet cached makes lookups of that key
/// find it, and leaves other keys alone.
pub proof fn lemma_cache_find_push<T>(
    cache: Seq<(NodeId, ParamEnv, Result<T, ()>)>,
    node: NodeId,
    env: ParamEnv,
    r: Result<T, ()>,
)
    requires
        cache_find(cache, node, env) is None,
    ensures
        cache_find(cache.push((node, env, r)), node, env) == Some(r),
    decreases cache.len(),
{
    if cache.len() == 0 {
        assert(cache.push((node, env, r)).drop_first() =~= Seq::empty());
    } else {
        assert(cache.push((node, env, r)).drop_first() =~= cache.drop_first().push(
            (node, env, r),
        ));
        lemma_cache_find_push(cache.drop_first(), node, env, r);
    }
}

} // verus!
