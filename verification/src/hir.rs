//! The high-level intermediate representation (HIR).
//!
//! A graph of design-hierarchy entities — modules, ports, instantiations,
//! parameters, declarations, procedures, statements, expressions, types —
//! identified by dense [`NodeId`]s and owned by a single [`HirStore`].
//! References between entities are ids; the store's typed lookups enforce
//! that a referenced id resolves to a node of the expected kind.

use vstd::prelude::*;

use crate::numeric::Num;
use crate::source::Span;

verus! {

/// Dense identifier of one HIR entity within a compilation.
pub type NodeId = usize;

/// An interned identifier; equality is by intern id.
#[derive(Debug, Clone, Copy, PartialEq, Eq, Structural, Hash)]
pub struct Name(pub u64);

/// A value together with the span it was written at.
#[derive(Debug, Clone, Copy, PartialEq, Eq)]
pub struct Spanned<T> {
    /// The value.
    pub value: T,
    /// Where it stood in the source.
    pub span: Span,
}

/// A positional argument: its span and the bound node.
pub type PosParam = (Span, NodeId);

/// A named argument: its span, the name, and the bound node.
pub type NamedParam = (Span, Spanned<Name>, NodeId);

/// Direction of a module port.
#[derive(Debug, Clone, Copy, PartialEq, Eq, Structural)]
pub enum PortDir {
    /// Driven from outside the module.
    Input,
    /// Driven by the module.
    Output,
    /// Driven from both sides.
    Inout,
    /// Passed by reference.
    Ref,
}

/// The flavour of a procedural block.
#[derive(Debug, Clone, Copy, PartialEq, Eq, Structural)]
pub enum ProcedureKind {
    /// Runs once at time zero.
    Initial,
    /// Re-runs whenever its inputs change.
    Always,
    /// Combinational always block.
    AlwaysComb,
    /// Latched always block.
    AlwaysLatch,
    /// Flip-flop always block.
    AlwaysFf,
    /// Runs once at the end of simulation.
    Final,
}

/// The operator of an assignment.
#[derive(Debug, Clone, Copy, PartialEq, Eq, Structural)]
pub enum AssignOp {
    /// Plain assignment.
    Identity,
    /// Add-assign.
    Add,
    /// Subtract-assign.
    Sub,
    /// Multiply-assign.
    Mul,
    /// Divide-assign.
    Div,
}

/// The different forms an assignment can take.
#[derive(Debug, Clone, Copy, PartialEq, Eq, Structural)]
pub enum AssignKind {
    /// A blocking assignment.
    Block(AssignOp),
    /// A non-blocking assignment.
    Nonblock(AssignOp),
}

/// A module.
#[derive(Debug, PartialEq, Eq)]
pub struct Module {
    /// This node's id.
    pub id: NodeId,
    /// The module's name.
    pub name: Spanned<Name>,
    /// Full syntactic extent.
    pub span: Span,
    /// The ports, in source order.
    pub ports: Vec<NodeId>,
    /// The parameters, in source order.
    pub params: Vec<NodeId>,
    /// The module and interface instances, in source order.
    pub insts: Vec<NodeId>,
    /// The variable and net declarations, in source order.
    pub decls: Vec<NodeId>,
    /// The procedures, in source order.
    pub procs: Vec<NodeId>,
}

/// A module or interface port.
#[derive(Debug, PartialEq, Eq)]
pub struct Port {
    /// This node's id.
    pub id: NodeId,
    /// The port's name.
    pub name: Spanned<Name>,
    /// Full syntactic extent.
    pub span: Span,
    /// The port's direction.
    pub dir: PortDir,
    /// The port's type node.
    pub ty: NodeId,
    /// A default connection, if declared.
    pub default: Option<NodeId>,
}

/// An instantiation target: the `name #(params)` clause that sibling
/// instances may share.
#[derive(Debug, PartialEq, Eq)]
pub struct InstTarget {
    /// This node's id.
    pub id: NodeId,
    /// The name of the instantiated module.
    pub name: Spanned<Name>,
    /// Full syntactic extent.
    pub span: Span,
    /// Positional parameter bindings.
    pub pos_params: Vec<PosParam>,
    /// Named parameter bindings.
    pub named_params: Vec<NamedParam>,
}

/// An instantiation: one named instance of a target.
#[derive(Debug, PartialEq, Eq)]
pub struct Inst {
    /// This node's id.
    pub id: NodeId,
    /// The instance's name.
    pub name: Spanned<Name>,
    /// Full syntactic extent.
    pub span: Span,
    /// The instantiation target; must resolve to an [`InstTarget`].
    pub target: NodeId,
    /// Positional port connections.
    pub pos_ports: Vec<PosParam>,
    /// Named port connections.
    pub named_ports: Vec<NamedParam>,
}

/// A type parameter.
#[derive(Debug, PartialEq, Eq)]
pub struct TypeParam {
    /// This node's id.
    pub id: NodeId,
    /// The parameter's name.
    pub name: Spanned<Name>,
    /// Full syntactic extent.
    pub span: Span,
    /// Whether the parameter is local and may not be overridden.
    pub local: bool,
    /// The default type node, if declared.
    pub default: Option<NodeId>,
}

/// A value parameter.
#[derive(Debug, PartialEq, Eq)]
pub struct ValueParam {
    /// This node's id.
    pub id: NodeId,
    /// The parameter's name.
    pub name: Spanned<Name>,
    /// Full syntactic extent.
    pub span: Span,
    /// Whether the parameter is local and may not be overridden.
    pub local: bool,
    /// The parameter's type node.
    pub ty: NodeId,
    /// The default expression node, if declared.
    pub default: Option<NodeId>,
}

/// A variable declaration.
#[derive(Debug, PartialEq, Eq)]
pub struct VarDecl {
    /// This node's id.
    pub id: NodeId,
    /// The variable's name.
    pub name: Spanned<Name>,
    /// Full syntactic extent.
    pub span: Span,
    /// The variable's type node.
    pub ty: NodeId,
    /// The initialiser expression node, if any.
    pub init: Option<NodeId>,
}

/// A procedure.
#[derive(Debug, PartialEq, Eq)]
pub struct Proc {
    /// This node's id.
    pub id: NodeId,
    /// Full syntactic extent.
    pub span: Span,
    /// The flavour of the block.
    pub kind: ProcedureKind,
    /// The body statement node.
    pub stmt: NodeId,
}

/// The different forms a statement can take.
#[derive(Debug, PartialEq, Eq)]
pub enum StmtKind {
    /// A statement doing nothing.
    Null,
    /// An assignment.
    Assign {
        /// The assigned-to expression node.
        lhs: NodeId,
        /// The assigned expression node.
        rhs: NodeId,
        /// Blocking or non-blocking, and the operator.
        kind: AssignKind,
    },
}

/// A statement.
#[derive(Debug, PartialEq, Eq)]
pub struct Stmt {
    /// This node's id.
    pub id: NodeId,
    /// An optional label.
    pub label: Option<Spanned<Name>>,
    /// Full syntactic extent.
    pub span: Span,
    /// What the statement does.
    pub kind: StmtKind,
}

/// The different forms an expression can take.
#[derive(Debug)]
pub enum ExprKind {
    /// An integer constant literal.
    IntConst(Num),
    /// An identifier.
    Ident(Spanned<Name>),
}

/// An expression.
#[derive(Debug)]
pub struct Expr {
    /// This node's id.
    pub id: NodeId,
    /// Full syntactic extent.
    pub span: Span,
    /// What the expression is.
    pub kind: ExprKind,
}

/// A builtin type.
#[derive(Debug, Clone, Copy, PartialEq, Eq, Structural)]
pub enum BuiltinType {
    /// The empty type.
    Void,
    /// A single two-state bit.
    Bit,
    /// A single four-state bit.
    Logic,
    /// An eight-bit signed integer.
    Byte,
    /// A sixteen-bit signed integer.
    ShortInt,
    /// A thirty-two-bit signed integer.
    Int,
    /// A sixty-four-bit signed integer.
    LongInt,
}

/// The different forms a type can take.
#[derive(Debug, Clone, Copy, PartialEq, Eq)]
pub enum TypeKind {
    /// A builtin type.
    Builtin(BuiltinType),
    /// A named type.
    Named(Spanned<Name>),
}

/// A type.
#[derive(Debug, Clone, Copy, PartialEq, Eq)]
pub struct Type {
    /// This node's id.
    pub id: NodeId,
    /// Full syntactic extent.
    pub span: Span,
    /// What the type is.
    pub kind: TypeKind,
}

/// A reference to an HIR node: the tagged variant callers dispatch on.
#[derive(Debug)]
pub enum HirNode {
    /// A module.
    Module(Module),
    /// A port.
    Port(Port),
    /// A type.
    Type(Type),
    /// An expression.
    Expr(Expr),
    /// An instantiation target.
    InstTarget(InstTarget),
    /// An instantiation.
    Inst(Inst),
    /// A type parameter.
    TypeParam(TypeParam),
    /// A value parameter.
    ValueParam(ValueParam),
    /// A variable declaration.
    VarDecl(VarDecl),
    /// A procedure.
    Proc(Proc),
    /// A statement.
    Stmt(Stmt),
}

impl HirNode {
    /// The id the node carries.
    pub open spec fn spec_id(&self) -> NodeId {
        match self {
            HirNode::Module(x) => x.id,
            HirNode::Port(x) => x.id,
            HirNode::Type(x) => x.id,
            HirNode::Expr(x) => x.id,
            HirNode::InstTarget(x) => x.id,
            HirNode::Inst(x) => x.id,
            HirNode::TypeParam(x) => x.id,
            HirNode::ValueParam(x) => x.id,
            HirNode::VarDecl(x) => x.id,
            HirNode::Proc(x) => x.id,
            HirNode::Stmt(x) => x.id,
        }
    }

    /// The id the node carries.
    pub fn id(&self) -> (r: NodeId)
        ensures
            r == self.spec_id(),
    {
        match self {
            HirNode::Module(x) => x.id,
            HirNode::Port(x) => x.id,
            HirNode::Type(x) => x.id,
            HirNode::Expr(x) => x.id,
            HirNode::InstTarget(x) => x.id,
            HirNode::Inst(x) => x.id,
            HirNode::TypeParam(x) => x.id,
            HirNode::ValueParam(x) => x.id,
            HirNode::VarDecl(x) => x.id,
            HirNode::Proc(x) => x.id,
            HirNode::Stmt(x) => x.id,
        }
    }

    /// The node's full syntactic extent.
    pub open spec fn spec_span(&self) -> Span {
        match self {
            HirNode::Module(x) => x.span,
            HirNode::Port(x) => x.span,
            HirNode::Type(x) => x.span,
            HirNode::Expr(x) => x.span,
            HirNode::InstTarget(x) => x.span,
            HirNode::Inst(x) => x.span,
            HirNode::TypeParam(x) => x.span,
            HirNode::ValueParam(x) => x.span,
            HirNode::VarDecl(x) => x.span,
            HirNode::Proc(x) => x.span,
            HirNode::Stmt(x) => x.span,
        }
    }

    /// The finger-pointing span: the declared name where one exists, the
    /// label for a labelled statement, else the full extent.
    pub open spec fn spec_human_span(&self) -> Span {
        match self {
            HirNode::Module(x) => x.name.span,
            HirNode::Port(x) => x.name.span,
            HirNode::Type(x) => x.span,
            HirNode::Expr(x) => x.span,
            HirNode::InstTarget(x) => x.name.span,
            HirNode::Inst(x) => x.name.span,
            HirNode::TypeParam(x) => x.name.span,
            HirNode::ValueParam(x) => x.name.span,
            HirNode::VarDecl(x) => x.name.span,
            HirNode::Proc(x) => x.span,
            HirNode::Stmt(x) => match x.label {
                Some(l) => l.span,
                None => x.span,
            },
        }
    }

    /// The node's full syntactic extent.
    pub fn span(&self) -> (r: Span)
        ensures
            r == self.spec_span(),
    {
        match self {
            HirNode::Module(x) => x.span,
            HirNode::Port(x) => x.span,
            HirNode::Type(x) => x.span,
            HirNode::Expr(x) => x.span,
            HirNode::InstTarget(x) => x.span,
            HirNode::Inst(x) => x.span,
            HirNode::TypeParam(x) => x.span,
            HirNode::ValueParam(x) => x.span,
            HirNode::VarDecl(x) => x.span,
            HirNode::Proc(x) => x.span,
            HirNode::Stmt(x) => x.span,
        }
    }

    /// The finger-pointing span: the declared name where one exists, else
    /// the full extent.
    pub fn human_span(&self) -> (r: Span)
        ensures
            r == self.spec_human_span(),
    {
        match self {
            HirNode::Module(x) => x.name.span,
            HirNode::Port(x) => x.name.span,
            HirNode::Type(x) => x.span,
            HirNode::Expr(x) => x.span,
            HirNode::InstTarget(x) => x.name.span,
            HirNode::Inst(x) => x.name.span,
            HirNode::TypeParam(x) => x.name.span,
            HirNode::ValueParam(x) => x.name.span,
            HirNode::VarDecl(x) => x.name.span,
            HirNode::Proc(x) => x.span,
            HirNode::Stmt(x) => match x.label {
                Some(l) => l.span,
                None => x.span,
            },
        }
    }

    /// A fixed short description of the node's kind.
    pub fn desc(&self) -> (r: &'static str)
        ensures
            r@ == (match self {
                HirNode::Module(_) => "module"@,
                HirNode::Port(_) => "port"@,
                HirNode::Type(x) => x.spec_desc(),
                HirNode::Expr(_) => "expression"@,
                HirNode::InstTarget(_) => "instantiation"@,
                HirNode::Inst(_) => "instance"@,
                HirNode::TypeParam(_) => "type parameter"@,
                HirNode::ValueParam(_) => "parameter"@,
                HirNode::VarDecl(_) => "variable declaration"@,
                HirNode::Proc(x) => x.spec_desc(),
                HirNode::Stmt(x) => x.spec_desc(),
            }),
    {
        match self {
            HirNode::Module(_) => "module",
            HirNode::Port(_) => "port",
            HirNode::Type(x) => x.desc(),
            HirNode::Expr(_) => "expression",
            HirNode::InstTarget(_) => "instantiation",
            HirNode::Inst(_) => "instance",
            HirNode::TypeParam(_) => "type parameter",
            HirNode::ValueParam(_) => "parameter",
            HirNode::VarDecl(_) => "variable declaration",
            HirNode::Proc(x) => x.desc(),
            HirNode::Stmt(x) => x.desc(),
        }
    }
}

impl Type {
    /// A fixed short description of the type.
    pub open spec fn spec_desc(&self) -> Seq<char> {
        match self.kind {
            TypeKind::Builtin(BuiltinType::Void) => "void type"@,
            TypeKind::Builtin(BuiltinType::Bit) => "bit type"@,
            TypeKind::Builtin(BuiltinType::Logic) => "logic type"@,
            TypeKind::Builtin(BuiltinType::Byte) => "byte type"@,
            TypeKind::Builtin(BuiltinType::ShortInt) => "short int type"@,
            TypeKind::Builtin(BuiltinType::Int) => "int type"@,
            TypeKind::Builtin(BuiltinType::LongInt) => "long int type"@,
            TypeKind::Named(_) => "type"@,
        }
    }

    /// A fixed short description of the type.
    pub fn desc(&self) -> (r: &'static str)
        ensures
            r@ == self.spec_desc(),
    {
        match self.kind {
            TypeKind::Builtin(BuiltinType::Void) => "void type",
            TypeKind::Builtin(BuiltinType::Bit) => "bit type",
            TypeKind::Builtin(BuiltinType::Logic) => "logic type",
            TypeKind::Builtin(BuiltinType::Byte) => "byte type",
            TypeKind::Builtin(BuiltinType::ShortInt) => "short int type",
            TypeKind::Builtin(BuiltinType::Int) => "int type",
            TypeKind::Builtin(BuiltinType::LongInt) => "long int type",
            TypeKind::Named(_) => "type",
        }
    }
}

impl Proc {
    /// A fixed short description of the procedure's flavour.
    pub open spec fn spec_desc(&self) -> Seq<char> {
        match self.kind {
            ProcedureKind::Initial => "`initial` procedure"@,
            ProcedureKind::Always => "`always` procedure"@,
            ProcedureKind::AlwaysComb => "`always_comb` procedure"@,
            ProcedureKind::AlwaysLatch => "`always_latch` procedure"@,
            ProcedureKind::AlwaysFf => "`always_ff` procedure"@,
            ProcedureKind::Final => "`final` procedure"@,
        }
    }

    /// A fixed short description of the procedure's flavour.
    pub fn desc(&self) -> (r: &'static str)
        ensures
            r@ == self.spec_desc(),
    {
        match self.kind {
            ProcedureKind::Initial => "`initial` procedure",
            ProcedureKind::Always => "`always` procedure",
            ProcedureKind::AlwaysComb => "`always_comb` procedure",
            ProcedureKind::AlwaysLatch => "`always_latch` procedure",
            ProcedureKind::AlwaysFf => "`always_ff` procedure",
            ProcedureKind::Final => "`final` procedure",
        }
    }
}

impl Stmt {
    /// A fixed short description of the statement's kind.
    pub open spec fn spec_desc(&self) -> Seq<char> {
        match self.kind {
            StmtKind::Null => "null statement"@,
            StmtKind::Assign { .. } => "assign statement"@,
        }
    }

    /// A fixed short description of the statement's kind.
    pub fn desc(&self) -> (r: &'static str)
        ensures
            r@ == self.spec_desc(),
    {
        match self.kind {
            StmtKind::Null => "null statement",
            StmtKind::Assign { .. } => "assign statement",
        }
    }
}

/// Owns every HIR node of a compilation, keyed by dense node id.
///
/// Ids are assigned once, in insertion order, and never reused; a node's id
/// always equals its index in the store.
#[derive(Debug)]
pub struct HirStore {
    /// The nodes, indexed by their id.
    pub nodes: Vec<HirNode>,
}

impl HirStore {
    /// Every stored node carries the id it is stored under.
    pub open spec fn wf(&self) -> bool {
        forall|i: int| 0 <= i < self.nodes@.len() ==> (#[trigger] self.nodes@[i]).spec_id() == i
    }

    /// An empty store.
    pub fn new() -> (r: HirStore)
        ensures
            r.wf(),
            r.nodes@.len() == 0,
    {
        HirStore { nodes: Vec::new() }
    }

    /// The id the next added node must carry.
    pub fn next_id(&self) -> (r: NodeId)
        ensures
            r == self.nodes@.len(),
    {
        self.nodes.len()
    }

    /// Add a node whose id is the next free one; returns that id.
    pub fn add(&mut self, n: HirNode) -> (r: NodeId)
        requires
            old(self).wf(),
            n.spec_id() == old(self).nodes@.len(),
        ensures
            final(self).wf(),
            final(self).nodes@ =~= old(self).nodes@.push(n),
            r == old(self).nodes@.len(),
    {
        let r = self.nodes.len();
        self.nodes.push(n);
        r
    }

    /// The node stored under `id`, if any.
    pub fn get(&self, id: NodeId) -> (r: Option<&HirNode>)
        ensures
            match r {
                Some(n) => id < self.nodes@.len() && *n == self.nodes@[id as int],
                None => id >= self.nodes@.len(),
            },
    {
        if id < self.nodes.len() {
            Some(&self.nodes[id])
        } else {
            None
        }
    }

    /// Typed lookup: the module stored under `id`.
    pub fn module(&self, id: NodeId) -> (r: Option<&Module>)
        ensures
            match r {
                Some(m) => id < self.nodes@.len() && self.nodes@[id as int] == HirNode::Module(*m),
                None => !(id < self.nodes@.len() && self.nodes@[id as int] is Module),
            },
    {
        if id < self.nodes.len() {
            match &self.nodes[id] {
                HirNode::Module(m) => Some(m),
                _ => None,
            }
        } else {
            None
        }
    }

    /// Typed lookup: the instantiation target stored under `id`.
    pub fn inst_target(&self, id: NodeId) -> (r: Option<&InstTarget>)
        ensures
            match r {
                Some(m) => id < self.nodes@.len() && self.nodes@[id as int] == HirNode::InstTarget(
                    *m,
                ),
                None => !(id < self.nodes@.len() && self.nodes@[id as int] is InstTarget),
            },
    {
        if id < self.nodes.len() {
            match &self.nodes[id] {
                HirNode::InstTarget(m) => Some(m),
                _ => None,
            }
        } else {
            None
        }
    }

    /// Typed lookup: the instantiation stored under `id`.
    pub fn inst(&self, id: NodeId) -> (r: Option<&Inst>)
        ensures
            match r {
                Some(m) => id < self.nodes@.len() && self.nodes@[id as int] == HirNode::Inst(*m),
                None => !(id < self.nodes@.len() && self.nodes@[id as int] is Inst),
            },
    {
        if id < self.nodes.len() {
            match &self.nodes[id] {
                HirNode::Inst(m) => Some(m),
                _ => None,
            }
        } else {
            None
        }
    }

    /// Typed lookup: the expression stored under `id`.
    pub fn expr(&self, id: NodeId) -> (r: Option<&Expr>)
        ensures
            match r {
                Some(m) => id < self.nodes@.len() && self.nodes@[id as int] == HirNode::Expr(*m),
                None => !(id < self.nodes@.len() && self.nodes@[id as int] is Expr),
            },
    {
        if id < self.nodes.len() {
            match &self.nodes[id] {
                HirNode::Expr(m) => Some(m),
                _ => None,
            }
        } else {
            None
        }
    }

    /// Typed lookup: the type stored under `id`.
    pub fn type_node(&self, id: NodeId) -> (r: Option<&Type>)
        ensures
            match r {
                Some(m) => id < self.nodes@.len() && self.nodes@[id as int] == HirNode::Type(*m),
                None => !(id < self.nodes@.len() && self.nodes@[id as int] is Type),
            },
    {
        if id < self.nodes.len() {
            match &self.nodes[id] {
                HirNode::Type(m) => Some(m),
                _ => None,
            }
        } else {
            None
        }
    }
}

} // verus!
