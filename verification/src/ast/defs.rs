use vstd::prelude::*;

verus! {

/// The types of the language: the numeric widths, characters, the two
/// opaque memory-region markers, tuples of types, and `Nil`. `Nil` may
/// stand alone as a return type but may never be a tuple element.
#[derive(Debug, PartialEq)]
pub enum VarType {
    I32,
    I64,
    U8,
    F32,
    F64,
    Char,
    LazyPage,
    ZeroPage,
    Tuple(Vec<VarType>),
    Nil,
}

/// Mathematical model of a `VarType`.
pub ghost enum GTy {
    I32,
    I64,
    U8,
    F32,
    F64,
    Char,
    LazyPage,
    ZeroPage,
    Tuple(Seq<GTy>),
    Nil,
}

impl VarType {
    /// The model of this type, with tuple contents modeled as a sequence.
    pub open spec fn deep(self) -> GTy
        decreases self,
    {
        match self {
            VarType::I32 => GTy::I32,
            VarType::I64 => GTy::I64,
            VarType::U8 => GTy::U8,
            VarType::F32 => GTy::F32,
            VarType::F64 => GTy::F64,
            VarType::Char => GTy::Char,
            VarType::LazyPage => GTy::LazyPage,
            VarType::ZeroPage => GTy::ZeroPage,
            VarType::Tuple(ts) => GTy::Tuple(deep_tys(ts@)),
            VarType::Nil => GTy::Nil,
        }
    }
}

/// The models of a sequence of types.
pub open spec fn deep_tys(ts: Seq<VarType>) -> Seq<GTy>
    decreases ts,
{
    if ts.len() == 0 {
        Seq::empty()
    } else {
        seq![ts[0].deep()] + deep_tys(ts.drop_first())
    }
}

/// A variable: name, type, and an optional size reserved for the page-like
/// types; the current grammar never populates `size`.
#[derive(Debug, PartialEq)]
pub struct Var {
    pub name: Vec<u8>,
    pub var_type: VarType,
    pub size: Option<usize>,
}

/// Mathematical model of a `Var`.
pub ghost struct GVar {
    pub name: Seq<u8>,
    pub var_type: GTy,
    pub size: Option<int>,
}

impl Var {
    pub open spec fn deep(self) -> GVar {
        GVar {
            name: self.name@,
            var_type: self.var_type.deep(),
            size: match self.size {
                Some(n) => Some(n as int),
                None => None,
            },
        }
    }
}

/// A function definition: name, optional parameter list, the child nodes
/// parsed from the body, and the resolved return type. `ret_type` is `None`
/// exactly when the declaration had no return clause, which always comes
/// with a diagnostic.
#[derive(Debug, PartialEq)]
pub struct FunDef {
    pub name: Vec<u8>,
    pub args: Option<Vec<Var>>,
    pub body: Vec<NodeT>,
    pub ret_type: Option<VarType>,
}

/// A syntax tree node. Only `FunDef` is produced by the current parser;
/// `VarDef` and `Ret` are reserved node shapes.
#[derive(Debug, PartialEq)]
pub enum NodeT {
    VarDef(Var),
    FunDef(FunDef),
    Ret(Var),
}

/// Mathematical model of a `FunDef`.
pub ghost struct GFun {
    pub name: Seq<u8>,
    pub args: Option<Seq<GVar>>,
    pub body: Seq<GNode>,
    pub ret_type: Option<GTy>,
}

/// Mathematical model of a `NodeT`.
pub ghost enum GNode {
    VarDef(GVar),
    FunDef(GFun),
    Ret(GVar),
}

impl NodeT {
    pub open spec fn deep(self) -> GNode
        decreases self,
    {
        match self {
            NodeT::VarDef(v) => GNode::VarDef(v.deep()),
            NodeT::FunDef(f) => GNode::FunDef(f.deep()),
            NodeT::Ret(v) => GNode::Ret(v.deep()),
        }
    }
}

impl FunDef {
    pub open spec fn deep(self) -> GFun
        decreases self,
    {
        GFun {
            name: self.name@,
            args: match self.args {
                Some(vs) => Some(deep_vars(vs@)),
                None => None,
            },
            body: deep_nodes(self.body@),
            ret_type: match self.ret_type {
                Some(t) => Some(t.deep()),
                None => None,
            },
        }
    }
}

/// The models of a sequence of variables.
pub open spec fn deep_vars(vs: Seq<Var>) -> Seq<GVar>
    decreases vs,
{
    if vs.len() == 0 {
        Seq::empty()
    } else {
        seq![vs[0].deep()] + deep_vars(vs.drop_first())
    }
}

/// The models of a sequence of nodes.
pub open spec fn deep_nodes(ns: Seq<NodeT>) -> Seq<GNode>
    decreases ns,
{
    if ns.len() == 0 {
        Seq::empty()
    } else {
        seq![ns[0].deep()] + deep_nodes(ns.drop_first())
    }
}


// ---------------------------------------------------------------------------
// Facts about the sequence models
// ---------------------------------------------------------------------------

pub proof fn lemma_deep_tys_props(s: Seq<VarType>)
    ensures
        deep_tys(s).len() == s.len(),
        forall|k: int| 0 <= k < s.len() ==> deep_tys(s)[k] == s[k].deep(),
    decreases s.len(),
{
    if s.len() > 0 {
        lemma_deep_tys_props(s.drop_first());
    }
}

pub proof fn lemma_deep_vars_props(s: Seq<Var>)
    ensures
        deep_vars(s).len() == s.len(),
        forall|k: int| 0 <= k < s.len() ==> deep_vars(s)[k] == s[k].deep(),
    decreases s.len(),
{
    if s.len() > 0 {
        lemma_deep_vars_props(s.drop_first());
    }
}

pub proof fn lemma_deep_nodes_props(s: Seq<NodeT>)
    ensures
        deep_nodes(s).len() == s.len(),
        forall|k: int| 0 <= k < s.len() ==> deep_nodes(s)[k] == s[k].deep(),
    decreases s.len(),
{
    if s.len() > 0 {
        lemma_deep_nodes_props(s.drop_first());
    }
}

pub proof fn lemma_deep_tys_push(s: Seq<VarType>, x: VarType)
    ensures
        deep_tys(s.push(x)) == deep_tys(s) + seq![x.deep()],
{
    lemma_deep_tys_props(s.push(x));
    lemma_deep_tys_props(s);
    assert(s.push(x)[s.len() as int] == x);
    assert forall|k: int| 0 <= k < s.len() implies s.push(x)[k] == s[k] by {}
    assert(deep_tys(s.push(x)) =~= deep_tys(s) + seq![x.deep()]);
}

pub proof fn lemma_deep_vars_push(s: Seq<Var>, x: Var)
    ensures
        deep_vars(s.push(x)) == deep_vars(s) + seq![x.deep()],
{
    lemma_deep_vars_props(s.push(x));
    lemma_deep_vars_props(s);
    assert(s.push(x)[s.len() as int] == x);
    assert forall|k: int| 0 <= k < s.len() implies s.push(x)[k] == s[k] by {}
    assert(deep_vars(s.push(x)) =~= deep_vars(s) + seq![x.deep()]);
}

pub proof fn lemma_deep_nodes_push(s: Seq<NodeT>, x: NodeT)
    ensures
        deep_nodes(s.push(x)) == deep_nodes(s) + seq![x.deep()],
{
    lemma_deep_nodes_props(s.push(x));
    lemma_deep_nodes_props(s);
    assert(s.push(x)[s.len() as int] == x);
    assert forall|k: int| 0 <= k < s.len() implies s.push(x)[k] == s[k] by {}
    assert(deep_nodes(s.push(x)) =~= deep_nodes(s) + seq![x.deep()]);
}

} // verus!
