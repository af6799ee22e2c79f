//! The node kinds of the syntax tree.
//!
//! Nodes live in one arena (an ordered `Vec`) owned by the tree; every
//! edge is an index into that arena, never a direct reference.

use vstd::prelude::*;

verus! {

/// Mathematical value of a [`Literals`] tag.
#[verifier::ext_equal]
pub enum LiteralsV {
    Number(Seq<char>),
    Text(Seq<char>),
}

/// Mathematical value of a [`VariableDecl`].
#[verifier::ext_equal]
pub struct VariableDeclV {
    pub stack_offset: int,
    pub identifier: Seq<char>,
    pub literal: LiteralsV,
}

/// Mathematical value of a [`CompoundStmt`].
#[verifier::ext_equal]
pub struct CompoundStmtV {
    pub stack_offset: int,
    pub children: Seq<int>,
}

/// Mathematical value of a [`NodeType`].
#[verifier::ext_equal]
pub enum NodeTypeV {
    Variable(VariableDeclV),
    Stmt(CompoundStmtV),
}

/// One entry of the syntax-tree arena: either a variable declaration or
/// a compound statement that only groups child nodes.
#[derive(Debug, PartialEq)]
pub enum NodeType {
    Variable(VariableDecl),
    Stmt(CompoundStmt),
}

/// A statement that groups child nodes by their arena indices.
#[derive(Debug, PartialEq)]
pub struct CompoundStmt {
    pub stack_offset: u16,
    pub children: Vec<usize>,
}

impl CompoundStmt {
    pub fn new(stack_offset: u16) -> (r: Self)
        ensures
            r@ == (CompoundStmtV { stack_offset: stack_offset as int, children: Seq::<int>::empty() }),
    {
        let r = Self { stack_offset, children: Vec::new() };
        proof {
            assert(r@.children =~= Seq::<int>::empty());
        }
        r
    }
}

/// A literal value, kept as the raw text it was written with.
///
/// Numbers are not folded into a machine integer here: the emitter
/// reproduces the original digit text verbatim.
#[derive(Debug, Clone, PartialEq)]
pub enum Literals {
    NUMBER(String),
    STR(String),
}

/// The literal on the right-hand side of a declaration.
#[derive(Debug, Clone, PartialEq)]
pub struct LiteralDecl {
    pub value: Literals,
}

/// A declared variable: its name, its literal, and the byte offset of
/// its storage inside the owning scope's frame.
#[derive(Debug, PartialEq)]
pub struct VariableDecl {
    pub stack_offset: u16,
    pub identifier: String,
    pub literal: LiteralDecl,
}

/// A named function; reserved for a later statement form.
pub struct FunctionDecl {
    pub stack_offset: u16,
    pub identifier: String,
    pub literal: LiteralDecl,
}

/// An increment of an already-declared literal; reserved for loops.
pub struct IncDecl {
    pub literal_index: u32,
    pub literal_scope_index: u32,
}

/// The jump labels of a counted loop; reserved for a later statement form.
pub struct LoopDecl {
    pub jmp_label_declaration: String,
    pub jmp_label_conditional: String,
    pub jmp_label_body: String,
}

impl View for Literals {
    type V = LiteralsV;

    open spec fn view(&self) -> LiteralsV {
        match self {
            Literals::NUMBER(s) => LiteralsV::Number(s@),
            Literals::STR(s) => LiteralsV::Text(s@),
        }
    }
}

impl View for LiteralDecl {
    type V = LiteralsV;

    open spec fn view(&self) -> LiteralsV {
        self.value@
    }
}

impl View for VariableDecl {
    type V = VariableDeclV;

    open spec fn view(&self) -> VariableDeclV {
        VariableDeclV {
            stack_offset: self.stack_offset as int,
            identifier: self.identifier@,
            literal: self.literal@,
        }
    }
}

impl View for CompoundStmt {
    type V = CompoundStmtV;

    open spec fn view(&self) -> CompoundStmtV {
        CompoundStmtV {
            stack_offset: self.stack_offset as int,
            children: self.children@.map_values(|c: usize| c as int),
        }
    }
}

impl View for NodeType {
    type V = NodeTypeV;

    open spec fn view(&self) -> NodeTypeV {
        match self {
            NodeType::Variable(d) => NodeTypeV::Variable(d@),
            NodeType::Stmt(s) => NodeTypeV::Stmt(s@),
        }
    }
}

/// The arena view of a node list: every node replaced by its value.
pub open spec fn nodes_view(nodes: Seq<NodeType>) -> Seq<NodeTypeV> {
    nodes.map_values(|n: NodeType| n@)
}

/// The view of an index list: every index widened to `int`.
pub open spec fn indices_view(indices: Seq<usize>) -> Seq<int> {
    indices.map_values(|c: usize| c as int)
}

} // verus!
