//! The emitter: renders the syntax tree as pseudo-assembly lines.
//!
//! A fixed two-line frame-setup preamble comes first, then one store
//! line per variable declaration in depth-first order. Statement nodes
//! are transparent: the emitter recurses into their children and emits
//! nothing for the wrapper itself. The rendering is pure: persisting
//! the finished text is the caller's concern.

use vstd::prelude::*;

verus! {

use crate::declarations::LiteralsV;
use crate::declarations::Literals;
use crate::declarations::NodeType;
use crate::declarations::NodeTypeV;
use crate::declarations::VariableDecl;
use crate::declarations::VariableDeclV;
use crate::declarations::indices_view;
use crate::declarations::nodes_view;
use crate::parser::AST;
use crate::parser::get_var_size;
use crate::parser::spec_size_of;
use crate::text::dec_str;
use crate::text::push_dec;
use vstd::string::StringExecFns;

/// The two-line frame-setup preamble.
pub open spec fn preamble_text() -> Seq<char> {
    "PUSH rbp\n"@ + "MOV  rbp rsp\n"@
}

/// The verbatim text a literal was written with.
pub open spec fn literal_text(l: LiteralsV) -> Seq<char> {
    match l {
        LiteralsV::Number(t) => t,
        LiteralsV::Text(t) => t,
    }
}

/// The store line of one declaration: the operand-size keyword, the
/// frame-relative address (frame base minus offset plus size), the
/// literal's verbatim text, and a comment naming the identifier.
pub open spec fn var_line(d: VariableDeclV) -> Seq<char> {
    "QWORD PTR [rbp-"@ + dec_str((d.stack_offset + spec_size_of(d.literal)) as nat) + "], "@
        + literal_text(d.literal) + " ; "@ + d.identifier + "\n"@
}

/// What one arena entry renders to. An index outside `lo .. nodes.len()`
/// renders nothing, which also bounds the recursion; the parser only
/// ever hands out forward-pointing child indices. A declaration whose
/// literal kind has no operand keyword yet renders nothing.
pub open spec fn emit_one(nodes: Seq<NodeTypeV>, idx: int, lo: int) -> Seq<char>
    decreases nodes.len() - lo, 0int,
{
    if lo <= idx < nodes.len() {
        match nodes[idx] {
            NodeTypeV::Variable(d) => match d.literal {
                LiteralsV::Number(_) => var_line(d),
                LiteralsV::Text(_) => Seq::empty(),
            },
            NodeTypeV::Stmt(s) => emit_from(nodes, s.children, idx + 1),
        }
    } else {
        Seq::empty()
    }
}

/// What an index list renders to, in order.
pub open spec fn emit_from(nodes: Seq<NodeTypeV>, list: Seq<int>, lo: int) -> Seq<char>
    decreases nodes.len() - lo, list.len(),
{
    if list.len() == 0 {
        Seq::empty()
    } else {
        emit_one(nodes, list[0], lo) + emit_from(nodes, list.drop_first(), lo)
    }
}

/// Rendering an index list commutes with appending one index.
proof fn lemma_emit_from_snoc(nodes: Seq<NodeTypeV>, list: Seq<int>, x: int, lo: int)
    ensures
        emit_from(nodes, list.push(x), lo) == emit_from(nodes, list, lo) + emit_one(
            nodes,
            x,
            lo,
        ),
    decreases list.len(),
{
    reveal_with_fuel(emit_from, 3);
    if list.len() == 0 {
        assert(list.push(x)[0] == x);
        assert(list.push(x).drop_first() =~= Seq::<int>::empty());
        assert(emit_from(nodes, list.push(x), lo) =~= emit_from(nodes, list, lo) + emit_one(
            nodes,
            x,
            lo,
        ));
    } else {
        assert(list.push(x)[0] == list[0]);
        assert(list.push(x).drop_first() =~= list.drop_first().push(x));
        lemma_emit_from_snoc(nodes, list.drop_first(), x, lo);
        assert(emit_from(nodes, list.push(x), lo) =~= emit_from(nodes, list, lo) + emit_one(
            nodes,
            x,
            lo,
        ));
    }
}

/// The emitter: accumulates the finished instruction text.
pub struct Assembler {
    output: String,
    filename: String,
}

/// Mathematical value of an [`Assembler`].
pub struct AssemblerV {
    pub output: Seq<char>,
    pub filename: Seq<char>,
}

impl View for Assembler {
    type V = AssemblerV;

    closed spec fn view(&self) -> AssemblerV {
        AssemblerV { output: self.output@, filename: self.filename@ }
    }
}

impl Assembler {
    /// A fresh emitter holding only the frame-setup preamble.
    pub fn new(filename: &str) -> (r: Self)
        ensures
            r@.output == preamble_text(),
            r@.filename == filename@,
    {
        let mut output = String::new();
        output.append("PUSH rbp\n");
        output.append("MOV  rbp rsp\n");
        let r = Self { output, filename: filename.to_owned() };
        proof {
            assert(r@.output =~= preamble_text());
        }
        r
    }

    /// Appends the store line of one declaration, per [`var_line`].
    pub fn var(&mut self, variable_decl: &VariableDecl)
        requires
            variable_decl.literal.value is NUMBER,
        ensures
            final(self)@.output == old(self)@.output + var_line(variable_decl@),
            final(self)@.filename == old(self)@.filename,
    {
        let var_size = get_var_size(variable_decl);
        let offset: u32 = variable_decl.stack_offset as u32 + var_size as u32;
        self.output.append("QWORD PTR [rbp-");
        push_dec(&mut self.output, offset);
        self.output.append("], ");
        match &variable_decl.literal.value {
            Literals::NUMBER(value) => self.output.append(value.as_str()),
            Literals::STR(value) => self.output.append(value.as_str()),
        }
        self.output.append(" ; ");
        self.output.append(variable_decl.identifier.as_str());
        self.output.append("\n");
        proof {
            assert(self@.output =~= old(self)@.output + var_line(variable_decl@));
        }
    }

    /// Renders every node of the index list, recursing through
    /// statement nodes, per [`emit_from`].
    #[verifier::loop_isolation(false)]
    pub fn assemble_based_on_nodes(&mut self, nodes: &Vec<NodeType>, list: &Vec<usize>, lo: usize)
        ensures
            final(self)@.output == old(self)@.output + emit_from(
                nodes_view(nodes@),
                indices_view(list@),
                lo as int,
            ),
            final(self)@.filename == old(self)@.filename,
        decreases nodes@.len() - lo,
    {
        let ghost nv = nodes_view(nodes@);
        let ghost iv = indices_view(list@);
        let mut k: usize = 0;
        while k < list.len()
            invariant
                k <= list@.len(),
                self@.output == old(self)@.output + emit_from(nv, iv.subrange(0, k as int), lo as int),
                self@.filename == old(self)@.filename,
            decreases list@.len() - k,
        {
            let idx = list[k];
            let ghost before = self@.output;
            if idx >= lo && idx < nodes.len() {
                match &nodes[idx] {
                    NodeType::Variable(d) => {
                        proof {
                            assert(nv[idx as int] == nodes@[idx as int]@);
                        }
                        match &d.literal.value {
                            Literals::NUMBER(_) => {
                                self.var(d);
                            },
                            Literals::STR(_) => {},
                        }
                    },
                    NodeType::Stmt(s) => {
                        proof {
                            assert(nv[idx as int] == nodes@[idx as int]@);
                        }
                        self.assemble_based_on_nodes(nodes, &s.children, idx + 1);
                    },
                }
            }
            proof {
                assert(self@.output == before + emit_one(nv, idx as int, lo as int));
            }
            k = k + 1;
            proof {
                lemma_emit_from_snoc(nv, iv.subrange(0, k as int - 1), iv[k as int - 1], lo as int);
                assert(iv.subrange(0, k as int) =~= iv.subrange(0, k as int - 1).push(
                    iv[k as int - 1],
                ));
                assert(self@.output =~= old(self)@.output + emit_from(
                    nv,
                    iv.subrange(0, k as int),
                    lo as int,
                ));
            }
        }
        proof {
            assert(iv.subrange(0, list@.len() as int) =~= iv);
        }
    }

    /// Renders the whole tree: every top-level statement in source
    /// order, depth first.
    pub fn from_ast(&mut self, ast: &AST)
        ensures
            final(self)@.output == old(self)@.output + emit_from(ast@.nodes, ast@.top_level, 0),
            final(self)@.filename == old(self)@.filename,
    {
        self.assemble_based_on_nodes(&ast.nodes, &ast.top_level, 0);
    }

    /// The instruction text accumulated so far.
    pub fn output_text(&self) -> (r: &String)
        ensures
            r@ == self@.output,
    {
        &self.output
    }
}

} // verus!
