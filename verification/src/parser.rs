//! The scope-tracking recursive parser.
//!
//! The parser drives an automaton over the token sequence: a block-open
//! token opens a scope, a block-close token closes the active one, and
//! a `let` statement is matched strictly as keyword, identifier, `=`,
//! number literal, statement separator. Parsing is fail-fast: the first
//! malformed construct aborts the run with its named condition.
//!
//! The spec functions [`step`] and [`run`] state the automaton exactly;
//! [`Parser::parse`] is proved equal to [`run`] over the token sequence
//! of its input.

use vstd::prelude::*;

verus! {

use crate::declarations::CompoundStmt;
use crate::declarations::CompoundStmtV;
use crate::declarations::LiteralDecl;
use crate::declarations::Literals;
use crate::declarations::LiteralsV;
use crate::declarations::NodeType;
use crate::declarations::NodeTypeV;
use crate::declarations::VariableDecl;
use crate::declarations::VariableDeclV;
use crate::declarations::indices_view;
use crate::declarations::nodes_view;
use crate::errors::CompileError;
use crate::symbols::CodeScope;
use crate::symbols::CodeScopeV;
use crate::symbols::ScopeTable;
use crate::symbols::ScopeTableV;
use crate::symbols::global_scope_v;
use crate::symbols::ident_text;
use crate::symbols::scope_contains;
use crate::symbols::table_close;
use crate::symbols::table_declare;
use crate::symbols::table_open;
use crate::symbols::table_wf;
use crate::tokenizer::Token;
use crate::tokenizer::TokenType;
use crate::tokenizer::TokenTypeV;
use crate::tokenizer::TokenV;
use crate::tokenizer::Tokenizer;
use crate::tokenizer::all_digits;
use crate::tokenizer::is_digit;
use crate::tokenizer::is_digit_char;
use crate::tokenizer::lemma_scan_next_bounds;
use crate::tokenizer::lemma_scan_progress;
use crate::tokenizer::scan;
use crate::tokenizer::tokens_from;
use vstd::string::StrSliceExecFns;

/// The byte width of a literal's layout class. One shared rule: the
/// scope cursor and the emitter's addresses both come from here.
pub open spec fn spec_size_of(l: LiteralsV) -> int {
    match l {
        LiteralsV::Number(_) => 16,
        LiteralsV::Text(_) => 32,
    }
}

/// The byte width of the storage a literal kind occupies.
pub fn size_of_literal(lit: &Literals) -> (r: u16)
    ensures
        r as int == spec_size_of(lit@),
{
    match lit {
        Literals::NUMBER(_) => 16,
        Literals::STR(_) => 32,
    }
}

/// The byte width of the storage a declaration occupies.
pub fn get_var_size(decl: &VariableDecl) -> (r: u16)
    ensures
        r as int == spec_size_of(decl@.literal),
{
    size_of_literal(&decl.literal.value)
}

/// The numeric value of one digit character.
pub open spec fn digit_val(c: char) -> int {
    c as int - '0' as int
}

/// The numeric value of a digit text, most significant digit first.
pub open spec fn digits_value(s: Seq<char>) -> int
    decreases s.len(),
{
    if s.len() == 0 {
        0
    } else {
        digits_value(s.drop_last()) * 10 + digit_val(s.last())
    }
}

/// Whether a numeric token's text fits the target representation: a
/// non-empty all-digit text whose value fits in `u32`.
pub open spec fn valid_number(s: Seq<char>) -> bool {
    s.len() > 0 && all_digits(s) && digits_value(s) <= u32::MAX
}

proof fn lemma_digits_value_nonneg(s: Seq<char>)
    requires
        all_digits(s),
    ensures
        digits_value(s) >= 0,
    decreases s.len(),
{
    if s.len() > 0 {
        assert forall|i: int| 0 <= i < s.drop_last().len() implies is_digit_char(
            #[trigger] s.drop_last()[i],
        ) by {
            assert(s.drop_last()[i] == s[i]);
        }
        lemma_digits_value_nonneg(s.drop_last());
        assert(is_digit_char(s.last()));
    }
}

/// A longer all-digit text never has a smaller value than its prefix.
proof fn lemma_digits_value_prefix(s: Seq<char>, k: int)
    requires
        all_digits(s),
        0 <= k <= s.len(),
    ensures
        digits_value(s.subrange(0, k)) >= 0,
        digits_value(s) >= digits_value(s.subrange(0, k)),
    decreases s.len() - k,
{
    let pre = s.subrange(0, k);
    assert forall|i: int| 0 <= i < pre.len() implies is_digit_char(#[trigger] pre[i]) by {
        assert(pre[i] == s[i]);
    }
    lemma_digits_value_nonneg(pre);
    if k < s.len() {
        lemma_digits_value_prefix(s, k + 1);
        let ext = s.subrange(0, k + 1);
        assert(ext.drop_last() =~= pre);
        assert(ext.last() == s[k]);
        assert(is_digit_char(s[k]));
        assert(digits_value(ext) == digits_value(pre) * 10 + digit_val(s[k]));
    } else {
        assert(pre =~= s);
    }
}

/// Decides whether a numeric token's text fits the target
/// representation, per [`valid_number`].
pub fn number_fits(text: &String) -> (r: bool)
    ensures
        r == valid_number(text@),
{
    let n = text.as_str().unicode_len();
    if n == 0 {
        return false;
    }
    let mut acc: u64 = 0;
    let mut k: usize = 0;
    while k < n
        invariant
            k <= n,
            n == text@.len(),
            all_digits(text@.subrange(0, k as int)),
            acc == digits_value(text@.subrange(0, k as int)),
            acc <= u32::MAX,
        decreases n - k,
    {
        let c = text.as_str().get_char(k);
        if !is_digit(c) {
            proof {
                assert(!is_digit_char(text@[k as int]));
                assert(!all_digits(text@));
            }
            return false;
        }
        let d: u32 = (c as u32) - 48;
        let next: u64 = acc * 10 + (d as u64);
        proof {
            let ext = text@.subrange(0, k as int + 1);
            assert(ext.drop_last() =~= text@.subrange(0, k as int));
            assert(ext.last() == text@[k as int]);
            assert(digit_val(text@[k as int]) == d as int);
            assert(next == digits_value(ext));
            crate::tokenizer::lemma_all_digits_push(text@.subrange(0, k as int), text@[k as int]);
            assert(all_digits(ext)) by {
                assert(ext =~= text@.subrange(0, k as int).push(text@[k as int]));
            }
        }
        if next > 0xFFFF_FFFF {
            proof {
                if valid_number(text@) {
                    lemma_digits_value_prefix(text@, k as int + 1);
                }
            }
            return false;
        }
        acc = next;
        k = k + 1;
    }
    proof {
        assert(text@.subrange(0, n as int) =~= text@);
    }
    true
}

/// Where the statement automaton stands inside a `let` statement.
pub enum ParsePhase {
    TopLevel,
    AfterLet,
    AfterIdent(Token),
    AfterEquals(Token),
    AfterLiteral(Token, Literals),
}

/// Mathematical value of a [`ParsePhase`].
#[verifier::ext_equal]
pub enum PhaseV {
    TopLevel,
    AfterLet,
    AfterIdent(TokenV),
    AfterEquals(TokenV),
    AfterLiteral(TokenV, LiteralsV),
}

impl View for ParsePhase {
    type V = PhaseV;

    open spec fn view(&self) -> PhaseV {
        match self {
            ParsePhase::TopLevel => PhaseV::TopLevel,
            ParsePhase::AfterLet => PhaseV::AfterLet,
            ParsePhase::AfterIdent(t) => PhaseV::AfterIdent(t@),
            ParsePhase::AfterEquals(t) => PhaseV::AfterEquals(t@),
            ParsePhase::AfterLiteral(t, l) => PhaseV::AfterLiteral(t@, l@),
        }
    }
}

/// The whole state of the parsing automaton.
#[verifier::ext_equal]
pub struct PStateV {
    pub table: ScopeTableV,
    pub nodes: Seq<NodeTypeV>,
    pub top_level: Seq<int>,
    pub stmt_stack: Seq<int>,
    pub phase: PhaseV,
}

/// The automaton state at pipeline start: the given table, an empty
/// arena, and no open statement.
pub open spec fn init_state(table: ScopeTableV) -> PStateV {
    PStateV {
        table,
        nodes: Seq::empty(),
        top_level: Seq::empty(),
        stmt_stack: Seq::empty(),
        phase: PhaseV::TopLevel,
    }
}

/// Attaches a fresh node index to the enclosing statement's child list,
/// or to the top-level list when no statement is open.
pub open spec fn attach_index(st: PStateV, idx: int) -> PStateV {
    if st.stmt_stack.len() > 0 {
        let s = st.stmt_stack.last();
        if 0 <= s < st.nodes.len() {
            match st.nodes[s] {
                NodeTypeV::Stmt(cs) => PStateV {
                    nodes: st.nodes.update(
                        s,
                        NodeTypeV::Stmt(CompoundStmtV { children: cs.children.push(idx), ..cs }),
                    ),
                    ..st
                },
                _ => st,
            }
        } else {
            st
        }
    } else {
        PStateV { top_level: st.top_level.push(idx), ..st }
    }
}

/// A block-open token: a fresh statement node joins the arena and the
/// enclosing child list, and a fresh scope opens under the active one.
pub open spec fn step_open(st: PStateV) -> PStateV {
    let idx = st.nodes.len() as int;
    let pushed = PStateV {
        nodes: st.nodes.push(
            NodeTypeV::Stmt(CompoundStmtV { stack_offset: 0, children: Seq::empty() }),
        ),
        ..st
    };
    let attached = attach_index(pushed, idx);
    PStateV {
        table: table_open(attached.table),
        stmt_stack: attached.stmt_stack.push(idx),
        ..attached
    }
}

/// A block-close token: the active scope closes and its statement node
/// leaves the statement stack.
pub open spec fn step_close(st: PStateV) -> Result<PStateV, CompileError> {
    match table_close(st.table, st.table.active) {
        Err(e) => Err(e),
        Ok(t2) => Ok(
            PStateV {
                table: t2,
                stmt_stack: if st.stmt_stack.len() > 0 {
                    st.stmt_stack.drop_last()
                } else {
                    st.stmt_stack
                },
                ..st
            },
        ),
    }
}

/// The statement separator after a matched literal: the identifier is
/// declared in the active scope and the declaration node joins the
/// arena and the enclosing child list.
pub open spec fn step_declare(st: PStateV, site: TokenV, lit: LiteralsV) -> Result<
    PStateV,
    CompileError,
> {
    let name = ident_text(site.kind);
    match table_declare(st.table, name, site, spec_size_of(lit)) {
        Err(e) => Err(e),
        Ok((t2, off)) => {
            let idx = st.nodes.len() as int;
            let node = NodeTypeV::Variable(
                VariableDeclV { stack_offset: off, identifier: name, literal: lit },
            );
            let pushed = PStateV {
                table: t2,
                nodes: st.nodes.push(node),
                phase: PhaseV::TopLevel,
                ..st
            };
            Ok(attach_index(pushed, idx))
        },
    }
}

/// One token of the automaton: scope bookkeeping at the top level,
/// strict expectation order inside a `let` statement.
pub open spec fn step(st: PStateV, t: TokenV) -> Result<PStateV, CompileError> {
    match st.phase {
        PhaseV::TopLevel => match t.kind {
            TokenTypeV::LeftBrace => Ok(step_open(st)),
            TokenTypeV::RightBrace => step_close(st),
            TokenTypeV::KwLet => Ok(PStateV { phase: PhaseV::AfterLet, ..st }),
            _ => Err(CompileError::UnsupportedStatement),
        },
        PhaseV::AfterLet => match t.kind {
            TokenTypeV::Ident(_) => Ok(PStateV { phase: PhaseV::AfterIdent(t), ..st }),
            _ => Err(CompileError::MissingIdentifier),
        },
        PhaseV::AfterIdent(site) => match t.kind {
            TokenTypeV::Equal => Ok(PStateV { phase: PhaseV::AfterEquals(site), ..st }),
            _ => Err(CompileError::MissingEquals),
        },
        PhaseV::AfterEquals(site) => match t.kind {
            TokenTypeV::Number(text) => if valid_number(text) {
                Ok(PStateV { phase: PhaseV::AfterLiteral(site, LiteralsV::Number(text)), ..st })
            } else {
                Err(CompileError::NumericParseFailure)
            },
            TokenTypeV::StrLit(_) => Err(CompileError::UnsupportedLiteralType),
            _ => Err(CompileError::MissingLiteral),
        },
        PhaseV::AfterLiteral(site, lit) => match t.kind {
            TokenTypeV::Comma => step_declare(st, site, lit),
            _ => Err(CompileError::UnterminatedStatement),
        },
    }
}

/// End of input: the active scope must be the global one and no
/// statement may be half matched.
pub open spec fn finish(st: PStateV) -> Result<PStateV, CompileError> {
    match st.phase {
        PhaseV::TopLevel => if 0 <= st.table.active < st.table.scopes.len() && st.table.scopes[
            st.table.active
        ].parent_scope is None {
            Ok(st)
        } else {
            Err(CompileError::UnclosedScope)
        },
        PhaseV::AfterLet => Err(CompileError::MissingIdentifier),
        PhaseV::AfterIdent(_) => Err(CompileError::MissingEquals),
        PhaseV::AfterEquals(_) => Err(CompileError::MissingLiteral),
        PhaseV::AfterLiteral(_, _) => Err(CompileError::UnterminatedStatement),
    }
}

/// The whole automaton run over a token sequence.
pub open spec fn run(toks: Seq<TokenV>, st: PStateV) -> Result<PStateV, CompileError>
    decreases toks.len(),
{
    if toks.len() == 0 {
        finish(st)
    } else {
        match step(st, toks[0]) {
            Ok(st2) => run(toks.drop_first(), st2),
            Err(e) => Err(e),
        }
    }
}

/// The five tokens of one well-formed declaration statement, starting
/// at position `k`.
pub open spec fn is_decl_stmt(toks: Seq<TokenV>, k: int, name: Seq<char>, digits: Seq<char>) -> bool {
    &&& 0 <= k
    &&& k + 5 <= toks.len()
    &&& toks[k].kind is KwLet
    &&& toks[k + 1].kind == TokenTypeV::Ident(name)
    &&& toks[k + 2].kind is Equal
    &&& toks[k + 3].kind == TokenTypeV::Number(digits)
    &&& toks[k + 4].kind is Comma
}

/// Running one well-formed declaration statement from the top level:
/// the identifier is declared, or the run aborts exactly as
/// [`table_declare`] says.
proof fn lemma_stmt_step(toks: Seq<TokenV>, st: PStateV, name: Seq<char>, digits: Seq<char>)
    requires
        is_decl_stmt(toks, 0, name, digits),
        valid_number(digits),
        st.phase is TopLevel,
    ensures
        run(toks, st) == (match step_declare(st, toks[1], LiteralsV::Number(digits)) {
            Ok(st5) => run(toks.skip(5), st5),
            Err(e) => Err(e),
        }),
{
    let st1 = PStateV { phase: PhaseV::AfterLet, ..st };
    let st2 = PStateV { phase: PhaseV::AfterIdent(toks[1]), ..st };
    let st3 = PStateV { phase: PhaseV::AfterEquals(toks[1]), ..st };
    let st4 = PStateV {
        phase: PhaseV::AfterLiteral(toks[1], LiteralsV::Number(digits)),
        ..st
    };
    let d1 = toks.drop_first();
    let d2 = d1.drop_first();
    let d3 = d2.drop_first();
    let d4 = d3.drop_first();
    assert(d1[0] == toks[1] && d2[0] == toks[2] && d3[0] == toks[3] && d4[0] == toks[4]);
    assert(d1.len() == toks.len() - 1 && d4.len() == toks.len() - 4);
    assert(step(st, toks[0]) == Ok::<PStateV, CompileError>(st1));
    assert(run(toks, st) == run(d1, st1));
    assert(step(st1, d1[0]) == Ok::<PStateV, CompileError>(st2));
    assert(run(d1, st1) == run(d2, st2));
    assert(step(st2, d2[0]) == Ok::<PStateV, CompileError>(st3));
    assert(run(d2, st2) == run(d3, st3));
    assert(step(st3, d3[0]) == Ok::<PStateV, CompileError>(st4));
    assert(run(d3, st3) == run(d4, st4));
    assert(step(st4, d4[0]) == step_declare(st4, toks[1], LiteralsV::Number(digits)));
    assert(d4.drop_first() =~= toks.skip(5));
    match step_declare(st4, toks[1], LiteralsV::Number(digits)) {
        Ok(_) => {
            assert(step_declare(st4, toks[1], LiteralsV::Number(digits)) == step_declare(
                st,
                toks[1],
                LiteralsV::Number(digits),
            )) by {
                lemma_step_declare_ignores_phase(st, st4, toks[1], LiteralsV::Number(digits));
            }
        },
        Err(_) => {
            lemma_step_declare_ignores_phase(st, st4, toks[1], LiteralsV::Number(digits));
        },
    }
}

/// Declaring at the statement separator reads everything of the state
/// but the phase, which it overwrites.
proof fn lemma_step_declare_ignores_phase(a: PStateV, b: PStateV, site: TokenV, lit: LiteralsV)
    requires
        b == (PStateV { phase: b.phase, ..a }),
    ensures
        step_declare(a, site, lit) == step_declare(b, site, lit),
{
    let name = ident_text(site.kind);
    match table_declare(a.table, name, site, spec_size_of(lit)) {
        Err(_) => {},
        Ok((t2, off)) => {
            let idx = a.nodes.len() as int;
            let node = NodeTypeV::Variable(
                VariableDeclV { stack_offset: off, identifier: name, literal: lit },
            );
            let pa = PStateV { table: t2, nodes: a.nodes.push(node), phase: PhaseV::TopLevel, ..a };
            let pb = PStateV { table: t2, nodes: b.nodes.push(node), phase: PhaseV::TopLevel, ..b };
            assert(pa == pb);
        },
    }
}

/// Whether `toks` is exactly the flat sequence of the well-formed
/// declaration statements named by `decls` (name and digit text each).
pub open spec fn flat_decl_seq(toks: Seq<TokenV>, decls: Seq<(Seq<char>, Seq<char>)>) -> bool {
    &&& toks.len() == 5 * decls.len()
    &&& forall|j: int|
        0 <= j < decls.len() ==> is_decl_stmt(toks, 5 * j, (#[trigger] decls[j]).0, decls[j].1)
}

/// Whether the declared names are pairwise distinct.
pub open spec fn distinct_names(decls: Seq<(Seq<char>, Seq<char>)>) -> bool {
    forall|i: int, j: int|
        0 <= i < j < decls.len() ==> (#[trigger] decls[i]).0 != (#[trigger] decls[j]).0
}

/// Whether every declared number fits the target representation.
pub open spec fn valid_numbers(decls: Seq<(Seq<char>, Seq<char>)>) -> bool {
    forall|j: int| 0 <= j < decls.len() ==> valid_number((#[trigger] decls[j]).1)
}

/// The declaration nodes such a sequence yields: one per statement,
/// offsets starting at `base` and advancing by one number width each.
pub open spec fn decl_nodes(decls: Seq<(Seq<char>, Seq<char>)>, base: int) -> Seq<NodeTypeV> {
    Seq::new(
        decls.len(),
        |j: int|
            NodeTypeV::Variable(
                VariableDeclV {
                    stack_offset: base + 16 * j,
                    identifier: decls[j].0,
                    literal: LiteralsV::Number(decls[j].1),
                },
            ),
    )
}

/// The automaton state a flat declaration sequence settles, from `st`.
pub open spec fn flat_result(
    st: PStateV,
    toks: Seq<TokenV>,
    decls: Seq<(Seq<char>, Seq<char>)>,
) -> PStateV {
    let a = st.table.active;
    let sc = st.table.scopes[a];
    PStateV {
        table: ScopeTableV {
            scopes: st.table.scopes.update(
                a,
                CodeScopeV {
                    stack_pointer: sc.stack_pointer + 16 * decls.len(),
                    symbols: sc.symbols + Seq::new(
                        decls.len(),
                        |j: int| (decls[j].0, toks[5 * j + 1]),
                    ),
                    ..sc
                },
            ),
            ..st.table
        },
        nodes: st.nodes + decl_nodes(decls, sc.stack_pointer),
        top_level: st.top_level + Seq::new(decls.len(), |j: int| st.nodes.len() + j),
        stmt_stack: st.stmt_stack,
        phase: PhaseV::TopLevel,
    }
}

proof fn lemma_flat_decls_run(toks: Seq<TokenV>, decls: Seq<(Seq<char>, Seq<char>)>, st: PStateV)
    requires
        flat_decl_seq(toks, decls),
        distinct_names(decls),
        valid_numbers(decls),
        st.phase is TopLevel,
        st.stmt_stack.len() == 0,
        0 <= st.table.active < st.table.scopes.len(),
        st.table.scopes[st.table.active].parent_scope is None,
        forall|j: int|
            0 <= j < decls.len() ==> !scope_contains(
                st.table.scopes[st.table.active],
                (#[trigger] decls[j]).0,
            ),
        st.table.scopes[st.table.active].stack_pointer + 16 * decls.len() <= u16::MAX,
    ensures
        run(toks, st) == Ok::<PStateV, CompileError>(flat_result(st, toks, decls)),
    decreases decls.len(),
{
    let a = st.table.active;
    let sc = st.table.scopes[a];
    if decls.len() == 0 {
        assert(toks.len() == 0);
        assert(run(toks, st) == finish(st));
        let stf = flat_result(st, toks, decls);
        assert(stf.table.scopes[a].symbols =~= sc.symbols);
        assert(stf.table.scopes[a] =~~= sc);
        assert(stf.table.scopes =~~= st.table.scopes);
        assert(stf.nodes =~= st.nodes);
        assert(stf.top_level =~= st.top_level);
        assert(stf =~~= st);
    } else {
        let name0 = decls[0].0;
        let digits0 = decls[0].1;
        assert(is_decl_stmt(toks, 0, name0, digits0));
        lemma_stmt_step(toks, st, name0, digits0);
        assert(!scope_contains(sc, name0));
        assert(sc.stack_pointer + 16 <= u16::MAX);
        let site0 = toks[1];
        assert(ident_text(site0.kind) == name0);
        let sc1 = CodeScopeV {
            stack_pointer: sc.stack_pointer + 16,
            symbols: sc.symbols.push((name0, site0)),
            ..sc
        };
        let t2 = ScopeTableV { scopes: st.table.scopes.update(a, sc1), ..st.table };
        assert(table_declare(st.table, name0, site0, 16) == Ok::<(ScopeTableV, int), CompileError>(
            (t2, sc.stack_pointer),
        ));
        let node0 = NodeTypeV::Variable(
            VariableDeclV {
                stack_offset: sc.stack_pointer,
                identifier: name0,
                literal: LiteralsV::Number(digits0),
            },
        );
        let st5 = PStateV {
            table: t2,
            nodes: st.nodes.push(node0),
            top_level: st.top_level.push(st.nodes.len() as int),
            stmt_stack: st.stmt_stack,
            phase: PhaseV::TopLevel,
        };
        assert(step_declare(st, site0, LiteralsV::Number(digits0)) == Ok::<
            PStateV,
            CompileError,
        >(st5));
        assert(run(toks, st) == run(toks.skip(5), st5));
        let toks5 = toks.skip(5);
        let decls5 = decls.drop_first();
        assert forall|j: int| 0 <= j < decls5.len() implies is_decl_stmt(
            toks5,
            5 * j,
            (#[trigger] decls5[j]).0,
            decls5[j].1,
        ) by {
            assert(decls5[j] == decls[j + 1]);
            assert(is_decl_stmt(toks, 5 * (j + 1), decls[j + 1].0, decls[j + 1].1));
            assert(toks5[5 * j] == toks[5 * (j + 1)]);
            assert(toks5[5 * j + 1] == toks[5 * (j + 1) + 1]);
            assert(toks5[5 * j + 2] == toks[5 * (j + 1) + 2]);
            assert(toks5[5 * j + 3] == toks[5 * (j + 1) + 3]);
            assert(toks5[5 * j + 4] == toks[5 * (j + 1) + 4]);
        }
        assert(toks5.len() == 5 * decls5.len());
        assert forall|i: int, j: int| 0 <= i < j < decls5.len() implies (#[trigger] decls5[i]).0
            != (#[trigger] decls5[j]).0 by {
            assert(decls5[i] == decls[i + 1] && decls5[j] == decls[j + 1]);
        }
        assert forall|j: int| 0 <= j < decls5.len() implies valid_number(
            (#[trigger] decls5[j]).1,
        ) by {
            assert(decls5[j] == decls[j + 1]);
        }
        assert forall|j: int| 0 <= j < decls5.len() implies !scope_contains(
            st5.table.scopes[st5.table.active],
            (#[trigger] decls5[j]).0,
        ) by {
            assert(decls5[j] == decls[j + 1]);
            let namej = decls[j + 1].0;
            assert(namej != name0);
            assert(!scope_contains(sc, namej));
            assert(st5.table.scopes[st5.table.active] == sc1);
            assert forall|k: int| 0 <= k < sc1.symbols.len() implies (#[trigger] sc1.symbols[k]).0
                != namej by {
                if k < sc.symbols.len() {
                    assert(sc1.symbols[k] == sc.symbols[k]);
                    assert(sc.symbols[k].0 != namej);
                } else {
                    assert(sc1.symbols[k] == (name0, site0));
                }
            }
        }
        lemma_flat_decls_run(toks5, decls5, st5);
        let stf5 = flat_result(st5, toks5, decls5);
        let stf = flat_result(st, toks, decls);
        assert(stf5.table.scopes =~~= stf.table.scopes) by {
            let scf5 = stf5.table.scopes[a];
            let scf = stf.table.scopes[a];
            assert(scf5.stack_pointer == sc.stack_pointer + 16 * decls.len());
            assert(scf5.symbols =~~= scf.symbols) by {
                assert forall|k: int| 0 <= k < scf.symbols.len() implies scf5.symbols[k]
                    == scf.symbols[k] by {
                    if k < sc.symbols.len() {
                    } else {
                        let j = k - sc.symbols.len();
                        if j == 0 {
                            assert(scf5.symbols[k] == sc1.symbols[k]);
                        } else {
                            assert(scf5.symbols[k] == (decls5[j - 1].0, toks5[5 * (j - 1) + 1]));
                            assert(decls5[j - 1] == decls[j]);
                            assert(toks5[5 * (j - 1) + 1] == toks[5 * j + 1]);
                        }
                    }
                }
            }
        }
        assert(stf5.nodes =~~= stf.nodes) by {
            assert forall|k: int| 0 <= k < stf.nodes.len() implies stf5.nodes[k]
                == stf.nodes[k] by {
                if k >= st.nodes.len() {
                    let j = k - st.nodes.len();
                    if j == 0 {
                        assert(stf5.nodes[k] == node0);
                        assert(stf.nodes[k] == decl_nodes(decls, sc.stack_pointer)[0]);
                    } else {
                        assert(stf5.nodes[k] == decl_nodes(decls5, sc1.stack_pointer)[j - 1]);
                        assert(stf.nodes[k] == decl_nodes(decls, sc.stack_pointer)[j]);
                        assert(decls5[j - 1] == decls[j]);
                    }
                }
            }
        }
        assert(stf5.top_level =~= stf.top_level) by {
            assert forall|k: int| 0 <= k < stf.top_level.len() implies stf5.top_level[k]
                == stf.top_level[k] by {
                if k >= st.top_level.len() {
                    let j = k - st.top_level.len();
                    if j == 0 {
                    } else {
                        assert(stf5.top_level[k] == st5.nodes.len() + (j - 1));
                        assert(stf.top_level[k] == st.nodes.len() + j);
                    }
                }
            }
        }
        assert(stf5 =~~= stf);
    }
}

/// For a flat sequence of well-formed `let` statements with distinct
/// names and representable numbers, the parse succeeds and yields
/// exactly one declaration node per statement, attached at the top
/// level in order; the offsets within the one scope are strictly
/// increasing and each equals the sum of the layout sizes of all prior
/// declarations in that scope.
pub proof fn lemma_decl_sequence_offsets(toks: Seq<TokenV>, decls: Seq<(Seq<char>, Seq<char>)>)
    requires
        flat_decl_seq(toks, decls),
        distinct_names(decls),
        valid_numbers(decls),
        16 * decls.len() <= u16::MAX,
    ensures
        ({
            let outcome = run(
                toks,
                init_state(ScopeTableV { scopes: seq![global_scope_v()], active: 0 }),
            );
            &&& outcome is Ok
            &&& outcome->Ok_0.nodes.len() == decls.len()
            &&& forall|j: int|
                0 <= j < decls.len() ==> outcome->Ok_0.nodes[j] == NodeTypeV::Variable(
                    VariableDeclV {
                        stack_offset: 16 * j,
                        identifier: (#[trigger] decls[j]).0,
                        literal: LiteralsV::Number(decls[j].1),
                    },
                )
            &&& forall|i: int, j: int|
                0 <= i < j < decls.len()
                    ==> (#[trigger] outcome->Ok_0.nodes[i])->Variable_0.stack_offset < (
                #[trigger] outcome->Ok_0.nodes[j])->Variable_0.stack_offset
            &&& outcome->Ok_0.top_level == Seq::new(decls.len(), |j: int| j)
        }),
{
    let st = init_state(ScopeTableV { scopes: seq![global_scope_v()], active: 0 });
    assert forall|j: int| 0 <= j < decls.len() implies !scope_contains(
        st.table.scopes[st.table.active],
        (#[trigger] decls[j]).0,
    ) by {
        assert(st.table.scopes[0].symbols.len() == 0);
    }
    lemma_flat_decls_run(toks, decls, st);
    let stf = flat_result(st, toks, decls);
    assert(stf.nodes =~= decl_nodes(decls, 0));
    assert(stf.top_level =~= Seq::new(decls.len(), |j: int| j));
}

/// Declaring the same identifier twice in one scope, without an
/// intervening scope close, fails with `DuplicateSymbol`.
pub proof fn lemma_duplicate_symbol_rejected(
    toks: Seq<TokenV>,
    name: Seq<char>,
    d1: Seq<char>,
    d2: Seq<char>,
)
    requires
        toks.len() == 10,
        is_decl_stmt(toks, 0, name, d1),
        is_decl_stmt(toks, 5, name, d2),
        valid_number(d1),
        valid_number(d2),
    ensures
        run(toks, init_state(ScopeTableV { scopes: seq![global_scope_v()], active: 0 }))
            == Err::<PStateV, CompileError>(CompileError::DuplicateSymbol),
{
    let st = init_state(ScopeTableV { scopes: seq![global_scope_v()], active: 0 });
    let sc = st.table.scopes[0];
    lemma_stmt_step(toks, st, name, d1);
    assert(sc.symbols.len() == 0);
    assert(!scope_contains(sc, name));
    let site0 = toks[1];
    assert(ident_text(site0.kind) == name);
    let sc1 = CodeScopeV { stack_pointer: 16, symbols: sc.symbols.push((name, site0)), ..sc };
    let t2 = ScopeTableV { scopes: st.table.scopes.update(0, sc1), ..st.table };
    assert(table_declare(st.table, name, site0, 16) == Ok::<(ScopeTableV, int), CompileError>(
        (t2, 0),
    ));
    let node0 = NodeTypeV::Variable(
        VariableDeclV { stack_offset: 0, identifier: name, literal: LiteralsV::Number(d1) },
    );
    let st5 = PStateV {
        table: t2,
        nodes: st.nodes.push(node0),
        top_level: st.top_level.push(0),
        stmt_stack: st.stmt_stack,
        phase: PhaseV::TopLevel,
    };
    assert(step_declare(st, site0, LiteralsV::Number(d1)) == Ok::<PStateV, CompileError>(st5));
    assert(run(toks, st) == run(toks.skip(5), st5));
    let toks5 = toks.skip(5);
    assert(is_decl_stmt(toks5, 0, name, d2)) by {
        assert(toks5[0] == toks[5]);
        assert(toks5[1] == toks[6]);
        assert(toks5[2] == toks[7]);
        assert(toks5[3] == toks[8]);
        assert(toks5[4] == toks[9]);
    }
    lemma_stmt_step(toks5, st5, name, d2);
    assert(st5.table.scopes[st5.table.active] == sc1);
    assert(scope_contains(sc1, name)) by {
        assert(sc1.symbols[0].0 == name);
    }
    assert(table_declare(st5.table, name, toks5[1], 16) == Err::<
        (ScopeTableV, int),
        CompileError,
    >(CompileError::DuplicateSymbol));
    assert(ident_text(toks5[1].kind) == name);
    assert(step_declare(st5, toks5[1], LiteralsV::Number(d2)) == Err::<PStateV, CompileError>(
        CompileError::DuplicateSymbol,
    ));
}

/// Declaring the same identifier in a scope and again in a nested
/// scope succeeds for both: shadowing across scopes is permitted, and
/// the inner declaration gets offset zero within its own frame,
/// independent of the outer one.
pub proof fn lemma_shadowing_across_scopes(
    toks: Seq<TokenV>,
    name: Seq<char>,
    d1: Seq<char>,
    d2: Seq<char>,
)
    requires
        toks.len() == 12,
        is_decl_stmt(toks, 0, name, d1),
        toks[5].kind is LeftBrace,
        is_decl_stmt(toks, 6, name, d2),
        toks[11].kind is RightBrace,
        valid_number(d1),
        valid_number(d2),
    ensures
        ({
            let outcome = run(
                toks,
                init_state(ScopeTableV { scopes: seq![global_scope_v()], active: 0 }),
            );
            &&& outcome is Ok
            &&& outcome->Ok_0.nodes.len() == 3
            &&& outcome->Ok_0.nodes[0] == NodeTypeV::Variable(
                VariableDeclV { stack_offset: 0, identifier: name, literal: LiteralsV::Number(d1) },
            )
            &&& outcome->Ok_0.nodes[1] == NodeTypeV::Stmt(
                CompoundStmtV { stack_offset: 0, children: seq![2int] },
            )
            &&& outcome->Ok_0.nodes[2] == NodeTypeV::Variable(
                VariableDeclV { stack_offset: 0, identifier: name, literal: LiteralsV::Number(d2) },
            )
            &&& outcome->Ok_0.top_level == seq![0int, 1int]
        }),
{
    let st = init_state(ScopeTableV { scopes: seq![global_scope_v()], active: 0 });
    let sc = st.table.scopes[0];
    lemma_stmt_step(toks, st, name, d1);
    assert(!scope_contains(sc, name));
    let site0 = toks[1];
    assert(ident_text(site0.kind) == name);
    let sc1 = CodeScopeV { stack_pointer: 16, symbols: sc.symbols.push((name, site0)), ..sc };
    let t2 = ScopeTableV { scopes: st.table.scopes.update(0, sc1), ..st.table };
    assert(table_declare(st.table, name, site0, 16) == Ok::<(ScopeTableV, int), CompileError>(
        (t2, 0),
    ));
    let node0 = NodeTypeV::Variable(
        VariableDeclV { stack_offset: 0, identifier: name, literal: LiteralsV::Number(d1) },
    );
    let st5 = PStateV {
        table: t2,
        nodes: st.nodes.push(node0),
        top_level: st.top_level.push(0),
        stmt_stack: st.stmt_stack,
        phase: PhaseV::TopLevel,
    };
    assert(step_declare(st, site0, LiteralsV::Number(d1)) == Ok::<PStateV, CompileError>(st5));
    assert(run(toks, st) == run(toks.skip(5), st5));

    // The block-open token: a statement node and a nested scope.
    let toks5 = toks.skip(5);
    assert(toks5[0] == toks[5]);
    let stmt_node = NodeTypeV::Stmt(CompoundStmtV { stack_offset: 0, children: Seq::empty() });
    let sc1n = CodeScopeV { nested_scopes: sc1.nested_scopes.push(1), ..sc1 };
    let fresh = crate::symbols::fresh_scope(0);
    let t_open = ScopeTableV { scopes: seq![sc1n, fresh], active: 1 };
    let st_b = PStateV {
        table: t_open,
        nodes: seq![node0, stmt_node],
        top_level: seq![0int, 1int],
        stmt_stack: seq![1int],
        phase: PhaseV::TopLevel,
    };
    assert(step(st5, toks5[0]) == Ok::<PStateV, CompileError>(step_open(st5)));
    assert(step_open(st5) =~~= st_b) by {
        assert(table_open(st5.table).scopes =~~= t_open.scopes);
        assert(st5.nodes.push(stmt_node) =~= seq![node0, stmt_node]);
        assert(st5.top_level.push(1) =~= seq![0int, 1int]);
        assert(st5.stmt_stack.push(1) =~= seq![1int]);
    }
    assert(run(toks5, st5) == run(toks5.drop_first(), step_open(st5)));
    assert(toks5.drop_first() =~= toks.skip(6));
    assert(run(toks5, st5) == run(toks.skip(6), st_b));

    // The inner declaration, in the fresh scope.
    let toks6 = toks.skip(6);
    assert(is_decl_stmt(toks6, 0, name, d2)) by {
        assert(toks6[0] == toks[6]);
        assert(toks6[1] == toks[7]);
        assert(toks6[2] == toks[8]);
        assert(toks6[3] == toks[9]);
        assert(toks6[4] == toks[10]);
    }
    lemma_stmt_step(toks6, st_b, name, d2);
    let site2 = toks6[1];
    assert(ident_text(site2.kind) == name);
    assert(st_b.table.scopes[1] == fresh);
    assert(!scope_contains(fresh, name));
    let fresh1 = CodeScopeV {
        stack_pointer: 16,
        symbols: fresh.symbols.push((name, site2)),
        ..fresh
    };
    let t_in = ScopeTableV { scopes: t_open.scopes.update(1, fresh1), ..t_open };
    assert(table_declare(st_b.table, name, site2, 16) == Ok::<(ScopeTableV, int), CompileError>(
        (t_in, 0),
    ));
    let node2 = NodeTypeV::Variable(
        VariableDeclV { stack_offset: 0, identifier: name, literal: LiteralsV::Number(d2) },
    );
    let stmt_node1 = NodeTypeV::Stmt(CompoundStmtV { stack_offset: 0, children: seq![2int] });
    let st_c = PStateV {
        table: t_in,
        nodes: seq![node0, stmt_node1, node2],
        top_level: seq![0int, 1int],
        stmt_stack: seq![1int],
        phase: PhaseV::TopLevel,
    };
    assert(step_declare(st_b, site2, LiteralsV::Number(d2)) == Ok::<PStateV, CompileError>(st_c))
        by {
        let pushed = PStateV {
            table: t_in,
            nodes: st_b.nodes.push(node2),
            phase: PhaseV::TopLevel,
            ..st_b
        };
        assert(pushed.stmt_stack.last() == 1);
        assert(pushed.nodes[1] == stmt_node);
        assert(attach_index(pushed, 2) =~~= st_c) by {
            assert(pushed.nodes.update(1, stmt_node1) =~~= st_c.nodes);
        }
    }
    assert(run(toks6, st_b) == run(toks6.skip(5), st_c));
    assert(toks6.skip(5) =~= toks.skip(11));

    // The block-close token: back to the global scope.
    let toks11 = toks.skip(11);
    assert(toks11[0] == toks[11]);
    assert(toks11.len() == 1);
    let fresh2 = CodeScopeV { was_closed: true, ..fresh1 };
    let t_done = ScopeTableV { scopes: t_in.scopes.update(1, fresh2), active: 0 };
    let st_d = PStateV {
        table: t_done,
        nodes: st_c.nodes,
        top_level: st_c.top_level,
        stmt_stack: Seq::empty(),
        phase: PhaseV::TopLevel,
    };
    assert(table_close(st_c.table, 1) == Ok::<ScopeTableV, CompileError>(t_done));
    assert(step_close(st_c) == Ok::<PStateV, CompileError>(st_d)) by {
        assert(st_c.stmt_stack.drop_last() =~= Seq::<int>::empty());
        assert(step_close(st_c)->Ok_0 =~~= st_d);
    }
    assert(run(toks11, st_c) == run(toks11.drop_first(), st_d));
    assert(toks11.drop_first().len() == 0);
    assert(run(toks11.drop_first(), st_d) == finish(st_d));
    assert(t_done.scopes[0] == sc1n);
    assert(finish(st_d) == Ok::<PStateV, CompileError>(st_d));
}

/// A block-close token with no preceding open block fails with
/// `UnmatchedClose`.
pub proof fn lemma_unmatched_close(toks: Seq<TokenV>)
    requires
        toks.len() >= 1,
        toks[0].kind is RightBrace,
    ensures
        run(toks, init_state(ScopeTableV { scopes: seq![global_scope_v()], active: 0 }))
            == Err::<PStateV, CompileError>(CompileError::UnmatchedClose),
{
    let st = init_state(ScopeTableV { scopes: seq![global_scope_v()], active: 0 });
    assert(st.table.scopes[0].parent_scope is None);
    assert(table_close(st.table, 0) == Err::<ScopeTableV, CompileError>(
        CompileError::UnmatchedClose,
    ));
}

/// Closing a scope that is already closed fails with `DoubleClose`,
/// whatever else the table holds.
pub proof fn lemma_double_close(t: ScopeTableV, id: int)
    requires
        0 <= id < t.scopes.len(),
        t.scopes[id].was_closed,
    ensures
        table_close(t, id) == Err::<ScopeTableV, CompileError>(CompileError::DoubleClose),
{
}

/// The finished syntax tree: the node arena and the indices of the
/// top-level statements, in source order.
pub struct AST {
    pub nodes: Vec<NodeType>,
    pub top_level: Vec<usize>,
}

/// Mathematical value of an [`AST`].
#[verifier::ext_equal]
pub struct ASTV {
    pub nodes: Seq<NodeTypeV>,
    pub top_level: Seq<int>,
}

impl View for AST {
    type V = ASTV;

    open spec fn view(&self) -> ASTV {
        ASTV { nodes: nodes_view(self.nodes@), top_level: indices_view(self.top_level@) }
    }
}

/// The stored identifier tokens of a half-matched statement really are
/// identifier tokens.
spec fn phase_inv(p: ParsePhase) -> bool {
    match p {
        ParsePhase::AfterIdent(t) => t.token_type is IDENT,
        ParsePhase::AfterEquals(t) => t.token_type is IDENT,
        ParsePhase::AfterLiteral(t, _) => t.token_type is IDENT,
        _ => true,
    }
}

/// The parser: it owns the scope table for the duration of one
/// compilation.
pub struct Parser {
    pub scopes: ScopeTable,
}

impl Parser {
    /// A parser whose table holds the given root scope.
    pub fn new(scope: CodeScope) -> (r: Self)
        requires
            scope.parent_scope is None,
        ensures
            r.scopes@ == (ScopeTableV { scopes: seq![scope@], active: 0 }),
            table_wf(r.scopes@),
    {
        Self { scopes: ScopeTable::new(scope) }
    }

    /// Whether the token is an identifier; if so, its name.
    pub fn match_ident(&self, current_token: &Token) -> (r: Option<String>)
        ensures
            match r {
                Some(s) => current_token@.kind matches TokenTypeV::Ident(n) && s@ == n,
                None => !(current_token@.kind is Ident),
            },
    {
        match &current_token.token_type {
            TokenType::IDENT(value) => Some(value.clone()),
            _ => None,
        }
    }

    /// Whether the token is a number literal.
    pub fn match_digit(&self, current_token: &Token) -> (r: bool)
        ensures
            r == (current_token@.kind is Number),
    {
        match &current_token.token_type {
            TokenType::NUMBER(_) => true,
            _ => false,
        }
    }

    /// The literal a token can declare a variable from: presently a
    /// number literal only, kept as its raw digit text.
    pub fn match_literal(&self, current_token: &Token) -> (r: Option<Literals>)
        ensures
            match r {
                Some(l) => current_token@.kind matches TokenTypeV::Number(text) && l@
                    == LiteralsV::Number(text),
                None => !(current_token@.kind is Number),
            },
    {
        if self.match_digit(current_token) {
            match &current_token.token_type {
                TokenType::NUMBER(text) => Some(Literals::NUMBER(text.clone())),
                _ => {
                    proof {
                        assert(false);
                    }
                    None
                },
            }
        } else {
            None
        }
    }

    /// Parses the token sequence of `tokenizer` into a syntax tree,
    /// driving the scope table along; equal to [`run`] from the initial
    /// automaton state. Fail-fast: the first malformed construct aborts
    /// the run with its named condition, and the table then keeps
    /// whatever scopes were built before the abort.
    #[verifier::loop_isolation(false)]
    pub fn parse(&mut self, tokenizer: Tokenizer) -> (r: Result<AST, CompileError>)
        requires
            table_wf(old(self).scopes@),
        ensures
            table_wf(final(self).scopes@),
            ({
                let outcome = run(
                    tokens_from(tokenizer@.chars, tokenizer@.index),
                    init_state(old(self).scopes@),
                );
                match r {
                    Ok(ast) => {
                        &&& outcome is Ok
                        &&& outcome->Ok_0.table == final(self).scopes@
                        &&& outcome->Ok_0.nodes == ast@.nodes
                        &&& outcome->Ok_0.top_level == ast@.top_level
                    },
                    Err(e) => outcome == Err::<PStateV, CompileError>(e),
                }
            }),
    {
        let mut tk = tokenizer;
        let ghost chars0 = tk@.chars;
        let ghost toks0 = tokens_from(chars0, tk@.index);
        let ghost st0 = init_state(old(self).scopes@);
        let mut ast = AST { nodes: Vec::new(), top_level: Vec::new() };
        let mut stack: Vec<usize> = Vec::new();
        let mut phase = ParsePhase::TopLevel;
        proof {
            tk.lemma_index_nonneg();
            let cur = PStateV {
                table: self.scopes@,
                nodes: nodes_view(ast.nodes@),
                top_level: indices_view(ast.top_level@),
                stmt_stack: indices_view(stack@),
                phase: phase@,
            };
            assert(cur.nodes =~= st0.nodes);
            assert(cur.top_level =~= st0.top_level);
            assert(cur.stmt_stack =~= st0.stmt_stack);
            assert(cur == st0);
        }
        loop
            invariant
                chars0 == tk@.chars,
                tk@.index >= 0,
                table_wf(self.scopes@),
                phase_inv(phase),
                run(toks0, st0) == run(
                    tokens_from(chars0, tk@.index),
                    PStateV {
                        table: self.scopes@,
                        nodes: nodes_view(ast.nodes@),
                        top_level: indices_view(ast.top_level@),
                        stmt_stack: indices_view(stack@),
                        phase: phase@,
                    },
                ),
            decreases chars0.len() - tk@.index,
        {
            let ghost pre_idx = tk@.index;
            let ghost cur = PStateV {
                table: self.scopes@,
                nodes: nodes_view(ast.nodes@),
                top_level: indices_view(ast.top_level@),
                stmt_stack: indices_view(stack@),
                phase: phase@,
            };
            let r = tk.next_token();
            proof {
                let st = scan(chars0, pre_idx, None, false);
                if st.token is Some {
                    assert(pre_idx < chars0.len());
                    lemma_scan_progress(chars0, pre_idx, false);
                    lemma_scan_next_bounds(chars0, pre_idx, None, false);
                    let tv = st.token->0;
                    assert(tokens_from(chars0, pre_idx) == seq![tv] + tokens_from(chars0, st.next));
                    assert((seq![tv] + tokens_from(chars0, st.next))[0] == tv);
                    assert((seq![tv] + tokens_from(chars0, st.next)).drop_first() =~= tokens_from(
                        chars0,
                        st.next,
                    ));
                } else {
                    assert(tokens_from(chars0, pre_idx) =~= Seq::<TokenV>::empty());
                }
            }
            match r {
                None => {
                    match phase {
                        ParsePhase::TopLevel => {
                            let a = self.scopes.active;
                            proof {
                                assert(self.scopes@.scopes[a as int] == self.scopes.scopes@[
                                    a as int
                                ]@);
                            }
                            if self.scopes.scopes[a].parent_scope.is_none() {
                                return Ok(ast);
                            } else {
                                return Err(CompileError::UnclosedScope);
                            }
                        },
                        ParsePhase::AfterLet => {
                            return Err(CompileError::MissingIdentifier);
                        },
                        ParsePhase::AfterIdent(_) => {
                            return Err(CompileError::MissingEquals);
                        },
                        ParsePhase::AfterEquals(_) => {
                            return Err(CompileError::MissingLiteral);
                        },
                        ParsePhase::AfterLiteral(_, _) => {
                            return Err(CompileError::UnterminatedStatement);
                        },
                    }
                },
                Some(t) => {
                    let ghost tv = t@;
                    phase = match phase {
                        ParsePhase::TopLevel => {
                            match &t.token_type {
                                TokenType::LeftBrace => {
                                    let node_idx = ast.nodes.len();
                                    ast.nodes.push(NodeType::Stmt(CompoundStmt::new(0)));
                                    if stack.len() > 0 {
                                        let s = stack[stack.len() - 1];
                                        if s < ast.nodes.len() {
                                            let slot = &mut ast.nodes[s];
                                            match slot {
                                                NodeType::Stmt(cs) => {
                                                    cs.children.push(node_idx);
                                                },
                                                _ => {},
                                            }
                                        }
                                    } else {
                                        ast.top_level.push(node_idx);
                                    }
                                    stack.push(node_idx);
                                    let _ = self.scopes.open_scope();
                                    proof {
                                        let expect = step_open(cur);
                                        let now = PStateV {
                                            table: self.scopes@,
                                            nodes: nodes_view(ast.nodes@),
                                            top_level: indices_view(ast.top_level@),
                                            stmt_stack: indices_view(stack@),
                                            phase: PhaseV::TopLevel,
                                        };
                                        assert(now =~~= expect);
                                    }
                                    ParsePhase::TopLevel
                                },
                                TokenType::RightBrace => {
                                    let a = self.scopes.active;
                                    match self.scopes.close_scope(a) {
                                        Ok(()) => {
                                            if stack.len() > 0 {
                                                let _ = stack.pop();
                                            }
                                            proof {
                                                let expect = step_close(cur)->Ok_0;
                                                let now = PStateV {
                                                    table: self.scopes@,
                                                    nodes: nodes_view(ast.nodes@),
                                                    top_level: indices_view(ast.top_level@),
                                                    stmt_stack: indices_view(stack@),
                                                    phase: PhaseV::TopLevel,
                                                };
                                                assert(now.stmt_stack =~~= expect.stmt_stack);
                                                assert(now =~~= expect);
                                            }
                                            ParsePhase::TopLevel
                                        },
                                        Err(e) => {
                                            return Err(e);
                                        },
                                    }
                                },
                                TokenType::LET => ParsePhase::AfterLet,
                                _ => {
                                    return Err(CompileError::UnsupportedStatement);
                                },
                            }
                        },
                        ParsePhase::AfterLet => {
                            if self.match_ident(&t).is_some() {
                                ParsePhase::AfterIdent(t)
                            } else {
                                return Err(CompileError::MissingIdentifier);
                            }
                        },
                        ParsePhase::AfterIdent(site) => {
                            match &t.token_type {
                                TokenType::EQUAL => ParsePhase::AfterEquals(site),
                                _ => {
                                    return Err(CompileError::MissingEquals);
                                },
                            }
                        },
                        ParsePhase::AfterEquals(site) => {
                            match self.match_literal(&t) {
                                Some(lit) => {
                                    let fits = match &lit {
                                        Literals::NUMBER(text) => number_fits(text),
                                        Literals::STR(_) => false,
                                    };
                                    if fits {
                                        ParsePhase::AfterLiteral(site, lit)
                                    } else {
                                        return Err(CompileError::NumericParseFailure);
                                    }
                                },
                                None => {
                                    match &t.token_type {
                                        TokenType::STRING(_) => {
                                            return Err(CompileError::UnsupportedLiteralType);
                                        },
                                        _ => {
                                            return Err(CompileError::MissingLiteral);
                                        },
                                    }
                                },
                            }
                        },
                        ParsePhase::AfterLiteral(site, lit) => {
                            match &t.token_type {
                                TokenType::COMMA => {
                                    let ghost site_v = site@;
                                    let ghost lit_v = lit@;
                                    let name = match &site.token_type {
                                        TokenType::IDENT(s) => s.clone(),
                                        _ => {
                                            proof {
                                                assert(false);
                                            }
                                            String::new()
                                        },
                                    };
                                    let size = size_of_literal(&lit);
                                    match self.scopes.declare(site, size) {
                                        Ok(off) => {
                                            let node_idx = ast.nodes.len();
                                            ast.nodes.push(
                                                NodeType::Variable(
                                                    VariableDecl {
                                                        stack_offset: off,
                                                        identifier: name,
                                                        literal: LiteralDecl { value: lit },
                                                    },
                                                ),
                                            );
                                            if stack.len() > 0 {
                                                let s = stack[stack.len() - 1];
                                                if s < ast.nodes.len() {
                                                    let slot = &mut ast.nodes[s];
                                                    match slot {
                                                        NodeType::Stmt(cs) => {
                                                            cs.children.push(node_idx);
                                                        },
                                                        _ => {},
                                                    }
                                                }
                                            } else {
                                                ast.top_level.push(node_idx);
                                            }
                                            proof {
                                                let expect = step_declare(cur, site_v, lit_v)->Ok_0;
                                                let now = PStateV {
                                                    table: self.scopes@,
                                                    nodes: nodes_view(ast.nodes@),
                                                    top_level: indices_view(ast.top_level@),
                                                    stmt_stack: indices_view(stack@),
                                                    phase: PhaseV::TopLevel,
                                                };
                                                assert(now =~~= expect);
                                            }
                                            ParsePhase::TopLevel
                                        },
                                        Err(e) => {
                                            return Err(e);
                                        },
                                    }
                                },
                                _ => {
                                    return Err(CompileError::UnterminatedStatement);
                                },
                            }
                        },
                    };
                },
            }
        }
    }
}

} // verus!
