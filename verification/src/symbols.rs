//! Lexical scopes: per-scope symbol tables and stack-offset cursors.
//!
//! Scopes form a tree. A scope is opened when a block begins, closed
//! exactly once when the block ends, and stays addressable afterwards.
//! A symbol name is unique within one scope; shadowing across nested
//! scopes is allowed.

use vstd::prelude::*;

verus! {

use crate::errors::CompileError;
use crate::tokenizer::Token;
use crate::tokenizer::TokenType;
use crate::tokenizer::TokenTypeV;
use crate::tokenizer::TokenV;

/// One lexical scope: its symbols, its stack cursor, whether it was
/// closed, its parent, and its children.
#[derive(Debug)]
pub struct CodeScope {
    pub stack_pointer: u16,
    pub symbols: Vec<(String, Token)>,
    pub was_closed: bool,
    pub parent_scope: Option<usize>,
    pub nested_scopes: Vec<usize>,
}

/// Mathematical value of a [`CodeScope`].
#[verifier::ext_equal]
pub struct CodeScopeV {
    pub stack_pointer: int,
    pub symbols: Seq<(Seq<char>, TokenV)>,
    pub was_closed: bool,
    pub parent_scope: Option<int>,
    pub nested_scopes: Seq<int>,
}

/// The view of an optional scope index.
pub open spec fn opt_index_view(o: Option<usize>) -> Option<int> {
    match o {
        Some(p) => Some(p as int),
        None => None,
    }
}

/// The view of a symbol list: names and declaration-site tokens.
pub open spec fn symbols_view(v: Seq<(String, Token)>) -> Seq<(Seq<char>, TokenV)> {
    v.map_values(|p: (String, Token)| (p.0@, p.1@))
}

impl View for CodeScope {
    type V = CodeScopeV;

    open spec fn view(&self) -> CodeScopeV {
        CodeScopeV {
            stack_pointer: self.stack_pointer as int,
            symbols: symbols_view(self.symbols@),
            was_closed: self.was_closed,
            parent_scope: opt_index_view(self.parent_scope),
            nested_scopes: self.nested_scopes@.map_values(|c: usize| c as int),
        }
    }
}

/// Whether `name` is declared in the scope.
pub open spec fn scope_contains(sc: CodeScopeV, name: Seq<char>) -> bool {
    exists|j: int| 0 <= j < sc.symbols.len() && (#[trigger] sc.symbols[j]).0 == name
}

/// The name an identifier token carries.
pub open spec fn ident_text(k: TokenTypeV) -> Seq<char> {
    match k {
        TokenTypeV::Ident(s) => s,
        _ => Seq::empty(),
    }
}

impl CodeScope {
    /// The root scope of a compilation: no parent, never to be closed.
    pub fn global() -> (r: Self)
        ensures
            r@ == (CodeScopeV {
                stack_pointer: 0,
                symbols: Seq::<(Seq<char>, TokenV)>::empty(),
                was_closed: false,
                parent_scope: None::<int>,
                nested_scopes: Seq::<int>::empty(),
            }),
    {
        let r = Self {
            stack_pointer: 0,
            symbols: Vec::new(),
            nested_scopes: Vec::new(),
            parent_scope: None,
            was_closed: false,
        };
        proof {
            assert(r@.symbols =~= Seq::<(Seq<char>, TokenV)>::empty());
            assert(r@.nested_scopes =~= Seq::<int>::empty());
        }
        r
    }

    /// A fresh scope under the given parent.
    pub fn new(parent_scope: Option<usize>) -> (r: Self)
        ensures
            r@ == (CodeScopeV {
                stack_pointer: 0,
                symbols: Seq::<(Seq<char>, TokenV)>::empty(),
                was_closed: false,
                parent_scope: opt_index_view(parent_scope),
                nested_scopes: Seq::<int>::empty(),
            }),
    {
        let r = Self {
            stack_pointer: 0,
            symbols: Vec::new(),
            nested_scopes: Vec::new(),
            parent_scope,
            was_closed: false,
        };
        proof {
            assert(r@.symbols =~= Seq::<(Seq<char>, TokenV)>::empty());
            assert(r@.nested_scopes =~= Seq::<int>::empty());
        }
        r
    }

    /// Registers a child scope by its table index.
    pub fn add_nested_scope(&mut self, nested_scope_index: usize)
        ensures
            final(self)@ == (CodeScopeV {
                nested_scopes: old(self)@.nested_scopes.push(nested_scope_index as int),
                ..old(self)@
            }),
    {
        self.nested_scopes.push(nested_scope_index);
        proof {
            assert(self@.nested_scopes =~= old(self)@.nested_scopes.push(
                nested_scope_index as int,
            ));
        }
    }

    /// Whether `name` is already declared in this scope.
    pub fn contains_symbol(&self, name: &String) -> (r: bool)
        ensures
            r == scope_contains(self@, name@),
    {
        let mut j: usize = 0;
        while j < self.symbols.len()
            invariant
                j <= self.symbols@.len(),
                forall|k: int|
                    0 <= k < j ==> (#[trigger] symbols_view(self.symbols@)[k]).0 != name@,
            decreases self.symbols@.len() - j,
        {
            proof {
                assert(symbols_view(self.symbols@)[j as int] == (
                    self.symbols@[j as int].0@,
                    self.symbols@[j as int].1@,
                ));
            }
            if self.symbols[j].0 == *name {
                proof {
                    assert(self@.symbols[j as int].0 == name@);
                    assert(scope_contains(self@, name@));
                }
                return true;
            }
            j = j + 1;
        }
        false
    }

    /// Declares an identifier in this scope, remembering its
    /// declaration-site token. Fails if and only if the name is
    /// already present.
    pub fn add_symbol(&mut self, token: Token) -> (r: Result<(), CompileError>)
        requires
            token.token_type is IDENT,
        ensures
            ({
                let name = ident_text(token@.kind);
                match r {
                    Ok(()) => !scope_contains(old(self)@, name) && final(self)@ == (CodeScopeV {
                        symbols: old(self)@.symbols.push((name, token@)),
                        ..old(self)@
                    }),
                    Err(e) => e == CompileError::DuplicateSymbol && scope_contains(
                        old(self)@,
                        name,
                    ) && final(self)@ == old(self)@,
                }
            }),
    {
        let name = match &token.token_type {
            TokenType::IDENT(s) => s.clone(),
            _ => {
                proof {
                    assert(false);
                }
                String::new()
            },
        };
        if self.contains_symbol(&name) {
            Err(CompileError::DuplicateSymbol)
        } else {
            self.symbols.push((name, token));
            proof {
                assert(self@.symbols =~= old(self)@.symbols.push(
                    (ident_text(token@.kind), token@),
                ));
            }
            Ok(())
        }
    }
}

/// The root scope of a fresh compilation.
pub open spec fn global_scope_v() -> CodeScopeV {
    CodeScopeV {
        stack_pointer: 0,
        symbols: Seq::empty(),
        was_closed: false,
        parent_scope: None,
        nested_scopes: Seq::empty(),
    }
}

/// The view of a scope list.
pub open spec fn scopes_view(v: Seq<CodeScope>) -> Seq<CodeScopeV> {
    v.map_values(|s: CodeScope| s@)
}

/// The table of every scope seen so far, with the index of the scope
/// that is currently active. Scopes are never removed: a closed scope
/// stays addressable.
pub struct ScopeTable {
    pub scopes: Vec<CodeScope>,
    pub active: usize,
}

/// Mathematical value of a [`ScopeTable`].
#[verifier::ext_equal]
pub struct ScopeTableV {
    pub scopes: Seq<CodeScopeV>,
    pub active: int,
}

impl View for ScopeTable {
    type V = ScopeTableV;

    open spec fn view(&self) -> ScopeTableV {
        ScopeTableV { scopes: scopes_view(self.scopes@), active: self.active as int }
    }
}

/// Whether a scope's parent link points strictly backwards from
/// position `i` of the table.
pub open spec fn parent_ok(sc: CodeScopeV, i: int) -> bool {
    match sc.parent_scope {
        Some(p) => 0 <= p < i,
        None => true,
    }
}

/// Well-formedness of a scope table: at least the root is present, the
/// active index is in range, and every parent link points backwards.
pub open spec fn table_wf(t: ScopeTableV) -> bool {
    &&& t.scopes.len() >= 1
    &&& 0 <= t.active < t.scopes.len()
    &&& forall|i: int| 0 <= i < t.scopes.len() ==> parent_ok(#[trigger] t.scopes[i], i)
}

/// A fresh scope under the given parent.
pub open spec fn fresh_scope(parent: int) -> CodeScopeV {
    CodeScopeV {
        stack_pointer: 0,
        symbols: Seq::empty(),
        was_closed: false,
        parent_scope: Some(parent),
        nested_scopes: Seq::empty(),
    }
}

/// Opening a scope: the fresh scope is appended, registered as a child
/// of the active scope, and made active.
pub open spec fn table_open(t: ScopeTableV) -> ScopeTableV {
    let idx = t.scopes.len() as int;
    let parent = t.scopes[t.active];
    ScopeTableV {
        scopes: t.scopes.update(
            t.active,
            CodeScopeV { nested_scopes: parent.nested_scopes.push(idx), ..parent },
        ).push(fresh_scope(t.active)),
        active: idx,
    }
}

/// Closing scope `id`: fails on a scope already closed, fails on the
/// root, and otherwise marks the scope closed and makes its parent
/// active.
pub open spec fn table_close(t: ScopeTableV, id: int) -> Result<ScopeTableV, CompileError> {
    let sc = t.scopes[id];
    if sc.was_closed {
        Err(CompileError::DoubleClose)
    } else {
        match sc.parent_scope {
            None => Err(CompileError::UnmatchedClose),
            Some(p) => Ok(
                ScopeTableV {
                    scopes: t.scopes.update(id, CodeScopeV { was_closed: true, ..sc }),
                    active: p,
                },
            ),
        }
    }
}

/// Declaring `name` in the active scope: fails if and only if the name
/// is already present or the frame cursor would leave the `u16` range;
/// otherwise the current cursor becomes the offset and the cursor
/// advances by `size`.
pub open spec fn table_declare(t: ScopeTableV, name: Seq<char>, site: TokenV, size: int) -> Result<
    (ScopeTableV, int),
    CompileError,
> {
    let sc = t.scopes[t.active];
    if scope_contains(sc, name) {
        Err(CompileError::DuplicateSymbol)
    } else if sc.stack_pointer + size > u16::MAX {
        Err(CompileError::FrameOverflow)
    } else {
        Ok(
            (
                ScopeTableV {
                    scopes: t.scopes.update(
                        t.active,
                        CodeScopeV {
                            stack_pointer: sc.stack_pointer + size,
                            symbols: sc.symbols.push((name, site)),
                            ..sc
                        },
                    ),
                    ..t
                },
                sc.stack_pointer,
            ),
        )
    }
}

impl ScopeTable {
    /// A table holding only the given root scope.
    pub fn new(root: CodeScope) -> (r: Self)
        requires
            root.parent_scope is None,
        ensures
            r@ == (ScopeTableV { scopes: seq![root@], active: 0 }),
            table_wf(r@),
    {
        let mut scopes: Vec<CodeScope> = Vec::new();
        scopes.push(root);
        let r = Self { scopes, active: 0 };
        proof {
            assert(r@.scopes =~= seq![root@]);
        }
        r
    }

    /// Opens a fresh scope under the active one and returns its index.
    pub fn open_scope(&mut self) -> (idx: usize)
        requires
            table_wf(old(self)@),
        ensures
            final(self)@ == table_open(old(self)@),
            table_wf(final(self)@),
            idx as int == old(self)@.scopes.len(),
    {
        let parent = self.active;
        let idx = self.scopes.len();
        self.scopes.push(CodeScope::new(Some(parent)));
        let sc = &mut self.scopes[parent];
        sc.add_nested_scope(idx);
        self.active = idx;
        proof {
            assert(self@.scopes =~= table_open(old(self)@).scopes);
            assert forall|i: int| 0 <= i < self@.scopes.len() implies parent_ok(
                #[trigger] self@.scopes[i],
                i,
            ) by {
                if i < old(self)@.scopes.len() && i != parent {
                    assert(self@.scopes[i] == old(self)@.scopes[i]);
                }
            }
        }
        idx
    }

    /// Closes scope `id`, per [`table_close`].
    pub fn close_scope(&mut self, id: usize) -> (r: Result<(), CompileError>)
        requires
            table_wf(old(self)@),
            id < old(self)@.scopes.len(),
        ensures
            table_wf(final(self)@),
            match r {
                Ok(()) => table_close(old(self)@, id as int) == Ok::<ScopeTableV, CompileError>(
                    final(self)@,
                ),
                Err(e) => table_close(old(self)@, id as int) == Err::<ScopeTableV, CompileError>(e)
                    && final(self)@ == old(self)@,
            },
    {
        if self.scopes[id].was_closed {
            return Err(CompileError::DoubleClose);
        }
        let parent = self.scopes[id].parent_scope;
        match parent {
            None => Err(CompileError::UnmatchedClose),
            Some(p) => {
                let sc = &mut self.scopes[id];
                sc.was_closed = true;
                self.active = p;
                proof {
                    let expected = ScopeTableV {
                        scopes: old(self)@.scopes.update(
                            id as int,
                            CodeScopeV { was_closed: true, ..old(self)@.scopes[id as int] },
                        ),
                        active: p as int,
                    };
                    assert(self@.scopes =~= expected.scopes);
                    assert forall|i: int| 0 <= i < self@.scopes.len() implies parent_ok(
                        #[trigger] self@.scopes[i],
                        i,
                    ) by {
                        if i != id {
                            assert(self@.scopes[i] == old(self)@.scopes[i]);
                        }
                    }
                }
                Ok(())
            },
        }
    }

    /// Declares an identifier in the active scope, per [`table_declare`]:
    /// returns the assigned offset and advances the cursor by `size`.
    pub fn declare(&mut self, token: Token, size: u16) -> (r: Result<u16, CompileError>)
        requires
            table_wf(old(self)@),
            token.token_type is IDENT,
        ensures
            table_wf(final(self)@),
            final(self)@.active == old(self)@.active,
            ({
                let name = ident_text(token@.kind);
                match r {
                    Ok(off) => table_declare(old(self)@, name, token@, size as int) == Ok::<
                        (ScopeTableV, int),
                        CompileError,
                    >((final(self)@, off as int)),
                    Err(e) => table_declare(old(self)@, name, token@, size as int) == Err::<
                        (ScopeTableV, int),
                        CompileError,
                    >(e) && final(self)@ == old(self)@,
                }
            }),
    {
        let a = self.active;
        let name = match &token.token_type {
            TokenType::IDENT(s) => s.clone(),
            _ => {
                proof {
                    assert(false);
                }
                String::new()
            },
        };
        if self.scopes[a].contains_symbol(&name) {
            return Err(CompileError::DuplicateSymbol);
        }
        if self.scopes[a].stack_pointer > u16::MAX - size {
            return Err(CompileError::FrameOverflow);
        }
        let sc = &mut self.scopes[a];
        let off = sc.stack_pointer;
        let added = sc.add_symbol(token);
        proof {
            assert(added is Ok);
        }
        sc.stack_pointer = off + size;
        proof {
            let name_v = ident_text(token@.kind);
            let old_sc = old(self)@.scopes[a as int];
            let expected = ScopeTableV {
                scopes: old(self)@.scopes.update(
                    a as int,
                    CodeScopeV {
                        stack_pointer: old_sc.stack_pointer + size,
                        symbols: old_sc.symbols.push((name_v, token@)),
                        ..old_sc
                    },
                ),
                ..old(self)@
            };
            assert(self@.scopes =~= expected.scopes);
            assert forall|i: int| 0 <= i < self@.scopes.len() implies parent_ok(
                #[trigger] self@.scopes[i],
                i,
            ) by {
                if i != a {
                    assert(self@.scopes[i] == old(self)@.scopes[i]);
                }
            }
        }
        Ok(off)
    }

    /// The current stack cursor of scope `id`.
    pub fn current_offset(&self, id: usize) -> (r: u16)
        requires
            id < self@.scopes.len(),
        ensures
            r as int == self@.scopes[id as int].stack_pointer,
    {
        self.scopes[id].stack_pointer
    }
}

} // verus!
