//! The stack of namespace scopes of the namespace-aware reader.
use vstd::prelude::*;

use crate::events::opt_string_view;
use crate::namespace::NamespaceDecl;
use crate::simple::namespace::scopes_total;

verus! {

/// A declaration as text: its prefix, or none for the default namespace, and its URI.
pub type NsDeclV = (Option<Seq<char>>, Seq<char>);

/// The declarations in the order they were made, and how many each open scope made,
/// innermost last.
pub struct DeclStackV {
    pub decls: Seq<NsDeclV>,
    pub scopes: Seq<nat>,
}

/// The URI of the latest declaration that has a prefix, whichever prefix it is.
pub open spec fn latest_prefixed(decls: Seq<NsDeclV>) -> Option<Seq<char>>
    decreases decls.len(),
{
    if decls.len() == 0 {
        None
    } else if decls.last().0 is Some {
        Some(decls.last().1)
    } else {
        latest_prefixed(decls.drop_last())
    }
}

/// The URI of the latest declaration of a default namespace.
pub open spec fn latest_default(decls: Seq<NsDeclV>) -> Option<Seq<char>>
    decreases decls.len(),
{
    if decls.len() == 0 {
        None
    } else if decls.last().0 is None {
        Some(decls.last().1)
    } else {
        latest_default(decls.drop_last())
    }
}

/// The stack with its innermost scope closed and its declarations dropped.
pub open spec fn decls_popped(v: DeclStackV) -> DeclStackV {
    DeclStackV { decls: v.decls.take(v.decls.len() - v.scopes.last()), scopes: v.scopes.drop_last() }
}

/// Closing a scope undoes opening it: the declarations it made go, and the stack is as
/// it was before the scope was opened.
pub proof fn lemma_decl_scope_undone(v: DeclStackV, made: Seq<NsDeclV>)
    ensures
        decls_popped(DeclStackV { decls: v.decls + made, scopes: v.scopes.push(made.len()) }) == v,
{
    let w = DeclStackV { decls: v.decls + made, scopes: v.scopes.push(made.len()) };
    assert(decls_popped(w).decls =~= v.decls);
    assert(decls_popped(w).scopes =~= v.scopes);
}

/// The latest declaration counts: one with a prefix is what `resolve` finds, one without
/// is the default namespace, and each leaves what the other kind finds.
pub proof fn lemma_latest_decl_counts(decls: Seq<NsDeclV>, d: NsDeclV)
    ensures
        d.0 is Some ==> latest_prefixed(decls.push(d)) == Some(d.1),
        d.0 is Some ==> latest_default(decls.push(d)) == latest_default(decls),
        d.0 is None ==> latest_default(decls.push(d)) == Some(d.1),
        d.0 is None ==> latest_prefixed(decls.push(d)) == latest_prefixed(decls),
{
    assert(decls.push(d).drop_last() =~= decls);
}

pub struct NamespaceStack {
    namespaces: Vec<NamespaceDecl>,
    stack: Vec<usize>,
}

impl View for NamespaceStack {
    type V = DeclStackV;

    closed spec fn view(&self) -> DeclStackV {
        DeclStackV {
            decls: self.namespaces@.map_values(|d: NamespaceDecl| d@),
            scopes: self.stack@.map_values(|n: usize| n as nat),
        }
    }
}

impl NamespaceStack {
    /// The open scopes made no more declarations than there are.
    pub open spec fn wf(&self) -> bool {
        scopes_total(self@.scopes) <= self@.decls.len()
    }

    pub fn new() -> (r: Self)
        ensures
            r@.decls.len() == 0,
            r@.scopes.len() == 0,
            r.wf(),
    {
        let r = Self { namespaces: Vec::new(), stack: Vec::new() };
        proof {
            assert(r@.scopes =~= Seq::<nat>::empty());
        }
        r
    }

    /// Opens a scope, to which declarations are then added.
    pub fn build_scope(&mut self) -> (r: NamespaceStackScopeBuilder<'_>)
        ensures
            (*r.stack)@ == old(self)@,
            r.size == 0,
            final(self)@ == (*final(r.stack))@,
    {
        NamespaceStackScopeBuilder { stack: self, size: 0 }
    }

    /// Closes the innermost scope and drops its declarations.
    pub fn pop_scope(&mut self)
        requires
            old(self).wf(),
            old(self)@.scopes.len() > 0,
        ensures
            final(self).wf(),
            final(self)@ == decls_popped(old(self)@),
    {
        let ghost v = self@;
        let scope_namespaces = self.stack.pop().unwrap();
        proof {
            assert(v.scopes.drop_last() =~= self@.scopes);
        }
        let len = self.namespaces.len();
        self.namespaces.truncate(len - scope_namespaces);
        proof {
            assert(self@.decls =~= decls_popped(v).decls);
        }
    }

    /// The URI of the latest declaration that has a prefix. The prefix asked for is not
    /// compared: any prefixed declaration answers.
    pub fn resolve(&self, prefix: &str) -> (r: Option<&str>)
        ensures
            match r {
                Some(u) => latest_prefixed(self@.decls) == Some(u@),
                None => latest_prefixed(self@.decls) is None,
            },
    {
        let ghost decls = self@.decls;
        let mut i = self.namespaces.len();
        proof {
            assert(decls.take(i as int) =~= decls);
        }
        while i > 0
            invariant
                i <= self.namespaces@.len(),
                decls == self@.decls,
                latest_prefixed(decls) == latest_prefixed(decls.take(i as int)),
            decreases i,
        {
            let ns = &self.namespaces[i - 1];
            proof {
                assert(decls.take(i as int).drop_last() =~= decls.take(i - 1));
                assert(decls.take(i as int).last() == ns@);
            }
            if ns.has_prefix() {
                return Some(ns.uri());
            }
            i = i - 1;
        }
        None
    }

    /// The URI of the default namespace: that of the latest declaration without a prefix.
    pub fn resolve_default(&self) -> (r: Option<&str>)
        ensures
            match r {
                Some(u) => latest_default(self@.decls) == Some(u@),
                None => latest_default(self@.decls) is None,
            },
    {
        let ghost decls = self@.decls;
        let mut i = self.namespaces.len();
        proof {
            assert(decls.take(i as int) =~= decls);
        }
        while i > 0
            invariant
                i <= self.namespaces@.len(),
                decls == self@.decls,
                latest_default(decls) == latest_default(decls.take(i as int)),
            decreases i,
        {
            let ns = &self.namespaces[i - 1];
            proof {
                assert(decls.take(i as int).drop_last() =~= decls.take(i - 1));
                assert(decls.take(i as int).last() == ns@);
            }
            if !ns.has_prefix() {
                return Some(ns.uri());
            }
            i = i - 1;
        }
        None
    }
}

/// A scope being opened: the declarations it made so far are on the stack.
pub struct NamespaceStackScopeBuilder<'a> {
    pub stack: &'a mut NamespaceStack,
    pub size: usize,
}

impl<'a> NamespaceStackScopeBuilder<'a> {
    /// The stack as it stands.
    pub open spec fn current(&self) -> DeclStackV {
        (*self.stack)@
    }

    /// The declarations of the scope are on top of those of the scopes below it.
    pub open spec fn wf(&self) -> bool {
        scopes_total(self.current().scopes) + self.size <= self.current().decls.len()
    }

    /// Adds a declaration to the scope.
    pub fn add(&mut self, namespace: NamespaceDecl)
        requires
            old(self).wf(),
        ensures
            final(self).wf(),
            (*final(self).stack)@ == (DeclStackV {
                decls: (*old(self).stack)@.decls.push(namespace@),
                scopes: (*old(self).stack)@.scopes,
            }),
            final(self).size == old(self).size + 1,
            *final(final(self).stack) == *final(old(self).stack),
    {
        let ghost v = (*self.stack)@;
        let ghost d = namespace@;
        self.stack.namespaces.push(namespace);
        let n = self.stack.namespaces.len();
        proof {
            assert((*self.stack)@.decls =~= v.decls.push(d));
            assert((*self.stack)@.scopes =~= v.scopes);
        }
        self.size = self.size + 1;
    }

    /// Declares the namespace `uri` with a prefix, or as the default namespace.
    pub fn add_prefix(&mut self, prefix: Option<String>, uri: String)
        requires
            old(self).wf(),
        ensures
            final(self).wf(),
            (*final(self).stack)@ == (DeclStackV {
                decls: (*old(self).stack)@.decls.push((opt_string_view(prefix), uri@)),
                scopes: (*old(self).stack)@.scopes,
            }),
            final(self).size == old(self).size + 1,
            *final(final(self).stack) == *final(old(self).stack),
    {
        self.add(NamespaceDecl::new(prefix, uri));
    }

    /// Closes the making of the scope, which stays open on the stack.
    pub fn finish(self) -> (r: &'a mut NamespaceStack)
        requires
            self.wf(),
        ensures
            r.wf(),
            (*r)@ == (DeclStackV {
                decls: self.current().decls,
                scopes: self.current().scopes.push(self.size as nat),
            }),
            *final(r) == *final(self.stack),
    {
        let ghost v = self.current();
        let size = self.size;
        let stack = self.stack;
        stack.stack.push(size);
        proof {
            assert(stack@.scopes =~= v.scopes.push(size as nat));
            assert(stack@.scopes.drop_last() =~= v.scopes);
            assert(stack@.decls =~= v.decls);
        }
        stack
    }
}

impl Default for NamespaceStack {
    fn default() -> (r: Self)
        ensures
            r@.decls.len() == 0,
            r@.scopes.len() == 0,
            r.wf(),
    {
        Self::new()
    }
}

} // verus!
