//! Namespaces over the simple parser: qualified names, the stack of namespace scopes,
//! and a parser that resolves the names of elements and attributes to their namespaces.
use std::borrow::Cow;
use vstd::prelude::*;
use vstd::string::StringExecFns;

use crate::events::{cow_clone, cow_str, opt_str_view, XmlDecl, XmlError, XmlErrorV};
use crate::parser::cursor::Cursor;
use crate::reader::tokens::str_eq;
use crate::simple::steps::{lemma_stack_discipline, simple_wf, spec_simple_next, stack_step, SimpleEventV};
use crate::simple::{simple_attrs_view, simple_event_view, SimpleEvent, SimpleXmlParser, StrVisitor};
use crate::text::{find, find_str, lemma_find_bounds};

verus! {

broadcast use vstd::string::group_string_axioms;

/// The namespace bound to the prefix `xml`.
pub const XML_URI: &'static str = "http://www.w3.org/XML/1998/namespace";

/// The namespace bound to the prefix `xmlns`.
pub const XMLNS_URI: &'static str = "http://www.w3.org/2000/xmlns/";

/// A qualified name: an optional prefix and a local part.
#[derive(PartialEq, Debug, Copy, Clone)]
pub struct QName<'i> {
    prefix: Option<&'i str>,
    local: &'i str,
}

/// A qualified name as text.
pub struct QNameV {
    pub prefix: Option<Seq<char>>,
    pub local: Seq<char>,
}

impl<'i> View for QName<'i> {
    type V = QNameV;

    closed spec fn view(&self) -> QNameV {
        QNameV { prefix: opt_str_view(self.prefix), local: self.local@ }
    }
}

/// `prefix:local` where the name holds a colon, the local part otherwise; a second colon
/// makes the name illegal.
pub open spec fn spec_qname(s: Seq<char>) -> Result<QNameV, XmlErrorV> {
    match find(s, ":"@) {
        None => Ok(QNameV { prefix: None, local: s }),
        Some(i) => {
            let local = s.skip(i + 1);
            if find(local, ":"@) is Some {
                Err(XmlErrorV::IllegalName(s))
            } else {
                Ok(QNameV { prefix: Some(s.take(i)), local })
            }
        },
    }
}

/// The name written out: `prefix:local`, or the local part alone.
pub open spec fn qname_text(q: QNameV) -> Seq<char> {
    match q.prefix {
        Some(p) => p + ":"@ + q.local,
        None => q.local,
    }
}

impl<'i> QName<'i> {
    /// Splits a name at its colon.
    pub fn from_str(input: &'i str) -> (r: Result<Self, XmlError>)
        ensures
            match r {
                Ok(q) => spec_qname(input@) == Ok::<QNameV, XmlErrorV>(q@),
                Err(e) => spec_qname(input@) == Err::<QNameV, XmlErrorV>(e@),
            },
    {
        match find_str(input, ":") {
            None => Ok(QName { prefix: None, local: input }),
            Some((k, n)) => {
                proof {
                    lemma_find_bounds(input@, ":"@);
                    reveal_strlit(":");
                    crate::text::lemma_blen_mono(input@, k as int, input@.len() as int);
                }
                let cursor = Cursor::new(input);
                let (prefix, at_colon) = cursor.split_chars(Ghost(k as int), n);
                proof {
                    assert(input@.skip(k as int).take(1)[0] == ':');
                    assert(at_colon@[0] == input@.skip(k as int)[0]);
                }
                let after = at_colon.skip_char(':');
                let local = after.rest();
                proof {
                    assert(input@.skip(k + 1) =~= local@);
                }
                if find_str(local, ":").is_some() {
                    return Err(XmlError::IllegalName { name: input.to_owned() });
                }
                Ok(QName { prefix: Some(prefix), local })
            },
        }
    }

    pub fn new(prefix: Option<&'i str>, local: &'i str) -> (r: Self)
        ensures
            r@ == (QNameV { prefix: opt_str_view(prefix), local: local@ }),
    {
        QName { prefix, local }
    }

    pub fn prefix(&self) -> (r: Option<&'i str>)
        ensures
            opt_str_view(r) == self@.prefix,
    {
        self.prefix
    }

    pub fn local(&self) -> (r: &'i str)
        ensures
            r@ == self@.local,
    {
        self.local
    }

    /// The name written out: `prefix:local`, or the local part alone.
    pub fn to_string(&self) -> (r: String)
        ensures
            r@ == qname_text(self@),
    {
        match self.prefix {
            Some(prefix) => {
                let mut s = prefix.to_owned();
                s.append(":");
                s.append(self.local);
                proof {
                    reveal_strlit(":");
                }
                s
            },
            None => self.local.to_owned(),
        }
    }
}

/// A namespace, named by its URI.
#[derive(Clone, PartialEq, Debug)]
pub struct Namespace {
    uri: String,
}

impl View for Namespace {
    type V = Seq<char>;

    closed spec fn view(&self) -> Seq<char> {
        self.uri@
    }
}

impl AsRef<str> for Namespace {
    fn as_ref(&self) -> (r: &str)
        ensures
            r@ == self@,
    {
        self.uri.as_str()
    }
}

/// The URI of a namespace, if there is one.
pub open spec fn opt_ns_view(o: Option<Namespace>) -> Option<Seq<char>> {
    match o {
        Some(ns) => Some(ns@),
        None => None,
    }
}

impl Namespace {
    pub fn new(uri: &str) -> (r: Self)
        ensures
            r@ == uri@,
    {
        Namespace { uri: uri.to_owned() }
    }

    fn from_string(uri: String) -> (r: Self)
        ensures
            r@ == uri@,
    {
        Namespace { uri }
    }

    pub fn as_str(&self) -> (r: &str)
        ensures
            r@ == self@,
    {
        self.uri.as_str()
    }

    /// A copy of the namespace.
    pub fn duplicate(&self) -> (r: Self)
        ensures
            r@ == self@,
    {
        Namespace { uri: self.uri.clone() }
    }
}

fn duplicate_ns(o: &Option<Namespace>) -> (r: Option<Namespace>)
    ensures
        opt_ns_view(r) == opt_ns_view(*o),
{
    match o {
        Some(ns) => Some(ns.duplicate()),
        None => None,
    }
}

/// A binding of a prefix (or, with none, of the default namespace) to a namespace (or
/// to none, which undoes the default namespace).
pub type NsEntryV = (Option<Seq<char>>, Option<Seq<char>>);

/// The bindings in the order they were made, and the number of bindings each open scope
/// made, innermost last.
pub struct NsStackV {
    pub entries: Seq<NsEntryV>,
    pub scopes: Seq<nat>,
}

/// The namespace that the latest binding of `key` gives.
pub open spec fn spec_resolve(entries: Seq<NsEntryV>, key: Option<Seq<char>>) -> Option<Seq<char>>
    decreases entries.len(),
{
    if entries.len() == 0 {
        None
    } else if entries.last().0 == key {
        entries.last().1
    } else {
        spec_resolve(entries.drop_last(), key)
    }
}

/// The number of bindings that the open scopes made.
pub open spec fn scopes_total(scopes: Seq<nat>) -> nat
    decreases scopes.len(),
{
    if scopes.len() == 0 {
        0
    } else {
        scopes_total(scopes.drop_last()) + scopes.last()
    }
}

/// The bindings of `xml` and `xmlns`, which hold everywhere.
pub open spec fn initial_ns_stack() -> NsStackV {
    NsStackV {
        entries: seq![(Some("xml"@), Some(XML_URI@)), (Some("xmlns"@), Some(XMLNS_URI@))],
        scopes: Seq::empty(),
    }
}

/// The stack with its innermost scope closed.
pub open spec fn popped(v: NsStackV) -> NsStackV {
    NsStackV {
        entries: v.entries.take(v.entries.len() - v.scopes.last()),
        scopes: v.scopes.drop_last(),
    }
}

/// Closing a scope undoes opening it: the bindings it made go, the stack is as it was
/// before the scope was opened, every prefix and the default namespace resolve as they
/// did, and as many scopes are open.
pub proof fn lemma_pop_undoes_scope(v: NsStackV, bindings: Seq<NsEntryV>)
    ensures
        popped(NsStackV { entries: v.entries + bindings, scopes: v.scopes.push(bindings.len()) }) == v,
        forall|key: Option<Seq<char>>|
            #[trigger] spec_resolve(
                popped(NsStackV { entries: v.entries + bindings, scopes: v.scopes.push(bindings.len()) }).entries,
                key,
            ) == spec_resolve(v.entries, key),
        popped(NsStackV { entries: v.entries + bindings, scopes: v.scopes.push(bindings.len()) }).scopes.len()
            == v.scopes.len(),
{
    let w = NsStackV { entries: v.entries + bindings, scopes: v.scopes.push(bindings.len()) };
    assert(popped(w).entries =~= v.entries);
    assert(popped(w).scopes =~= v.scopes);
}

/// The latest binding of a prefix is the one that counts, and a binding of one prefix
/// leaves what the others resolve to.
pub proof fn lemma_resolve_latest(
    entries: Seq<NsEntryV>,
    key: Option<Seq<char>>,
    ns: Option<Seq<char>>,
    other: Option<Seq<char>>,
)
    ensures
        spec_resolve(entries.push((key, ns)), key) == ns,
        other != key ==> spec_resolve(entries.push((key, ns)), other) == spec_resolve(entries, other),
{
    assert(entries.push((key, ns)).drop_last() =~= entries);
}

/// A qualified name read from a text writes back to that text.
pub proof fn lemma_qname_round_trip(s: Seq<char>)
    ensures
        spec_qname(s) matches Ok(q) ==> qname_text(q) == s,
{
    reveal_strlit(":");
    lemma_find_bounds(s, ":"@);
    if let Some(i) = find(s, ":"@) {
        assert(s.skip(i).take(1)[0] == ':');
        assert(s.take(i) + ":"@ + s.skip(i + 1) =~= s);
    }
}

/// A text without a colon holds none to find; behind a text without a colon, a colon is
/// found where that text ends.
proof fn lemma_find_colon(p: Seq<char>, rest: Seq<char>)
    requires
        !p.contains(':'),
    ensures
        find(p, ":"@) is None,
        find(p + ":"@ + rest, ":"@) == Some(p.len() as int),
    decreases p.len(),
{
    reveal_strlit(":");
    if p.len() == 0 {
        assert((p + ":"@ + rest).take(1) =~= ":"@);
    } else {
        assert(p[0] != ':');
        assert(p.take(1) != ":"@) by {
            assert(p.take(1)[0] == p[0]);
        }
        assert((p + ":"@ + rest).take(1) != ":"@) by {
            assert((p + ":"@ + rest).take(1)[0] == p[0]);
        }
        assert(!p.drop_first().contains(':')) by {
            assert forall|i: int| 0 <= i < p.drop_first().len() implies p.drop_first()[i] != ':' by {
                assert(p.drop_first()[i] == p[i + 1]);
            }
        }
        lemma_find_colon(p.drop_first(), rest);
        assert((p + ":"@ + rest).drop_first() =~= p.drop_first() + ":"@ + rest);
    }
}

/// A name whose parts hold no colon, written out and read back, is the same name.
pub proof fn lemma_qname_text_read_back(q: QNameV)
    requires
        !q.local.contains(':'),
        q.prefix matches Some(p) ==> !p.contains(':'),
    ensures
        spec_qname(qname_text(q)) == Ok::<QNameV, XmlErrorV>(q),
{
    reveal_strlit(":");
    lemma_find_colon(q.local, Seq::empty());
    match q.prefix {
        Some(p) => {
            let t = p + ":"@ + q.local;
            lemma_find_colon(p, q.local);
            assert(t.skip(p.len() + 1int) =~= q.local);
            assert(t.take(p.len() as int) =~= p);
        },
        None => {},
    }
}

/// The stack of namespace scopes.
pub struct NamespaceStack<'i> {
    namespaces: Vec<(Option<&'i str>, Option<Namespace>)>,
    sub_sizes: Vec<usize>,
}

pub open spec fn ns_entry_view<'i>(e: (Option<&'i str>, Option<Namespace>)) -> NsEntryV {
    (opt_str_view(e.0), opt_ns_view(e.1))
}

impl<'i> View for NamespaceStack<'i> {
    type V = NsStackV;

    closed spec fn view(&self) -> NsStackV {
        NsStackV {
            entries: self.namespaces@.map_values(|e: (Option<&'i str>, Option<Namespace>)| ns_entry_view(e)),
            scopes: self.sub_sizes@.map_values(|n: usize| n as nat),
        }
    }
}

impl<'i> NamespaceStack<'i> {
    /// The open scopes made no more bindings than there are.
    pub open spec fn wf(&self) -> bool {
        scopes_total(self@.scopes) <= self@.entries.len()
    }

    pub fn new() -> (r: Self)
        ensures
            r@ == initial_ns_stack(),
            r.wf(),
    {
        let mut namespaces: Vec<(Option<&'i str>, Option<Namespace>)> = Vec::new();
        namespaces.push((Some("xml"), Some(Namespace::new(XML_URI))));
        namespaces.push((Some("xmlns"), Some(Namespace::new(XMLNS_URI))));
        let r = NamespaceStack { namespaces, sub_sizes: Vec::new() };
        proof {
            assert(r@.entries =~= initial_ns_stack().entries);
            assert(r@.scopes =~= Seq::<nat>::empty());
        }
        r
    }

    /// Opens a scope, to which bindings are then added.
    pub fn build_scope<'a>(&'a mut self) -> (r: NamespaceStackScopeBuilder<'i, 'a>)
        ensures
            (*r.stack)@ == old(self)@,
            r.size == 0,
            final(self)@ == (*final(r.stack))@,
    {
        NamespaceStackScopeBuilder { stack: self, size: 0 }
    }

    /// Closes the innermost scope and drops its bindings.
    pub fn pop_scope(&mut self)
        requires
            old(self).wf(),
            old(self)@.scopes.len() > 0,
        ensures
            final(self).wf(),
            final(self)@ == popped(old(self)@),
    {
        let ghost v = self@;
        let n = self.sub_sizes.pop().unwrap();
        proof {
            assert(v.scopes.drop_last() =~= self@.scopes);
        }
        let len = self.namespaces.len();
        self.namespaces.truncate(len - n);
        proof {
            assert(self@.entries =~= popped(v).entries);
        }
    }

    /// The namespace bound to `prefix`.
    pub fn resolve(&self, prefix: &str) -> (r: Option<Namespace>)
        ensures
            opt_ns_view(r) == spec_resolve(self@.entries, Some(prefix@)),
    {
        self.lookup(Some(prefix))
    }

    /// The default namespace.
    pub fn resolve_default(&self) -> (r: Option<Namespace>)
        ensures
            opt_ns_view(r) == spec_resolve(self@.entries, None),
    {
        self.lookup(None)
    }

    fn lookup(&self, key: Option<&str>) -> (r: Option<Namespace>)
        ensures
            opt_ns_view(r) == spec_resolve(self@.entries, opt_str_view(key)),
    {
        let ghost entries = self@.entries;
        let ghost k = opt_str_view(key);
        let mut i = self.namespaces.len();
        proof {
            assert(entries.take(i as int) =~= entries);
        }
        while i > 0
            invariant
                i <= self.namespaces@.len(),
                entries == self@.entries,
                k == opt_str_view(key),
                spec_resolve(entries, k) == spec_resolve(entries.take(i as int), k),
            decreases i,
        {
            let e = &self.namespaces[i - 1];
            let hit = match e.0 {
                Some(p) => match key {
                    Some(q) => str_eq(p, q),
                    None => false,
                },
                None => key.is_none(),
            };
            proof {
                assert(entries.take(i as int).drop_last() =~= entries.take(i - 1));
                assert(entries.take(i as int).last() == ns_entry_view(*e));
                assert(hit == (ns_entry_view(*e).0 == k));
            }
            if hit {
                return duplicate_ns(&e.1);
            }
            i = i - 1;
        }
        None
    }

    /// The namespace of a prefix, or the default namespace where there is none.
    pub fn resolve_namespace(&self, prefix: Option<&str>) -> (r: Option<Namespace>)
        ensures
            opt_ns_view(r) == spec_resolve(self@.entries, opt_str_view(prefix)),
    {
        self.lookup(prefix)
    }

    /// The namespace of an element's name: that of its prefix, which must be bound, or
    /// the default namespace.
    pub fn resolve_element_namespace(&self, qname: &QName<'i>) -> (r: Result<Option<Namespace>, XmlError>)
        ensures
            match r {
                Ok(o) => spec_element_ns(self@.entries, qname@) == Ok::<Option<Seq<char>>, XmlErrorV>(opt_ns_view(o)),
                Err(e) => spec_element_ns(self@.entries, qname@) == Err::<Option<Seq<char>>, XmlErrorV>(e@),
            },
    {
        match qname.prefix {
            Some(prefix) => match self.resolve(prefix) {
                Some(ns) => Ok(Some(ns)),
                None => Err(XmlError::UnknownNamespacePrefix(prefix.to_owned())),
            },
            None => Ok(self.resolve_default()),
        }
    }

    /// The namespace of an attribute's name: that of its prefix, which must be bound, or
    /// none.
    pub fn resolve_attribute_namespace(&self, qname: &QName<'i>) -> (r: Result<Option<Namespace>, XmlError>)
        ensures
            match r {
                Ok(o) => spec_attribute_ns(self@.entries, qname@) == Ok::<Option<Seq<char>>, XmlErrorV>(opt_ns_view(o)),
                Err(e) => spec_attribute_ns(self@.entries, qname@) == Err::<Option<Seq<char>>, XmlErrorV>(e@),
            },
    {
        match qname.prefix {
            Some(prefix) => match self.resolve(prefix) {
                Some(ns) => Ok(Some(ns)),
                None => Err(XmlError::UnknownNamespacePrefix(prefix.to_owned())),
            },
            None => Ok(None),
        }
    }
}

impl<'i> Default for NamespaceStack<'i> {
    fn default() -> (r: Self)
        ensures
            r@ == initial_ns_stack(),
            r.wf(),
    {
        Self::new()
    }
}

/// The namespace of an element's name.
pub open spec fn spec_element_ns(entries: Seq<NsEntryV>, q: QNameV) -> Result<Option<Seq<char>>, XmlErrorV> {
    match q.prefix {
        Some(p) => match spec_resolve(entries, Some(p)) {
            Some(ns) => Ok(Some(ns)),
            None => Err(XmlErrorV::UnknownNamespacePrefix(p)),
        },
        None => Ok(spec_resolve(entries, None)),
    }
}

/// The namespace of an attribute's name.
pub open spec fn spec_attribute_ns(entries: Seq<NsEntryV>, q: QNameV) -> Result<Option<Seq<char>>, XmlErrorV> {
    match q.prefix {
        Some(p) => match spec_resolve(entries, Some(p)) {
            Some(ns) => Ok(Some(ns)),
            None => Err(XmlErrorV::UnknownNamespacePrefix(p)),
        },
        None => Ok(None),
    }
}

/// A scope being opened: the bindings it made so far are on the stack.
pub struct NamespaceStackScopeBuilder<'i, 'a> {
    pub stack: &'a mut NamespaceStack<'i>,
    pub size: usize,
}

impl<'i, 'a> NamespaceStackScopeBuilder<'i, 'a> {
    /// The stack as it stands.
    pub open spec fn current(&self) -> NsStackV {
        (*self.stack)@
    }

    /// The bindings of the scope are on top of those of the scopes below it.
    pub open spec fn wf(&self) -> bool {
        scopes_total(self.current().scopes) + self.size <= self.current().entries.len()
    }

    fn push(&mut self, entry: (Option<&'i str>, Option<Namespace>))
        requires
            old(self).wf(),
        ensures
            final(self).wf(),
            (*final(self).stack)@ == (NsStackV {
                entries: (*old(self).stack)@.entries.push(ns_entry_view(entry)),
                scopes: (*old(self).stack)@.scopes,
            }),
            final(self).size == old(self).size + 1,
            *final(final(self).stack) == *final(old(self).stack),
    {
        let ghost v = (*self.stack)@;
        self.stack.namespaces.push(entry);
        let n = self.stack.namespaces.len();
        proof {
            assert((*self.stack)@.entries =~= v.entries.push(ns_entry_view(entry)));
            assert((*self.stack)@.scopes =~= v.scopes);
        }
        self.size = self.size + 1;
    }

    /// Binds `prefix` to the namespace `uri`.
    pub fn add(&mut self, prefix: &'i str, uri: String)
        requires
            old(self).wf(),
        ensures
            final(self).wf(),
            (*final(self).stack)@ == (NsStackV {
                entries: (*old(self).stack)@.entries.push((Some(prefix@), Some(uri@))),
                scopes: (*old(self).stack)@.scopes,
            }),
            final(self).size == old(self).size + 1,
            *final(final(self).stack) == *final(old(self).stack),
    {
        self.push((Some(prefix), Some(Namespace::from_string(uri))));
    }

    /// Makes `uri` the default namespace.
    pub fn set_default(&mut self, uri: String)
        requires
            old(self).wf(),
        ensures
            final(self).wf(),
            (*final(self).stack)@ == (NsStackV {
                entries: (*old(self).stack)@.entries.push((None, Some(uri@))),
                scopes: (*old(self).stack)@.scopes,
            }),
            final(self).size == old(self).size + 1,
            *final(final(self).stack) == *final(old(self).stack),
    {
        self.push((None, Some(Namespace::from_string(uri))));
    }

    /// Undoes the default namespace.
    pub fn reset_default(&mut self)
        requires
            old(self).wf(),
        ensures
            final(self).wf(),
            (*final(self).stack)@ == (NsStackV {
                entries: (*old(self).stack)@.entries.push((None, None)),
                scopes: (*old(self).stack)@.scopes,
            }),
            final(self).size == old(self).size + 1,
            *final(final(self).stack) == *final(old(self).stack),
    {
        self.push((None, None));
    }

    /// Closes the making of the scope, which stays open on the stack.
    pub fn finish(self) -> (r: &'a mut NamespaceStack<'i>)
        requires
            self.wf(),
        ensures
            r.wf(),
            (*r)@ == (NsStackV {
                entries: self.current().entries,
                scopes: self.current().scopes.push(self.size as nat),
            }),
            *final(r) == *final(self.stack),
    {
        let ghost v = self.current();
        let size = self.size;
        let stack = self.stack;
        stack.sub_sizes.push(size);
        proof {
            assert(stack@.scopes =~= v.scopes.push(size as nat));
            assert(stack@.scopes.drop_last() =~= v.scopes);
            assert(stack@.entries =~= v.entries);
        }
        stack
    }
}


/// An attribute whose name was resolved: its namespace, its name and its value.
pub type ResolvedV = (Option<Seq<char>>, QNameV, Seq<char>);

/// What the namespace parser holds beside the simple parser: the namespace scopes and the
/// open elements with their namespaces, innermost last.
pub struct NsStateV {
    pub scopes: NsStackV,
    pub elements: Seq<(QNameV, Option<Seq<char>>)>,
}

/// What an attribute declares: a binding where it is a namespace declaration, none where
/// it is an ordinary attribute, or the error for a namespace that cannot be bound.
pub open spec fn spec_declaration(q: QNameV, value: Seq<char>) -> Result<Option<NsEntryV>, XmlErrorV> {
    if q.prefix == Some("xmlns"@) {
        if value.len() == 0 || ((q.local == "xml"@) != (value == XML_URI@)) || ((q.local
            == "xmlns"@) != (value == XMLNS_URI@)) {
            Err(XmlErrorV::IllegalNamespaceUri(value))
        } else {
            Ok(Some((Some(q.local), Some(value))))
        }
    } else if q.prefix is None && q.local == "xmlns"@ {
        if value == XML_URI@ || value == XMLNS_URI@ {
            Err(XmlErrorV::IllegalNamespaceUri(value))
        } else if value.len() == 0 {
            Ok(Some((None, None)))
        } else {
            Ok(Some((None, Some(value))))
        }
    } else {
        Ok(None)
    }
}

/// Reads the attributes of a start tag in order, after the bindings `entries`, `size` of
/// which the scope made, and the names and values `read`: each name is split at its colon
/// and each namespace declaration adds its binding. Gives the bindings, their number in
/// the scope, the names and values read, and the error where one came.
pub open spec fn spec_declare(
    entries: Seq<NsEntryV>,
    size: nat,
    read: Seq<(QNameV, Seq<char>)>,
    attrs: Seq<(Seq<char>, Seq<char>)>,
) -> (Seq<NsEntryV>, nat, Seq<(QNameV, Seq<char>)>, Result<(), XmlErrorV>)
    decreases attrs.len(),
{
    if attrs.len() == 0 {
        (entries, size, read, Ok(()))
    } else {
        match spec_qname(attrs[0].0) {
            Err(e) => (entries, size, read, Err(e)),
            Ok(q) => match spec_declaration(q, attrs[0].1) {
                Err(e) => (entries, size, read, Err(e)),
                Ok(d) => {
                    let read2 = read.push((q, attrs[0].1));
                    match d {
                        Some(b) => spec_declare(entries.push(b), size + 1, read2, attrs.drop_first()),
                        None => spec_declare(entries, size, read2, attrs.drop_first()),
                    }
                },
            },
        }
    }
}

/// Resolves the names of the attributes `read`, after those resolved in `acc`.
pub open spec fn spec_resolve_attrs(
    entries: Seq<NsEntryV>,
    read: Seq<(QNameV, Seq<char>)>,
    acc: Seq<ResolvedV>,
) -> Result<Seq<ResolvedV>, XmlErrorV>
    decreases read.len(),
{
    if read.len() == 0 {
        Ok(acc)
    } else {
        match spec_attribute_ns(entries, read[0].0) {
            Err(e) => Err(e),
            Ok(ns) => spec_resolve_attrs(entries, read.drop_first(), acc.push((ns, read[0].0, read[0].1))),
        }
    }
}

/// Attribute `i` is in a namespace, and an attribute before it has the same namespace and
/// local part.
pub open spec fn is_dup(r: Seq<ResolvedV>, i: int) -> bool {
    &&& r[i].0 is Some
    &&& exists|j: int| 0 <= j < i && r[j].0 == r[i].0 && #[trigger] r[j].1.local == r[i].1.local
}

/// The first attribute from `i` on that repeats an earlier one.
pub open spec fn first_dup(r: Seq<ResolvedV>, i: nat) -> Option<int>
    decreases r.len() - i,
{
    if i >= r.len() {
        None
    } else if is_dup(r, i as int) {
        Some(i as int)
    } else {
        first_dup(r, i + 1)
    }
}

/// The name of a repeated attribute: `{namespace}local`.
pub open spec fn dup_text(a: ResolvedV) -> Seq<char> {
    "{"@ + a.0->0 + "}"@ + a.1.local
}

/// A start tag with its tag name and attributes: the scope its namespace declarations
/// open, its attributes resolved and checked to be unique, then its own name resolved.
/// Gives the new state and the element's name, namespace and attributes, or the error.
pub open spec fn spec_ns_start(st: NsStateV, tag: Seq<char>, attrs: Seq<(Seq<char>, Seq<char>)>) -> (
    NsStateV,
    Result<(QNameV, Option<Seq<char>>, Seq<ResolvedV>), XmlErrorV>,
) {
    let (entries, size, read, res) = spec_declare(st.scopes.entries, 0, Seq::empty(), attrs);
    match res {
        Err(e) => (NsStateV { scopes: NsStackV { entries, scopes: st.scopes.scopes }, ..st }, Err(e)),
        Ok(_) => {
            let st1 = NsStateV { scopes: NsStackV { entries, scopes: st.scopes.scopes.push(size) }, ..st };
            match spec_resolve_attrs(entries, read, Seq::empty()) {
                Err(e) => (st1, Err(e)),
                Ok(r) => match first_dup(r, 0) {
                    Some(i) => (st1, Err(XmlErrorV::NonUniqueAttribute(dup_text(r[i])))),
                    None => match spec_qname(tag) {
                        Err(e) => (st1, Err(e)),
                        Ok(q) => if q.local == "xmlns"@ {
                            (st1, Err(XmlErrorV::IllegalName(qname_text(q))))
                        } else {
                            match spec_element_ns(entries, q) {
                                Err(e) => (st1, Err(e)),
                                Ok(ns) => (NsStateV { elements: st.elements.push((q, ns)), ..st1 }, Ok((q, ns, r))),
                            }
                        },
                    },
                },
            }
        },
    }
}

/// What the namespace parser hands on.
pub enum NsEventV {
    Decl { version: Seq<char>, encoding: Option<Seq<char>>, standalone: Option<bool> },
    PI { target: Seq<char>, data: Option<Seq<char>> },
    Comment(Seq<char>),
    Start { tag: QNameV, namespace: Option<Seq<char>>, attrs: Seq<ResolvedV> },
    End { tag: QNameV, namespace: Option<Seq<char>> },
    Chars(Seq<char>),
    CharRef(Seq<char>),
}

/// The simple parser and the namespace state.
pub struct NsParserV {
    pub parser: crate::simple::steps::SimpleV,
    pub state: NsStateV,
}

/// One step: the simple parser's step, with start tags resolved and end tags given the
/// name and namespace of the element they close.
pub open spec fn spec_ns_next(p: NsParserV) -> (NsParserV, Result<Option<NsEventV>, XmlErrorV>) {
    let step = spec_simple_next(p.parser);
    let p1 = NsParserV { parser: step.p, ..p };
    match step.result {
        Err(e) => (p1, Err(e)),
        Ok(None) => (p1, Ok(None)),
        Ok(Some(ev)) => match ev {
            SimpleEventV::Start { tag, attrs } => {
                let (st, r) = spec_ns_start(p.state, tag, attrs);
                (
                    NsParserV { parser: step.p, state: st },
                    match r {
                        Err(e) => Err(e),
                        Ok((q, ns, ra)) => Ok(Some(NsEventV::Start { tag: q, namespace: ns, attrs: ra })),
                    },
                )
            },
            SimpleEventV::End(_) => (
                NsParserV {
                    parser: step.p,
                    state: NsStateV { elements: p.state.elements.drop_last(), ..p.state },
                },
                Ok(Some(NsEventV::End { tag: p.state.elements.last().0, namespace: p.state.elements.last().1 })),
            ),
            SimpleEventV::Decl { version, encoding, standalone } => (p1, Ok(Some(NsEventV::Decl { version, encoding, standalone }))),
            SimpleEventV::PI { target, data } => (p1, Ok(Some(NsEventV::PI { target, data }))),
            SimpleEventV::Comment(c) => (p1, Ok(Some(NsEventV::Comment(c)))),
            SimpleEventV::Chars(c) => (p1, Ok(Some(NsEventV::Chars(c)))),
            SimpleEventV::CharRef(c) => (p1, Ok(Some(NsEventV::CharRef(c)))),
        },
    }
}

/// An event of the namespace parser, before it goes to the visitor.
pub enum NsEvent<'i> {
    Decl(XmlDecl),
    PI(&'i str, Option<&'i str>),
    Comment(&'i str),
    Start(QName<'i>, Option<Namespace>, Vec<(Option<Namespace>, QName<'i>, Cow<'i, str>)>),
    End(QName<'i>, Option<Namespace>),
    Chars(&'i str),
    CharRef(String),
}

pub open spec fn resolved_view<'i>(a: (Option<Namespace>, QName<'i>, Cow<'i, str>)) -> ResolvedV {
    (opt_ns_view(a.0), a.1@, a.2@)
}

pub open spec fn ns_event_view<'i>(e: NsEvent<'i>) -> NsEventV {
    match e {
        NsEvent::Decl(d) => NsEventV::Decl {
            version: d.version@,
            encoding: crate::events::opt_string_view(d.encoding),
            standalone: d.standalone,
        },
        NsEvent::PI(t, d) => NsEventV::PI { target: t@, data: opt_str_view(d) },
        NsEvent::Comment(c) => NsEventV::Comment(c@),
        NsEvent::Start(q, ns, attrs) => NsEventV::Start {
            tag: q@,
            namespace: opt_ns_view(ns),
            attrs: attrs@.map_values(|a: (Option<Namespace>, QName<'i>, Cow<'i, str>)| resolved_view(a)),
        },
        NsEvent::End(q, ns) => NsEventV::End { tag: q@, namespace: opt_ns_view(ns) },
        NsEvent::Chars(c) => NsEventV::Chars(c@),
        NsEvent::CharRef(c) => NsEventV::CharRef(c@),
    }
}

pub open spec fn ns_result_view<'i>(r: Result<Option<NsEvent<'i>>, XmlError>) -> Result<Option<NsEventV>, XmlErrorV> {
    match r {
        Ok(Some(e)) => Ok(Some(ns_event_view(e))),
        Ok(None) => Ok(None),
        Err(e) => Err(e@),
    }
}

pub open spec fn read_view<'i>(v: Seq<(QName<'i>, Cow<'i, str>)>) -> Seq<(QNameV, Seq<char>)> {
    v.map_values(|a: (QName<'i>, Cow<'i, str>)| (a.0@, a.1@))
}

/// Reads the attributes from the `i`-th on into the scope being opened and onto `read`.
fn declare_attributes<'i, 'a>(
    scope: &mut NamespaceStackScopeBuilder<'i, 'a>,
    attrs: &Vec<(&'i str, Cow<'i, str>)>,
    i: usize,
    read: &mut Vec<(QName<'i>, Cow<'i, str>)>,
) -> (r: Result<(), XmlError>)
    requires
        old(scope).wf(),
        i <= attrs@.len(),
    ensures
        final(scope).wf(),
        *final(final(scope).stack) == *final(old(scope).stack),
        ({
            let sp = spec_declare(
                old(scope).current().entries,
                old(scope).size as nat,
                read_view(old(read)@),
                simple_attrs_view(attrs@).skip(i as int),
            );
            &&& final(scope).current().entries == sp.0
            &&& final(scope).current().scopes == old(scope).current().scopes
            &&& final(scope).size == sp.1
            &&& read_view(final(read)@) == sp.2
            &&& match r {
                Ok(_) => sp.3 is Ok,
                Err(e) => sp.3 == Err::<(), XmlErrorV>(e@),
            }
        }),
    decreases attrs@.len() - i,
{
    let ghost rest = simple_attrs_view(attrs@).skip(i as int);
    if i >= attrs.len() {
        proof {
            assert(rest.len() == 0);
        }
        return Ok(());
    }
    proof {
        assert(rest[0] == (attrs@[i as int].0@, attrs@[i as int].1@));
        assert(rest.drop_first() =~= simple_attrs_view(attrs@).skip(i + 1));
    }
    let name = attrs[i].0;
    let qname = QName::from_str(name)?;
    let v = cow_str(&attrs[i].1);
    proof {
        reveal_strlit("xmlns");
        reveal_strlit("xml");
    }
    let is_xmlns_prefix = match qname.prefix {
        Some(p) => str_eq(p, "xmlns"),
        None => false,
    };
    let empty_value = crate::text::first_char(v).is_none();
    if is_xmlns_prefix {
        if empty_value || (str_eq(qname.local, "xml") != str_eq(v, XML_URI)) || (str_eq(qname.local, "xmlns")
            != str_eq(v, XMLNS_URI)) {
            return Err(XmlError::IllegalNamespaceUri(v.to_owned()));
        }
        scope.add(qname.local, v.to_owned());
    } else if qname.prefix.is_none() && str_eq(qname.local, "xmlns") {
        if str_eq(v, XML_URI) || str_eq(v, XMLNS_URI) {
            return Err(XmlError::IllegalNamespaceUri(v.to_owned()));
        }
        if empty_value {
            scope.reset_default();
        } else {
            scope.set_default(v.to_owned());
        }
    }
    let ghost before = read_view(read@);
    read.push((qname, cow_clone(&attrs[i].1)));
    proof {
        assert(read_view(read@) =~= before.push((qname@, v@)));
    }
    declare_attributes(scope, attrs, i + 1, read)
}

/// The attributes from the `i`-th on, with their names resolved, after those in `acc`.
fn resolve_attributes<'i>(
    scopes: &NamespaceStack<'i>,
    read: &Vec<(QName<'i>, Cow<'i, str>)>,
) -> (r: Result<Vec<(Option<Namespace>, QName<'i>, Cow<'i, str>)>, XmlError>)
    ensures
        match r {
            Ok(v) => spec_resolve_attrs(scopes@.entries, read_view(read@), Seq::empty())
                == Ok::<Seq<ResolvedV>, XmlErrorV>(v@.map_values(
                |a: (Option<Namespace>, QName<'i>, Cow<'i, str>)| resolved_view(a),
            )),
            Err(e) => spec_resolve_attrs(scopes@.entries, read_view(read@), Seq::empty())
                == Err::<Seq<ResolvedV>, XmlErrorV>(e@),
        },
{
    let ghost entries = scopes@.entries;
    let ghost all = read_view(read@);
    let mut out: Vec<(Option<Namespace>, QName<'i>, Cow<'i, str>)> = Vec::new();
    let mut i: usize = 0;
    proof {
        assert(all.skip(0) =~= all);
        assert(out@.map_values(|a: (Option<Namespace>, QName<'i>, Cow<'i, str>)| resolved_view(a)) =~= Seq::<ResolvedV>::empty());
    }
    while i < read.len()
        invariant
            i <= read@.len(),
            entries == scopes@.entries,
            all == read_view(read@),
            spec_resolve_attrs(entries, all, Seq::empty()) == spec_resolve_attrs(
                entries,
                all.skip(i as int),
                out@.map_values(|a: (Option<Namespace>, QName<'i>, Cow<'i, str>)| resolved_view(a)),
            ),
        decreases read@.len() - i,
    {
        let qname = read[i].0;
        let ns = scopes.resolve_attribute_namespace(&qname)?;
        let ghost before = out@.map_values(|a: (Option<Namespace>, QName<'i>, Cow<'i, str>)| resolved_view(a));
        out.push((ns, qname, cow_clone(&read[i].1)));
        proof {
            assert(all.skip(i as int)[0] == all[i as int]);
            assert(all.skip(i as int).drop_first() =~= all.skip(i + 1));
            assert(out@.map_values(|a: (Option<Namespace>, QName<'i>, Cow<'i, str>)| resolved_view(a))
                =~= before.push((opt_ns_view(ns), qname@, read@[i as int].1@)));
        }
        i = i + 1;
    }
    proof {
        assert(all.skip(i as int).len() == 0);
    }
    Ok(out)
}

/// Two attributes share their namespace, which they have, and their local part.
fn same_attribute<'i>(
    a: &(Option<Namespace>, QName<'i>, Cow<'i, str>),
    b: &(Option<Namespace>, QName<'i>, Cow<'i, str>),
) -> (r: bool)
    ensures
        r == (resolved_view(*a).0 is Some && resolved_view(*a).0 == resolved_view(*b).0
            && resolved_view(*a).1.local == resolved_view(*b).1.local),
{
    match (&a.0, &b.0) {
        (Some(x), Some(y)) => str_eq(x.as_str(), y.as_str()) && str_eq(a.1.local, b.1.local),
        _ => false,
    }
}

/// Fails on the first attribute in a namespace that repeats an earlier one.
fn check_unique_attributes<'i>(attrs: &Vec<(Option<Namespace>, QName<'i>, Cow<'i, str>)>) -> (r: Result<(), XmlError>)
    ensures
        ({
            let v = attrs@.map_values(|a: (Option<Namespace>, QName<'i>, Cow<'i, str>)| resolved_view(a));
            match r {
                Ok(_) => first_dup(v, 0) is None,
                Err(e) => first_dup(v, 0) matches Some(i) && e@ == XmlErrorV::NonUniqueAttribute(dup_text(v[i])),
            }
        }),
{
    let ghost v = attrs@.map_values(|a: (Option<Namespace>, QName<'i>, Cow<'i, str>)| resolved_view(a));
    let mut i: usize = 0;
    while i < attrs.len()
        invariant
            i <= attrs@.len(),
            v == attrs@.map_values(|a: (Option<Namespace>, QName<'i>, Cow<'i, str>)| resolved_view(a)),
            first_dup(v, 0) == first_dup(v, i as nat),
        decreases attrs@.len() - i,
    {
        let mut j: usize = 0;
        while j < i
            invariant
                j <= i < attrs@.len(),
                first_dup(v, 0) == first_dup(v, i as nat),
                v == attrs@.map_values(|a: (Option<Namespace>, QName<'i>, Cow<'i, str>)| resolved_view(a)),
                forall|k: int| 0 <= k < j ==> !(v[i as int].0 is Some && v[k].0 == v[i as int].0 && #[trigger] v[k].1.local == v[i as int].1.local),
            decreases i - j,
        {
            let same = same_attribute(&attrs[i], &attrs[j]);
            proof {
                assert(v[i as int] == resolved_view(attrs@[i as int]));
                assert(v[j as int] == resolved_view(attrs@[j as int]));
            }
            if same {
                proof {
                    assert(v[j as int].1.local == v[i as int].1.local);
                    assert(is_dup(v, i as int));
                    reveal_strlit("{");
                    reveal_strlit("}");
                }
                let ns = match &attrs[i].0 {
                    Some(ns) => ns.as_str(),
                    None => {
                        return vstd::pervasive::unreached();
                    },
                };
                let mut text = "{".to_owned();
                text.append(ns);
                text.append("}");
                text.append(attrs[i].1.local);
                proof {
                    assert(text@ == dup_text(v[i as int]));
                    assert(v.len() == attrs@.len());
                    assert(first_dup(v, i as nat) == Some(i as int));
                }
                return Err(XmlError::NonUniqueAttribute { attribute: text });
            }
            j = j + 1;
        }
        proof {
            assert(!is_dup(v, i as int));
        }
        i = i + 1;
    }
    Ok(())
}

/// The namespace scopes and the open elements.
struct InnerState<'i> {
    scopes: NamespaceStack<'i>,
    stack: Vec<(QName<'i>, Option<Namespace>)>,
}

pub open spec fn element_view<'i>(e: (QName<'i>, Option<Namespace>)) -> (QNameV, Option<Seq<char>>) {
    (e.0@, opt_ns_view(e.1))
}

impl<'i> InnerState<'i> {
    spec fn view(&self) -> NsStateV {
        NsStateV {
            scopes: self.scopes@,
            elements: self.stack@.map_values(|e: (QName<'i>, Option<Namespace>)| element_view(e)),
        }
    }

    /// Opens the scope of a start tag's namespace declarations and reads its attributes.
    fn build_scope(&mut self, attrs: &Vec<(&'i str, Cow<'i, str>)>) -> (r: Result<Vec<(QName<'i>, Cow<'i, str>)>, XmlError>)
        requires
            old(self).scopes.wf(),
        ensures
            final(self).scopes.wf(),
            final(self).stack == old(self).stack,
            ({
                let sp = spec_declare(old(self).scopes@.entries, 0, Seq::empty(), simple_attrs_view(attrs@));
                match r {
                    Ok(v) => sp.3 is Ok && read_view(v@) == sp.2 && final(self).scopes@ == (NsStackV {
                        entries: sp.0,
                        scopes: old(self).scopes@.scopes.push(sp.1),
                    }),
                    Err(e) => sp.3 == Err::<(), XmlErrorV>(e@) && final(self).scopes@ == (NsStackV {
                        entries: sp.0,
                        scopes: old(self).scopes@.scopes,
                    }),
                }
            }),
    {
        let mut read: Vec<(QName<'i>, Cow<'i, str>)> = Vec::new();
        proof {
            assert(read_view(read@) =~= Seq::<(QNameV, Seq<char>)>::empty());
            assert(simple_attrs_view(attrs@).skip(0) =~= simple_attrs_view(attrs@));
        }
        let mut scope = self.scopes.build_scope();
        let res = declare_attributes(&mut scope, attrs, 0, &mut read);
        match res {
            Err(e) => Err(e),
            Ok(()) => {
                scope.finish();
                Ok(read)
            },
        }
    }

    /// A start tag with its attributes, as `spec_ns_start` gives it.
    fn start_element(&mut self, tag: &'i str, attrs: Vec<(&'i str, Cow<'i, str>)>) -> (r: Result<
        (QName<'i>, Option<Namespace>, Vec<(Option<Namespace>, QName<'i>, Cow<'i, str>)>),
        XmlError,
    >)
        requires
            old(self).scopes.wf(),
        ensures
            final(self).scopes.wf(),
            ({
                let sp = spec_ns_start(old(self).view(), tag@, simple_attrs_view(attrs@));
                &&& final(self).view() == sp.0
                &&& match r {
                    Ok((q, ns, ra)) => sp.1 == Ok::<(QNameV, Option<Seq<char>>, Seq<ResolvedV>), XmlErrorV>((
                        q@,
                        opt_ns_view(ns),
                        ra@.map_values(|a: (Option<Namespace>, QName<'i>, Cow<'i, str>)| resolved_view(a)),
                    )),
                    Err(e) => sp.1 == Err::<(QNameV, Option<Seq<char>>, Seq<ResolvedV>), XmlErrorV>(e@),
                }
            }),
    {
        let read = self.build_scope(&attrs)?;
        let resolved = resolve_attributes(&self.scopes, &read)?;
        check_unique_attributes(&resolved)?;
        let qname = QName::from_str(tag)?;
        proof {
            reveal_strlit("xmlns");
        }
        if str_eq(qname.local, "xmlns") {
            return Err(XmlError::IllegalName { name: qname.to_string() });
        }
        let namespace = self.scopes.resolve_element_namespace(&qname)?;
        let ghost before = self.view().elements;
        self.stack.push((qname, duplicate_ns(&namespace)));
        proof {
            assert(self.view().elements =~= before.push((qname@, opt_ns_view(namespace))));
        }
        Ok((qname, namespace, resolved))
    }
}


/// Visitor of the events of the namespace parser.
pub trait SimpleNsXmlVisitor<'i>: Sized {
    type Value;

    fn visit_start_element<A: NsAttributeAccess<'i>>(
        self,
        tag: QName<'i>,
        namespace: Option<Namespace>,
        attrs: A,
    ) -> Result<Self::Value, XmlError>;

    fn visit_end_element(self, tag: QName<'i>, namespace: Option<Namespace>) -> Result<Self::Value, XmlError>;

    fn visit_declaration(self, decl: XmlDecl) -> Result<Self::Value, XmlError>;

    fn visit_characters(self, characters: &'i str) -> Result<Self::Value, XmlError>;

    fn visit_borrowed_characters(self, characters: &str) -> Result<Self::Value, XmlError>;

    fn visit_pi(self, target: &'i str, data: Option<&'i str>) -> Result<Self::Value, XmlError>;

    fn visit_comment(self, comment: &'i str) -> Result<Self::Value, XmlError>;
}

/// The attributes of a start tag, with their namespaces, handed to a visitor one after
/// the other.
pub trait NsAttributeAccess<'i>: Sized {
    fn next_entries(&self) -> usize;

    fn next_entry<K: QNameVisitor<'i>, V: StrVisitor<'i>>(
        &mut self,
        key_visitor: K,
        value_visitor: V,
    ) -> Result<Option<(K::Value, V::Value)>, XmlError>;
}

/// Visitor of a qualified name and its namespace.
pub trait QNameVisitor<'i>: Sized {
    type Value;

    fn visit_qname(self, key: QName<'i>, namespace: Option<Namespace>) -> Result<Self::Value, XmlError>;
}

/// The resolved attributes of a start tag, handed out one after the other.
pub struct AttrAccessAdapter<'i> {
    attrs: Vec<(Option<Namespace>, QName<'i>, Cow<'i, str>)>,
    next: usize,
}

impl<'i> AttrAccessAdapter<'i> {
    /// The attributes: namespace, name and value.
    pub closed spec fn spec_attrs(&self) -> Seq<(Option<Namespace>, QName<'i>, Cow<'i, str>)> {
        self.attrs@
    }

    /// How many attributes were handed out.
    pub closed spec fn spec_next(&self) -> nat {
        self.next as nat
    }
}

impl<'i> NsAttributeAccess<'i> for AttrAccessAdapter<'i> {
    /// How many attributes are left to hand out.
    fn next_entries(&self) -> (r: usize)
        ensures
            r == (if self.spec_next() < self.spec_attrs().len() {
                self.spec_attrs().len() - self.spec_next()
            } else {
                0
            }),
    {
        if self.next < self.attrs.len() {
            self.attrs.len() - self.next
        } else {
            0
        }
    }

    /// The next attribute, its name and namespace handed to the key visitor and its
    /// value to `visit_cow` of the value visitor; none after the last one.
    fn next_entry<K: QNameVisitor<'i>, V: StrVisitor<'i>>(
        &mut self,
        key_visitor: K,
        value_visitor: V,
    ) -> (r: Result<Option<(K::Value, V::Value)>, XmlError>)
        ensures
            final(self).spec_attrs() == old(self).spec_attrs(),
            old(self).spec_next() < old(self).spec_attrs().len() ==> {
                let (ns, name, value) = old(self).spec_attrs()[old(self).spec_next() as int];
                &&& final(self).spec_next() == old(self).spec_next() + 1
                &&& match r {
                    Ok(Some((k, v))) => (exists|n: Option<Namespace>| opt_ns_view(n) == opt_ns_view(ns)
                        && call_ensures(K::visit_qname, (key_visitor, name, n), Ok::<K::Value, XmlError>(k)))
                        && exists|c: Cow<'i, str>| c@ == value@ && call_ensures(V::visit_cow, (value_visitor, c), Ok::<V::Value, XmlError>(v)),
                    Ok(None) => false,
                    Err(e) => (exists|n: Option<Namespace>| opt_ns_view(n) == opt_ns_view(ns)
                        && call_ensures(K::visit_qname, (key_visitor, name, n), Err::<K::Value, XmlError>(e)))
                        || exists|c: Cow<'i, str>| c@ == value@ && call_ensures(V::visit_cow, (value_visitor, c), Err::<V::Value, XmlError>(e)),
                }
            },
            old(self).spec_next() >= old(self).spec_attrs().len() ==> r is Ok && r->Ok_0 is None
                && final(self).spec_next() == old(self).spec_next(),
    {
        if self.next < self.attrs.len() {
            let namespace = duplicate_ns(&self.attrs[self.next].0);
            let qname = self.attrs[self.next].1;
            let value = cow_clone(&self.attrs[self.next].2);
            self.next = self.next + 1;
            let key = match key_visitor.visit_qname(qname, namespace) {
                Ok(k) => k,
                Err(e) => {
                    return Err(e);
                },
            };
            let value = match value_visitor.visit_cow(value) {
                Ok(v) => v,
                Err(e) => {
                    return Err(e);
                },
            };
            Ok(Some((key, value)))
        } else {
            Ok(None)
        }
    }
}

/// `r` is what the visitor's method for the kind of `ev` gave on the event's content:
/// names with their namespaces, and for a start tag its resolved attributes.
pub open spec fn ns_visited<'i, V: SimpleNsXmlVisitor<'i>>(visitor: V, ev: NsEventV, r: Result<V::Value, XmlError>) -> bool {
    match ev {
        NsEventV::Decl { version, encoding, standalone } => exists|d: XmlDecl|
            d.version@ == version && crate::events::opt_string_view(d.encoding) == encoding && d.standalone == standalone
                && call_ensures(V::visit_declaration, (visitor, d), r),
        NsEventV::PI { target, data } => exists|t: &'i str, d: Option<&'i str>|
            t@ == target && opt_str_view(d) == data && call_ensures(V::visit_pi, (visitor, t, d), r),
        NsEventV::Comment(c) => exists|t: &'i str| t@ == c && call_ensures(V::visit_comment, (visitor, t), r),
        NsEventV::Start { tag, namespace, attrs } => exists|q: QName<'i>, ns: Option<Namespace>, a: AttrAccessAdapter<'i>|
            q@ == tag && opt_ns_view(ns) == namespace
                && a.spec_attrs().map_values(|x: (Option<Namespace>, QName<'i>, Cow<'i, str>)| resolved_view(x)) == attrs
                && a.spec_next() == 0
                && call_ensures(V::visit_start_element::<AttrAccessAdapter<'i>>, (visitor, q, ns, a), r),
        NsEventV::End { tag, namespace } => exists|q: QName<'i>, ns: Option<Namespace>|
            q@ == tag && opt_ns_view(ns) == namespace && call_ensures(V::visit_end_element, (visitor, q, ns), r),
        NsEventV::Chars(c) => exists|t: &'i str| t@ == c && call_ensures(V::visit_characters, (visitor, t), r),
        NsEventV::CharRef(c) => exists|t: &str| t@ == c && call_ensures(V::visit_borrowed_characters, (visitor, t), r),
    }
}

/// A parser that resolves the names of elements and attributes to their namespaces, over
/// the simple parser.
///
/// Does not support DTDs and only UTF-8 strings.
pub struct SimpleNsXmlParser<'i> {
    parser: SimpleXmlParser<'i>,
    state: InnerState<'i>,
}

impl<'i> View for SimpleNsXmlParser<'i> {
    type V = NsParserV;

    closed spec fn view(&self) -> NsParserV {
        NsParserV { parser: self.parser@, state: self.state.view() }
    }
}

impl<'i> SimpleNsXmlParser<'i> {
    /// The parser stands in its input, its scopes fit, and an element is recorded for
    /// each one the simple parser has open.
    pub closed spec fn wf(&self) -> bool {
        &&& self.parser.wf()
        &&& self.state.scopes.wf()
        &&& self.state.stack@.len() == self.parser@.stack.len()
    }

    /// The whole input.
    pub closed spec fn input(&self) -> Seq<char> {
        self.parser.input()
    }

    pub fn from_str(input: &'i str) -> (r: Self)
        ensures
            r.wf(),
            r.input() == input@,
            r@.parser.rest == input@,
            r@.parser.stack.len() == 0,
            r@.parser.state == crate::simple::ParserState::XmlDecl,
            r@.state == (NsStateV { scopes: initial_ns_stack(), elements: Seq::empty() }),
    {
        let r = Self {
            parser: SimpleXmlParser::from_str(input),
            state: InnerState { scopes: NamespaceStack::new(), stack: Vec::new() },
        };
        proof {
            assert(r.state.view().elements =~= Seq::<(QNameV, Option<Seq<char>>)>::empty());
        }
        r
    }

    /// The byte offset in the input where the parser stands.
    pub fn cursor_offset(&self) -> (r: usize)
        requires
            self.wf(),
        ensures
            r == crate::text::blen(self.input().take(self.input().len() - self@.parser.rest.len())),
    {
        self.parser.cursor_offset()
    }

    /// What is left of the input.
    pub fn unparsed(&self) -> (r: &'i str)
        ensures
            r@ == self@.parser.rest,
    {
        self.parser.unparsed()
    }

    /// The next event with its names resolved, none after the end of the document, or
    /// the error.
    pub fn next_event(&mut self) -> (r: Result<Option<NsEvent<'i>>, XmlError>)
        requires
            old(self).wf(),
        ensures
            (final(self)@, ns_result_view(r)) == spec_ns_next(old(self)@),
            r is Ok ==> final(self).wf(),
    {
        proof {
            self.parser.lemma_wf_parts();
            lemma_stack_discipline(self.parser@);
        }
        let ev = match self.parser.next_event() {
            Ok(ev) => ev,
            Err(e) => {
                return Err(e);
            },
        };
        match ev {
            None => Ok(None),
            Some(SimpleEvent::Decl(d)) => Ok(Some(NsEvent::Decl(d))),
            Some(SimpleEvent::PI(t, d)) => Ok(Some(NsEvent::PI(t, d))),
            Some(SimpleEvent::Comment(c)) => Ok(Some(NsEvent::Comment(c))),
            Some(SimpleEvent::Chars(c)) => Ok(Some(NsEvent::Chars(c))),
            Some(SimpleEvent::CharRef(c)) => Ok(Some(NsEvent::CharRef(c))),
            Some(SimpleEvent::Start(tag, attrs)) => {
                let (qname, namespace, resolved) = self.state.start_element(tag, attrs)?;
                proof {
                    assert(self.state.view().elements.len() == self.parser@.stack.len());
                }
                Ok(Some(NsEvent::Start(qname, namespace, resolved)))
            },
            Some(SimpleEvent::End(_)) => {
                let ghost before = self.state.view().elements;
                let (qname, namespace) = match self.state.stack.pop() {
                    Some(e) => e,
                    None => {
                        return vstd::pervasive::unreached();
                    },
                };
                proof {
                    assert(self.state.view().elements =~= before.drop_last());
                    assert(self.state.view().elements.len() == self.parser@.stack.len());
                }
                Ok(Some(NsEvent::End(qname, namespace)))
            },
        }
    }

    /// Reads the next event and hands it to the visitor: `None` after the end of the
    /// document. The start tag's attributes go to the visitor one after the other.
    pub fn parse_next<V: SimpleNsXmlVisitor<'i>>(&mut self, visitor: V) -> (r: Result<Option<V::Value>, XmlError>)
        requires
            old(self).wf(),
        ensures
            final(self)@ == spec_ns_next(old(self)@).0,
            spec_ns_next(old(self)@).1 is Ok ==> final(self).wf(),
            match spec_ns_next(old(self)@).1 {
                Err(e) => r matches Err(x) && x@ == e,
                Ok(None) => r matches Ok(None),
                Ok(Some(ev)) => match r {
                    Ok(Some(v)) => ns_visited(visitor, ev, Ok::<V::Value, XmlError>(v)),
                    Ok(None) => false,
                    Err(e) => ns_visited(visitor, ev, Err::<V::Value, XmlError>(e)),
                },
            },
    {
        let ev = match self.next_event() {
            Ok(ev) => ev,
            Err(e) => {
                return Err(e);
            },
        };
        let r = match ev {
            None => {
                return Ok(None);
            },
            Some(NsEvent::Decl(d)) => visitor.visit_declaration(d),
            Some(NsEvent::PI(t, d)) => visitor.visit_pi(t, d),
            Some(NsEvent::Comment(c)) => visitor.visit_comment(c),
            Some(NsEvent::Chars(c)) => visitor.visit_characters(c),
            Some(NsEvent::CharRef(c)) => visitor.visit_borrowed_characters(c.as_str()),
            Some(NsEvent::Start(q, ns, attrs)) => visitor.visit_start_element(q, ns, AttrAccessAdapter { attrs, next: 0 }),
            Some(NsEvent::End(q, ns)) => visitor.visit_end_element(q, ns),
        };
        match r {
            Ok(v) => Ok(Some(v)),
            Err(e) => Err(e),
        }
    }
}

} // verus!
