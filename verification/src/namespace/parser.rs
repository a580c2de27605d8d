//! The namespace-aware reader: the events of the pull reader with their names split
//! into prefix and local part, and a scope of declarations for each element.
use vstd::prelude::*;

use crate::events::{attrs_view, cow_clone, cow_str, opt_string_view, opt_view, Attribute, EventV, XmlError, XmlErrorV, XmlEvent};
use crate::namespace::stack::{decls_popped, DeclStackV, NamespaceStack, NamespaceStackScopeBuilder, NsDeclV};
use crate::namespace::{ns_event_view, NsAttribute, NsETag, NsEventV, NsSTag, QName, XmlNsEvent};
use crate::pull::{lemma_pull_depth, spec_pull_next, PullV, Reader};
use crate::reader::tokens::str_eq;
use crate::simple::namespace::{spec_qname, QNameV};

verus! {

/// The declaration an attribute makes: one where its prefix is `xmlns`, with the local
/// part as prefix and the value as URI.
pub open spec fn xmlns_decl(q: QNameV, value: Seq<char>) -> Seq<NsDeclV> {
    if q.prefix == Some("xmlns"@) {
        seq![(Some(q.local), value)]
    } else {
        Seq::empty()
    }
}

/// Reading the attributes of a start tag in order: the declarations they make, the
/// attributes with their names split, and the error of the first name that cannot be
/// split, after which no attribute is read.
pub open spec fn spec_scan(attrs: Seq<(Seq<char>, Seq<char>)>) -> (Seq<NsDeclV>, Seq<(QNameV, Seq<char>)>, Result<(), XmlErrorV>)
    decreases attrs.len(),
{
    if attrs.len() == 0 {
        (Seq::empty(), Seq::empty(), Ok(()))
    } else {
        let (d, a, r) = spec_scan(attrs.drop_last());
        match r {
            Err(e) => (d, a, Err(e)),
            Ok(_) => match spec_qname(attrs.last().0) {
                Err(e) => (d, a, Err(e)),
                Ok(q) => (d + xmlns_decl(q, attrs.last().1), a.push((q, attrs.last().1)), Ok(())),
            },
        }
    }
}

/// Once a name could not be split, reading further attributes changes nothing.
proof fn lemma_scan_stops(attrs: Seq<(Seq<char>, Seq<char>)>, i: int, j: int)
    requires
        0 <= i <= j <= attrs.len(),
        spec_scan(attrs.take(i)).2 is Err,
    ensures
        spec_scan(attrs.take(j)) == spec_scan(attrs.take(i)),
    decreases j - i,
{
    if j > i {
        lemma_scan_stops(attrs, i, j - 1);
        assert(attrs.take(j).drop_last() =~= attrs.take(j - 1));
    }
}

/// An attribute with its name split, as text.
pub open spec fn ns_attr_view<'a>(a: NsAttribute<'a>) -> (QNameV, Seq<char>) {
    (a.qname@, a.value@)
}

/// Splits the names of the attributes of a start tag, keeps them in `out` and adds the
/// namespaces that they declare to the scope.
fn declare_attributes<'a, 'b>(
    scope: &mut NamespaceStackScopeBuilder<'b>,
    attrs: &Vec<Attribute<'a>>,
    out: &mut Vec<NsAttribute<'a>>,
) -> (r: Result<(), XmlError>)
    requires
        old(scope).wf(),
    ensures
        ({
            let (d, a, res) = spec_scan(attrs_view(attrs@));
            &&& final(scope).wf()
            &&& (*final(scope).stack)@ == (DeclStackV {
                decls: (*old(scope).stack)@.decls + d,
                scopes: (*old(scope).stack)@.scopes,
            })
            &&& final(scope).size == old(scope).size + d.len()
            &&& *final(final(scope).stack) == *final(old(scope).stack)
            &&& final(out)@.map_values(|x: NsAttribute<'a>| ns_attr_view(x)) == old(out)@.map_values(
                |x: NsAttribute<'a>| ns_attr_view(x),
            ) + a
            &&& match r {
                Ok(_) => res is Ok,
                Err(e) => res == Err::<(), XmlErrorV>(e@),
            }
        }),
{
    let ghost av = attrs_view(attrs@);
    let ghost decls0 = (*scope.stack)@.decls;
    let ghost scopes0 = (*scope.stack)@.scopes;
    let ghost size0 = scope.size;
    let ghost out0 = out@.map_values(|x: NsAttribute<'a>| ns_attr_view(x));
    let ghost fin = *final(scope.stack);
    proof {
        assert(av.take(0) =~= Seq::<(Seq<char>, Seq<char>)>::empty());
        assert(out0 + Seq::<(QNameV, Seq<char>)>::empty() =~= out0);
        assert(decls0 + Seq::<NsDeclV>::empty() =~= decls0);
    }
    let mut i: usize = 0;
    let mut result: Result<(), XmlError> = Ok(());
    while i < attrs.len() && result.is_ok()
        invariant
            i <= attrs@.len(),
            av == attrs_view(attrs@),
            av.len() == attrs@.len(),
            scope.wf(),
            (*scope.stack)@ == (DeclStackV { decls: decls0 + spec_scan(av.take(i as int)).0, scopes: scopes0 }),
            scope.size == size0 + spec_scan(av.take(i as int)).0.len(),
            *final(scope.stack) == fin,
            out@.map_values(|x: NsAttribute<'a>| ns_attr_view(x)) == out0 + spec_scan(av.take(i as int)).1,
            match result {
                Ok(_) => spec_scan(av.take(i as int)).2 is Ok,
                Err(e) => spec_scan(av) == (
                    spec_scan(av.take(i as int)).0,
                    spec_scan(av.take(i as int)).1,
                    Err::<(), XmlErrorV>(e@),
                ),
            },
        decreases attrs@.len() - i, (if result is Ok { 1int } else { 0int }),
    {
        let ghost before = spec_scan(av.take(i as int));
        let attr = &attrs[i];
        proof {
            assert(av.take(i + 1).drop_last() =~= av.take(i as int));
            assert(av.take(i + 1).last() == av[i as int]);
            assert(av[i as int] == (attr.name@, attr.value@));
        }
        match QName::from_cow(cow_clone(&attr.name)) {
            Err(e) => {
                proof {
                    assert(spec_qname(av.take(i + 1).last().0) == Err::<QNameV, XmlErrorV>(e@));
                    assert(spec_scan(av.take(i + 1)) == (before.0, before.1, Err::<(), XmlErrorV>(e@)));
                    lemma_scan_stops(av, i + 1, av.len() as int);
                    assert(av.take(av.len() as int) =~= av);
                }
                result = Err(e);
            },
            Ok(qname) => {
                let is_decl = match &qname.prefix {
                    Some(prefix) => {
                        proof {
                            reveal_strlit("xmlns");
                        }
                        str_eq(cow_str(prefix), "xmlns")
                    },
                    None => false,
                };
                let ghost d_new = xmlns_decl(qname@, attr.value@);
                if is_decl {
                    let local = cow_str(&qname.local_part).to_owned();
                    let uri = cow_str(&attr.value).to_owned();
                    scope.add_prefix(Some(local), uri);
                    proof {
                        assert(d_new =~= seq![(Some(qname@.local), attr.value@)]);
                        assert(decls0 + before.0 + d_new =~= (decls0 + before.0).push((Some(qname@.local), attr.value@)));
                    }
                } else {
                    proof {
                        assert(d_new =~= Seq::<NsDeclV>::empty());
                    }
                }
                proof {
                    assert(decls0 + (before.0 + d_new) =~= decls0 + before.0 + d_new);
                    assert(decls0 + before.0 + Seq::<NsDeclV>::empty() =~= decls0 + before.0);
                }
                let ghost item = (qname@, attr.value@);
                let ghost old_out = out@;
                let made = NsAttribute::new(qname, cow_clone(&attr.value));
                assert(ns_attr_view(made) == item);
                out.push(made);
                proof {
                    assert(out@ =~= old_out.push(made));
                    assert(out@.map_values(|x: NsAttribute<'a>| ns_attr_view(x)) =~= old_out.map_values(
                        |x: NsAttribute<'a>| ns_attr_view(x),
                    ).push(item));
                    assert(out@.map_values(|x: NsAttribute<'a>| ns_attr_view(x)) =~= out0 + before.1.push(item));
                }
                i = i + 1;
            },
        }
    }
    proof {
        if result is Ok {
            assert(av.take(i as int) =~= av);
        }
    }
    result
}

/// What the namespace-aware reader holds, as text: the pull reader, the declarations of
/// the open scopes and the attributes of the last start tag.
pub struct NsReaderV {
    pub reader: PullV,
    pub namespaces: DeclStackV,
    pub attributes: Seq<(QNameV, Seq<char>)>,
}

/// The outcome of a step with the names of the event split.
pub open spec fn ns_result_view<'a>(r: Result<Option<XmlNsEvent<'a>>, XmlError>) -> Result<Option<NsEventV>, XmlErrorV> {
    match r {
        Ok(Some(e)) => Ok(Some(ns_event_view(e))),
        Ok(None) => Ok(None),
        Err(e) => Err(e@),
    }
}

/// An event of the pull reader that carries no name, as it is.
pub open spec fn unnamed_event(e: EventV) -> NsEventV {
    match e {
        EventV::XmlDecl { version, encoding, standalone } => NsEventV::XmlDecl { version, encoding, standalone },
        EventV::Dtd(d) => NsEventV::Dtd(d),
        EventV::Characters(c) => NsEventV::Characters(c),
        EventV::PI { target, data } => NsEventV::PI { target, data },
        EventV::Comment(c) => NsEventV::Comment(c),
        _ => NsEventV::Characters(Seq::empty()),
    }
}

/// A named event: the name split, or the error of splitting it.
pub open spec fn named_event(name: Seq<char>, make: spec_fn(QNameV) -> NsEventV) -> Result<Option<NsEventV>, XmlErrorV> {
    match spec_qname(name) {
        Ok(q) => Ok(Some(make(q))),
        Err(e) => Err(e),
    }
}

/// One step of the namespace-aware reader: a step of the pull reader, then for a start
/// tag the declarations of its attributes in a new scope and its name split, for an end
/// tag the innermost scope closed and its name split; other events as they come.
pub open spec fn spec_ns_next(s: NsReaderV) -> (NsReaderV, Result<Option<NsEventV>, XmlErrorV>) {
    let (p, res) = spec_pull_next(s.reader)->0;
    let base = NsReaderV { reader: p, namespaces: s.namespaces, attributes: Seq::empty() };
    match res {
        Err(e) => (base, Err(e)),
        Ok(None) => (base, Ok(None)),
        Ok(Some(ev)) => match ev {
            EventV::STag { name, empty, attrs } => {
                let (d, a, sr) = spec_scan(attrs);
                let decls = s.namespaces.decls + d;
                match sr {
                    Err(e) => (
                        NsReaderV { namespaces: DeclStackV { decls, scopes: s.namespaces.scopes }, attributes: a, ..base },
                        Err(e),
                    ),
                    Ok(_) => (
                        NsReaderV {
                            namespaces: DeclStackV { decls, scopes: s.namespaces.scopes.push(d.len()) },
                            attributes: a,
                            ..base
                        },
                        named_event(name, |q: QNameV| NsEventV::STag { qname: q, empty }),
                    ),
                }
            },
            EventV::ETag(name) => (
                NsReaderV { namespaces: decls_popped(s.namespaces), ..base },
                named_event(name, |q: QNameV| NsEventV::ETag(q)),
            ),
            _ => (base, Ok(Some(unnamed_event(ev)))),
        },
    }
}

pub struct NsReader<'a> {
    reader: Reader<'a>,
    namespaces: NamespaceStack,
    attributes: Vec<NsAttribute<'a>>,
}

impl<'a> View for NsReader<'a> {
    type V = NsReaderV;

    closed spec fn view(&self) -> NsReaderV {
        NsReaderV {
            reader: self.reader@,
            namespaces: self.namespaces@,
            attributes: self.attributes@.map_values(|x: NsAttribute<'a>| ns_attr_view(x)),
        }
    }
}

impl<'a> NsReader<'a> {
    /// The pull reader is sound, and each element it holds open has its scope.
    pub closed spec fn wf(&self) -> bool {
        &&& self.reader.wf()
        &&& self.namespaces.wf()
        &&& self.namespaces@.scopes.len() >= self.reader@.depth
    }

    pub fn new(input: &'a str) -> (r: Self)
        ensures
            r.wf(),
            r@.reader == (PullV {
                rest: input@,
                depth: 0,
                empty: false,
                seen_root: false,
                version: None,
                standalone: None,
                attrs: Seq::empty(),
            }),
            r@.namespaces.decls.len() == 0,
            r@.namespaces.scopes.len() == 0,
            r@.attributes.len() == 0,
    {
        let r = Self {
            reader: Reader::new(input),
            namespaces: NamespaceStack::default(),
            attributes: Vec::with_capacity(4),
        };
        proof {
            assert(r@.attributes =~= Seq::<(QNameV, Seq<char>)>::empty());
        }
        r
    }

    /// The next event, with its names split into prefix and local part.
    pub fn next(&'a mut self) -> (r: Result<Option<XmlNsEvent<'a>>, XmlError>)
        requires
            old(self).wf(),
            spec_pull_next(old(self)@.reader) is Some,
        ensures
            final(self).wf(),
            (final(self)@, ns_result_view(r)) == spec_ns_next(old(self)@),
    {
        let ghost s = self@;
        proof {
            self.reader.lemma_empty_is_open();
            lemma_pull_depth(s.reader);
        }
        self.attributes.clear();
        proof {
            assert(self@.attributes =~= Seq::<(QNameV, Seq<char>)>::empty());
        }
        let evt = match self.reader.next() {
            Ok(evt) => evt,
            Err(e) => {
                return Err(e);
            },
        };
        match evt {
            None => Ok(None),
            Some(XmlEvent::STag(stag)) => {
                let mut scope = self.namespaces.build_scope();
                match declare_attributes(&mut scope, &stag.attrs, &mut self.attributes) {
                    Ok(()) => {},
                    Err(e) => {
                        return Err(e);
                    },
                }
                scope.finish();
                match QName::from_cow(stag.name) {
                    Ok(qname) => Ok(Some(XmlNsEvent::STag(NsSTag { qname, empty: stag.empty }))),
                    Err(e) => Err(e),
                }
            },
            Some(XmlEvent::ETag(etag)) => {
                self.namespaces.pop_scope();
                match QName::from_cow(etag.name) {
                    Ok(qname) => Ok(Some(XmlNsEvent::ETag(NsETag::new(qname)))),
                    Err(e) => Err(e),
                }
            },
            Some(XmlEvent::Characters(chars)) => Ok(Some(XmlNsEvent::Characters(chars))),
            Some(XmlEvent::XmlDecl(decl)) => Ok(Some(XmlNsEvent::XmlDecl(decl))),
            Some(XmlEvent::Dtd(dtd)) => Ok(Some(XmlNsEvent::Dtd(dtd))),
            Some(XmlEvent::PI(pi)) => Ok(Some(XmlNsEvent::PI(pi))),
            Some(XmlEvent::Comment(comment)) => Ok(Some(XmlNsEvent::Comment(comment))),
        }
    }
}

} // verus!
