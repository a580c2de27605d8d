//! Document type declarations.
use vstd::prelude::*;

use crate::events::{opt_view, PI};

verus! {

/// Document Type Definition
#[derive(Debug, PartialEq)]
pub struct DocTypeDecl {
    root_element_name: String,
    external_id: Option<ExternalId>,
    int_subset: Option<IntSubset>,
}

/// External ID
#[derive(Clone, Debug, PartialEq)]
pub enum ExternalId {
    System { system: String },
    Public { pub_id: String, system: String },
}

/// Internal Subset
#[derive(Debug, PartialEq)]
pub struct IntSubset {
    decls: Vec<MarkupDeclEntry>,
}

/// Element Type Declaration
///
/// Section 3.2
#[derive(Debug, PartialEq)]
pub struct Element {
    pub name: String,
    pub content_spec: ContentSpec,
}

#[derive(Debug, PartialEq)]
pub enum ContentSpec {
    Empty,
    Any,
    Mixed(Vec<String>),
    PCData,
    Children(ContentParticle),
}

#[derive(Debug, PartialEq)]
pub struct ContentParticle {
    pub entry: ContentParticleEntry,
    pub repetition: Repetition,
}

#[derive(Debug, PartialEq)]
pub enum ContentParticleEntry {
    Name(String),
    Choice(Vec<ContentParticle>),
    Sequence(Vec<ContentParticle>),
}

#[derive(Clone, Copy, Debug, PartialEq, Eq, Structural)]
pub enum Repetition {
    One,
    ZeroOrMore,
    OneOrMore,
    ZeroOrOne,
}

/// How many times a content particle with the repetition may occur, `count` being one of
/// them: exactly once, any number of times, at least once, or at most once.
pub open spec fn repetition_allows(r: Repetition, count: nat) -> bool {
    match r {
        Repetition::One => count == 1,
        Repetition::ZeroOrMore => true,
        Repetition::OneOrMore => count >= 1,
        Repetition::ZeroOrOne => count <= 1,
    }
}

#[derive(Clone, Debug, PartialEq)]
pub enum EntityDef {
    Internal(String),
    External { external_id: ExternalId, ndata: Option<String> },
}

#[derive(Clone, Debug, PartialEq)]
pub struct GEDecl {
    pub name: String,
    pub def: EntityDef,
}

#[derive(Clone, Debug, PartialEq)]
pub enum PEDef {
    Internal(String),
    External(ExternalId),
}

#[derive(Clone, Debug, PartialEq)]
pub struct PEDecl {
    pub name: String,
    pub def: PEDef,
}

/// Entry of Markup Declaration
#[derive(Debug, PartialEq)]
pub enum MarkupDeclEntry {
    Element(Element),
    AttList(String),
    GeneralEntity(GEDecl),
    ParameterEntity(PEDecl),
    Notation(String),
    PI(PI<'static>),
    Comment(String),
    PEReference(String),
}

/// The abstract content of an external identifier.
pub enum ExternalIdV {
    System(Seq<char>),
    Public(Seq<char>, Seq<char>),
}

/// The abstract content of a content particle.
pub struct ContentParticleV {
    pub entry: ContentParticleEntryV,
    pub repetition: Repetition,
}

pub enum ContentParticleEntryV {
    Name(Seq<char>),
    Choice(Seq<ContentParticleV>),
    Sequence(Seq<ContentParticleV>),
}

pub enum ContentSpecV {
    Empty,
    Any,
    Mixed(Seq<Seq<char>>),
    PCData,
    Children(ContentParticleV),
}

pub enum EntityDefV {
    Internal(Seq<char>),
    External(ExternalIdV, Option<Seq<char>>),
}

pub enum PEDefV {
    Internal(Seq<char>),
    External(ExternalIdV),
}

pub enum MarkupDeclV {
    Element(Seq<char>, ContentSpecV),
    AttList(Seq<char>),
    GeneralEntity(Seq<char>, EntityDefV),
    ParameterEntity(Seq<char>, PEDefV),
    Notation(Seq<char>),
    PI(Seq<char>, Option<Seq<char>>),
    Comment(Seq<char>),
    PEReference(Seq<char>),
}

/// The abstract content of a document type declaration.
pub struct DocTypeDeclV {
    pub name: Seq<char>,
    pub external_id: Option<ExternalIdV>,
    pub int_subset: Option<Seq<MarkupDeclV>>,
}

impl View for ExternalId {
    type V = ExternalIdV;

    open spec fn view(&self) -> ExternalIdV {
        match self {
            ExternalId::System { system } => ExternalIdV::System(system@),
            ExternalId::Public { pub_id, system } => ExternalIdV::Public(pub_id@, system@),
        }
    }
}

/// The text of each string of a sequence.
pub open spec fn strings_view(v: Seq<String>) -> Seq<Seq<char>> {
    Seq::new(v.len(), |i: int| v[i]@)
}

/// The abstract content of a content particle.
pub open spec fn cp_view(cp: ContentParticle) -> ContentParticleV
    decreases cp,
{
    ContentParticleV {
        entry: match cp.entry {
            ContentParticleEntry::Name(n) => ContentParticleEntryV::Name(n@),
            ContentParticleEntry::Choice(v) => ContentParticleEntryV::Choice(
                Seq::new(
                    v@.len(),
                    |i: int|
                        if 0 <= i < v@.len() {
                            cp_view(v@[i])
                        } else {
                            ContentParticleV {
                                entry: ContentParticleEntryV::Name(Seq::empty()),
                                repetition: Repetition::One,
                            }
                        },
                ),
            ),
            ContentParticleEntry::Sequence(v) => ContentParticleEntryV::Sequence(
                Seq::new(
                    v@.len(),
                    |i: int|
                        if 0 <= i < v@.len() {
                            cp_view(v@[i])
                        } else {
                            ContentParticleV {
                                entry: ContentParticleEntryV::Name(Seq::empty()),
                                repetition: Repetition::One,
                            }
                        },
                ),
            ),
        },
        repetition: cp.repetition,
    }
}

/// The content particles' abstract contents.
pub open spec fn cps_view(v: Seq<ContentParticle>) -> Seq<ContentParticleV> {
    Seq::new(v.len(), |i: int| cp_view(v[i]))
}

/// The abstract content of a particle made of a group.
pub proof fn lemma_cp_view_group(cp: ContentParticle)
    ensures
        cp.entry matches ContentParticleEntry::Choice(v) ==> cp_view(cp) == (ContentParticleV {
            entry: ContentParticleEntryV::Choice(cps_view(v@)),
            repetition: cp.repetition,
        }),
        cp.entry matches ContentParticleEntry::Sequence(v) ==> cp_view(cp) == (ContentParticleV {
            entry: ContentParticleEntryV::Sequence(cps_view(v@)),
            repetition: cp.repetition,
        }),
{
    match cp.entry {
        ContentParticleEntry::Choice(v) => {
            if let ContentParticleEntryV::Choice(w) = cp_view(cp).entry {
                assert(w =~= cps_view(v@));
            }
        },
        ContentParticleEntry::Sequence(v) => {
            if let ContentParticleEntryV::Sequence(w) = cp_view(cp).entry {
                assert(w =~= cps_view(v@));
            }
        },
        _ => {},
    }
}

pub open spec fn content_spec_view(c: ContentSpec) -> ContentSpecV {
    match c {
        ContentSpec::Empty => ContentSpecV::Empty,
        ContentSpec::Any => ContentSpecV::Any,
        ContentSpec::Mixed(v) => ContentSpecV::Mixed(strings_view(v@)),
        ContentSpec::PCData => ContentSpecV::PCData,
        ContentSpec::Children(cp) => ContentSpecV::Children(cp_view(cp)),
    }
}

pub open spec fn entity_def_view(d: EntityDef) -> EntityDefV {
    match d {
        EntityDef::Internal(s) => EntityDefV::Internal(s@),
        EntityDef::External { external_id, ndata } => EntityDefV::External(
            external_id@,
            match ndata {
                Some(n) => Some(n@),
                None => None,
            },
        ),
    }
}

pub open spec fn pe_def_view(d: PEDef) -> PEDefV {
    match d {
        PEDef::Internal(s) => PEDefV::Internal(s@),
        PEDef::External(e) => PEDefV::External(e@),
    }
}

pub open spec fn markup_decl_view(m: MarkupDeclEntry) -> MarkupDeclV {
    match m {
        MarkupDeclEntry::Element(e) => MarkupDeclV::Element(e.name@, content_spec_view(e.content_spec)),
        MarkupDeclEntry::AttList(s) => MarkupDeclV::AttList(s@),
        MarkupDeclEntry::GeneralEntity(g) => MarkupDeclV::GeneralEntity(g.name@, entity_def_view(g.def)),
        MarkupDeclEntry::ParameterEntity(p) => MarkupDeclV::ParameterEntity(p.name@, pe_def_view(p.def)),
        MarkupDeclEntry::Notation(s) => MarkupDeclV::Notation(s@),
        MarkupDeclEntry::PI(pi) => MarkupDeclV::PI(pi.target@, opt_view(pi.data)),
        MarkupDeclEntry::Comment(s) => MarkupDeclV::Comment(s@),
        MarkupDeclEntry::PEReference(s) => MarkupDeclV::PEReference(s@),
    }
}

pub open spec fn markup_decls_view(v: Seq<MarkupDeclEntry>) -> Seq<MarkupDeclV> {
    Seq::new(v.len(), |i: int| markup_decl_view(v[i]))
}

impl View for IntSubset {
    type V = Seq<MarkupDeclV>;

    closed spec fn view(&self) -> Seq<MarkupDeclV> {
        markup_decls_view(self.decls@)
    }
}

impl View for DocTypeDecl {
    type V = DocTypeDeclV;

    closed spec fn view(&self) -> DocTypeDeclV {
        DocTypeDeclV {
            name: self.root_element_name@,
            external_id: opt_external_id_view(self.external_id),
            int_subset: opt_subset_view(self.int_subset),
        }
    }
}

/// The declarations of an optional internal subset.
pub open spec fn opt_subset_view(s: Option<IntSubset>) -> Option<Seq<MarkupDeclV>> {
    match s {
        Some(s) => Some(s@),
        None => None,
    }
}

/// The abstract content of an optional external identifier.
pub open spec fn opt_external_id_view(e: Option<ExternalId>) -> Option<ExternalIdV> {
    match e {
        Some(e) => Some(e@),
        None => None,
    }
}

/// A copy of the external identifier.
fn copy_external_id(e: &ExternalId) -> (r: ExternalId)
    ensures
        r@ == e@,
{
    match e {
        ExternalId::System { system } => ExternalId::System { system: system.clone() },
        ExternalId::Public { pub_id, system } => ExternalId::Public {
            pub_id: pub_id.clone(),
            system: system.clone(),
        },
    }
}

impl DocTypeDecl {
    pub fn new(root_element_name: String, external_id: Option<ExternalId>, int_subset: Option<IntSubset>) -> (r: Self)
        ensures
            r@ == (DocTypeDeclV {
                name: root_element_name@,
                external_id: opt_external_id_view(external_id),
                int_subset: opt_subset_view(int_subset),
            }),
    {
        Self { root_element_name, external_id, int_subset }
    }

    pub fn root_element_name(&self) -> (r: &str)
        ensures
            r@ == self@.name,
    {
        self.root_element_name.as_str()
    }

    pub fn external_id(&self) -> (r: Option<ExternalId>)
        ensures
            match r {
                Some(e) => self@.external_id == Some(e@),
                None => self@.external_id is None,
            },
    {
        match &self.external_id {
            Some(e) => Some(copy_external_id(e)),
            None => None,
        }
    }

    pub fn internal_subset(&self) -> (r: &Option<IntSubset>)
        ensures
            opt_subset_view(*r) == self@.int_subset,
    {
        &self.int_subset
    }
}

impl IntSubset {
    pub fn new(decls: Vec<MarkupDeclEntry>) -> (r: Self)
        ensures
            r@ == markup_decls_view(decls@),
    {
        Self { decls }
    }

    pub fn decls(&self) -> (r: &[MarkupDeclEntry])
        ensures
            markup_decls_view(r@) == self@,
    {
        self.decls.as_slice()
    }
}

impl MarkupDeclEntry {
    pub fn new_element(name: String, content: ContentSpec) -> (r: Self)
        ensures
            r == (MarkupDeclEntry::Element(Element { name, content_spec: content })),
    {
        Self::Element(Element { name, content_spec: content })
    }

    pub fn new_entity(name: String, def: EntityDef) -> (r: Self)
        ensures
            r == (MarkupDeclEntry::GeneralEntity(GEDecl { name, def })),
    {
        Self::GeneralEntity(GEDecl { name, def })
    }
}

} // verus!
