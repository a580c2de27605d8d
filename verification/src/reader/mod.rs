//! XML pull reader.
use std::borrow::Cow;

use vstd::prelude::*;

use crate::events::{attrs_view, cow_clone, cow_str, owned_event_view, Attribute, EventV, XmlError, XmlErrorV, XmlEvent};
use crate::parser::cursor::{lemma_skipped_trans, Cursor};
use crate::reader::entities::{lookup, Entities, Entity};
use crate::reader::machine::{
    after_root, ctx_after, ends_input, lemma_no_element_after_root, lemma_step_ends_at_depth_zero, lemma_step_keeps,
    lemma_step_stack, machine_stack_step, step_keeps, no_entity_refs, opens_element, result_view, spec_step, state_wf, step,
    DocumentContext, ParserState, StateV, StepV,
};
use crate::text::blen;

pub mod chars;
pub mod dtd;
pub mod entities;
pub mod machine;
pub mod tokens;

verus! {

/// The entities that every document has, by name and text.
pub open spec fn predefined_entities() -> Seq<(Seq<char>, Seq<char>)> {
    seq![
        ("lt"@, "&#60;"@),
        ("gt"@, "&#62;"@),
        ("amp"@, "&#38;"@),
        ("apos"@, "&#39;"@),
        ("quot"@, "&#34;"@),
    ]
}

/// The state before the first event.
pub open spec fn initial_state() -> StateV {
    StateV { attrs: Seq::empty(), empty: false, seen_root: false, stack: Seq::empty(), version: None }
}

/// One step of a document's parser, with the predefined entities.
#[verifier::opaque]
pub open spec fn document_step(st: StateV, rest: Seq<char>) -> StepV {
    spec_step(st, rest, predefined_entities(), true)
}

/// The first `n` steps of a document's parser from the state `st` on the text `rest`,
/// each taken where the one before left off.
pub open spec fn document_run(st: StateV, rest: Seq<char>, n: nat) -> Seq<StepV>
    decreases n,
{
    if n == 0 {
        Seq::empty()
    } else {
        let prev = document_run(st, rest, (n - 1) as nat);
        let from = if prev.len() == 0 {
            (st, rest)
        } else {
            (prev.last().state, prev.last().rest)
        };
        prev.push(document_step(from.0, from.1))
    }
}

/// The state in which step `i` of a run is taken.
pub open spec fn state_before(st: StateV, run: Seq<StepV>, i: int) -> StateV {
    if i == 0 {
        st
    } else {
        run[i - 1].state
    }
}

/// The text on which step `i` of a run is taken.
pub open spec fn rest_before(rest: Seq<char>, run: Seq<StepV>, i: int) -> Seq<char> {
    if i == 0 {
        rest
    } else {
        run[i - 1].rest
    }
}

/// Each step of a run is the step from where the one before it left off.
proof fn lemma_run_steps(st: StateV, rest: Seq<char>, n: nat)
    ensures
        document_run(st, rest, n).len() == n,
        forall|i: int|
            0 <= i < n ==> #[trigger] document_run(st, rest, n)[i] == document_step(
                state_before(st, document_run(st, rest, n), i),
                rest_before(rest, document_run(st, rest, n), i),
            ),
    decreases n,
{
    if n > 0 {
        lemma_run_steps(st, rest, (n - 1) as nat);
        let prev = document_run(st, rest, (n - 1) as nat);
        let run = document_run(st, rest, n);
        assert forall|i: int| 0 <= i < n implies #[trigger] run[i] == document_step(
            state_before(st, run, i),
            rest_before(rest, run, i),
        ) by {
            if i < n - 1 {
                assert(run[i] == prev[i]);
                if i > 0 {
                    assert(run[i - 1] == prev[i - 1]);
                }
            } else if i > 0 {
                assert(run[i - 1] == prev.last());
            }
        }
    }
}

/// What one step of a run keeps, where the state it starts from is well formed.
proof fn lemma_run_step_facts(st: StateV, rest: Seq<char>, n: nat, i: int)
    requires
        0 <= i < n,
        state_wf(state_before(st, document_run(st, rest, n), i)),
    ensures
        ({
            let run = document_run(st, rest, n);
            let b = state_before(st, run, i);
            &&& step_keeps(b, run[i])
            &&& machine_stack_step(b.stack, run[i])
            &&& ends_input(run[i]) ==> run[i].state.stack.len() == 0
            &&& after_root(b) ==> !opens_element(run[i])
            &&& b.empty ==> run[i].result == Ok::<Option<EventV>, XmlErrorV>(
                Some(EventV::ETag(b.stack.last())),
            )
        }),
{
    let run = document_run(st, rest, n);
    let b = state_before(st, run, i);
    let r = rest_before(rest, run, i);
    lemma_run_steps(st, rest, n);
    assert(run[i] == document_step(b, r));
    reveal(document_step);
    lemma_step_keeps(b, r, predefined_entities(), true);
    lemma_step_stack(b, r, predefined_entities(), true);
    lemma_step_ends_at_depth_zero(b, r, predefined_entities(), true);
    if after_root(b) {
        lemma_no_element_after_root(b, r, predefined_entities(), true);
    }
}

/// Every state of a run from a well-formed state is well formed.
proof fn lemma_run_wf(st: StateV, rest: Seq<char>, n: nat, i: int)
    requires
        state_wf(st),
        0 <= i < n,
    ensures
        state_wf(state_before(st, document_run(st, rest, n), i)),
    decreases i,
{
    if i > 0 {
        lemma_run_wf(st, rest, n, i - 1);
        lemma_run_step_facts(st, rest, n, i - 1);
    }
}

/// Once the root element began and ended, it stays so while the steps succeed.
proof fn lemma_after_root_stays(st: StateV, rest: Seq<char>, n: nat, i: int, j: int)
    requires
        state_wf(st),
        0 <= i <= j < n,
        after_root(state_before(st, document_run(st, rest, n), i)),
        forall|k: int| i <= k < j ==> (#[trigger] document_run(st, rest, n)[k]).result is Ok,
    ensures
        after_root(state_before(st, document_run(st, rest, n), j)),
    decreases j - i,
{
    if j > i {
        let run = document_run(st, rest, n);
        lemma_after_root_stays(st, rest, n, i, j - 1);
        lemma_run_wf(st, rest, n, j - 1);
        lemma_run_step_facts(st, rest, n, j - 1);
        assert(run[j - 1].result is Ok);
    }
}

/// The start tag of an empty element is followed at once by its end tag.
proof fn lemma_run_empty_tag(st: StateV, rest: Seq<char>, n: nat, i: int)
    requires
        state_wf(st),
        0 <= i < n - 1,
    ensures
        document_run(st, rest, n)[i].result matches Ok(Some(EventV::STag { name, empty: true, .. }))
            ==> document_run(st, rest, n)[i + 1].result == Ok::<Option<EventV>, XmlErrorV>(Some(EventV::ETag(name))),
{
    lemma_run_wf(st, rest, n, i);
    lemma_run_step_facts(st, rest, n, i);
    lemma_run_wf(st, rest, n, i + 1);
    lemma_run_step_facts(st, rest, n, i + 1);
}

/// Over the events of a document, from its start: every end tag closes the innermost open
/// element and carries its name, a start tag opens one, and other events leave the open
/// elements as they are; the input ends only where no element is open; and once the root
/// element has begun and ended, no later event opens an element, as long as no error came
/// in between.
pub proof fn lemma_document_run(rest: Seq<char>, n: nat)
    ensures
        ({
            let run = document_run(initial_state(), rest, n);
            &&& run.len() == n
            &&& forall|i: int|
                0 <= i < n ==> machine_stack_step(state_before(initial_state(), run, i).stack, #[trigger] run[i])
            &&& forall|i: int| 0 <= i < n ==> ends_input(#[trigger] run[i]) ==> run[i].state.stack.len() == 0
            &&& forall|i: int|
                0 <= i < n - 1 ==> ((#[trigger] run[i]).result matches Ok(Some(EventV::STag { name, empty: true, .. }))
                    ==> run[i + 1].result == Ok::<Option<EventV>, XmlErrorV>(Some(EventV::ETag(name))))
            &&& forall|i: int, j: int|
                #![trigger state_before(initial_state(), run, i), run[j]]
                0 <= i <= j < n && after_root(state_before(initial_state(), run, i)) && (forall|k: int|
                    i <= k < j ==> (#[trigger] run[k]).result is Ok) ==> !opens_element(run[j])
        }),
{
    let st = initial_state();
    let run = document_run(st, rest, n);
    lemma_run_steps(st, rest, n);
    assert forall|i: int| 0 <= i < n implies machine_stack_step(state_before(st, run, i).stack, #[trigger] run[i])
        && (ends_input(run[i]) ==> run[i].state.stack.len() == 0) by {
        lemma_run_wf(st, rest, n, i);
        lemma_run_step_facts(st, rest, n, i);
    }
    assert forall|i: int| 0 <= i < n - 1 implies ((#[trigger] run[i]).result matches Ok(
        Some(EventV::STag { name, empty: true, .. }),
    ) ==> run[i + 1].result == Ok::<Option<EventV>, XmlErrorV>(Some(EventV::ETag(name)))) by {
        lemma_run_empty_tag(st, rest, n, i);
    }
    assert forall|i: int, j: int|
        #![trigger state_before(st, run, i), run[j]]
        0 <= i <= j < n && after_root(state_before(st, run, i)) && (forall|k: int|
            i <= k < j ==> (#[trigger] run[k]).result is Ok) implies !opens_element(run[j]) by {
        lemma_after_root_stays(st, rest, n, i, j);
        lemma_run_wf(st, rest, n, j);
        lemma_run_step_facts(st, rest, n, j);
    }
}

/// The parser of the document itself.
pub struct DocumentParser<'a> {
    cursor: Cursor<'a>,
    state: ParserState<'a>,
}

impl<'a> DocumentParser<'a> {
    /// The state of the parser.
    pub closed spec fn state(&self) -> StateV {
        self.state@
    }

    /// Where the parser stands in the document.
    pub closed spec fn position(&self) -> Cursor<'a> {
        self.cursor
    }

    pub fn new(input: &'a str) -> (r: Self)
        ensures
            r.state() == initial_state(),
            r.position()@ == input@,
            r.position().spec_offset() == 0,
    {
        DocumentParser { cursor: Cursor::new(input), state: ParserState::new() }
    }

    /// The next event of the document, or none at its end or before an entity's text.
    pub fn next(&mut self, ctx: &mut DocumentContext) -> (r: Result<Option<XmlEvent<'a>>, XmlError>)
        requires
            state_wf(old(self).state()),
        ensures
            ({
                let sp = spec_step(old(self).state(), old(self).position()@, old(ctx).entities@, true);
                &&& final(self).state() == sp.state
                &&& final(self).position()@ == sp.rest
                &&& result_view(r) == sp.result
                &&& ctx_after(*old(ctx), *final(ctx), sp)
            }),
            state_wf(final(self).state()),
            old(self).position().followed_by(final(self).position()),
    {
        let (cursor, r) = step(&mut self.state, self.cursor, ctx, true);
        self.cursor = cursor;
        r
    }

    /// The root element has not begun yet.
    pub fn is_prolog(&self) -> (r: bool)
        ensures
            r == !self.state().seen_root,
    {
        !self.state.seen_root
    }

    /// The attributes of the last start tag.
    pub fn attributes(&self) -> (r: &[Attribute<'a>])
        ensures
            attrs_view(r@) == self.state().attrs,
    {
        self.state.attributes.as_slice()
    }

    /// Takes the attributes of the last start tag out of the parser.
    pub fn drain_attributes(&mut self) -> (r: Vec<Attribute<'a>>)
        ensures
            attrs_view(r@) == old(self).state().attrs,
            final(self).state() == (StateV { attrs: Seq::empty(), ..old(self).state() }),
            final(self).position() == old(self).position(),
    {
        let mut out = Vec::new();
        std::mem::swap(&mut out, &mut self.state.attributes);
        proof {
            assert(attrs_view(self.state.attributes@) =~= Seq::<(Seq<char>, Seq<char>)>::empty());
        }
        out
    }

    /// The byte offset in the document where the parser stands.
    pub fn offset(&self) -> (r: usize)
        ensures
            r == self.position().spec_offset(),
    {
        self.cursor.offset()
    }
}

/// The abstract state of reading an entity's text: the parser's state, the text and the
/// rest of it.
pub struct FrameV {
    pub state: StateV,
    pub text: Seq<char>,
    pub rest: Seq<char>,
}

/// Reading an entity's text: the entity, the parser's state and how far it went, in
/// bytes and (for the proofs) in characters.
pub struct EntityParserState {
    entity: Entity,
    state: ParserState<'static>,
    offset: usize,
    pos: Ghost<int>,
}

impl EntityParserState {
    /// The offset stands at a character of the text, and the state owes no end tag that
    /// it cannot give.
    pub closed spec fn wf(&self) -> bool {
        &&& 0 <= self.pos@ <= self.entity.text().len()
        &&& self.offset == blen(self.entity.text().take(self.pos@))
        &&& state_wf(self.state@)
    }

    pub closed spec fn frame(&self) -> FrameV {
        FrameV {
            state: self.state@,
            text: self.entity.text(),
            rest: self.entity.text().skip(self.pos@),
        }
    }

    /// The entity whose text is read.
    pub closed spec fn spec_entity(&self) -> Entity {
        self.entity
    }

    /// The byte offset in the text where reading stands.
    pub closed spec fn byte_offset(&self) -> usize {
        self.offset
    }

    pub fn new(entity: Entity) -> (r: Self)
        ensures
            r.wf(),
            r.frame() == (FrameV { state: initial_state(), text: entity.text(), rest: entity.text() }),
            r.spec_entity() == entity,
    {
        let r = EntityParserState { entity, state: ParserState::new(), offset: 0, pos: Ghost(0) };
        proof {
            assert(r.entity.text().take(0) =~= Seq::<char>::empty());
            assert(vstd::utf8::encode_utf8(Seq::<char>::empty()) =~= Seq::<u8>::empty());
            assert(r.entity.text().skip(0) =~= r.entity.text());
        }
        r
    }

    /// The entity whose text is read.
    pub fn entity(&self) -> (r: &Entity)
        ensures
            *r == self.spec_entity(),
    {
        &self.entity
    }

    /// The attributes of the last start tag in the text.
    pub fn attributes(&self) -> (r: &[Attribute<'static>])
        ensures
            attrs_view(r@) == self.frame().state.attrs,
    {
        self.state.attributes.as_slice()
    }

    /// Takes the attributes of the last start tag out of the state.
    pub fn drain_attributes(&mut self) -> (r: Vec<Attribute<'static>>)
        requires
            old(self).wf(),
        ensures
            final(self).wf(),
            final(self).spec_entity() == old(self).spec_entity(),
            attrs_view(r@) == old(self).frame().state.attrs,
            final(self).frame() == (FrameV {
                state: StateV { attrs: Seq::empty(), ..old(self).frame().state },
                ..old(self).frame()
            }),
    {
        let mut out = Vec::new();
        std::mem::swap(&mut out, &mut self.state.attributes);
        proof {
            assert(attrs_view(self.state.attributes@) =~= Seq::<(Seq<char>, Seq<char>)>::empty());
        }
        out
    }

    /// The byte offset in the text where reading stands.
    pub fn offset(&self) -> (r: usize)
        ensures
            r == self.byte_offset(),
    {
        self.offset
    }

    /// The rest of the text.
    pub fn unparsed(&self) -> (r: &str)
        requires
            self.wf(),
        ensures
            r@ == self.frame().rest,
    {
        let text = self.entity.text_str();
        proof {
            crate::text::lemma_blen_split(text@, self.pos@);
        }
        Cursor::new(text).skip_chars(self.pos, self.offset).rest()
    }

    /// One step of reading the text; the event is made to own its texts.
    fn run(self, ctx: &mut DocumentContext) -> (r: (EntityParserState, Result<Option<XmlEvent<'static>>, XmlError>))
        requires
            self.wf(),
        ensures
            r.0.wf(),
            r.0.spec_entity() == self.spec_entity(),
            ({
                let sp = spec_step(self.frame().state, self.frame().rest, old(ctx).entities@, false);
                &&& r.0.frame() == (FrameV { state: sp.state, rest: sp.rest, ..self.frame() })
                &&& result_view(r.1) == owned_result(sp.result)
                &&& ctx_after(*old(ctx), *final(ctx), sp)
            }),
    {
        let EntityParserState { entity, state, offset, pos } = self;
        let text = entity.text_str();
        let start = Cursor::new(text);
        proof {
            crate::text::lemma_blen_split(text@, pos@);
        }
        let cursor = start.skip_chars(pos, offset);
        let mut parser = EntityParser { cursor, state };
        let result = parser.next(ctx);
        let ghost j = (cursor@.len() - parser.cursor@.len()) as int;
        proof {
            lemma_skipped_trans(start, cursor, parser.cursor, pos@, j);
        }
        let owned = match result {
            Ok(Some(e)) => Ok(Some(e.into_owned())),
            Ok(None) => Ok(None),
            Err(e) => Err(e),
        };
        let new_offset = parser.cursor.offset();
        let new_state = parser.state.into_owned();
        (EntityParserState { entity, state: new_state, offset: new_offset, pos: Ghost(pos@ + j) }, owned)
    }
}

/// The result of a step, with start tags no longer marked empty, as `into_owned` leaves them.
pub open spec fn owned_result(r: Result<Option<EventV>, XmlErrorV>) -> Result<Option<EventV>, XmlErrorV> {
    match r {
        Ok(Some(EventV::STag { name, empty, attrs })) => Ok(Some(EventV::STag { name, empty: false, attrs })),
        _ => r,
    }
}

/// The parser of an entity's text.
pub struct EntityParser<'a> {
    cursor: Cursor<'a>,
    state: ParserState<'a>,
}

impl<'a> EntityParser<'a> {
    /// The state of the parser.
    pub closed spec fn state(&self) -> StateV {
        self.state@
    }

    /// Where the parser stands in the text.
    pub closed spec fn position(&self) -> Cursor<'a> {
        self.cursor
    }

    /// The next event of the text, or none at its end or before another entity's text.
    pub fn next(&mut self, ctx: &mut DocumentContext) -> (r: Result<Option<XmlEvent<'a>>, XmlError>)
        requires
            state_wf(old(self).state()),
        ensures
            ({
                let sp = spec_step(old(self).state(), old(self).position()@, old(ctx).entities@, false);
                &&& final(self).state() == sp.state
                &&& final(self).position()@ == sp.rest
                &&& result_view(r) == sp.result
                &&& ctx_after(*old(ctx), *final(ctx), sp)
            }),
            state_wf(final(self).state()),
            old(self).position().followed_by(final(self).position()),
    {
        let (cursor, r) = step(&mut self.state, self.cursor, ctx, false);
        self.cursor = cursor;
        r
    }

    /// No root element began in the text yet.
    pub fn is_prolog(&self) -> (r: bool)
        ensures
            r == !self.state().seen_root,
    {
        !self.state.seen_root
    }
}

/// The abstract state of a reader: the document parser's state and the rest of the
/// document, the entity texts being read (innermost last) and `standalone` of the XML
/// declaration.
pub struct ReaderV {
    pub input: Seq<char>,
    pub root: StateV,
    pub rest: Seq<char>,
    pub subs: Seq<FrameV>,
    pub standalone: Option<bool>,
}

/// XML Pull Parser
pub struct Reader<'a> {
    root_parser: DocumentParser<'a>,
    sub_parsers: Vec<EntityParserState>,
    ctx: DocumentContext,
    input: Ghost<Seq<char>>,
}

/// The frames of the entity texts being read.
pub open spec fn frames_view(v: Seq<EntityParserState>) -> Seq<FrameV> {
    v.map_values(|e: EntityParserState| e.frame())
}

impl<'a> View for Reader<'a> {
    type V = ReaderV;

    closed spec fn view(&self) -> ReaderV {
        ReaderV {
            input: self.input@,
            root: self.root_parser.state(),
            rest: self.root_parser.position()@,
            subs: frames_view(self.sub_parsers@),
            standalone: self.ctx.standalone,
        }
    }
}

/// `rest` is what is left of `text` after its first `offset` bytes.
pub open spec fn suffix_at(text: Seq<char>, rest: Seq<char>, offset: nat) -> bool {
    &&& rest.len() <= text.len()
    &&& text.skip(text.len() - rest.len()) == rest
    &&& offset == blen(text.take(text.len() - rest.len()))
}

/// The text of an optional string slice.
pub open spec fn opt_str_seq(o: Option<&str>) -> Option<Seq<char>> {
    match o {
        Some(t) => Some(t@),
        None => None,
    }
}

/// The text of an optional `Cow<str>`.
pub open spec fn opt_cow_seq<'a>(o: Option<Cow<'a, str>>) -> Option<Seq<char>> {
    match o {
        Some(t) => Some(t@),
        None => None,
    }
}

/// The step that a state takes on its rest with the predefined entities.
pub open spec fn entity_step(f: FrameV) -> (FrameV, Result<Option<EventV>, XmlErrorV>, bool) {
    let sp = spec_step(f.state, f.rest, predefined_entities(), false);
    (FrameV { state: sp.state, rest: sp.rest, ..f }, owned_result(sp.result), sp.standalone is Some)
}

/// A step of the document: where an entity reference gives no event, the first event of
/// the entity's text follows.
pub open spec fn root_round(r: ReaderV) -> (ReaderV, Result<Option<EventV>, XmlErrorV>) {
    let sp = spec_step(r.root, r.rest, predefined_entities(), true);
    let sd = match sp.standalone {
        Some(x) => x,
        None => r.standalone,
    };
    let r1 = ReaderV { root: sp.state, rest: sp.rest, standalone: sd, ..r };
    match sp.entity {
        Some(name) => {
            let text = lookup(predefined_entities(), name)->0;
            let f0 = FrameV { state: initial_state(), text, rest: text };
            let sp2 = spec_step(f0.state, f0.rest, predefined_entities(), false);
            let sd2 = match sp2.standalone {
                Some(x) => x,
                None => sd,
            };
            (
                ReaderV {
                    subs: r1.subs.push(FrameV { state: sp2.state, rest: sp2.rest, ..f0 }),
                    standalone: sd2,
                    ..r1
                },
                owned_result(sp2.result),
            )
        },
        None => (r1, sp.result),
    }
}

/// What `Reader::next` gives: the next event of the innermost entity text being read,
/// which is left at its end; otherwise the next event of the document.
pub open spec fn spec_reader_next(r: ReaderV) -> (ReaderV, Result<Option<EventV>, XmlErrorV>) {
    if r.subs.len() > 0 {
        let f = r.subs.last();
        let sp = spec_step(f.state, f.rest, predefined_entities(), false);
        let sd = match sp.standalone {
            Some(x) => x,
            None => r.standalone,
        };
        if sp.result == Ok::<Option<EventV>, XmlErrorV>(None) {
            root_round(ReaderV { subs: r.subs.drop_last(), standalone: sd, ..r })
        } else {
            (
                ReaderV {
                    subs: r.subs.drop_last().push(FrameV { state: sp.state, rest: sp.rest, ..f }),
                    standalone: sd,
                    ..r
                },
                owned_result(sp.result),
            )
        }
    } else {
        root_round(r)
    }
}

impl<'a> Reader<'a> {
    /// The reader's parts fit together: the entities are the predefined ones, no entity
    /// is left pending, and each parser's state is well formed.
    pub closed spec fn wf(&self) -> bool {
        &&& self.ctx.entities@ == predefined_entities()
        &&& self.ctx.next_entity is None
        &&& state_wf(self.root_parser.state())
        &&& suffix_at(self.input@, self.root_parser.position()@, self.root_parser.position().spec_offset())
        &&& forall|i: int| 0 <= i < self.sub_parsers@.len() ==> (#[trigger] self.sub_parsers@[i]).wf()
        &&& forall|i: int|
            0 <= i < self.sub_parsers@.len() ==> lookup(
                predefined_entities(),
                (#[trigger] self.sub_parsers@[i]).spec_entity().name(),
            ) == Some(self.sub_parsers@[i].spec_entity().text())
    }


    pub fn new(input: &'a str) -> (r: Self)
        ensures
            r.wf(),
            r@ == (ReaderV {
                input: input@,
                root: initial_state(),
                rest: input@,
                subs: Seq::empty(),
                standalone: None,
            }),
    {
        let r = Reader {
            root_parser: DocumentParser::new(input),
            sub_parsers: Vec::new(),
            ctx: DocumentContext {
                standalone: None,
                version: None,
                entities: Entities::new(),
                next_entity: None,
            },
            input: Ghost(input@),
        };
        proof {
            assert(frames_view(r.sub_parsers@) =~= Seq::<FrameV>::empty());
            assert(input@.take(0) =~= Seq::<char>::empty());
            assert(vstd::utf8::encode_utf8(Seq::<char>::empty()) =~= Seq::<u8>::empty());
            assert(input@.skip(0) =~= input@);
        }
        r
    }
}

/// The texts of the predefined entities hold no entity references.
proof fn lemma_predefined_safe(name: Seq<char>)
    ensures
        lookup(predefined_entities(), name) matches Some(t) ==> no_entity_refs(t),
{
    reveal_strlit("&#60;");
    reveal_strlit("&#62;");
    reveal_strlit("&#38;");
    reveal_strlit("&#39;");
    reveal_strlit("&#34;");
    reveal_with_fuel(lookup, 6);
    let p = predefined_entities();
    assert forall|k: int| 0 <= k < 5 implies no_entity_refs(#[trigger] p[k].1) by {
        let t = p[k].1;
        assert(t.len() == 5);
        assert(t[0] == '&' && t[1] == '#');
        assert forall|i: int| 0 <= i < t.len() && #[trigger] t[i] == '&' implies i + 1 < t.len() && t[i + 1] == '#' by {
            if i > 0 {
                assert(t[i] != '&');
            }
        }
    }
    assert(p.drop_first().drop_first().drop_first().drop_first().drop_first().len() == 0);
}

/// Reading on from a position in a text keeps the position in the text.
pub proof fn lemma_suffix_step<'a>(text: Seq<char>, c1: Cursor<'a>, c2: Cursor<'a>)
    requires
        suffix_at(text, c1@, c1.spec_offset()),
        c1.followed_by(c2),
    ensures
        suffix_at(text, c2@, c2.spec_offset()),
{
    let a = text.len() - c1@.len();
    let j = c1@.len() - c2@.len();
    assert(text.take(a + j) =~= text.take(a) + c1@.take(j));
    crate::text::lemma_encode_utf8_concat(text.take(a), c1@.take(j));
    assert(text.skip(a + j) =~= c1@.skip(j));
}

/// What is left of a text without entity references has none either.
proof fn lemma_no_entity_refs_skip(t: Seq<char>, k: int)
    requires
        no_entity_refs(t),
        0 <= k <= t.len(),
    ensures
        no_entity_refs(t.skip(k)),
{
    let r = t.skip(k);
    assert forall|i: int| 0 <= i < r.len() && #[trigger] r[i] == '&' implies i + 1 < r.len() && r[i + 1] == '#' by {
        assert(t[i + k] == '&');
    }
}

/// The innermost entity text being read, as the reader shows it.
pub open spec fn top_frame(r: ReaderV) -> Option<FrameV> {
    if r.subs.len() > 0 {
        Some(r.subs.last())
    } else {
        None
    }
}

/// The name of the innermost open element: in the innermost entity text being read
/// where one is open there, else in the document.
pub open spec fn spec_top_name(r: ReaderV) -> Option<Seq<char>> {
    match top_frame(r) {
        Some(f) if f.state.stack.len() > 0 => Some(f.state.stack.last()),
        _ => if r.root.stack.len() > 0 {
            Some(r.root.stack.last())
        } else {
            None
        },
    }
}

/// The attributes of the last start tag: in the innermost entity text being read, or
/// in the document.
pub open spec fn spec_attributes(r: ReaderV) -> Seq<(Seq<char>, Seq<char>)> {
    match top_frame(r) {
        Some(f) => f.state.attrs,
        None => r.root.attrs,
    }
}

/// The reader with the attributes of the last start tag taken out.
pub open spec fn drained(r: ReaderV) -> ReaderV {
    if r.subs.len() > 0 {
        let f = r.subs.last();
        ReaderV {
            subs: r.subs.update(
                r.subs.len() - 1,
                FrameV { state: StateV { attrs: Seq::empty(), ..f.state }, ..f },
            ),
            ..r
        }
    } else {
        ReaderV { root: StateV { attrs: Seq::empty(), ..r.root }, ..r }
    }
}

/// What is left to read: of the innermost entity text being read, or of the document.
pub open spec fn spec_unparsed(r: ReaderV) -> Seq<char> {
    match top_frame(r) {
        Some(f) => f.rest,
        None => r.rest,
    }
}

/// The number of bytes read: of the innermost entity text being read, or of the document.
pub open spec fn spec_cursor_offset(r: ReaderV) -> nat {
    match top_frame(r) {
        Some(f) => blen(f.text.take(f.text.len() - f.rest.len())),
        None => blen(r.input.take(r.input.len() - r.rest.len())),
    }
}

impl<'a> Reader<'a> {
    /// The name of the innermost open element.
    pub fn top_name(&self) -> (r: Option<&str>)
        ensures
            opt_str_seq(r) == spec_top_name(self@),
    {
        if self.sub_parsers.len() > 0 {
            let parser = &self.sub_parsers[self.sub_parsers.len() - 1];
            if parser.state.stack.len() > 0 {
                return Some(cow_str(&parser.state.stack[parser.state.stack.len() - 1]));
            }
        }
        if self.root_parser.state.stack.len() > 0 {
            Some(cow_str(&self.root_parser.state.stack[self.root_parser.state.stack.len() - 1]))
        } else {
            None
        }
    }

    /// The name of the innermost open element, owned where it comes from an entity's text.
    pub fn top_name_cow(&self) -> (r: Option<Cow<'a, str>>)
        ensures
            opt_cow_seq(r) == spec_top_name(self@),
    {
        if self.sub_parsers.len() > 0 {
            let parser = &self.sub_parsers[self.sub_parsers.len() - 1];
            if parser.state.stack.len() > 0 {
                return Some(cow_clone(&parser.state.stack[parser.state.stack.len() - 1]));
            }
        }
        if self.root_parser.state.stack.len() > 0 {
            Some(cow_clone(&self.root_parser.state.stack[self.root_parser.state.stack.len() - 1]))
        } else {
            None
        }
    }

    /// The attributes of the last start tag.
    pub fn attributes(&self) -> (r: &[Attribute<'a>])
        ensures
            attrs_view(r@) == spec_attributes(self@),
    {
        if self.sub_parsers.len() > 0 {
            self.sub_parsers[self.sub_parsers.len() - 1].attributes()
        } else {
            self.root_parser.attributes()
        }
    }

    /// Takes the attributes of the last start tag out of the reader.
    pub fn drain_attributes(&mut self) -> (r: Vec<Attribute<'a>>)
        requires
            old(self).wf(),
        ensures
            final(self).wf(),
            attrs_view(r@) == spec_attributes(old(self)@),
            final(self)@ == drained(old(self)@),
    {
        if self.sub_parsers.len() > 0 {
            let mut sub = self.sub_parsers.pop().unwrap();
            let out = sub.drain_attributes();
            self.sub_parsers.push(sub);
            proof {
                assert(frames_view(self.sub_parsers@) =~= drained(old(self)@).subs);
            }
            out
        } else {
            self.root_parser.drain_attributes()
        }
    }

    /// What is left to read.
    /// Outside entity texts, what is left to read is the input after the bytes read: the
    /// input from the cursor offset on.
    pub proof fn lemma_unparsed_follows_offset(&self)
        requires
            self.wf(),
            self@.subs.len() == 0,
        ensures
            exists|k: int|
                0 <= k <= self@.input.len() && spec_unparsed(self@) == self@.input.skip(k)
                    && spec_cursor_offset(self@) == blen(#[trigger] self@.input.take(k)),
    {
        let k = self@.input.len() - self@.rest.len();
        assert(self@.input.take(k) == self@.input.take(k));
    }

    pub fn unparsed(&self) -> (r: &str)
        requires
            self.wf(),
        ensures
            r@ == spec_unparsed(self@),
    {
        if self.sub_parsers.len() > 0 {
            self.sub_parsers[self.sub_parsers.len() - 1].unparsed()
        } else {
            self.root_parser.cursor.rest()
        }
    }

    /// The number of bytes read.
    pub fn cursor_offset(&self) -> (r: usize)
        requires
            self.wf(),
        ensures
            r == spec_cursor_offset(self@),
    {
        if self.sub_parsers.len() > 0 {
            self.sub_parsers[self.sub_parsers.len() - 1].offset()
        } else {
            self.root_parser.offset()
        }
    }
}

impl<'a> Reader<'a> {
    /// A step of the document; where an entity reference gives no event, the first
    /// event of the entity's text.
    fn root_round(&mut self) -> (r: Result<Option<XmlEvent<'a>>, XmlError>)
        requires
            old(self).wf(),
        ensures
            final(self).wf(),
            (final(self)@, result_view(r)) == root_round(old(self)@),
    {
        let ghost old_root = self.root_parser.position();
        let evt = self.root_parser.next(&mut self.ctx);
        proof {
            let sp = spec_step(old(self)@.root, old(self)@.rest, predefined_entities(), true);
            crate::reader::machine::lemma_step_entity_gives_none(old(self)@.root, old(self)@.rest, predefined_entities(), true);
            lemma_suffix_step(self.input@, old_root, self.root_parser.position());
        }
        match evt {
            Ok(None) => match self.ctx.next_entity.take() {
                Some(entity) => {
                    proof {
                        lemma_predefined_safe(entity.name());
                    }
                    let sub = EntityParserState::new(entity);
                    let (sub, result) = sub.run(&mut self.ctx);
                    proof {
                        crate::reader::machine::lemma_step_no_entity(initial_state(), sub.frame().text, predefined_entities(), false);
                    }
                    self.sub_parsers.push(sub);
                    proof {
                        assert(frames_view(self.sub_parsers@) =~= root_round(old(self)@).0.subs);
                    }
                    result
                },
                None => Ok(None),
            },
            evt => evt,
        }
    }

    /// The next event: of the innermost entity text being read, which is left at its
    /// end; otherwise of the document, where an entity reference is followed by the
    /// first event of the entity's text.
    pub fn next(&mut self) -> (r: Result<Option<XmlEvent<'a>>, XmlError>)
        requires
            old(self).wf(),
        ensures
            final(self).wf(),
            (final(self)@, result_view(r)) == spec_reader_next(old(self)@),
    {
        if self.sub_parsers.len() > 0 {
            let sub = self.sub_parsers.pop().unwrap();
            let ghost f = sub.frame();
            proof {
                assert(self.sub_parsers@ =~= old(self).sub_parsers@.drop_last());
                assert(frames_view(old(self).sub_parsers@).last() == f);
                lemma_predefined_safe(sub.spec_entity().name());
                lemma_no_entity_refs_skip(f.text, f.text.len() - f.rest.len());
                assert(f.text.skip(f.text.len() - f.rest.len()) =~= f.rest);
                crate::reader::machine::lemma_step_no_entity(f.state, f.rest, predefined_entities(), false);
            }
            let (sub, result) = sub.run(&mut self.ctx);
            match result {
                Ok(None) => {
                    proof {
                        assert(frames_view(self.sub_parsers@) =~= frames_view(old(self).sub_parsers@).drop_last());
                    }
                    return self.root_round();
                },
                _ => {
                    self.sub_parsers.push(sub);
                    proof {
                        assert(frames_view(self.sub_parsers@) =~= spec_reader_next(old(self)@).0.subs);
                    }
                    return result;
                },
            }
        }
        self.root_round()
    }
}

} // verus!
