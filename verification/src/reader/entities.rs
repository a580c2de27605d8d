//! General entities that references in the text stand for.
use vstd::prelude::*;

use crate::reader::tokens::str_eq;

verus! {

/// A named replacement text.
pub struct Entity {
    name: String,
    external: bool,
    text: String,
}

impl Entity {
    pub fn new(name: &str, text: &str) -> (r: Self)
        ensures
            r.name() == name@,
            r.text() == text@,
            !r.is_external(),
    {
        Self { name: name.to_owned(), external: false, text: text.to_owned() }
    }

    /// The name of the entity.
    pub closed spec fn name(&self) -> Seq<char> {
        self.name@
    }

    /// The replacement text of the entity.
    pub closed spec fn text(&self) -> Seq<char> {
        self.text@
    }

    /// The entity's text is to be read from elsewhere.
    pub closed spec fn is_external(&self) -> bool {
        self.external
    }

    /// Whether the entity's text is to be read from elsewhere.
    pub fn external(&self) -> (r: bool)
        ensures
            r == self.is_external(),
    {
        self.external
    }

    /// The replacement text.
    pub fn text_str(&self) -> (r: &str)
        ensures
            r@ == self.text(),
    {
        self.text.as_str()
    }

    /// A copy of the entity.
    pub fn duplicate(&self) -> (r: Entity)
        ensures
            r.name() == self.name(),
            r.text() == self.text(),
            r.is_external() == self.is_external(),
    {
        Entity { name: self.name.clone(), external: self.external, text: self.text.clone() }
    }
}

/// What is paired with the first entry named `name`: for entities, the text it stands
/// for.
pub open spec fn lookup<T>(defs: Seq<(Seq<char>, T)>, name: Seq<char>) -> Option<T>
    decreases defs.len(),
{
    if defs.len() == 0 {
        None
    } else if defs[0].0 == name {
        Some(defs[0].1)
    } else {
        lookup(defs.drop_first(), name)
    }
}

/// The entities of a document, by name.
pub struct Entities {
    defined: Vec<Entity>,
}

impl View for Entities {
    type V = Seq<(Seq<char>, Seq<char>)>;

    /// The names and texts of the entities in the order they were first registered.
    closed spec fn view(&self) -> Seq<(Seq<char>, Seq<char>)> {
        self.defined@.map_values(|e: Entity| (e.name(), e.text()))
    }
}

/// Looking up in `defs` from position `i` on finds what looking up in all of it finds,
/// where no entity before `i` has the name.
proof fn lemma_lookup_skip<T>(defs: Seq<(Seq<char>, T)>, name: Seq<char>, i: int)
    requires
        0 <= i <= defs.len(),
        forall|j: int| 0 <= j < i ==> defs[j].0 != name,
    ensures
        lookup(defs, name) == lookup(defs.skip(i), name),
    decreases i,
{
    if i > 0 {
        lemma_lookup_skip(defs.drop_first(), name, i - 1);
        assert(defs.drop_first().skip(i - 1) =~= defs.skip(i));
    } else {
        assert(defs.skip(0) =~= defs);
    }
}

/// Where looking up a name finds nothing, no entry has that name.
proof fn lemma_lookup_none<T>(defs: Seq<(Seq<char>, T)>, name: Seq<char>)
    requires
        lookup(defs, name) is None,
    ensures
        forall|j: int| 0 <= j < defs.len() ==> defs[j].0 != name,
    decreases defs.len(),
{
    if defs.len() > 0 {
        lemma_lookup_none(defs.drop_first(), name);
        assert forall|j: int| 0 <= j < defs.len() implies defs[j].0 != name by {
            if j > 0 {
                assert(defs[j] == defs.drop_first()[j - 1]);
            }
        }
    }
}

/// Looking up the name of the entry at `i`, where no entry before it has that name,
/// finds what is paired with it.
proof fn lemma_lookup_at<T>(defs: Seq<(Seq<char>, T)>, i: int)
    requires
        0 <= i < defs.len(),
        forall|j: int| 0 <= j < i ==> defs[j].0 != defs[i].0,
    ensures
        lookup(defs, defs[i].0) == Some(defs[i].1),
{
    lemma_lookup_skip(defs, defs[i].0, i);
    assert(defs.skip(i)[0] == defs[i]);
}

/// Replacing the text at `i`, the first entity named `name`, changes the lookup of
/// `name` alone.
proof fn lemma_lookup_update<T>(defs: Seq<(Seq<char>, T)>, i: int, name: Seq<char>, text: T, other: Seq<char>)
    requires
        0 <= i < defs.len(),
        defs[i].0 == name,
        forall|j: int| 0 <= j < i ==> defs[j].0 != name,
    ensures
        lookup(defs.update(i, (name, text)), other) == if other == name {
            Some(text)
        } else {
            lookup(defs, other)
        },
    decreases i,
{
    if i > 0 {
        lemma_lookup_update(defs.drop_first(), i - 1, name, text, other);
        assert(defs.update(i, (name, text)).drop_first() =~= defs.drop_first().update(i - 1, (name, text)));
    } else {
        assert(defs.update(0, (name, text)).drop_first() =~= defs.drop_first());
    }
}

/// Appending an entity with a new name adds its lookup.
proof fn lemma_lookup_push<T>(defs: Seq<(Seq<char>, T)>, name: Seq<char>, text: T, other: Seq<char>)
    requires
        lookup(defs, name) is None,
    ensures
        lookup(defs.push((name, text)), other) == if other == name {
            Some(text)
        } else {
            lookup(defs, other)
        },
    decreases defs.len(),
{
    if defs.len() > 0 {
        assert(defs.push((name, text))[0] == defs[0]);
        assert(defs[0].0 != name);
        lemma_lookup_push(defs.drop_first(), name, text, other);
        assert(defs.push((name, text)).drop_first() =~= defs.drop_first().push((name, text)));
    } else {
        let p = defs.push((name, text));
        assert(p.drop_first() =~= Seq::<(Seq<char>, T)>::empty());
        assert(p[0] == (name, text));
        assert(lookup(p.drop_first(), other) is None);
        assert(lookup(defs, other) is None);
    }
}

impl Entities {
    /// The names of the entities with, for each, whether its text is to be read from
    /// elsewhere, in the order of the view.
    pub closed spec fn flags(&self) -> Seq<(Seq<char>, bool)> {
        self.defined@.map_values(|e: Entity| (e.name(), e.is_external()))
    }

    /// The entities that every document has: `lt`, `gt`, `amp`, `apos` and `quot`,
    /// each given as a character reference.
    pub fn new() -> (r: Self)
        ensures
            r@ == seq![
                ("lt"@, "&#60;"@),
                ("gt"@, "&#62;"@),
                ("amp"@, "&#38;"@),
                ("apos"@, "&#39;"@),
                ("quot"@, "&#34;"@),
            ],
            r.flags() == seq![("lt"@, false), ("gt"@, false), ("amp"@, false), ("apos"@, false), ("quot"@, false)],
    {
        let mut defined: Vec<Entity> = Vec::new();
        defined.push(Entity::new("lt", "&#60;"));
        defined.push(Entity::new("gt", "&#62;"));
        defined.push(Entity::new("amp", "&#38;"));
        defined.push(Entity::new("apos", "&#39;"));
        defined.push(Entity::new("quot", "&#34;"));
        let r = Entities { defined };
        assert(r@ =~= seq![
            ("lt"@, "&#60;"@),
            ("gt"@, "&#62;"@),
            ("amp"@, "&#38;"@),
            ("apos"@, "&#39;"@),
            ("quot"@, "&#34;"@),
        ]);
        assert(r.flags() =~= seq![("lt"@, false), ("gt"@, false), ("amp"@, false), ("apos"@, false), ("quot"@, false)]);
        r
    }

    /// The position of the first entity named `name`.
    fn position(&self, name: &str) -> (r: Option<usize>)
        ensures
            match r {
                Some(i) => i < self@.len() && self@[i as int].0 == name@ && forall|j: int|
                    0 <= j < i ==> self@[j].0 != name@,
                None => lookup(self@, name@) is None,
            },
            r is Some <==> lookup(self@, name@) is Some,
            r matches Some(i) ==> lookup(self@, name@) == Some(self@[i as int].1),
    {
        let mut i: usize = 0;
        while i < self.defined.len()
            invariant
                0 <= i <= self.defined@.len(),
                self@.len() == self.defined@.len(),
                forall|j: int| 0 <= j < i ==> self@[j].0 != name@,
            decreases self.defined@.len() - i,
        {
            if str_eq(self.defined[i].name.as_str(), name) {
                proof {
                    lemma_lookup_skip(self@, name@, i as int);
                }
                return Some(i);
            }
            i += 1;
        }
        proof {
            lemma_lookup_skip(self@, name@, i as int);
        }
        None
    }

    /// Defines `name` to stand for `value`, in place of an earlier definition. The
    /// entity it defines is not external.
    pub fn register(&mut self, name: &str, value: &str)
        ensures
            forall|other: Seq<char>|
                lookup(final(self)@, other) == if other == name@ {
                    Some(value@)
                } else {
                    lookup(old(self)@, other)
                },
            forall|other: Seq<char>|
                lookup(final(self).flags(), other) == if other == name@ {
                    Some(false)
                } else {
                    lookup(old(self).flags(), other)
                },
    {
        match self.position(name) {
            Some(i) => {
                let ghost before = self@;
                let ghost fbefore = self.flags();
                assert forall|j: int| 0 <= j < i implies fbefore[j].0 != name@ by {
                    assert(fbefore[j].0 == before[j].0);
                }
                self.defined.set(i, Entity::new(name, value));
                proof {
                    assert(self.flags() =~= fbefore.update(i as int, (name@, false)));
                    assert forall|other: Seq<char>|
                        lookup(self.flags(), other) == if other == name@ {
                            Some(false)
                        } else {
                            lookup(fbefore, other)
                        } by {
                        lemma_lookup_update(fbefore, i as int, name@, false, other);
                    }
                    assert(self@ =~= before.update(i as int, (name@, value@)));
                    assert forall|other: Seq<char>|
                        lookup(self@, other) == if other == name@ {
                            Some(value@)
                        } else {
                            lookup(before, other)
                        } by {
                        lemma_lookup_update(before, i as int, name@, value@, other);
                    }
                }
            },
            None => {
                let ghost before = self@;
                let ghost fbefore = self.flags();
                proof {
                    lemma_lookup_none(before, name@);
                    assert forall|j: int| 0 <= j < fbefore.len() implies fbefore[j].0 != name@ by {
                        assert(fbefore[j].0 == before[j].0);
                    }
                    lemma_lookup_skip(fbefore, name@, fbefore.len() as int);
                    assert(fbefore.skip(fbefore.len() as int) =~= Seq::<(Seq<char>, bool)>::empty());
                }
                self.defined.push(Entity::new(name, value));
                proof {
                    assert(self.flags() =~= fbefore.push((name@, false)));
                    assert forall|other: Seq<char>|
                        lookup(self.flags(), other) == if other == name@ {
                            Some(false)
                        } else {
                            lookup(fbefore, other)
                        } by {
                        lemma_lookup_push(fbefore, name@, false, other);
                    }
                    assert(self@ =~= before.push((name@, value@)));
                    assert forall|other: Seq<char>|
                        lookup(self@, other) == if other == name@ {
                            Some(value@)
                        } else {
                            lookup(before, other)
                        } by {
                        lemma_lookup_push(before, name@, value@, other);
                    }
                }
            },
        }
    }

    /// The entity named `name`.
    pub fn get_ref(&self, name: &str) -> (r: Option<&Entity>)
        ensures
            match r {
                Some(e) => e.name() == name@ && lookup(self@, name@) == Some(e.text()) && lookup(
                    self.flags(),
                    name@,
                ) == Some(e.is_external()),
                None => lookup(self@, name@) is None,
            },
    {
        match self.position(name) {
            Some(i) => {
                proof {
                    let f = self.flags();
                    assert forall|j: int| 0 <= j < i implies f[j].0 != f[i as int].0 by {
                        assert(f[j].0 == self@[j].0);
                    }
                    lemma_lookup_at(f, i as int);
                }
                Some(&self.defined[i])
            },
            None => None,
        }
    }

    /// A copy of the entity named `name`.
    pub fn get_rc(&self, name: &str) -> (r: Option<Entity>)
        ensures
            match r {
                Some(e) => e.name() == name@ && lookup(self@, name@) == Some(e.text()) && lookup(
                    self.flags(),
                    name@,
                ) == Some(e.is_external()),
                None => lookup(self@, name@) is None,
            },
    {
        match self.get_ref(name) {
            Some(e) => Some(e.duplicate()),
            None => None,
        }
    }
}

impl Default for Entities {
    fn default() -> (r: Self)
        ensures
            r@ == seq![
                ("lt"@, "&#60;"@),
                ("gt"@, "&#62;"@),
                ("amp"@, "&#38;"@),
                ("apos"@, "&#39;"@),
                ("quot"@, "&#34;"@),
            ],
            r.flags() == seq![("lt"@, false), ("gt"@, false), ("amp"@, false), ("apos"@, false), ("quot"@, false)],
    {
        Entities::new()
    }
}

} // verus!
