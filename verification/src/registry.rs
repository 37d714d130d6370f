use vstd::prelude::*;
use crate::error::{KidurError, KidurResult};
use crate::node::Node;
use crate::supertag_def::{same_supertag_def, SupertagDef};
use crate::text::text_eq;
use crate::validator::{result_verdict, validate_fields, validation_verdict};

verus! {

/// Whether no two definitions share a name.
pub open spec fn names_distinct(defs: Seq<SupertagDef>) -> bool {
    forall|i: int, j: int| 0 <= i < j < defs.len() ==> defs[i].name@ != defs[j].name@
}

/// Whether a definition with the given name is present.
pub open spec fn has_def(defs: Seq<SupertagDef>, name: Seq<char>) -> bool {
    exists|i: int| 0 <= i < defs.len() && defs[i].name@ == name
}

/// The definition with the given name, if one is registered.
pub open spec fn def_named(defs: Seq<SupertagDef>, name: Seq<char>) -> Option<SupertagDef> {
    if has_def(defs, name) {
        Some(defs[choose|i: int| 0 <= i < defs.len() && defs[i].name@ == name])
    } else {
        None
    }
}

/// With distinct names, the definition found under a present name is the one at its position.
proof fn lemma_def_named_at(defs: Seq<SupertagDef>, i: int)
    requires
        names_distinct(defs),
        0 <= i < defs.len(),
    ensures
        def_named(defs, defs[i].name@) == Some(defs[i]),
{
    assert(has_def(defs, defs[i].name@));
    let j = choose|j: int| 0 <= j < defs.len() && defs[j].name@ == defs[i].name@;
    if j != i {
        if j < i {
            assert(defs[j].name@ != defs[i].name@);
        } else {
            assert(defs[i].name@ != defs[j].name@);
        }
    }
}

/// The position of a definition with the given name.
pub open spec fn name_index(defs: Seq<SupertagDef>, name: Seq<char>) -> int {
    choose|i: int| 0 <= i < defs.len() && defs[i].name@ == name
}

/// The definitions after registering one more: it replaces the definition of
/// the same name in place, or else comes last.
pub open spec fn register_one(defs: Seq<SupertagDef>, d: SupertagDef) -> Seq<SupertagDef> {
    if has_def(defs, d.name@) {
        defs.update(name_index(defs, d.name@), d)
    } else {
        defs.push(d)
    }
}

/// The definitions of a registry that starts empty and has the given
/// definitions registered one after another.
pub open spec fn registered(defs: Seq<SupertagDef>) -> Seq<SupertagDef>
    decreases defs.len(),
{
    if defs.len() == 0 {
        Seq::empty()
    } else {
        register_one(registered(defs.drop_last()), defs.last())
    }
}

/// The last of the definitions that carries the given name, if any does.
pub open spec fn last_def_named(defs: Seq<SupertagDef>, name: Seq<char>) -> Option<SupertagDef>
    decreases defs.len(),
{
    if defs.len() == 0 {
        None
    } else if defs.last().name@ == name {
        Some(defs.last())
    } else {
        last_def_named(defs.drop_last(), name)
    }
}

/// Registering one definition keeps the names distinct, finds the new
/// definition under its name and every other name where it was.
proof fn lemma_register_one(defs: Seq<SupertagDef>, d: SupertagDef)
    requires
        names_distinct(defs),
    ensures
        names_distinct(register_one(defs, d)),
        def_named(register_one(defs, d), d.name@) == Some(d),
        forall|name: Seq<char>|
            name != d.name@ ==> #[trigger] def_named(register_one(defs, d), name) == def_named(defs, name),
{
    let after = register_one(defs, d);
    let p = if has_def(defs, d.name@) { name_index(defs, d.name@) } else { defs.len() as int };
    assert(0 <= p < after.len() && after[p] == d);
    assert(forall|k: int| 0 <= k < after.len() && k != p ==> #[trigger] after[k] == defs[k]);
    assert forall|a: int, b: int| 0 <= a < b < after.len() implies after[a].name@ != after[b].name@ by {
        if a != p && b != p {
            assert(defs[a].name@ != defs[b].name@);
        } else if has_def(defs, d.name@) {
            if a == p {
                assert(defs[b].name@ != defs[p].name@);
            } else {
                assert(defs[a].name@ != defs[p].name@);
            }
        } else {
            assert(defs[a].name@ != d.name@);
        }
    }
    lemma_def_named_at(after, p);
    assert forall|name: Seq<char>| name != d.name@ implies #[trigger] def_named(after, name) == def_named(defs, name) by {
        if has_def(defs, name) {
            let k = choose|k: int| 0 <= k < defs.len() && defs[k].name@ == name;
            assert(after[k] == defs[k]);
            lemma_def_named_at(defs, k);
            lemma_def_named_at(after, k);
        } else if has_def(after, name) {
            let k = choose|k: int| 0 <= k < after.len() && after[k].name@ == name;
            assert(k != p);
            assert(defs[k].name@ == name);
        }
    }
}

/// Definitions registered one after another leave each name given to the
/// last definition that carried it, each name once, and no other names.
pub proof fn lemma_registered(defs: Seq<SupertagDef>)
    ensures
        names_distinct(registered(defs)),
        forall|name: Seq<char>| #[trigger] def_named(registered(defs), name) == last_def_named(defs, name),
        forall|name: Seq<char>| #[trigger] has_def(registered(defs), name) <==> has_def(defs, name),
    decreases defs.len(),
{
    if defs.len() > 0 {
        let init = defs.drop_last();
        let d = defs.last();
        lemma_registered(init);
        lemma_register_one(registered(init), d);
        assert forall|name: Seq<char>| #[trigger] has_def(registered(defs), name) <==> has_def(defs, name) by {
            let r = registered(defs);
            if has_def(defs, name) {
                let k = choose|k: int| 0 <= k < defs.len() && defs[k].name@ == name;
                if k < init.len() {
                    assert(init[k].name@ == name);
                }
                assert(def_named(r, name) is Some);
            }
            if has_def(r, name) {
                assert(def_named(r, name) is Some);
                if name != d.name@ {
                    assert(has_def(registered(init), name));
                    assert(has_def(init, name));
                    let k = choose|k: int| 0 <= k < init.len() && init[k].name@ == name;
                    assert(defs[k].name@ == name);
                } else {
                    assert(defs[defs.len() - 1].name@ == name);
                }
            }
        }
    }
}

/// Whether a file with the given extension holds a supertag definition.
pub open spec fn is_definition_extension(extension: Option<Seq<char>>) -> bool {
    extension == Some("toml"@)
}

/// Whether a file with the given extension (if it has one) holds a supertag
/// definition: only `.toml` files do.
pub fn is_definition_file(extension: Option<&str>) -> (b: bool)
    ensures
        b == is_definition_extension(
            match extension {
                Some(e) => Some(e@),
                None => None,
            },
        ),
{
    match extension {
        Some(e) => text_eq(e, "toml"),
        None => false,
    }
}

/// The outcome of checking a node against the registered supertags.
pub open spec fn node_verdict_ok(defs: Seq<SupertagDef>, node: Node, r: KidurResult<()>) -> bool {
    match node.supertag {
        None => r is Ok,
        Some(tag) => match def_named(defs, tag@) {
            None => r matches Err(KidurError::UnknownSupertag(t)) && t@ == tag@,
            Some(def) => result_verdict(r) == validation_verdict(def, node.fields@),
        },
    }
}

/// The registered supertag definitions, each name at most once.
#[derive(Debug)]
pub struct SupertagRegistry {
    defs: Vec<SupertagDef>,
}

impl Clone for SupertagRegistry {
    /// A copy holding definitions that say the same, in the same order.
    fn clone(&self) -> (c: Self)
        ensures
            c@.len() == self@.len(),
            forall|i: int| 0 <= i < self@.len() ==> #[trigger] same_supertag_def(c@[i], self@[i]),
    {
        proof {
            use_type_invariant(self);
        }
        let n = self.defs.len();
        let mut defs: Vec<SupertagDef> = Vec::new();
        let mut i: usize = 0;
        while i < n
            invariant
                n == self.defs@.len(),
                names_distinct(self.defs@),
                i <= n,
                defs@.len() == i,
                forall|j: int| 0 <= j < i ==> #[trigger] same_supertag_def(defs@[j], self.defs@[j]),
            decreases n - i,
        {
            defs.push(self.defs[i].clone());
            i = i + 1;
        }
        proof {
            assert forall|a: int, b: int| 0 <= a < b < defs@.len() implies defs@[a].name@ != defs@[b].name@ by {
                assert(same_supertag_def(defs@[a], self.defs@[a]));
                assert(same_supertag_def(defs@[b], self.defs@[b]));
                assert(self.defs@[a].name@ != self.defs@[b].name@);
            }
        }
        SupertagRegistry { defs }
    }
}

impl View for SupertagRegistry {
    type V = Seq<SupertagDef>;

    /// The definitions in the order their names were first registered.
    closed spec fn view(&self) -> Seq<SupertagDef> {
        self.defs@
    }
}

impl SupertagRegistry {
    #[verifier::type_invariant]
    closed spec fn inv(self) -> bool {
        names_distinct(self.defs@)
    }

    /// A registry without definitions.
    pub fn empty() -> (r: Self)
        ensures
            r@.len() == 0,
    {
        SupertagRegistry { defs: Vec::new() }
    }

    /// A registry holding the given definitions, registered in order (a later
    /// definition replaces an earlier one of the same name).
    pub fn from_defs(defs: Vec<SupertagDef>) -> (r: Self)
        ensures
            r@ == registered(defs@),
            names_distinct(r@),
            forall|name: Seq<char>| #[trigger] has_def(r@, name) <==> has_def(defs@, name),
            forall|name: Seq<char>| #[trigger] def_named(r@, name) == last_def_named(defs@, name),
    {
        let mut reg = SupertagRegistry::empty();
        let n = defs.len();
        let mut rest = defs;
        let ghost all = rest@;
        let mut i: usize = 0;
        assert(all.take(0) =~= Seq::<SupertagDef>::empty());
        while i < n
            invariant
                n == all.len(),
                i <= n,
                rest@ == all.skip(i as int),
                reg@ == registered(all.take(i as int)),
            decreases n - i,
        {
            let d = rest.remove(0);
            assert(d == all[i as int]);
            reg.register(d);
            proof {
                assert(all.take(i + 1).drop_last() =~= all.take(i as int));
                assert(rest@ =~= all.skip(i + 1));
            }
            i = i + 1;
        }
        assert(all.take(n as int) =~= all);
        proof {
            lemma_registered(all);
        }
        reg
    }

    /// The position of the definition with the given name, if any.
    fn position(&self, name: &str) -> (r: Option<usize>)
        ensures
            r matches Some(i) ==> i < self@.len() && self@[i as int].name@ == name@,
            r is None ==> forall|i: int| 0 <= i < self@.len() ==> self@[i].name@ != name@,
    {
        let n = self.defs.len();
        let mut i: usize = 0;
        while i < n
            invariant
                n == self.defs@.len(),
                i <= n,
                forall|j: int| 0 <= j < i ==> self.defs@[j].name@ != name@,
            decreases n - i,
        {
            if text_eq(self.defs[i].name.as_str(), name) {
                return Some(i);
            }
            i = i + 1;
        }
        None
    }

    /// Adds a definition; one already registered under the same name is replaced.
    pub fn register(&mut self, def: SupertagDef)
        ensures
            final(self)@ == register_one(old(self)@, def),
            names_distinct(final(self)@),
            def_named(final(self)@, def.name@) == Some(def),
            has_def(old(self)@, def.name@) ==> exists|i: int|
                0 <= i < old(self)@.len() && old(self)@[i].name@ == def.name@ && final(self)@ == old(self)@.update(i, def),
            !has_def(old(self)@, def.name@) ==> final(self)@ == old(self)@.push(def),
    {
        proof {
            use_type_invariant(&*self);
        }
        match self.position(def.name.as_str()) {
            Some(i) => {
                let mut defs: Vec<SupertagDef> = Vec::new();
                std::mem::swap(&mut defs, &mut self.defs);
                let ghost old_defs = defs@;
                defs.set(i, def);
                proof {
                    assert forall|a: int, b: int| 0 <= a < b < defs@.len() implies defs@[a].name@ != defs@[b].name@ by {
                        assert(old_defs[a].name@ != old_defs[b].name@);
                    }
                    assert(old_defs[i as int].name@ == def.name@);
                    lemma_def_named_at(defs@, i as int);
                    let j = name_index(old_defs, def.name@);
                    if j != i as int {
                        if j < i {
                            assert(old_defs[j].name@ != old_defs[i as int].name@);
                        } else {
                            assert(old_defs[i as int].name@ != old_defs[j].name@);
                        }
                    }
                }
                self.defs = defs;
            },
            None => {
                let mut defs: Vec<SupertagDef> = Vec::new();
                std::mem::swap(&mut defs, &mut self.defs);
                let ghost old_defs = defs@;
                defs.push(def);
                proof {
                    assert forall|a: int, b: int| 0 <= a < b < defs@.len() implies defs@[a].name@ != defs@[b].name@ by {
                        if b < old_defs.len() {
                            assert(old_defs[a].name@ != old_defs[b].name@);
                        } else {
                            assert(defs@[a] == old_defs[a]);
                        }
                    }
                    lemma_def_named_at(defs@, old_defs.len() as int);
                }
                self.defs = defs;
            },
        }
    }

    /// The definition registered under the name, if any.
    pub fn get(&self, name: &str) -> (r: Option<&SupertagDef>)
        ensures
            match r {
                Some(d) => def_named(self@, name@) == Some(*d),
                None => def_named(self@, name@) is None,
            },
    {
        proof {
            use_type_invariant(self);
        }
        match self.position(name) {
            Some(i) => {
                proof {
                    lemma_def_named_at(self@, i as int);
                }
                Some(&self.defs[i])
            },
            None => None,
        }
    }

    /// The names of all registered definitions.
    pub fn names(&self) -> (r: Vec<&str>)
        ensures
            r@.len() == self@.len(),
            forall|i: int| 0 <= i < self@.len() ==> #[trigger] r@[i]@ == self@[i].name@,
            forall|i: int, j: int| 0 <= i < j < r@.len() ==> r@[i]@ != r@[j]@,
    {
        proof {
            use_type_invariant(self);
        }
        let n = self.defs.len();
        let mut r: Vec<&str> = Vec::new();
        let mut i: usize = 0;
        while i < n
            invariant
                n == self@.len(),
                i <= n,
                r@.len() == i,
                forall|j: int| 0 <= j < i ==> #[trigger] r@[j]@ == self@[j].name@,
            decreases n - i,
        {
            r.push(self.defs[i].name.as_str());
            i = i + 1;
        }
        r
    }

    /// Checks a node against the definition of its supertag: a node without a
    /// supertag passes, an unregistered supertag is refused, otherwise the
    /// node's fields are checked as `validate_fields` does.
    pub fn validate_node(&self, node: &Node) -> (r: KidurResult<()>)
        ensures
            node_verdict_ok(self@, *node, r),
    {
        match &node.supertag {
            None => Ok(()),
            Some(tag) => match self.get(tag.as_str()) {
                None => Err(KidurError::UnknownSupertag(tag.clone())),
                Some(def) => validate_fields(def, &node.fields),
            },
        }
    }
}

} // verus!
