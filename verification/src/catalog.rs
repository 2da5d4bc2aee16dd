//! The catalog: the manager definitions by id. Where a document defines an
//! id more than once, the last definition is the one that counts.

use vstd::prelude::*;
use crate::model::{TomlConfig, TomlPackageManager, TomlPackageManagerView};

verus! {

/// Whether one of `defs` has the id `id`.
pub open spec fn defines(defs: Seq<TomlPackageManagerView>, id: Seq<char>) -> bool {
    exists|i: int| 0 <= i < defs.len() && #[trigger] defs[i].id == id
}

/// The place of the first of `defs` with the id `id`; the length of `defs`
/// where there is none.
pub open spec fn first_place(defs: Seq<TomlPackageManagerView>, id: Seq<char>) -> int
    decreases defs.len(),
{
    if defs.len() == 0 {
        0
    } else if defs[0].id == id {
        0
    } else {
        1 + first_place(defs.drop_first(), id)
    }
}

/// The first of `defs` with the id `id`.
pub open spec fn definition_of(defs: Seq<TomlPackageManagerView>, id: Seq<char>) -> Option<
    TomlPackageManagerView,
> {
    if first_place(defs, id) < defs.len() {
        Some(defs[first_place(defs, id)])
    } else {
        None
    }
}

/// No two of `defs` share an id.
pub open spec fn distinct_ids(defs: Seq<TomlPackageManagerView>) -> bool {
    forall|i: int, j: int|
        0 <= i < defs.len() && 0 <= j < defs.len() && i != j ==> #[trigger] defs[i].id
            != #[trigger] defs[j].id
}

/// The definitions that count: each one that no later one of the same id
/// follows, in the document's order.
pub open spec fn last_wins(defs: Seq<TomlPackageManagerView>) -> Seq<TomlPackageManagerView>
    decreases defs.len(),
{
    if defs.len() == 0 {
        Seq::empty()
    } else if defines(defs.drop_first(), defs[0].id) {
        last_wins(defs.drop_first())
    } else {
        seq![defs[0]] + last_wins(defs.drop_first())
    }
}

/// The views of a list of definitions.
pub open spec fn definition_views(v: Seq<TomlPackageManager>) -> Seq<TomlPackageManagerView> {
    v.map_values(|m: TomlPackageManager| m@)
}

/// `first_place` finds the first definition with the id, and only that.
pub proof fn lemma_first_place(defs: Seq<TomlPackageManagerView>, id: Seq<char>)
    ensures
        0 <= first_place(defs, id) <= defs.len(),
        first_place(defs, id) < defs.len() ==> defs[first_place(defs, id)].id == id,
        forall|i: int| 0 <= i < first_place(defs, id) ==> (#[trigger] defs[i]).id != id,
        defines(defs, id) <==> first_place(defs, id) < defs.len(),
    decreases defs.len(),
{
    if defs.len() == 0 {
    } else if defs[0].id == id {
    } else {
        let rest = defs.drop_first();
        lemma_first_place(rest, id);
        let p = first_place(rest, id);
        assert forall|i: int| 0 <= i < 1 + p implies (#[trigger] defs[i]).id != id by {
            if i > 0 {
                assert(defs[i] == rest[i - 1]);
            }
        }
        if p < rest.len() {
            assert(defs[1 + p] == rest[p]);
        }
        if defines(defs, id) {
            let k = choose|k: int| 0 <= k < defs.len() && #[trigger] defs[k].id == id;
            assert(rest[k - 1].id == id);
        }
    }
}

/// The last of `defs` with the id `id`.
pub open spec fn last_definition(defs: Seq<TomlPackageManagerView>, id: Seq<char>) -> Option<
    TomlPackageManagerView,
>
    decreases defs.len(),
{
    if defs.len() == 0 {
        None
    } else if last_definition(defs.drop_first(), id).is_some() {
        last_definition(defs.drop_first(), id)
    } else if defs[0].id == id {
        Some(defs[0])
    } else {
        None
    }
}

/// A list defines an id where its first entry has it or the rest defines it.
pub proof fn lemma_defines_step(defs: Seq<TomlPackageManagerView>, id: Seq<char>)
    requires
        defs.len() > 0,
    ensures
        defines(defs, id) <==> (defs[0].id == id || defines(defs.drop_first(), id)),
{
    let rest = defs.drop_first();
    if defines(defs, id) {
        let k = choose|k: int| 0 <= k < defs.len() && #[trigger] defs[k].id == id;
        if k > 0 {
            assert(rest[k - 1].id == id);
        }
    }
    if defines(rest, id) {
        let k = choose|k: int| 0 <= k < rest.len() && #[trigger] rest[k].id == id;
        assert(defs[k + 1].id == id);
    }
}

/// A list has a last definition of exactly the ids that it defines.
pub proof fn lemma_last_definition_some(defs: Seq<TomlPackageManagerView>, id: Seq<char>)
    ensures
        last_definition(defs, id).is_some() <==> defines(defs, id),
        last_definition(defs, id).is_some() ==> last_definition(defs, id).unwrap().id == id,
    decreases defs.len(),
{
    if defs.len() > 0 {
        lemma_last_definition_some(defs.drop_first(), id);
        lemma_defines_step(defs, id);
    }
}

/// The definitions that count have pairwise distinct ids, and they define
/// the ids that the document defines.
pub proof fn lemma_last_wins_ids(defs: Seq<TomlPackageManagerView>)
    ensures
        distinct_ids(last_wins(defs)),
        forall|id: Seq<char>| #[trigger] defines(last_wins(defs), id) <==> defines(defs, id),
    decreases defs.len(),
{
    let kept = last_wins(defs);
    if defs.len() == 0 {
        assert forall|id: Seq<char>| #[trigger] defines(kept, id) <==> defines(defs, id) by {}
    } else {
        let rest = defs.drop_first();
        let tail = last_wins(rest);
        lemma_last_wins_ids(rest);
        if defines(rest, defs[0].id) {
            assert forall|id: Seq<char>| #[trigger] defines(kept, id) <==> defines(defs, id) by {
                lemma_defines_step(defs, id);
                assert(defines(tail, id) <==> defines(rest, id));
            }
        } else {
            assert(kept.drop_first() == tail);
            assert forall|id: Seq<char>| #[trigger] defines(kept, id) <==> defines(defs, id) by {
                lemma_defines_step(defs, id);
                lemma_defines_step(kept, id);
                assert(defines(tail, id) <==> defines(rest, id));
            }
            assert(!defines(tail, defs[0].id));
            assert forall|i: int, j: int|
                0 <= i < kept.len() && 0 <= j < kept.len() && i != j implies #[trigger] kept[i].id
                != #[trigger] kept[j].id by {
                if i == 0 {
                    assert(kept[j] == tail[j - 1]);
                } else if j == 0 {
                    assert(kept[i] == tail[i - 1]);
                } else {
                    assert(kept[i] == tail[i - 1]);
                    assert(kept[j] == tail[j - 1]);
                }
            }
        }
    }
}

/// Last one wins: looking an id up among the definitions that count gives
/// the last definition that the document has of it.
pub proof fn lemma_last_definition_wins(defs: Seq<TomlPackageManagerView>, id: Seq<char>)
    ensures
        definition_of(last_wins(defs), id) == last_definition(defs, id),
    decreases defs.len(),
{
    let kept = last_wins(defs);
    if defs.len() > 0 {
        let rest = defs.drop_first();
        let tail = last_wins(rest);
        lemma_last_definition_wins(rest, id);
        lemma_last_definition_some(rest, id);
        lemma_last_definition_some(rest, defs[0].id);
        lemma_last_wins_ids(rest);
        lemma_first_place(tail, id);
        assert(defines(tail, id) <==> defines(rest, id));
        if !defines(rest, defs[0].id) {
            assert(kept.drop_first() == tail);
            if defs[0].id != id && first_place(tail, id) < tail.len() {
                assert(kept[1 + first_place(tail, id)] == tail[first_place(tail, id)]);
            }
        }
    }
}

/// The catalog of a run: manager definitions, no two of them with the same id.
pub struct Catalog {
    entries: Vec<TomlPackageManager>,
}

impl View for Catalog {
    type V = Seq<TomlPackageManagerView>;

    closed spec fn view(&self) -> Seq<TomlPackageManagerView> {
        definition_views(self.entries@)
    }
}

impl Catalog {
    #[verifier::type_invariant]
    spec fn ids_are_distinct(&self) -> bool {
        distinct_ids(definition_views(self.entries@))
    }

    /// How many managers the catalog defines. No two of them share an id.
    pub fn len(&self) -> (n: usize)
        ensures
            n == self@.len(),
            distinct_ids(self@),
    {
        proof {
            use_type_invariant(self);
        }
        self.entries.len()
    }

    /// The definition at place `i`, if the catalog has that many.
    pub fn get(&self, i: usize) -> (found: Option<&TomlPackageManager>)
        ensures
            match found {
                Some(def) => i < self@.len() && def@ == self@[i as int],
                None => i >= self@.len(),
            },
    {
        if i < self.entries.len() {
            Some(&self.entries[i])
        } else {
            None
        }
    }

    /// The definition of the manager `id`, if the catalog has one.
    pub fn find(&self, id: &String) -> (found: Option<&TomlPackageManager>)
        ensures
            match found {
                Some(def) => definition_of(self@, id@) == Some(def@),
                None => definition_of(self@, id@).is_none(),
            },
            found.is_some() == defines(self@, id@),
    {
        let place = find_place(&self.entries, id);
        proof {
            lemma_first_place(self@, id@);
        }
        if place < self.entries.len() {
            Some(&self.entries[place])
        } else {
            None
        }
    }

    /// Whether the catalog defines the manager `id`.
    pub fn contains_key(&self, id: &String) -> (r: bool)
        ensures
            r == defines(self@, id@),
    {
        let place = find_place(&self.entries, id);
        proof {
            lemma_first_place(self@, id@);
        }
        place < self.entries.len()
    }
}

/// The place of the first entry with the id `id`, or the length of the list.
pub fn find_place(entries: &Vec<TomlPackageManager>, id: &String) -> (place: usize)
    ensures
        place == first_place(definition_views(entries@), id@),
{
    let ghost defs = definition_views(entries@);
    let mut i: usize = 0;
    proof {
        assert(defs.skip(0) == defs);
    }
    while i < entries.len()
        invariant
            i <= entries.len(),
            defs == definition_views(entries@),
            first_place(defs, id@) == i + first_place(defs.skip(i as int), id@),
        decreases entries.len() - i,
    {
        proof {
            let tail = defs.skip(i as int);
            assert(tail[0] == entries@[i as int]@);
            assert(tail.drop_first() == defs.skip(i + 1));
        }
        if entries[i].id == *id {
            return i;
        }
        i += 1;
    }
    proof {
        assert(defs.skip(i as int).len() == 0);
    }
    i
}

/// Builds the catalog of a document's definitions. Of several definitions of
/// one id the last is kept; the others are dropped.
pub fn load_toml_defs(config: TomlConfig) -> (catalog: Catalog)
    ensures
        catalog@ == last_wins(config@),
        distinct_ids(catalog@),
{
    let ghost all = config@;
    let mut rest = config.package_manager;
    let mut kept: Vec<TomlPackageManager> = Vec::new();
    while rest.len() > 0
        invariant
            definition_views(kept@) + last_wins(definition_views(rest@)) == last_wins(all),
        decreases rest.len(),
    {
        let ghost before = definition_views(rest@);
        let def = rest.remove(0);
        proof {
            assert(definition_views(rest@) == before.drop_first());
            assert(def@ == before[0]);
        }
        let place = find_place(&rest, &def.id);
        proof {
            lemma_first_place(definition_views(rest@), def.id@);
        }
        if place >= rest.len() {
            let ghost front = definition_views(kept@);
            kept.push(def);
            proof {
                assert(definition_views(kept@) == front + seq![before[0]]);
                assert((front + seq![before[0]]) + last_wins(before.drop_first()) == front + (
                    seq![before[0]] + last_wins(before.drop_first())));
            }
        }
    }
    proof {
        assert(definition_views(kept@) + Seq::<TomlPackageManagerView>::empty()
            == definition_views(kept@));
        lemma_last_wins_ids(all);
    }
    Catalog { entries: kept }
}

} // verus!
