//! The animal records collected from the game's event log ("granger"
//! data): one record per animal, keyed by the animal's id, held in
//! strictly ascending id order — the order the shared id-keyed map reads
//! out in.

use vstd::prelude::*;

verus! {

/// One examined animal, as accumulated from consecutive event-log lines.
#[derive(Debug)]
pub struct GrangerAnimal {
    pub id: String,
    pub name: String,
    pub descriptors: Vec<String>,
    pub age: Option<String>,
    pub custom_label: Option<String>,
    pub species: Option<String>,
    pub settlement: Option<String>,
    pub caretaker: Option<String>,
    pub condition: Option<String>,
    pub traits: Vec<String>,
    pub trait_points: Option<u32>,
    pub colour: Option<String>,
    pub updated_at: String,
}

fn clone_opt_string(o: &Option<String>) -> (r: Option<String>)
    ensures
        r == *o,
{
    match o {
        Some(s) => Some(s.clone()),
        None => None,
    }
}

fn clone_string_vec(v: &Vec<String>) -> (r: Vec<String>)
    ensures
        r@ == v@,
{
    let mut out: Vec<String> = Vec::new();
    let mut i: usize = 0;
    while i < v.len()
        invariant
            i <= v.len(),
            out@ == v@.take(i as int),
        decreases v.len() - i,
    {
        out.push(v[i].clone());
        proof {
            assert(v@.take(i as int + 1) =~= v@.take(i as int).push(v@[i as int]));
        }
        i = i + 1;
    }
    proof {
        assert(v@.take(v@.len() as int) =~= v@);
    }
    out
}

/// Field-for-field agreement between two records: every scalar and
/// string field equal, every vector field equal element by element.
pub open spec fn animal_like(a: GrangerAnimal, b: GrangerAnimal) -> bool {
    &&& a.id == b.id
    &&& a.name == b.name
    &&& a.descriptors@ == b.descriptors@
    &&& a.age == b.age
    &&& a.custom_label == b.custom_label
    &&& a.species == b.species
    &&& a.settlement == b.settlement
    &&& a.caretaker == b.caretaker
    &&& a.condition == b.condition
    &&& a.traits@ == b.traits@
    &&& a.trait_points == b.trait_points
    &&& a.colour == b.colour
    &&& a.updated_at == b.updated_at
}

impl Clone for GrangerAnimal {
    fn clone(&self) -> (r: Self)
        ensures
            animal_like(r, *self),
            r.id == self.id,
    {
        GrangerAnimal {
            id: self.id.clone(),
            name: self.name.clone(),
            descriptors: clone_string_vec(&self.descriptors),
            age: clone_opt_string(&self.age),
            custom_label: clone_opt_string(&self.custom_label),
            species: clone_opt_string(&self.species),
            settlement: clone_opt_string(&self.settlement),
            caretaker: clone_opt_string(&self.caretaker),
            condition: clone_opt_string(&self.condition),
            traits: clone_string_vec(&self.traits),
            trait_points: self.trait_points,
            colour: clone_opt_string(&self.colour),
            updated_at: self.updated_at.clone(),
        }
    }
}

/// The first record with the given id, if any.
pub open spec fn spec_find(s: Seq<GrangerAnimal>, id: Seq<char>) -> Option<GrangerAnimal>
    decreases s.len(),
{
    if s.len() == 0 {
        None
    } else if s[0].id@ == id {
        Some(s[0])
    } else {
        spec_find(s.skip(1), id)
    }
}

/// Strict lexicographic order on id text, by code point — the order the
/// id-keyed map the desktop tools share iterates in.
pub open spec fn lex_lt(a: Seq<char>, b: Seq<char>) -> bool
    decreases a.len(),
{
    if b.len() == 0 {
        false
    } else if a.len() == 0 {
        true
    } else if a[0] != b[0] {
        (a[0] as u32) < (b[0] as u32)
    } else {
        lex_lt(a.skip(1), b.skip(1))
    }
}

pub proof fn lemma_lex_irrefl(a: Seq<char>)
    ensures
        !lex_lt(a, a),
    decreases a.len(),
{
    if a.len() > 0 {
        lemma_lex_irrefl(a.skip(1));
    }
}

pub proof fn lemma_lex_trans(a: Seq<char>, b: Seq<char>, c: Seq<char>)
    requires
        lex_lt(a, b),
        lex_lt(b, c),
    ensures
        lex_lt(a, c),
    decreases a.len() + b.len() + c.len(),
{
    if a.len() > 0 && b.len() > 0 && c.len() > 0 && a[0] == b[0] && b[0] == c[0] {
        lemma_lex_trans(a.skip(1), b.skip(1), c.skip(1));
    }
}

proof fn lemma_char_inj(x: char, y: char)
    requires
        x != y,
    ensures
        (x as u32) != (y as u32),
{
}

pub proof fn lemma_lex_total(a: Seq<char>, b: Seq<char>)
    ensures
        a == b || lex_lt(a, b) || lex_lt(b, a),
    decreases a.len(),
{
    if b.len() == 0 {
        if a.len() == 0 {
            assert(a =~= b);
        }
    } else if a.len() == 0 {
    } else if a[0] != b[0] {
        lemma_char_inj(a[0], b[0]);
    } else {
        lemma_lex_total(a.skip(1), b.skip(1));
        if a.skip(1) == b.skip(1) {
            assert(a.skip(1).len() == a.len() - 1);
            assert(b.skip(1).len() == b.len() - 1);
            assert forall|i: int| 0 <= i < a.len() implies a[i] == b[i] by {
                if i >= 1 {
                    assert(a.skip(1)[i - 1] == a[i]);
                    assert(b.skip(1)[i - 1] == b[i]);
                }
            }
            assert(a.len() == b.len());
            assert(a =~= b);
        }
    }
}

/// Whether `a` comes strictly before `b` in id order.
fn str_lt(a: &str, b: &str) -> (r: bool)
    ensures
        r == lex_lt(a@, b@),
{
    let an = a.unicode_len();
    let bn = b.unicode_len();
    let mut i: usize = 0;
    proof {
        assert(a@.skip(0) =~= a@);
        assert(b@.skip(0) =~= b@);
    }
    while i < an && i < bn
        invariant
            i <= an,
            i <= bn,
            an == a@.len(),
            bn == b@.len(),
            lex_lt(a@, b@) == lex_lt(a@.skip(i as int), b@.skip(i as int)),
            forall|k: int| 0 <= k < i ==> a@[k] == b@[k],
        decreases an - i,
    {
        let ca = a.get_char(i);
        let cb = b.get_char(i);
        proof {
            assert(a@.skip(i as int)[0] == a@[i as int]);
            assert(b@.skip(i as int)[0] == b@[i as int]);
            assert(a@.skip(i as int).skip(1) =~= a@.skip(i as int + 1));
            assert(b@.skip(i as int).skip(1) =~= b@.skip(i as int + 1));
        }
        if ca != cb {
            return (ca as u32) < (cb as u32);
        }
        i = i + 1;
    }
    proof {
        assert(a@.skip(i as int).len() == an - i);
        assert(b@.skip(i as int).len() == bn - i);
    }
    i == an && i < bn
}

/// The granger store: animal records in strictly ascending id order, the
/// verified stand-in for the id-keyed map the desktop tools share.
#[derive(Debug)]
pub struct GrangerStore {
    pub entries: Vec<GrangerAnimal>,
}

impl GrangerStore {
    /// Ids are strictly ascending across the store — so also unique, and
    /// the store reads out in the shared map's iteration order.
    pub open spec fn wf(&self) -> bool {
        forall|i: int, j: int|
            0 <= i < j < self.entries@.len() ==> lex_lt(
                (#[trigger] self.entries@[i]).id@,
                (#[trigger] self.entries@[j]).id@,
            )
    }

    /// Inserts a record: a record with the same id is replaced in place,
    /// any other record is untouched, and a new id enters at its ordered
    /// position.
    pub fn insert(&mut self, animal: GrangerAnimal)
        requires
            old(self).wf(),
        ensures
            final(self).wf(),
            spec_find(final(self).entries@, animal.id@) == Some(animal),
            forall|id: Seq<char>| id != animal.id@ ==> spec_find(final(self).entries@, id)
                == spec_find(old(self).entries@, id),
    {
        let ghost orig = self.entries@;
        let mut i: usize = 0;
        while i < self.entries.len()
            invariant
                i <= self.entries@.len(),
                self.entries@ == orig,
                orig == old(self).entries@,
                old(self).wf(),
                forall|k: int| 0 <= k < i ==> lex_lt((#[trigger] orig[k]).id@, animal.id@),
            decreases self.entries@.len() - i,
        {
            proof {
                lemma_absent_below(orig, i as int, animal.id@);
            }
            if self.entries[i].id == animal.id {
                self.entries.remove(i);
                self.entries.insert(i, animal);
                proof {
                    assert(self.entries@ =~= orig.update(i as int, animal));
                    lemma_distinct_of_sorted(orig);
                    lemma_find_update(orig, self.entries@, i as int, animal);
                    let new = self.entries@;
                    assert forall|p: int, q: int| 0 <= p < q < new.len() implies lex_lt(
                        (#[trigger] new[p]).id@,
                        (#[trigger] new[q]).id@,
                    ) by {
                        assert(new[p].id@ == orig[p].id@);
                        assert(new[q].id@ == orig[q].id@);
                    }
                }
                return ;
            }
            if str_lt(animal.id.as_str(), self.entries[i].id.as_str()) {
                self.entries.insert(i, animal);
                proof {
                    assert(self.entries@ =~= orig.insert(i as int, animal));
                    lemma_find_insert_mid(orig, i as int, animal);
                    let new = self.entries@;
                    assert forall|p: int, q: int| 0 <= p < q < new.len() implies lex_lt(
                        (#[trigger] new[p]).id@,
                        (#[trigger] new[q]).id@,
                    ) by {
                        if q < i {
                            assert(new[p] == orig[p] && new[q] == orig[q]);
                        } else if q == i {
                            assert(new[p] == orig[p] && new[q] == animal);
                        } else if p < i {
                            assert(new[p] == orig[p] && new[q] == orig[q - 1]);
                        } else if p == i {
                            assert(new[p] == animal && new[q] == orig[q - 1]);
                            if q - 1 > i as int {
                                lemma_lex_trans(animal.id@, orig[i as int].id@, orig[q - 1].id@);
                            }
                        } else {
                            assert(new[p] == orig[p - 1] && new[q] == orig[q - 1]);
                        }
                    }
                }
                return ;
            }
            proof {
                lemma_lex_total(orig[i as int].id@, animal.id@);
            }
            i = i + 1;
        }
        proof {
            lemma_absent_below(orig, orig.len() as int, animal.id@);
        }
        self.entries.push(animal);
        proof {
            lemma_find_append(orig, animal);
        }
    }
}

/// Records strictly below an id in order cannot carry that id.
proof fn lemma_absent_below(s: Seq<GrangerAnimal>, upto: int, id: Seq<char>)
    requires
        0 <= upto <= s.len(),
        forall|k: int| 0 <= k < upto ==> lex_lt((#[trigger] s[k]).id@, id),
    ensures
        forall|k: int| 0 <= k < upto ==> (#[trigger] s[k]).id@ != id,
{
    assert forall|k: int| 0 <= k < upto implies (#[trigger] s[k]).id@ != id by {
        if s[k].id@ == id {
            lemma_lex_irrefl(id);
        }
    }
}

/// Ascending ids are pairwise distinct.
proof fn lemma_distinct_of_sorted(s: Seq<GrangerAnimal>)
    requires
        forall|i: int, j: int| 0 <= i < j < s.len() ==> lex_lt(
            (#[trigger] s[i]).id@,
            (#[trigger] s[j]).id@,
        ),
    ensures
        forall|i: int, j: int| 0 <= i < j < s.len() ==> (#[trigger] s[i].id@) != (
        #[trigger] s[j].id@),
{
    assert forall|i: int, j: int| 0 <= i < j < s.len() implies (#[trigger] s[i].id@) != (
    #[trigger] s[j].id@) by {
        if s[i].id@ == s[j].id@ {
            assert(lex_lt(s[i].id@, s[j].id@));
            lemma_lex_irrefl(s[i].id@);
        }
    }
}

/// Inserting a record whose id does not occur before the insertion point
/// finds that record by its id and leaves every other lookup unchanged.
proof fn lemma_find_insert_mid(s: Seq<GrangerAnimal>, at: int, a: GrangerAnimal)
    requires
        0 <= at <= s.len(),
        forall|k: int| 0 <= k < at ==> (#[trigger] s[k]).id@ != a.id@,
    ensures
        spec_find(s.insert(at, a), a.id@) == Some(a),
        forall|id: Seq<char>| id != a.id@ ==> spec_find(s.insert(at, a), id) == spec_find(s, id),
    decreases at,
{
    let t = s.insert(at, a);
    if at == 0 {
        assert(t[0] == a);
        assert(t.skip(1) =~= s);
        assert forall|id: Seq<char>| id != a.id@ implies spec_find(t, id) == spec_find(s, id) by {
            assert(t[0].id@ == a.id@);
        }
    } else {
        assert(t[0] == s[0]);
        assert(t.skip(1) =~= s.skip(1).insert(at - 1, a));
        lemma_find_insert_mid(s.skip(1), at - 1, a);
        assert(s[0].id@ != a.id@);
        assert(spec_find(t, a.id@) == spec_find(s.skip(1).insert(at - 1, a), a.id@));
        assert forall|id: Seq<char>| id != a.id@ implies spec_find(t, id) == spec_find(s, id) by {
            if s[0].id@ != id {
                assert(spec_find(t, id) == spec_find(s.skip(1).insert(at - 1, a), id));
                assert(spec_find(s, id) == spec_find(s.skip(1), id));
            }
        }
    }
}

proof fn lemma_find_skip_absent(s: Seq<GrangerAnimal>, upto: int, id: Seq<char>)
    requires
        0 <= upto <= s.len(),
        forall|k: int| 0 <= k < upto ==> (#[trigger] s[k].id@) != id,
    ensures
        spec_find(s, id) == spec_find(s.skip(upto), id),
    decreases upto,
{
    if upto == 0 {
        assert(s.skip(0) =~= s);
    } else {
        assert(s.skip(1).skip(upto - 1) =~= s.skip(upto));
        lemma_find_skip_absent(s.skip(1), upto - 1, id);
    }
}

proof fn lemma_find_update(orig: Seq<GrangerAnimal>, new: Seq<GrangerAnimal>, at: int, animal: GrangerAnimal)
    requires
        0 <= at < orig.len(),
        new =~= orig.update(at, animal),
        orig[at].id@ == animal.id@,
        forall|k: int| 0 <= k < at ==> (#[trigger] orig[k].id@) != animal.id@,
        forall|i: int, j: int| 0 <= i < j < orig.len() ==> (#[trigger] orig[i].id@) != (
        #[trigger] orig[j].id@),
    ensures
        spec_find(new, animal.id@) == Some(animal),
        forall|id: Seq<char>| id != animal.id@ ==> spec_find(new, id) == spec_find(orig, id),
        forall|i: int, j: int| 0 <= i < j < new.len() ==> (#[trigger] new[i].id@) != (
        #[trigger] new[j].id@),
{
    assert(new.len() == orig.len());
    assert(forall|k: int| 0 <= k < new.len() && k != at ==> #[trigger] new[k] == orig[k]);
    assert(new[at] == animal);
    assert forall|i: int, j: int| 0 <= i < j < new.len() implies (#[trigger] new[i].id@) != (
    #[trigger] new[j].id@) by {
        assert(orig[i].id@ != orig[j].id@);
    }
    assert(forall|k: int| 0 <= k < at ==> (#[trigger] new[k].id@) != animal.id@);
    lemma_find_skip_absent(new, at, animal.id@);
    assert(new.skip(at)[0] == animal);
    assert(spec_find(new, animal.id@) == Some(animal));
    assert forall|id: Seq<char>| id != animal.id@ implies spec_find(new, id) == spec_find(
        orig,
        id,
    ) by {
        lemma_find_replace_other(orig, new, at, id);
    }
}

proof fn lemma_find_replace_other(orig: Seq<GrangerAnimal>, new: Seq<GrangerAnimal>, at: int, id: Seq<char>)
    requires
        0 <= at < orig.len(),
        new.len() == orig.len(),
        forall|k: int| 0 <= k < new.len() && k != at ==> #[trigger] new[k] == orig[k],
        new[at].id@ == orig[at].id@,
        id != new[at].id@,
    ensures
        spec_find(new, id) == spec_find(orig, id),
    decreases at,
{
    if at == 0 {
        assert(new.skip(1) =~= orig.skip(1));
    } else {
        assert(new[0] == orig[0]);
        assert(new.len() > 0);
        lemma_find_replace_other(orig.skip(1), new.skip(1), at - 1, id);
    }
}

proof fn lemma_find_push_other(orig: Seq<GrangerAnimal>, animal: GrangerAnimal, id: Seq<char>)
    requires
        id != animal.id@,
    ensures
        spec_find(orig.push(animal), id) == spec_find(orig, id),
    decreases orig.len(),
{
    let s = orig.push(animal);
    if orig.len() == 0 {
        assert(s[0] == animal);
        assert(s.skip(1) =~= Seq::<GrangerAnimal>::empty());
        assert(spec_find(s.skip(1), id) is None);
    } else {
        assert(s[0] == orig[0]);
        assert(s.skip(1) =~= orig.skip(1).push(animal));
        lemma_find_push_other(orig.skip(1), animal, id);
    }
}

proof fn lemma_find_append(orig: Seq<GrangerAnimal>, animal: GrangerAnimal)
    requires
        forall|k: int| 0 <= k < orig.len() ==> (#[trigger] orig[k].id@) != animal.id@,
    ensures
        spec_find(orig.push(animal), animal.id@) == Some(animal),
        forall|id: Seq<char>| id != animal.id@ ==> spec_find(orig.push(animal), id) == spec_find(
            orig,
            id,
        ),
{
    let s = orig.push(animal);
    lemma_find_skip_absent(s, orig.len() as int, animal.id@);
    assert(s.skip(orig.len() as int)[0] == animal);
    assert forall|id: Seq<char>| id != animal.id@ implies spec_find(s, id) == spec_find(
        orig,
        id,
    ) by {
        lemma_find_push_other(orig, animal, id);
    }
}

/// An empty store.
pub fn new_store() -> (r: GrangerStore)
    ensures
        r.wf(),
        r.entries@.len() == 0,
{
    GrangerStore { entries: Vec::new() }
}

/// A store seeded from loaded records, folded in insertion order: every
/// id of the input is present, and every stored record came from the
/// input.
pub fn new_store_with(initial: Vec<GrangerAnimal>) -> (r: GrangerStore)
    ensures
        r.wf(),
        forall|k: int| 0 <= k < initial@.len() ==> spec_find(
            r.entries@,
            (#[trigger] initial@[k]).id@,
        ) is Some,
        forall|id: Seq<char>| (#[trigger] spec_find(r.entries@, id)) matches Some(a) ==> exists|
            k: int,
        | 0 <= k < initial@.len() && initial@[k] == a && a.id@ == id,
{
    let ghost iv = initial@;
    let mut store = new_store();
    let mut items = initial;
    let ghost mut i: int = 0;
    while items.len() > 0
        invariant
            0 <= i,
            i + items@.len() == iv.len(),
            items@ == iv.skip(i),
            store.wf(),
            forall|k: int| 0 <= k < i ==> spec_find(store.entries@, (#[trigger] iv[k]).id@)
                is Some,
            forall|id: Seq<char>| (#[trigger] spec_find(store.entries@, id)) matches Some(a)
                ==> exists|k: int| 0 <= k < i && iv[k] == a && a.id@ == id,
        decreases items@.len(),
    {
        let animal = items.remove(0);
        proof {
            assert(animal == iv[i]);
            assert(items@ =~= iv.skip(i + 1));
        }
        store.insert(animal);
        proof {
            i = i + 1;
        }
    }
    store
}

/// The stored records, cloned field for field; for a well-formed store
/// that is ascending id order, as the shared map's value iteration gave.
pub fn to_vec(entries: &GrangerStore) -> (r: Vec<GrangerAnimal>)
    ensures
        r@.len() == entries.entries@.len(),
        forall|k: int| 0 <= k < r@.len() ==> animal_like(
            #[trigger] r@[k],
            entries.entries@[k],
        ),
        entries.wf() ==> forall|i: int, j: int| 0 <= i < j < r@.len() ==> lex_lt(
            (#[trigger] r@[i]).id@,
            (#[trigger] r@[j]).id@,
        ),
{
    let v = &entries.entries;
    let mut out: Vec<GrangerAnimal> = Vec::new();
    let mut i: usize = 0;
    while i < v.len()
        invariant
            i <= v.len(),
            out@.len() == i,
            forall|k: int| 0 <= k < i ==> animal_like(#[trigger] out@[k], v@[k]),
        decreases v.len() - i,
    {
        out.push(v[i].clone());
        i = i + 1;
    }
    proof {
        if entries.wf() {
            assert forall|p: int, q: int| 0 <= p < q < out@.len() implies lex_lt(
                (#[trigger] out@[p]).id@,
                (#[trigger] out@[q]).id@,
            ) by {
                assert(animal_like(out@[p], entries.entries@[p]));
                assert(animal_like(out@[q], entries.entries@[q]));
                assert(lex_lt(entries.entries@[p].id@, entries.entries@[q].id@));
            }
        }
    }
    out
}

} // verus!
