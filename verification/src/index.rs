//! The page-identity index: one record per known canonical title, mapping
//! every alias to the canonical article it resolves to. Articles carry a
//! positive ordinal id and resolve to themselves; redirect stubs carry no
//! id and name another alias, followed for at most one further hop.

use vstd::prelude::*;

verus! {

/// One identity record. For a genuine article the target equals the alias
/// and the id is present; for a redirect stub the id is absent and the
/// target names another alias.
pub struct PageRecord {
    pub alias: String,
    pub target: String,
    pub id: Option<u64>,
}

/// The mapping held by a record list, first record winning on a repeated
/// alias.
pub open spec fn index_map_of(recs: Seq<PageRecord>) -> Map<Seq<char>, (Seq<char>, Option<u64>)>
    decreases recs.len(),
{
    if recs.len() == 0 {
        Map::empty()
    } else {
        let m = index_map_of(recs.drop_last());
        let r = recs.last();
        if m.contains_key(r.alias@) {
            m
        } else {
            m.insert(r.alias@, (r.target@, r.id))
        }
    }
}

/// What one identity lookup resolves an alias to: the target of an article
/// record, directly or through exactly one redirect stub; anything longer
/// resolves to nothing.
pub open spec fn spec_resolve(
    m: Map<Seq<char>, (Seq<char>, Option<u64>)>,
    a: Seq<char>,
) -> Option<Seq<char>> {
    if !m.contains_key(a) {
        None
    } else if m[a].1 is Some {
        Some(m[a].0)
    } else if m.contains_key(m[a].0) && m[m[a].0].1 is Some {
        Some(m[m[a].0].0)
    } else {
        None
    }
}

/// Inserting a record only where its key is absent: the first writer wins.
pub open spec fn spec_upsert(
    m: Map<Seq<char>, (Seq<char>, Option<u64>)>,
    k: Seq<char>,
    v: (Seq<char>, Option<u64>),
) -> Map<Seq<char>, (Seq<char>, Option<u64>)> {
    if m.contains_key(k) {
        m
    } else {
        m.insert(k, v)
    }
}

/// The identity index.
pub struct IdentityIndex {
    pub recs: Vec<PageRecord>,
}

impl View for IdentityIndex {
    type V = Map<Seq<char>, (Seq<char>, Option<u64>)>;

    open spec fn view(&self) -> Map<Seq<char>, (Seq<char>, Option<u64>)> {
        index_map_of(self.recs@)
    }
}

impl IdentityIndex {
    /// Aliases are unique, and every article record resolves to itself.
    pub open spec fn wf(&self) -> bool {
        &&& forall|i: int, j: int|
            0 <= i < j < self.recs@.len() ==> self.recs@[i].alias@ != self.recs@[j].alias@
        &&& forall|i: int|
            0 <= i < self.recs@.len() && (#[trigger] self.recs@[i].id) is Some
                ==> self.recs@[i].target@ == self.recs@[i].alias@
    }

    /// The empty index.
    pub fn new() -> (r: Self)
        ensures
            r@ == Map::<Seq<char>, (Seq<char>, Option<u64>)>::empty(),
            r.wf(),
            r.recs@.len() == 0,
    {
        IdentityIndex { recs: Vec::new() }
    }

    /// Every record stands in the mapping under its alias with its own
    /// target and id, and every key of the mapping comes from a record.
    proof fn lemma_map_records(&self)
        requires
            self.wf(),
        ensures
            forall|i: int|
                0 <= i < self.recs@.len() ==> self@.contains_key(#[trigger] self.recs@[i].alias@)
                    && self@[self.recs@[i].alias@] == (self.recs@[i].target@, self.recs@[i].id),
            forall|a: Seq<char>|
                #[trigger] self@.contains_key(a) ==> exists|i: int|
                    0 <= i < self.recs@.len() && self.recs@[i].alias@ == a,
        decreases self.recs@.len(),
    {
        lemma_map_records_seq(self.recs@);
    }

    /// Looks an alias up, handing back the record's target and id.
    pub fn lookup(&self, alias: &String) -> (r: Option<(String, Option<u64>)>)
        requires
            self.wf(),
        ensures
            match r {
                Some(p) => self@.contains_key(alias@) && self@[alias@] == (p.0@, p.1),
                None => !self@.contains_key(alias@),
            },
    {
        proof {
            self.lemma_map_records();
        }
        let mut i: usize = 0;
        while i < self.recs.len()
            invariant
                0 <= i <= self.recs@.len(),
                self.wf(),
                forall|j: int| 0 <= j < i ==> self.recs@[j].alias@ != alias@,
                forall|k: int|
                    0 <= k < self.recs@.len() ==> self@.contains_key(
                        #[trigger] self.recs@[k].alias@,
                    ) && self@[self.recs@[k].alias@] == (self.recs@[k].target@, self.recs@[k].id),
                forall|a: Seq<char>|
                    #[trigger] self@.contains_key(a) ==> exists|k: int|
                        0 <= k < self.recs@.len() && self.recs@[k].alias@ == a,
            decreases self.recs@.len() - i,
        {
            let rec = &self.recs[i];
            if rec.alias.eq(alias) {
                let t = rec.target.clone();
                return Some((t, rec.id));
            }
            i += 1;
        }
        proof {
            if self@.contains_key(alias@) {
                let k = choose|k: int|
                    0 <= k < self.recs@.len() && self.recs@[k].alias@ == alias@;
                assert(self.recs@[k].alias@ != alias@);
            }
        }
        None
    }

    /// Records a genuine article under its canonical title; a repeated
    /// alias is ignored, the first writer winning.
    pub fn insert_article(&mut self, alias: String, id: u64) -> (added: bool)
        requires
            old(self).wf(),
        ensures
            final(self).wf(),
            final(self)@ == spec_upsert(old(self)@, alias@, (alias@, Some(id))),
            added == !old(self)@.contains_key(alias@),
    {
        self.insert_record(alias.clone(), alias, Some(id))
    }

    /// Records a redirect stub from its canonical title to the canonical
    /// title it redirects to; a repeated alias is ignored.
    pub fn insert_redirect(&mut self, alias: String, target: String) -> (added: bool)
        requires
            old(self).wf(),
        ensures
            final(self).wf(),
            final(self)@ == spec_upsert(old(self)@, alias@, (target@, None)),
            added == !old(self)@.contains_key(alias@),
    {
        self.insert_record(alias, target, None)
    }

    /// Inserts a record if its alias is absent.
    fn insert_record(&mut self, alias: String, target: String, id: Option<u64>) -> (added: bool)
        requires
            old(self).wf(),
            id is Some ==> target@ == alias@,
        ensures
            final(self).wf(),
            final(self)@ == spec_upsert(old(self)@, alias@, (target@, id)),
            added == !old(self)@.contains_key(alias@),
    {
        proof {
            self.lemma_map_records();
        }
        let present = match self.lookup(&alias) {
            Some(_) => true,
            None => false,
        };
        if present {
            return false;
        }
        let ghost old_recs = self.recs@;
        self.recs.push(PageRecord { alias, target, id });
        proof {
            assert(self.recs@.drop_last() =~= old_recs);
            assert forall|i: int, j: int|
                0 <= i < j < self.recs@.len() implies self.recs@[i].alias@
                != self.recs@[j].alias@ by {
                if j == self.recs@.len() - 1 {
                    assert(old(self)@.contains_key(old_recs[i].alias@));
                }
            }
        }
        true
    }

    /// Resolves an alias to its canonical article title: directly for an
    /// article record, through exactly one further lookup for a redirect
    /// stub, and to nothing otherwise.
    pub fn resolve(&self, alias: &String) -> (r: Option<String>)
        requires
            self.wf(),
        ensures
            match r {
                Some(t) => spec_resolve(self@, alias@) == Some(t@),
                None => spec_resolve(self@, alias@) is None,
            },
    {
        match self.lookup(alias) {
            None => None,
            Some((target, id)) => match id {
                Some(_) => Some(target),
                None => match self.lookup(&target) {
                    Some((target2, id2)) => match id2 {
                        Some(_) => Some(target2),
                        None => None,
                    },
                    None => None,
                },
            },
        }
    }
}

/// Every record of a duplicate-free list stands in its mapping, and every
/// key of the mapping comes from a record.
proof fn lemma_map_records_seq(recs: Seq<PageRecord>)
    requires
        forall|i: int, j: int| 0 <= i < j < recs.len() ==> recs[i].alias@ != recs[j].alias@,
    ensures
        forall|i: int|
            0 <= i < recs.len() ==> index_map_of(recs).contains_key(#[trigger] recs[i].alias@)
                && index_map_of(recs)[recs[i].alias@] == (recs[i].target@, recs[i].id),
        forall|a: Seq<char>|
            #[trigger] index_map_of(recs).contains_key(a) ==> exists|i: int|
                0 <= i < recs.len() && recs[i].alias@ == a,
    decreases recs.len(),
{
    if recs.len() > 0 {
        let prev = recs.drop_last();
        lemma_map_records_seq(prev);
        let m = index_map_of(prev);
        let r = recs.last();
        if m.contains_key(r.alias@) {
            let i = choose|i: int| 0 <= i < prev.len() && prev[i].alias@ == r.alias@;
            assert(recs[i].alias@ == recs[recs.len() - 1].alias@);
            assert(false);
        }
        assert forall|i: int|
            0 <= i < recs.len() implies index_map_of(recs).contains_key(
            #[trigger] recs[i].alias@,
        ) && index_map_of(recs)[recs[i].alias@] == (recs[i].target@, recs[i].id) by {
            if i < recs.len() - 1 {
                assert(prev[i] == recs[i]);
                assert(recs[i].alias@ != r.alias@);
            }
        }
        assert forall|a: Seq<char>|
            #[trigger] index_map_of(recs).contains_key(a) implies exists|i: int|
            0 <= i < recs.len() && recs[i].alias@ == a by {
            if a != r.alias@ {
                assert(m.contains_key(a));
                let i = choose|i: int| 0 <= i < prev.len() && prev[i].alias@ == a;
                assert(recs[i].alias@ == a);
            } else {
                assert(recs[recs.len() - 1].alias@ == a);
            }
        }
    }
}

/// In a well-formed index every record with an id present is an article
/// that resolves to itself: whatever an alias resolves to is such an
/// article's own alias. Disambiguation and soft-redirect pages are never
/// recorded, so no link ever resolves to one.
pub proof fn lemma_resolved_target_is_article(idx: IdentityIndex, a: Seq<char>)
    requires
        idx.wf(),
    ensures
        spec_resolve(idx@, a) matches Some(t) ==> idx@.contains_key(t) && idx@[t].1 is Some
            && idx@[t].0 == t,
{
    idx.lemma_map_records();
    if spec_resolve(idx@, a) is Some {
        if idx@[a].1 is Some {
            let i = choose|i: int| 0 <= i < idx.recs@.len() && idx.recs@[i].alias@ == a;
            assert(idx@[a] == (idx.recs@[i].target@, idx.recs@[i].id));
            assert(idx.recs@[i].target@ == idx.recs@[i].alias@);
        } else {
            let b = idx@[a].0;
            let i = choose|i: int| 0 <= i < idx.recs@.len() && idx.recs@[i].alias@ == b;
            assert(idx@[b] == (idx.recs@[i].target@, idx.recs@[i].id));
            assert(idx.recs@[i].target@ == idx.recs@[i].alias@);
        }
    }
}

/// A single redirect hop resolves: an alias whose stub names a genuine
/// article resolves to that article's title.
pub proof fn lemma_single_hop_resolves(
    m: Map<Seq<char>, (Seq<char>, Option<u64>)>,
    a: Seq<char>,
    b: Seq<char>,
)
    requires
        m.contains_key(a),
        m[a].1 is None,
        m[a].0 == b,
        m.contains_key(b),
        m[b].1 is Some,
        m[b].0 == b,
    ensures
        spec_resolve(m, a) == Some(b),
{
}

/// A chain of two redirect stubs does not resolve, whatever stands beyond
/// it: resolution follows at most one hop.
pub proof fn lemma_double_stub_unresolved(
    m: Map<Seq<char>, (Seq<char>, Option<u64>)>,
    a: Seq<char>,
)
    requires
        m.contains_key(a),
        m[a].1 is None,
        m.contains_key(m[a].0) ==> m[m[a].0].1 is None,
    ensures
        spec_resolve(m, a) is None,
{
}

} // verus!
