use vstd::prelude::*;

use crate::error::StoreError;
use crate::record::Workspace;
use crate::text::str_eq;

verus! {

// ---------------------------------------------------------------------------
// The workspace registry: the persisted mapping from workspace id to the
// absolute root path of its tree. The host shell reads and writes it as one
// JSON file in the application-data directory; this module owns its content
// and its rules.
// ---------------------------------------------------------------------------

pub struct Registry {
    entries: Vec<(String, String)>,
}

/// The mathematical content of an entry list: a map from id to path, later
/// entries winning (moot under well-formedness).
pub open spec fn reg_map(entries: Seq<(String, String)>) -> Map<Seq<char>, Seq<char>>
    decreases entries,
{
    if entries.len() == 0 {
        Map::<Seq<char>, Seq<char>>::empty()
    } else {
        reg_map(entries.drop_last()).insert(entries.last().0@, entries.last().1@)
    }
}

/// No id occurs twice.
pub open spec fn entries_wf(entries: Seq<(String, String)>) -> bool {
    forall|i: int, j: int|
        0 <= i < j < entries.len() ==> (#[trigger] entries[i]).0@ != (#[trigger] entries[j]).0@
}

proof fn lemma_reg_map_contains(entries: Seq<(String, String)>, id: Seq<char>)
    ensures
        reg_map(entries).contains_key(id) <==> exists|i: int|
            0 <= i < entries.len() && (#[trigger] entries[i]).0@ == id,
    decreases entries,
{
    if entries.len() > 0 {
        lemma_reg_map_contains(entries.drop_last(), id);
        if reg_map(entries).contains_key(id) {
            if entries.last().0@ != id {
                let i = choose|i: int|
                    0 <= i < entries.drop_last().len() && (#[trigger] entries.drop_last()[i]).0@
                        == id;
                assert(entries[i] == entries.drop_last()[i]);
            } else {
                assert(entries[entries.len() - 1].0@ == id);
            }
        }
        if exists|i: int| 0 <= i < entries.len() && (#[trigger] entries[i]).0@ == id {
            let i = choose|i: int| 0 <= i < entries.len() && (#[trigger] entries[i]).0@ == id;
            if i < entries.len() - 1 {
                assert(entries.drop_last()[i] == entries[i]);
            }
        }
    }
}

proof fn lemma_reg_map_at(entries: Seq<(String, String)>, i: int)
    requires
        entries_wf(entries),
        0 <= i < entries.len(),
    ensures
        reg_map(entries).contains_key(entries[i].0@),
        reg_map(entries)[entries[i].0@] == entries[i].1@,
    decreases entries,
{
    if i == entries.len() - 1 {
    } else {
        assert(entries_wf(entries.drop_last())) by {
            assert(forall|a: int, b: int|
                0 <= a < b < entries.drop_last().len() ==> (#[trigger] entries.drop_last()[a]).0@
                    != (#[trigger] entries.drop_last()[b]).0@) by {
                assert(forall|a: int|
                    0 <= a < entries.drop_last().len() ==> #[trigger] entries.drop_last()[a]
                        == entries[a]);
            }
        }
        assert(entries.drop_last()[i] == entries[i]);
        lemma_reg_map_at(entries.drop_last(), i);
        assert(entries.last().0@ != entries[i].0@);
    }
}

impl Registry {
    /// The registry's mathematical content.
    pub closed spec fn view(&self) -> Map<Seq<char>, Seq<char>> {
        reg_map(self.entries@)
    }

    pub closed spec fn wf(&self) -> bool {
        entries_wf(self.entries@)
    }

    /// The empty registry: what loading an absent registry file yields.
    pub fn new() -> (r: Registry)
        ensures
            r.wf(),
            r@ == Map::<Seq<char>, Seq<char>>::empty(),
    {
        Registry { entries: Vec::new() }
    }

    /// Builds a registry from decoded file entries. A duplicate id in the
    /// file is malformed content.
    pub fn from_entries(entries: Vec<(String, String)>) -> (r: Result<Registry, StoreError>)
        ensures
            match r {
                Result::Ok(reg) => reg.wf() && reg@ == reg_map(entries@) && entries_wf(entries@),
                Result::Err(e) => e == StoreError::CorruptRegistry && !entries_wf(entries@),
            },
    {
        let n = entries.len();
        let mut i: usize = 0;
        while i < n
            invariant
                n == entries@.len(),
                0 <= i <= n,
                forall|a: int, b: int|
                    0 <= a < b < entries@.len() && a < i ==> (#[trigger] entries@[a]).0@ != (
                    #[trigger] entries@[b]).0@,
            decreases n - i,
        {
            let mut j: usize = i + 1;
            while j < n
                invariant
                    n == entries@.len(),
                    0 <= i < j <= n,
                    forall|b: int| i < b < j ==> (#[trigger] entries@[b]).0@ != entries@[i as int].0@,
                decreases n - j,
            {
                if str_eq(entries[i].0.as_str(), entries[j].0.as_str()) {
                    return Result::Err(StoreError::CorruptRegistry);
                }
                j += 1;
            }
            i += 1;
        }
        Result::Ok(Registry { entries })
    }

    /// The entry list, for the host shell to persist.
    pub fn entries(&self) -> (r: &Vec<(String, String)>)
        ensures
            reg_map(r@) == self@,
            entries_wf(r@) == self.wf(),
    {
        &self.entries
    }

    fn index_of(&self, id: &str) -> (r: Option<usize>)
        ensures
            match r {
                Option::Some(i) => i < self.entries@.len() && self.entries@[i as int].0@ == id@,
                Option::None => forall|i: int|
                    0 <= i < self.entries@.len() ==> (#[trigger] self.entries@[i]).0@ != id@,
            },
    {
        let mut i: usize = 0;
        while i < self.entries.len()
            invariant
                0 <= i <= self.entries@.len(),
                forall|k: int| 0 <= k < i ==> (#[trigger] self.entries@[k]).0@ != id@,
            decreases self.entries@.len() - i,
        {
            if str_eq(self.entries[i].0.as_str(), id) {
                return Option::Some(i);
            }
            i += 1;
        }
        Option::None
    }

    /// The root path registered for a workspace id.
    pub fn resolve(&self, id: &str) -> (r: Option<String>)
        requires
            self.wf(),
        ensures
            match r {
                Option::Some(p) => self@.contains_key(id@) && p@ == self@[id@],
                Option::None => !self@.contains_key(id@),
            },
    {
        proof {
            lemma_reg_map_contains(self.entries@, id@);
        }
        match self.index_of(id) {
            Option::Some(i) => {
                proof {
                    lemma_reg_map_at(self.entries@, i as int);
                }
                Option::Some(self.entries[i].1.clone())
            },
            Option::None => Option::None,
        }
    }

    /// Registers a new workspace under its id. A present id is refused: the
    /// registry never holds two entries for one id. The host shell writes the
    /// workspace's own metadata record at its root.
    pub fn create(&mut self, ws: &Workspace) -> (r: Result<(), StoreError>)
        requires
            old(self).wf(),
        ensures
            final(self).wf(),
            r == Result::<(), StoreError>::Err(StoreError::AlreadyExists) <==> old(
                self,
            )@.contains_key(ws.id@),
            r is Ok || r == Result::<(), StoreError>::Err(StoreError::AlreadyExists),
            r is Err ==> final(self)@ == old(self)@,
            r is Ok ==> final(self)@ == old(self)@.insert(ws.id@, ws.path@),
    {
        proof {
            lemma_reg_map_contains(self.entries@, ws.id@);
        }
        match self.index_of(ws.id.as_str()) {
            Option::Some(_) => Result::Err(StoreError::AlreadyExists),
            Option::None => {
                let ghost prev = self.entries@;
                self.entries.push((ws.id.clone(), ws.path.clone()));
                proof {
                    assert(self.entries@.drop_last() =~= prev);
                }
                Result::Ok(())
            },
        }
    }

    /// Re-registers a workspace, allowing its root path to move: the
    /// registry is the source of truth for where a workspace now lives.
    pub fn update(&mut self, ws: &Workspace) -> (r: Result<(), StoreError>)
        requires
            old(self).wf(),
        ensures
            final(self).wf(),
            r == Result::<(), StoreError>::Err(StoreError::NotFound) <==> !old(
                self,
            )@.contains_key(ws.id@),
            r is Ok || r == Result::<(), StoreError>::Err(StoreError::NotFound),
            r is Err ==> final(self)@ == old(self)@,
            r is Ok ==> final(self)@ == old(self)@.insert(ws.id@, ws.path@),
    {
        let id = ws.id.clone();
        let path = ws.path.clone();
        proof {
            lemma_reg_map_contains(self.entries@, id@);
        }
        match self.index_of(id.as_str()) {
            Option::None => Result::Err(StoreError::NotFound),
            Option::Some(i) => {
                let ghost prev = self.entries@;
                self.entries.remove(i);
                self.entries.insert(i, (id, path));
                proof {
                    assert(self.entries@ =~= prev.update(i as int, self.entries@[i as int]));
                    lemma_reg_map_set(prev, i as int, self.entries@[i as int]);
                    assert(final(self).wf()) by {
                        assert(forall|a: int|
                            0 <= a < self.entries@.len() && a != i ==> #[trigger] self.entries@[a]
                                == prev[a]);
                    }
                }
                Result::Ok(())
            },
        }
    }

    /// Unregisters a workspace.
    pub fn remove(&mut self, id: &str) -> (r: Result<(), StoreError>)
        requires
            old(self).wf(),
        ensures
            final(self).wf(),
            r == Result::<(), StoreError>::Err(StoreError::NotFound) <==> !old(
                self,
            )@.contains_key(id@),
            r is Ok || r == Result::<(), StoreError>::Err(StoreError::NotFound),
            r is Err ==> final(self)@ == old(self)@,
            r is Ok ==> final(self)@ == old(self)@.remove(id@),
    {
        proof {
            lemma_reg_map_contains(self.entries@, id@);
        }
        match self.index_of(id) {
            Option::None => Result::Err(StoreError::NotFound),
            Option::Some(i) => {
                let ghost prev = self.entries@;
                self.entries.remove(i);
                proof {
                    lemma_reg_map_removed(prev, i as int, id@);
                    assert(final(self).wf()) by {
                        assert(forall|a: int|
                            0 <= a < self.entries@.len() ==> #[trigger] self.entries@[a] == (if a
                                < i {
                                prev[a]
                            } else {
                                prev[a + 1]
                            }));
                    }
                }
                Result::Ok(())
            },
        }
    }

    /// The root that owns a vertex: fails when the vertex carries no
    /// workspace id, and when it carries one the registry does not know.
    pub fn resolve_root_for_vertex_owner(&self, workspace_id: &Option<String>) -> (r: Result<
        String,
        StoreError,
    >)
        requires
            self.wf(),
        ensures
            match r {
                Result::Ok(p) => workspace_id matches Option::Some(id) && self@.contains_key(id@)
                    && p@ == self@[id@],
                Result::Err(e) => match workspace_id {
                    Option::None => e == StoreError::MissingWorkspaceId,
                    Option::Some(id) => e == StoreError::UnregisteredWorkspace
                        && !self@.contains_key(id@),
                },
            },
    {
        match workspace_id {
            Option::None => Result::Err(StoreError::MissingWorkspaceId),
            Option::Some(id) => match self.resolve(id.as_str()) {
                Option::Some(p) => Result::Ok(p),
                Option::None => Result::Err(StoreError::UnregisteredWorkspace),
            },
        }
    }
}

/// Registering a workspace at an absolute root and then resolving its id
/// returns exactly the path it was created with: `create` leaves the map at
/// `old@.insert(id, path)`, and `resolve` reads that map.
pub proof fn lemma_create_then_resolve(
    before: Map<Seq<char>, Seq<char>>,
    id: Seq<char>,
    path: Seq<char>,
)
    ensures
        before.insert(id, path).contains_key(id),
        before.insert(id, path)[id] == path,
{
}

proof fn lemma_reg_map_set(entries: Seq<(String, String)>, i: int, pair: (String, String))
    requires
        entries_wf(entries),
        0 <= i < entries.len(),
        pair.0@ == entries[i].0@,
    ensures
        reg_map(entries.update(i, pair)) == reg_map(entries).insert(pair.0@, pair.1@),
    decreases entries,
{
    let upd = entries.update(i, pair);
    if i == entries.len() - 1 {
        assert(upd.drop_last() =~= entries.drop_last());
        assert(upd.last() == pair);
        assert(reg_map(entries.drop_last()).insert(pair.0@, pair.1@) =~= reg_map(
            entries,
        ).insert(pair.0@, pair.1@));
    } else {
        assert(entries_wf(entries.drop_last())) by {
            assert(forall|a: int|
                0 <= a < entries.drop_last().len() ==> #[trigger] entries.drop_last()[a]
                    == entries[a]);
        }
        assert(entries.drop_last()[i] == entries[i]);
        lemma_reg_map_set(entries.drop_last(), i, pair);
        assert(upd.drop_last() =~= entries.drop_last().update(i, pair));
        assert(upd.last() == entries.last());
        assert(entries.last().0@ != pair.0@);
        assert(reg_map(entries.drop_last()).insert(pair.0@, pair.1@).insert(
            entries.last().0@,
            entries.last().1@,
        ) =~= reg_map(entries.drop_last()).insert(entries.last().0@, entries.last().1@).insert(
            pair.0@,
            pair.1@,
        ));
    }
}

proof fn lemma_reg_map_removed(entries: Seq<(String, String)>, i: int, id: Seq<char>)
    requires
        entries_wf(entries),
        0 <= i < entries.len(),
        entries[i].0@ == id,
    ensures
        reg_map(entries.remove(i)) == reg_map(entries).remove(id),
    decreases entries,
{
    let rem = entries.remove(i);
    if i == entries.len() - 1 {
        assert(rem =~= entries.drop_last());
        lemma_reg_map_contains(entries.drop_last(), id);
        assert(forall|a: int|
            0 <= a < entries.drop_last().len() ==> (#[trigger] entries.drop_last()[a]).0@ != id);
        assert(!reg_map(entries.drop_last()).contains_key(id));
        assert(reg_map(entries.drop_last()) =~= reg_map(entries.drop_last()).insert(
            id,
            entries.last().1@,
        ).remove(id));
    } else {
        assert(entries_wf(entries.drop_last())) by {
            assert(forall|a: int|
                0 <= a < entries.drop_last().len() ==> #[trigger] entries.drop_last()[a]
                    == entries[a]);
        }
        assert(entries.drop_last()[i] == entries[i]);
        lemma_reg_map_removed(entries.drop_last(), i, id);
        assert(rem.drop_last() =~= entries.drop_last().remove(i));
        assert(rem.last() == entries.last());
        assert(entries.last().0@ != id);
        assert(reg_map(entries.drop_last().remove(i)).insert(
            entries.last().0@,
            entries.last().1@,
        ) =~= reg_map(entries.drop_last()).insert(entries.last().0@, entries.last().1@).remove(
            id,
        ));
    }
}

} // verus!
