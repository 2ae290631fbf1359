//! The name index of one volume: entry id to parent id and name.
use vstd::prelude::*;
use vstd::string::*;
use std::collections::HashMap;

use vstd::std_specs::hash::spec_keys_iter;
use vstd::std_specs::iter::IteratorSpec;

use crate::find::{hit_of, lower_of, lowercase, FullPath};
use crate::record::UsnRecord;
use crate::stream::{
    IterUsnRecord, ReadUsnJournalData, JOURNAL_REASON_MASK, USN_REASON_CLOSE,
    USN_REASON_FILE_CREATE, USN_REASON_FILE_DELETE, USN_REASON_RENAME_NEW_NAME,
};

verus! {

broadcast use vstd::std_specs::hash::group_hash_axioms;

/// Longest parent chain that a path walk follows; a longer one is taken
/// for a cycle or corrupted data.
pub const MAX_DEPTH: usize = 4096;

/// Parent id and name of each entry.
pub type Entries = Map<u64, (u64, Seq<char>)>;

/// Separator between the components of a path.
pub open spec fn sep() -> Seq<char> {
    seq!['\\']
}

/// Names from `id` up through its parents, the entry itself first, until an
/// id that is not in `e`; `None` where the chain is longer than `depth`.
pub open spec fn names_up(e: Entries, id: u64, depth: nat) -> Option<Seq<Seq<char>>>
    decreases depth,
{
    if !e.contains_key(id) {
        Some(Seq::empty())
    } else if depth == 0 {
        None
    } else {
        match names_up(e, e[id].0, (depth - 1) as nat) {
            Some(rest) => Some(seq![e[id].1] + rest),
            None => None,
        }
    }
}

/// `root`, then each name of `leaf_first` from the last to the first, each
/// after a separator.
pub open spec fn join_path(root: Seq<char>, leaf_first: Seq<Seq<char>>) -> Seq<char>
    decreases leaf_first.len(),
{
    if leaf_first.len() == 0 {
        root
    } else {
        join_path(root, leaf_first.drop_first()) + sep() + leaf_first[0]
    }
}

/// The full path of `id`: `None` where `id` is absent or its chain of
/// parents is longer than `MAX_DEPTH`.
pub open spec fn path_of(e: Entries, root: Seq<char>, id: u64) -> Option<Seq<char>> {
    if !e.contains_key(id) {
        None
    } else {
        match names_up(e, id, MAX_DEPTH as nat) {
            Some(names) => Some(join_path(root, names)),
            None => None,
        }
    }
}

/// The effect that a journal record has on the index, from its reason bits:
/// exactly "closed" and one of create, delete, rename-to.
pub enum Effect {
    Insert,
    Remove,
    Nothing,
}

/// The reason bits without "closed" must be exactly one of the three.
pub open spec fn effect_of(reason: u32) -> Effect {
    let signal = reason ^ USN_REASON_CLOSE;
    if signal == USN_REASON_FILE_CREATE || signal == USN_REASON_RENAME_NEW_NAME {
        Effect::Insert
    } else if signal == USN_REASON_FILE_DELETE {
        Effect::Remove
    } else {
        Effect::Nothing
    }
}

/// The entries after a journal record with these fields.
pub open spec fn apply_spec(e: Entries, id: u64, parent: u64, name: Seq<char>, reason: u32) -> Entries {
    match effect_of(reason) {
        Effect::Insert => e.insert(id, (parent, name)),
        Effect::Remove => e.remove(id),
        Effect::Nothing => e,
    }
}

/// `ids` is the parent chain of `id`: it starts at `id`, each id after the
/// first is the parent of the one before, all of them are entries, and the
/// parent of the last is not.
pub open spec fn is_parent_chain(e: Entries, id: u64, ids: Seq<u64>) -> bool {
    &&& ids.len() > 0
    &&& ids[0] == id
    &&& forall|i: int| 0 <= i < ids.len() ==> #[trigger] e.contains_key(ids[i])
    &&& forall|i: int| 0 <= i < ids.len() - 1 ==> ids[i + 1] == #[trigger] e[ids[i]].0
    &&& !e.contains_key(e[ids.last()].0)
}

/// Names of the entries `ids`, in the same order.
pub open spec fn names_of(e: Entries, ids: Seq<u64>) -> Seq<Seq<char>> {
    ids.map_values(|x: u64| e[x].1)
}

proof fn lemma_names_up_chain(e: Entries, id: u64, ids: Seq<u64>, k: int, depth: nat)
    requires
        is_parent_chain(e, id, ids),
        0 <= k < ids.len(),
        depth >= ids.len() - k,
    ensures
        names_up(e, ids[k], depth) == Some(names_of(e, ids.subrange(k, ids.len() as int))),
    decreases ids.len() - k,
{
    assert(e.contains_key(ids[k]));
    if k == ids.len() - 1 {
        assert(names_up(e, e[ids[k]].0, (depth - 1) as nat) == Some(Seq::<Seq<char>>::empty()));
        assert(names_of(e, ids.subrange(k, ids.len() as int)) =~= seq![e[ids[k]].1]);
    } else {
        assert(ids[k + 1] == e[ids[k]].0);
        lemma_names_up_chain(e, id, ids, k + 1, (depth - 1) as nat);
        assert(names_of(e, ids.subrange(k, ids.len() as int)) =~= seq![e[ids[k]].1] + names_of(
            e,
            ids.subrange(k + 1, ids.len() as int),
        ));
    }
}

/// The path of an entry is the root label, then the names along its current
/// parent chain from the top down, each after a separator. It depends on the
/// entries alone, so not on the order in which they were inserted.
pub proof fn lemma_path_follows_parent_chain(e: Entries, root: Seq<char>, id: u64, ids: Seq<u64>)
    requires
        is_parent_chain(e, id, ids),
        ids.len() <= MAX_DEPTH,
    ensures
        path_of(e, root, id) == Some(join_path(root, names_of(e, ids))),
{
    lemma_names_up_chain(e, id, ids, 0, MAX_DEPTH as nat);
    assert(ids.subrange(0, ids.len() as int) =~= ids);
}

proof fn lemma_names_up_cycle(e: Entries, ids: Seq<u64>, depth: nat)
    requires
        ids.len() > 0,
        forall|i: int| 0 <= i < ids.len() ==> #[trigger] e.contains_key(ids[i]),
        forall|i: int| 0 <= i < ids.len() - 1 ==> ids[i + 1] == #[trigger] e[ids[i]].0,
        e[ids.last()].0 == ids[0],
    ensures
        forall|k: int| 0 <= k < ids.len() ==> #[trigger] names_up(e, ids[k], depth) is None,
    decreases depth,
{
    if depth > 0 {
        lemma_names_up_cycle(e, ids, (depth - 1) as nat);
        assert forall|k: int| 0 <= k < ids.len() implies #[trigger] names_up(e, ids[k], depth)
            is None by {
            assert(e.contains_key(ids[k]));
            if k < ids.len() - 1 {
                assert(names_up(e, ids[k + 1], (depth - 1) as nat) is None);
            } else {
                assert(names_up(e, ids[0], (depth - 1) as nat) is None);
            }
        }
    } else {
        assert forall|k: int| 0 <= k < ids.len() implies #[trigger] names_up(e, ids[k], depth)
            is None by {
            assert(e.contains_key(ids[k]));
        }
    }
}

/// An entry whose parent chain comes back to it has no path: the walk
/// gives up after `MAX_DEPTH` steps.
pub proof fn lemma_cycle_has_no_path(e: Entries, root: Seq<char>, id: u64, ids: Seq<u64>)
    requires
        ids.len() > 0,
        ids[0] == id,
        forall|i: int| 0 <= i < ids.len() ==> #[trigger] e.contains_key(ids[i]),
        forall|i: int| 0 <= i < ids.len() - 1 ==> ids[i + 1] == #[trigger] e[ids[i]].0,
        e[ids.last()].0 == id,
    ensures
        path_of(e, root, id) is None,
{
    lemma_names_up_cycle(e, ids, MAX_DEPTH as nat);
    assert(names_up(e, ids[0], MAX_DEPTH as nat) is None);
}

/// Applying the same journal record a second time changes nothing more.
pub proof fn lemma_apply_idempotent(e: Entries, id: u64, parent: u64, name: Seq<char>, reason: u32)
    ensures
        apply_spec(apply_spec(e, id, parent, name, reason), id, parent, name, reason) == apply_spec(
            e,
            id,
            parent,
            name,
            reason,
        ),
{
    let once = apply_spec(e, id, parent, name, reason);
    match effect_of(reason) {
        Effect::Insert => {
            assert(once.insert(id, (parent, name)) =~= once);
        },
        Effect::Remove => {
            assert(once.remove(id) =~= once);
        },
        Effect::Nothing => {},
    }
}

/// Journal records of two different entries can be applied in either
/// order: a child's record may come before or after its parent's.
pub proof fn lemma_apply_commutes(
    e: Entries,
    id1: u64,
    parent1: u64,
    name1: Seq<char>,
    reason1: u32,
    id2: u64,
    parent2: u64,
    name2: Seq<char>,
    reason2: u32,
)
    requires
        id1 != id2,
    ensures
        apply_spec(apply_spec(e, id1, parent1, name1, reason1), id2, parent2, name2, reason2)
            == apply_spec(apply_spec(e, id2, parent2, name2, reason2), id1, parent1, name1, reason1),
{
    assert(apply_spec(apply_spec(e, id1, parent1, name1, reason1), id2, parent2, name2, reason2)
        =~= apply_spec(apply_spec(e, id2, parent2, name2, reason2), id1, parent1, name1, reason1));
}

/// A record acts only where its reason bits are exactly "closed" plus one of
/// create (`0x8000_0100`), rename-to (`0x8000_2000`) or delete
/// (`0x8000_0200`); any other bit keeps it from acting.
pub proof fn lemma_effect_exact(reason: u32)
    ensures
        effect_of(reason) is Insert <==> (reason == 0x8000_0100 || reason == 0x8000_2000),
        effect_of(reason) is Remove <==> reason == 0x8000_0200,
        effect_of(reason) is Nothing <==> !(reason == 0x8000_0100 || reason == 0x8000_2000
            || reason == 0x8000_0200),
{
    assert((reason ^ 0x8000_0000u32 == 0x100u32) <==> (reason == 0x8000_0100u32)) by (bit_vector);
    assert((reason ^ 0x8000_0000u32 == 0x2000u32) <==> (reason == 0x8000_2000u32)) by (bit_vector);
    assert((reason ^ 0x8000_0000u32 == 0x200u32) <==> (reason == 0x8000_0200u32)) by (bit_vector);
}

/// The journal that the index was built from has been replaced.
#[derive(Debug, Clone, Copy, PartialEq, Eq, Structural)]
pub enum SyncError {
    JournalDiscontinuity,
}

/// Identity and head of a volume's change journal (`USN_JOURNAL_DATA_V0`).
#[derive(Debug, Clone, Copy, PartialEq, Eq, Structural)]
pub struct UsnJournalData {
    pub id: u64,
    pub next_usn: i64,
}

/// Entry id to parent id and name, for one volume, with the journal
/// position the entries are current up to.
pub struct Index {
    driver: String,
    map: HashMap<u64, (u64, String)>,
    usn: i64,
    journal_id: u64,
}

impl Index {
    /// Parent id and name of each entry.
    pub closed spec fn entries(&self) -> Entries {
        self.map@.map_values(|v: (u64, String)| (v.0, v.1@))
    }

    /// The volume label that paths start with.
    pub closed spec fn root(&self) -> Seq<char> {
        self.driver@
    }

    /// The journal position up to which changes have been applied.
    pub closed spec fn cursor(&self) -> i64 {
        self.usn
    }

    /// The identity of the journal that the cursor belongs to.
    pub closed spec fn journal(&self) -> u64 {
        self.journal_id
    }

    /// An empty index of volume `driver`, at position `usn` of journal `journal_id`.
    pub fn with_capacity(driver: String, journal_id: u64, usn: i64, capacity: usize) -> (r: Index)
        ensures
            r.entries() == Map::<u64, (u64, Seq<char>)>::empty(),
            r.root() == driver@,
            r.cursor() == usn,
            r.journal() == journal_id,
    {
        let r = Index { driver, map: HashMap::with_capacity(capacity), usn, journal_id };
        assert(r.entries() =~= Map::<u64, (u64, Seq<char>)>::empty());
        r
    }

    /// Sets the entry of `record.frn`; returns the entry it replaced.
    pub fn insert(&mut self, record: UsnRecord) -> (r: Option<(u64, String)>)
        ensures
            final(self).entries() == old(self).entries().insert(
                record.frn,
                (record.parent_frn, record.filename@),
            ),
            final(self).root() == old(self).root(),
            final(self).cursor() == old(self).cursor(),
            final(self).journal() == old(self).journal(),
            match r {
                Some(v) => old(self).entries().contains_key(record.frn) && old(
                    self,
                ).entries()[record.frn] == (v.0, v.1@),
                None => !old(self).entries().contains_key(record.frn),
            },
    {
        let ghost frn = record.frn;
        let ghost v = (record.parent_frn, record.filename@);
        let r = self.map.insert(record.frn, (record.parent_frn, record.filename));
        assert(self.entries() =~= old(self).entries().insert(frn, v));
        r
    }

    /// Takes the entry of `frn` out; returns it.
    pub fn remove(&mut self, frn: u64) -> (r: Option<(u64, String)>)
        ensures
            final(self).entries() == old(self).entries().remove(frn),
            final(self).root() == old(self).root(),
            final(self).cursor() == old(self).cursor(),
            final(self).journal() == old(self).journal(),
            match r {
                Some(v) => old(self).entries().contains_key(frn) && old(self).entries()[frn] == (
                v.0,
                v.1@,
                ),
                None => !old(self).entries().contains_key(frn),
            },
    {
        let r = self.map.remove(&frn);
        assert(self.entries() =~= old(self).entries().remove(frn));
        r
    }

    /// The volume label.
    pub fn driver(&self) -> (r: &str)
        ensures
            r@ == self.root(),
    {
        self.driver.as_str()
    }

    /// The journal position up to which changes have been applied.
    pub fn usn(&self) -> (r: i64)
        ensures
            r == self.cursor(),
    {
        self.usn
    }

    /// The journal that the index follows.
    pub fn journal_id(&self) -> (r: u64)
        ensures
            r == self.journal(),
    {
        self.journal_id
    }

    /// Parent id and name of `frn`.
    pub fn get(&self, frn: u64) -> (r: Option<&(u64, String)>)
        ensures
            match r {
                Some(v) => self.entries().contains_key(frn) && self.entries()[frn] == (v.0, v.1@),
                None => !self.entries().contains_key(frn),
            },
    {
        self.map.get(&frn)
    }

    /// The full path of `frn`: the volume label, then the names from the
    /// topmost known ancestor down to the entry, each after a separator.
    pub fn path_of(&self, frn: u64) -> (r: Option<String>)
        ensures
            match r {
                Some(p) => path_of(self.entries(), self.root(), frn) == Some(p@),
                None => path_of(self.entries(), self.root(), frn) is None,
            },
    {
        if self.get(frn).is_none() {
            return None;
        }
        let ghost e = self.entries();
        let mut parts: Vec<String> = Vec::new();
        let ghost mut names: Seq<Seq<char>> = Seq::empty();
        let mut cur = frn;
        let mut depth: usize = MAX_DEPTH;
        loop
            invariant
                e == self.entries(),
                depth <= MAX_DEPTH,
                names.len() == parts@.len(),
                forall|i: int| 0 <= i < names.len() ==> #[trigger] parts@[i]@ == names[i],
                names_up(e, frn, MAX_DEPTH as nat) == match names_up(e, cur, depth as nat) {
                    Some(rest) => Some(names + rest),
                    None => None,
                },
            ensures
                names.len() == parts@.len(),
                forall|i: int| 0 <= i < names.len() ==> #[trigger] parts@[i]@ == names[i],
                names_up(e, frn, MAX_DEPTH as nat) == Some(names),
            decreases depth,
        {
            match self.get(cur) {
                None => {
                    assert(names + Seq::<Seq<char>>::empty() =~= names);
                    break ;
                },
                Some(entry) => {
                    if depth == 0 {
                        return None;
                    }
                    let ghost old_names = names;
                    let ghost name = entry.1@;
                    parts.push(entry.1.clone());
                    proof {
                        names = names.push(name);
                        assert forall|rest: Seq<Seq<char>>|
                            old_names + (seq![name] + rest) =~= names + rest by {}
                    }
                    cur = entry.0;
                    depth = depth - 1;
                },
            }
        }
        // Join from the root down.
        let mut path = self.driver.clone();
        let mut i = parts.len();
        while i > 0
            invariant
                i <= parts@.len(),
                names.len() == parts@.len(),
                forall|k: int| 0 <= k < names.len() ==> #[trigger] parts@[k]@ == names[k],
                path@ == join_path(self.root(), names.subrange(i as int, names.len() as int)),
            decreases i,
        {
            i = i - 1;
            proof {
                reveal_strlit("\\");
                let tail = names.subrange(i as int, names.len() as int);
                assert(tail.drop_first() =~= names.subrange(i + 1, names.len() as int));
            }
            path.append("\\");
            path.append(parts[i].as_str());
        }
        assert(names.subrange(0, names.len() as int) =~= names);
        Some(path)
    }

    /// Applies one journal record: a closed create or rename-to sets the
    /// entry, a closed delete removes it, and any other combination of reason
    /// bits leaves the index as it is. Returns the entry that was replaced or
    /// removed.
    pub fn apply(&mut self, record: UsnRecord) -> (r: Option<(u64, String)>)
        ensures
            final(self).entries() == apply_spec(
                old(self).entries(),
                record.frn,
                record.parent_frn,
                record.filename@,
                record.reason,
            ),
            final(self).root() == old(self).root(),
            final(self).cursor() == old(self).cursor(),
            final(self).journal() == old(self).journal(),
    {
        let signal = record.reason ^ USN_REASON_CLOSE;
        if signal == USN_REASON_FILE_CREATE || signal == USN_REASON_RENAME_NEW_NAME {
            self.insert(record)
        } else if signal == USN_REASON_FILE_DELETE {
            self.remove(record.frn)
        } else {
            None
        }
    }

    /// Starts a sync against the journal as it stands now: fails where it is
    /// not the journal the index was built from, else gives the stream of its
    /// records from the index's cursor on.
    pub fn begin_sync(&self, current: &UsnJournalData, buf_size: usize) -> (r: Result<
        IterUsnRecord,
        SyncError,
    >)
        ensures
            current.id != self.journal() ==> r == Err::<IterUsnRecord, SyncError>(
                SyncError::JournalDiscontinuity,
            ),
            current.id == self.journal() ==> match r {
                Ok(records) => records.spec_request() == (ReadUsnJournalData {
                    start_usn: self.cursor(),
                    reason_mask: JOURNAL_REASON_MASK,
                    return_only_on_close: 1,
                    timeout: 0,
                    bytes_to_wait_for: 0,
                    usn_journal_id: self.journal(),
                }) && records.pending().len() == 0 && records.spec_buffer_size() == buf_size,
                Err(_) => false,
            },
    {
        if current.id != self.journal_id {
            return Err(SyncError::JournalDiscontinuity);
        }
        Ok(IterUsnRecord::with_start(self.journal_id, self.usn, buf_size))
    }

    /// Ends a sync: the cursor moves to where the stream stopped reading.
    pub fn end_sync(&mut self, records: &IterUsnRecord)
        ensures
            final(self).cursor() == records.spec_request().start_usn,
            final(self).entries() == old(self).entries(),
            final(self).root() == old(self).root(),
            final(self).journal() == old(self).journal(),
    {
        self.usn = records.next_usn();
    }

    /// Every hit of `sub` among the entries, one per entry, in no set order.
    pub fn find_iter(&self, sub: &str) -> (r: Vec<FullPath>)
        ensures
            forall|i: int|
                0 <= i < r@.len() ==> hit_of(self.entries(), self.root(), #[trigger] r@[i].frn, sub@)
                    == Some((r@[i].inner@, r@[i].sub_start as int, r@[i].sub_end as int)),
            forall|id: u64| #[trigger]
                hit_of(self.entries(), self.root(), id, sub@) is Some ==> exists|i: int|
                    0 <= i < r@.len() && r@[i].frn == id,
            forall|i: int, j: int| 0 <= i < j < r@.len() ==> r@[i].frn != r@[j].frn,
    {
        let folded_sub = lowercase(sub);
        let mut out: Vec<FullPath> = Vec::new();
        let ghost mut from: Seq<int> = Seq::empty();
        let ghost all: Seq<u64> = spec_keys_iter(&self.map).remaining().unref();
        for k in it: self.map.keys()
            invariant
                folded_sub@ == lower_of(sub@),
                it.seq().unref() == all,
                all.to_set() == self.map@.dom(),
                from.len() == out@.len(),
                forall|i: int| 0 <= i < from.len() ==> 0 <= #[trigger] from[i] < it.index(),
                forall|i: int, j: int| 0 <= i < j < from.len() ==> from[i] < from[j],
                forall|i: int|
                    0 <= i < out@.len() ==> #[trigger] out@[i].frn == all[from[i]],
                forall|i: int|
                    0 <= i < out@.len() ==> hit_of(
                        self.entries(),
                        self.root(),
                        #[trigger] out@[i].frn,
                        sub@,
                    ) == Some((out@[i].inner@, out@[i].sub_start as int, out@[i].sub_end as int)),
                forall|j: int|
                    0 <= j < it.index() && hit_of(self.entries(), self.root(), all[j], sub@)
                        is Some ==> exists|i: int| 0 <= i < from.len() && #[trigger] from[i] == j,
        {
            let ghost j = it.index();
            let ghost old_from = from;
            assert(*k == all[j]);
            match self.hit(*k, sub, &folded_sub) {
                Some(m) => {
                    out.push(m);
                    proof {
                        from = from.push(j);
                    }
                },
                None => {},
            }
            proof {
                assert forall|jj: int|
                    0 <= jj < j + 1 && hit_of(self.entries(), self.root(), all[jj], sub@)
                        is Some implies exists|i: int| 0 <= i < from.len() && #[trigger] from[i]
                        == jj by {
                    if jj < j {
                        let i = choose|i: int| 0 <= i < old_from.len() && old_from[i] == jj;
                        assert(from[i] == jj);
                    } else {
                        assert(from[from.len() - 1] == jj);
                    }
                }
            }
        }
        proof {
            assert forall|id: u64| #[trigger]
                hit_of(self.entries(), self.root(), id, sub@) is Some implies exists|i: int|
                    0 <= i < out@.len() && out@[i].frn == id by {
                assert(self.entries().contains_key(id));
                assert(all.to_set().contains(id));
                let j = choose|j: int| 0 <= j < all.len() && all[j] == id;
                let i = choose|i: int| 0 <= i < from.len() && from[i] == j;
                assert(out@[i].frn == id);
            }
            assert forall|a: int, b: int| 0 <= a < b < out@.len() implies out@[a].frn
                != out@[b].frn by {
                assert(from[a] < from[b]);
            }
        }
        out
    }
}

} // verus!
