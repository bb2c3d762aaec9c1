//! Persistent state of the swap contract: the registry of swap records and
//! the monotonic id allocator.
//!
//! The registry is a keyed collection of swap records.  Its mathematical
//! content is a map from allocated ids to record views, together with the
//! allocator's next id; every id ever handed out stays below the
//! allocator, so an id is never reused even after its record is deleted.

use vstd::prelude::*;

verus! {

/// One party's committed side of a swap: who deposits, which collection
/// the token belongs to, and which token.  Immutable once constructed.
#[derive(Debug)]
pub struct SwapSide {
    pub owner: String,
    pub collection: String,
    pub token_id: String,
}

/// The mathematical content of a [`SwapSide`].
pub struct SideView {
    pub owner: Seq<char>,
    pub collection: Seq<char>,
    pub token_id: Seq<char>,
}

impl View for SwapSide {
    type V = SideView;

    open spec fn view(&self) -> SideView {
        SideView { owner: self.owner@, collection: self.collection@, token_id: self.token_id@ }
    }
}

impl Clone for SwapSide {
    fn clone(&self) -> (res: Self)
        ensures
            res == *self,
    {
        SwapSide {
            owner: self.owner.clone(),
            collection: self.collection.clone(),
            token_id: self.token_id.clone(),
        }
    }
}

/// A swap record.  The initiator's side is present from creation; the
/// responder's side appears once somebody answers the swap.
#[derive(Debug)]
pub struct Swap {
    pub lhs: SwapSide,
    pub rhs: Option<SwapSide>,
}

/// The mathematical content of a [`Swap`].
pub struct SwapView {
    pub lhs: SideView,
    pub rhs: Option<SideView>,
}

impl View for Swap {
    type V = SwapView;

    open spec fn view(&self) -> SwapView {
        SwapView { lhs: self.lhs@, rhs: opt_side_view(self.rhs) }
    }
}

/// The view of an optional swap side.
pub open spec fn opt_side_view(o: Option<SwapSide>) -> Option<SideView> {
    match o {
        Some(side) => Some(side@),
        None => None,
    }
}

impl Clone for Swap {
    fn clone(&self) -> (res: Self)
        ensures
            res == *self,
    {
        Swap {
            lhs: self.lhs.clone(),
            rhs: match &self.rhs {
                Some(side) => Some(side.clone()),
                None => None,
            },
        }
    }
}

/// The id allocator's persistent state.  `next_swap_id` starts at one and
/// only ever grows.
pub struct Config {
    pub next_swap_id: u32,
}

/// The mathematical content of a [`SwapRegistry`]: the allocator position
/// and the map from allocated ids to the records they key.
pub struct RegistryView {
    pub next_id: nat,
    pub swaps: Map<nat, SwapView>,
}

/// Every key of the registry lies below the allocator, so the id the next
/// initiation will allocate is always fresh.
pub open spec fn id_bounded(r: RegistryView) -> bool {
    forall|k: nat| #[trigger] r.swaps.contains_key(k) ==> k < r.next_id
}

/// The durable keyed collection of swap records plus the id allocator.
pub struct SwapRegistry {
    config: Config,
    entries: Vec<(u32, Swap)>,
}

/// No id occurs twice among the pairs.
pub open spec fn distinct_keys(s: Seq<(u32, Swap)>) -> bool {
    forall|i: int, j: int|
        0 <= i < j < s.len() ==> (#[trigger] s[i]).0 != (#[trigger] s[j]).0
}

/// Every id among the pairs lies below `next`.
pub open spec fn keys_bounded(s: Seq<(u32, Swap)>, next: nat) -> bool {
    forall|i: int| 0 <= i < s.len() ==> ((#[trigger] s[i]).0 as nat) < next
}

spec fn has_key(s: Seq<(u32, Swap)>, k: nat) -> bool {
    exists|i: int| 0 <= i < s.len() && (#[trigger] s[i]).0 as nat == k
}

spec fn map_of(s: Seq<(u32, Swap)>) -> Map<nat, SwapView>
    decreases s.len(),
{
    if s.len() == 0 {
        Map::empty()
    } else {
        map_of(s.drop_last()).insert(s.last().0 as nat, s.last().1@)
    }
}

impl View for SwapRegistry {
    type V = RegistryView;

    closed spec fn view(&self) -> RegistryView {
        RegistryView {
            next_id: self.config.next_swap_id as nat,
            swaps: map_of(self.entries@),
        }
    }
}

proof fn lemma_map_of_contains(s: Seq<(u32, Swap)>, k: nat)
    ensures
        map_of(s).contains_key(k) <==> has_key(s, k),
    decreases s.len(),
{
    if s.len() == 0 {
    } else {
        lemma_map_of_contains(s.drop_last(), k);
        if s.last().0 as nat == k {
            assert((s[s.len() - 1]).0 as nat == k);
            assert(has_key(s, k));
        } else {
            if has_key(s.drop_last(), k) {
                let i = choose|i: int|
                    0 <= i < s.drop_last().len() && (#[trigger] s.drop_last()[i]).0 as nat == k;
                assert((s[i]).0 as nat == k);
            }
            if has_key(s, k) {
                let i = choose|i: int| 0 <= i < s.len() && (#[trigger] s[i]).0 as nat == k;
                assert(i < s.len() - 1);
                assert((s.drop_last()[i]).0 as nat == k);
            }
        }
    }
}

proof fn lemma_distinct_drop_last(s: Seq<(u32, Swap)>)
    requires
        distinct_keys(s),
        s.len() > 0,
    ensures
        distinct_keys(s.drop_last()),
{
    assert forall|i: int, j: int|
        0 <= i < j < s.drop_last().len() implies (#[trigger] s.drop_last()[i]).0 != (
    #[trigger] s.drop_last()[j]).0 by {
        assert(s.drop_last()[i] == s[i]);
        assert(s.drop_last()[j] == s[j]);
    }
}

proof fn lemma_map_of_index(s: Seq<(u32, Swap)>, i: int)
    requires
        distinct_keys(s),
        0 <= i < s.len(),
    ensures
        map_of(s).contains_key((s[i]).0 as nat),
        map_of(s)[(s[i]).0 as nat] == (s[i]).1@,
    decreases s.len(),
{
    if i == s.len() - 1 {
        assert(s.last() == s[i]);
    } else {
        lemma_distinct_drop_last(s);
        lemma_map_of_index(s.drop_last(), i);
        assert(s.drop_last()[i] == s[i]);
        assert((s[i]).0 != (s[s.len() - 1]).0);
        assert(s.last() == s[s.len() - 1]);
    }
}

proof fn lemma_map_of_remove(s: Seq<(u32, Swap)>, i: int)
    requires
        distinct_keys(s),
        0 <= i < s.len(),
    ensures
        map_of(s.remove(i)) == map_of(s).remove((s[i]).0 as nat),
        distinct_keys(s.remove(i)),
    decreases s.len(),
{
    let k = (s[i]).0 as nat;
    assert forall|a: int, b: int|
        0 <= a < b < s.remove(i).len() implies (#[trigger] s.remove(i)[a]).0 != (
    #[trigger] s.remove(i)[b]).0 by {
        let a0 = if a < i { a } else { a + 1 };
        let b0 = if b < i { b } else { b + 1 };
        assert(s.remove(i)[a] == s[a0]);
        assert(s.remove(i)[b] == s[b0]);
    }
    if i == s.len() - 1 {
        assert(s.remove(i) =~= s.drop_last());
        lemma_map_of_contains(s.drop_last(), k);
        lemma_distinct_drop_last(s);
        if has_key(s.drop_last(), k) {
            let j = choose|j: int|
                0 <= j < s.drop_last().len() && (#[trigger] s.drop_last()[j]).0 as nat == k;
            assert((s[j]).0 == (s[i]).0);
            assert(false);
        }
        assert(!map_of(s.drop_last()).contains_key(k));
        assert(map_of(s.drop_last()).insert(k, s.last().1@).remove(k) =~= map_of(s.drop_last()));
    } else {
        lemma_distinct_drop_last(s);
        lemma_map_of_remove(s.drop_last(), i);
        let t = s.remove(i);
        assert(t.drop_last() =~= s.drop_last().remove(i));
        assert(t.last() == s.last());
        assert(t.len() > 0);
        assert(map_of(t) == map_of(t.drop_last()).insert(t.last().0 as nat, t.last().1@));
        assert((s[i]).0 != (s[s.len() - 1]).0);
        assert(map_of(s.drop_last()).remove(k).insert(s.last().0 as nat, s.last().1@)
            =~= map_of(s.drop_last()).insert(s.last().0 as nat, s.last().1@).remove(k));
    }
}

impl SwapRegistry {
    /// The registry's structural invariant: no id keys two records, and
    /// every key lies below the allocator.
    pub closed spec fn wf(self) -> bool {
        distinct_keys(self.entries@) && id_bounded(self@)
    }

    /// A well-formed registry never holds a record under an id the
    /// allocator has not yet handed out.
    pub proof fn lemma_wf_bounded(&self)
        requires
            self.wf(),
        ensures
            id_bounded(self@),
    {
    }

    /// A fresh, empty registry with the allocator at its starting value.
    pub fn new() -> (r: Self)
        ensures
            r.wf(),
            r@.next_id == 1,
            r@.swaps == Map::<nat, SwapView>::empty(),
    {
        let r = SwapRegistry { config: Config { next_swap_id: 1 }, entries: Vec::new() };
        proof {
            assert(r@.swaps =~= Map::<nat, SwapView>::empty());
        }
        r
    }

    /// The id the next initiation will allocate.
    pub fn next_swap_id(&self) -> (id: u32)
        ensures
            id as nat == self@.next_id,
    {
        self.config.next_swap_id
    }

    /// Installs the allocator's starting configuration.  Meaningful only
    /// on a store that holds no records yet: instantiation happens once,
    /// before any swap exists.
    pub fn set_initial_config(&mut self)
        requires
            old(self).wf(),
            old(self)@.swaps == Map::<nat, SwapView>::empty(),
        ensures
            final(self).wf(),
            final(self)@.next_id == 1,
            final(self)@.swaps == old(self)@.swaps,
    {
        self.config = Config { next_swap_id: 1 };
    }

    /// Hands out the next id and advances the allocator.  Ids are
    /// strictly increasing and never reused.
    pub fn allocate_id(&mut self) -> (id: u32)
        requires
            old(self).wf(),
            old(self)@.next_id < u32::MAX as nat,
        ensures
            final(self).wf(),
            id as nat == old(self)@.next_id,
            final(self)@.next_id == old(self)@.next_id + 1,
            final(self)@.swaps == old(self)@.swaps,
    {
        let id = self.config.next_swap_id;
        self.config.next_swap_id = id + 1;
        proof {
            assert forall|k: nat| #[trigger] self@.swaps.contains_key(k)
                implies k < self@.next_id by {
                assert(old(self)@.swaps.contains_key(k));
            }
        }
        id
    }

    fn index_of(&self, id: u32) -> (r: Option<usize>)
        ensures
            match r {
                Some(i) => i < self.entries@.len() && (self.entries@[i as int]).0 == id,
                None => !self@.swaps.contains_key(id as nat),
            },
    {
        let n = self.entries.len();
        let mut i: usize = 0;
        while i < n
            invariant
                0 <= i <= n,
                n == self.entries@.len(),
                forall|j: int| 0 <= j < i ==> (#[trigger] self.entries@[j]).0 != id,
            decreases n - i,
        {
            if self.entries[i].0 == id {
                return Some(i);
            }
            i = i + 1;
        }
        proof {
            lemma_map_of_contains(self.entries@, id as nat);
            if has_key(self.entries@, id as nat) {
                let j = choose|j: int|
                    0 <= j < self.entries@.len() && (#[trigger] self.entries@[j]).0 as nat == id as nat;
                assert((self.entries@[j]).0 != id);
                assert(false);
            }
        }
        None
    }

    /// Whether a record is stored under `id`.
    pub fn contains_swap(&self, id: u32) -> (b: bool)
        ensures
            b == self@.swaps.contains_key(id as nat),
    {
        proof {
            lemma_map_of_contains(self.entries@, id as nat);
        }
        match self.index_of(id) {
            Some(i) => {
                proof {
                    assert((self.entries@[i as int]).0 as nat == id as nat);
                    assert(has_key(self.entries@, id as nat));
                }
                true
            },
            None => false,
        }
    }

    /// Looks a record up by id.
    pub fn get(&self, id: u32) -> (r: Option<&Swap>)
        requires
            self.wf(),
        ensures
            match r {
                Some(swap) => self@.swaps.contains_key(id as nat) && swap@ == self@.swaps[id as nat],
                None => !self@.swaps.contains_key(id as nat),
            },
    {
        match self.index_of(id) {
            Some(i) => {
                proof {
                    lemma_map_of_index(self.entries@, i as int);
                }
                Some(&self.entries[i].1)
            },
            None => None,
        }
    }

    /// Stores `swap` under `id`, replacing any record already keyed by it.
    /// The id must have been handed out by the allocator.
    pub fn put(&mut self, id: u32, swap: Swap)
        requires
            old(self).wf(),
            (id as nat) < old(self)@.next_id,
        ensures
            final(self).wf(),
            final(self)@.next_id == old(self)@.next_id,
            final(self)@.swaps == old(self)@.swaps.insert(id as nat, swap@),
    {
        let ghost pre = self.entries@;
        match self.index_of(id) {
            Some(i) => {
                proof {
                    lemma_map_of_remove(self.entries@, i as int);
                }
                let _ = self.entries.remove(i);
                proof {
                    assert(map_of(self.entries@) == map_of(pre).remove(id as nat));
                }
            },
            None => {
                proof {
                    lemma_map_of_contains(self.entries@, id as nat);
                    assert(map_of(self.entries@).remove(id as nat) =~= map_of(self.entries@));
                    assert(map_of(self.entries@) == map_of(pre).remove(id as nat));
                }
            },
        }
        let ghost mid = self.entries@;
        proof {
            lemma_map_of_contains(mid, id as nat);
            if has_key(mid, id as nat) {
                assert(map_of(mid).contains_key(id as nat));
                assert(false);
            }
        }
        self.entries.push((id, swap));
        proof {
            let post = self.entries@;
            assert(post.drop_last() =~= mid);
            assert(post.last() == (id, swap));
            assert(map_of(post) == map_of(mid).insert(id as nat, swap@));
            assert(map_of(post) =~= map_of(pre).insert(id as nat, swap@));
            assert forall|a: int, b: int|
                0 <= a < b < post.len() implies (#[trigger] post[a]).0 != (#[trigger] post[b]).0 by {
                if b < post.len() - 1 {
                    assert(post[a] == mid[a]);
                    assert(post[b] == mid[b]);
                } else {
                    assert(post[a] == mid[a]);
                    assert((mid[a]).0 as nat == id as nat ==> has_key(mid, id as nat));
                }
            }
            assert forall|k: nat| #[trigger] final(self)@.swaps.contains_key(k)
                implies k < final(self)@.next_id by {
                if k != id as nat {
                    assert(old(self)@.swaps.contains_key(k));
                }
            }
        }
    }

    /// Deletes the record stored under `id`, if any.
    pub fn remove(&mut self, id: u32)
        requires
            old(self).wf(),
        ensures
            final(self).wf(),
            final(self)@.next_id == old(self)@.next_id,
            final(self)@.swaps == old(self)@.swaps.remove(id as nat),
    {
        let ghost pre = self.entries@;
        match self.index_of(id) {
            Some(i) => {
                proof {
                    lemma_map_of_remove(self.entries@, i as int);
                }
                let _ = self.entries.remove(i);
                proof {
                    assert(map_of(self.entries@) == map_of(pre).remove(id as nat));
                }
            },
            None => {
                proof {
                    lemma_map_of_contains(self.entries@, id as nat);
                    assert(map_of(self.entries@).remove(id as nat) =~= map_of(self.entries@));
                }
            },
        }
        proof {
            assert forall|k: nat| #[trigger] final(self)@.swaps.contains_key(k)
                implies k < final(self)@.next_id by {
                assert(old(self)@.swaps.contains_key(k));
            }
        }
    }

    /// A snapshot of the stored records, one pair per allocated id, fit
    /// for persisting and for rebuilding the registry with
    /// [`SwapRegistry::from_parts`].
    pub fn records(&self) -> (v: Vec<(u32, Swap)>)
        requires
            self.wf(),
        ensures
            distinct_keys(v@),
            keys_bounded(v@, self@.next_id),
            forall|i: int|
                0 <= i < v@.len() ==> self@.swaps.contains_key((#[trigger] v@[i]).0 as nat)
                    && self@.swaps[(v@[i]).0 as nat] == (v@[i]).1@,
            forall|k: nat|
                #[trigger] self@.swaps.contains_key(k) ==> exists|i: int|
                    0 <= i < v@.len() && (#[trigger] v@[i]).0 as nat == k,
    {
        let n = self.entries.len();
        let mut v: Vec<(u32, Swap)> = Vec::new();
        let mut i: usize = 0;
        while i < n
            invariant
                0 <= i <= n,
                n == self.entries@.len(),
                v@.len() == i,
                forall|j: int| 0 <= j < i ==> (#[trigger] v@[j]) == self.entries@[j],
            decreases n - i,
        {
            let pair = &self.entries[i];
            v.push((pair.0, pair.1.clone()));
            i = i + 1;
        }
        proof {
            assert(v@ =~= self.entries@);
            assert forall|i2: int|
                0 <= i2 < v@.len() implies self@.swaps.contains_key((#[trigger] v@[i2]).0 as nat)
                    && self@.swaps[(v@[i2]).0 as nat] == (v@[i2]).1@ by {
                lemma_map_of_index(self.entries@, i2);
            }
            assert forall|i2: int|
                0 <= i2 < v@.len() implies ((#[trigger] v@[i2]).0 as nat) < self@.next_id by {
                lemma_map_of_index(self.entries@, i2);
            }
            assert forall|k: nat| #[trigger] self@.swaps.contains_key(k) implies exists|i2: int|
                0 <= i2 < v@.len() && (#[trigger] v@[i2]).0 as nat == k by {
                lemma_map_of_contains(self.entries@, k);
                let j = choose|j: int|
                    0 <= j < self.entries@.len() && (#[trigger] self.entries@[j]).0 as nat == k;
                assert(0 <= j < v@.len() && (v@[j]).0 as nat == k);
            }
        }
        v
    }

    /// Rebuilds a registry from a persisted snapshot: the allocator
    /// position and the stored records.  Succeeds exactly when the
    /// snapshot is sound — no id keys two records and every id lies
    /// below the allocator — and the result then holds exactly the given
    /// records.
    pub fn from_parts(next_swap_id: u32, records: Vec<(u32, Swap)>) -> (r: Option<SwapRegistry>)
        ensures
            match r {
                Some(reg) => {
                    &&& reg.wf()
                    &&& distinct_keys(records@)
                    &&& keys_bounded(records@, next_swap_id as nat)
                    &&& reg@.next_id == next_swap_id as nat
                    &&& forall|i: int|
                        0 <= i < records@.len() ==> reg@.swaps.contains_key(
                            (#[trigger] records@[i]).0 as nat,
                        ) && reg@.swaps[(records@[i]).0 as nat] == (records@[i]).1@
                    &&& forall|k: nat|
                        #[trigger] reg@.swaps.contains_key(k) ==> exists|i: int|
                            0 <= i < records@.len() && (#[trigger] records@[i]).0 as nat == k
                },
                None => !(distinct_keys(records@) && keys_bounded(records@, next_swap_id as nat)),
            },
    {
        let n = records.len();
        let mut i: usize = 0;
        while i < n
            invariant
                0 <= i <= n,
                n == records@.len(),
                forall|a: int, b: int|
                    0 <= a < b < n && a < i ==> (#[trigger] records@[a]).0 != (
                    #[trigger] records@[b]).0,
                forall|a: int| 0 <= a < i ==> ((#[trigger] records@[a]).0 as nat) < next_swap_id as nat,
            decreases n - i,
        {
            if records[i].0 >= next_swap_id {
                proof {
                    assert(!keys_bounded(records@, next_swap_id as nat));
                }
                return None;
            }
            let mut j: usize = i + 1;
            while j < n
                invariant
                    i < j <= n,
                    i < n,
                    n == records@.len(),
                    forall|b: int| i < b < j ==> (#[trigger] records@[b]).0 != (records@[i as int]).0,
                decreases n - j,
            {
                if records[j].0 == records[i].0 {
                    proof {
                        assert((records@[i as int]).0 == (records@[j as int]).0);
                        assert(!distinct_keys(records@));
                    }
                    return None;
                }
                j = j + 1;
            }
            i = i + 1;
        }
        let reg = SwapRegistry { config: Config { next_swap_id }, entries: records };
        proof {
            assert(distinct_keys(reg.entries@));
            assert forall|k: nat| #[trigger] reg@.swaps.contains_key(k)
                implies k < reg@.next_id by {
                lemma_map_of_contains(reg.entries@, k);
                let j = choose|j: int|
                    0 <= j < reg.entries@.len() && (#[trigger] reg.entries@[j]).0 as nat == k;
            }
            assert forall|i2: int|
                0 <= i2 < reg.entries@.len() implies reg@.swaps.contains_key(
                    (#[trigger] reg.entries@[i2]).0 as nat,
                ) && reg@.swaps[(reg.entries@[i2]).0 as nat] == (reg.entries@[i2]).1@ by {
                lemma_map_of_index(reg.entries@, i2);
            }
            assert forall|k: nat| #[trigger] reg@.swaps.contains_key(k) implies exists|i2: int|
                0 <= i2 < reg.entries@.len() && (#[trigger] reg.entries@[i2]).0 as nat == k by {
                lemma_map_of_contains(reg.entries@, k);
            }
        }
        Some(reg)
    }
}

} // verus!
