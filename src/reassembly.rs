use std::collections::HashMap;
use vstd::prelude::*;
use vstd::set_lib::{lemma_int_range, lemma_len_subset, set_int_range};

verus! {

broadcast use vstd::std_specs::hash::group_hash_axioms;

/// One piece of a fragmented message: which set it belongs to, how many
/// pieces the set has, its place among them, and its bytes.
pub struct Fragment {
    pub set_id: u64,
    pub total: u8,
    pub index: u8,
    pub payload: Vec<u8>,
}

/// Why a fragment could not be taken in.
#[derive(Debug, PartialEq, Eq, Clone, Copy, Structural)]
pub enum ReassemblyError {
    /// The fragment claims no pieces, or a place past the last piece.
    MalformedFragment,
    /// The set is known with another number of pieces.
    TotalMismatch,
    /// This piece of the set has been received already.
    DuplicateFragment,
}

/// The received pieces of one set, each by its place.
pub open spec fn slots_view(v: Vec<Option<Vec<u8>>>) -> Seq<Option<Seq<u8>>> {
    Seq::new(
        v@.len(),
        |i: int|
            match v@[i] {
                Some(b) => Some(b@),
                None => None,
            },
    )
}

/// Every piece of the set is there.
pub open spec fn is_complete(slots: Seq<Option<Seq<u8>>>) -> bool {
    forall|i: int| 0 <= i < slots.len() ==> slots[i] is Some
}

/// The pieces of a set joined in order.
pub open spec fn assemble(slots: Seq<Option<Seq<u8>>>) -> Seq<u8>
    decreases slots.len(),
{
    if slots.len() == 0 {
        Seq::empty()
    } else {
        assemble(slots.drop_last()) + match slots.last() {
            Some(b) => b,
            None => Seq::empty(),
        }
    }
}

/// The pieces of a set once `f` is placed, starting from no pieces when the
/// set is new.
pub open spec fn slots_after(m: Map<u64, Seq<Option<Seq<u8>>>>, f: Fragment) -> Seq<
    Option<Seq<u8>>,
> {
    let start = if m.contains_key(f.set_id) {
        m[f.set_id]
    } else {
        Seq::new(f.total as nat, |i: int| None::<Seq<u8>>)
    };
    start.update(f.index as int, Some(f.payload@))
}

/// The fragment is well formed and fits what is known of its set.
pub open spec fn accepted(m: Map<u64, Seq<Option<Seq<u8>>>>, f: Fragment) -> bool {
    &&& f.total > 0
    &&& f.index < f.total
    &&& m.contains_key(f.set_id) ==> m[f.set_id].len() == f.total as nat && m[f.set_id][f.index as int] is None
}

/// The fragment is taken in and is the last piece its set lacked.
pub open spec fn completes(m: Map<u64, Seq<Option<Seq<u8>>>>, f: Fragment) -> bool {
    accepted(m, f) && is_complete(slots_after(m, f))
}

/// The sets after taking in `f`.
pub open spec fn step(m: Map<u64, Seq<Option<Seq<u8>>>>, f: Fragment) -> Map<
    u64,
    Seq<Option<Seq<u8>>>,
> {
    if !accepted(m, f) {
        m
    } else if completes(m, f) {
        m.remove(f.set_id)
    } else {
        m.insert(f.set_id, slots_after(m, f))
    }
}

/// The sets after taking in each of `fs` in turn.
pub open spec fn feed(m: Map<u64, Seq<Option<Seq<u8>>>>, fs: Seq<Fragment>) -> Map<
    u64,
    Seq<Option<Seq<u8>>>,
>
    decreases fs.len(),
{
    if fs.len() == 0 {
        m
    } else {
        step(feed(m, fs.drop_last()), fs.last())
    }
}

/// The messages of set `s` completed while taking in each of `fs` in turn.
pub open spec fn completed(m: Map<u64, Seq<Option<Seq<u8>>>>, fs: Seq<Fragment>, s: u64) -> Seq<
    Seq<u8>,
>
    decreases fs.len(),
{
    if fs.len() == 0 {
        Seq::empty()
    } else {
        let before = feed(m, fs.drop_last());
        let f = fs.last();
        completed(m, fs.drop_last(), s) + if f.set_id == s && completes(before, f) {
            seq![assemble(slots_after(before, f))]
        } else {
            Seq::empty()
        }
    }
}

/// The fragments of set `s` among `fs`, in order.
pub open spec fn own_fragments(fs: Seq<Fragment>, s: u64) -> Seq<Fragment> {
    fs.filter(|f: Fragment| f.set_id == s)
}

/// Two states hold the same of set `s`.
pub open spec fn agree_on(m1: Map<u64, Seq<Option<Seq<u8>>>>, m2: Map<u64, Seq<Option<Seq<u8>>>>, s: u64) -> bool {
    &&& m1.contains_key(s) == m2.contains_key(s)
    &&& m1.contains_key(s) ==> m1[s] == m2[s]
}

proof fn lemma_step_agrees(m1: Map<u64, Seq<Option<Seq<u8>>>>, m2: Map<u64, Seq<Option<Seq<u8>>>>, f: Fragment, s: u64)
    requires
        agree_on(m1, m2, s),
    ensures
        f.set_id != s ==> agree_on(step(m1, f), m1, s),
        f.set_id == s ==> agree_on(step(m1, f), step(m2, f), s) && completes(m1, f) == completes(m2, f)
            && slots_after(m1, f) == slots_after(m2, f),
{
}

/// A set's pieces, and the messages it completes, depend on that set's own
/// fragments alone: fragments of other sets, interleaved in any way, change
/// neither.
pub proof fn lemma_sets_reassemble_independently(
    m: Map<u64, Seq<Option<Seq<u8>>>>,
    fs: Seq<Fragment>,
    s: u64,
)
    ensures
        agree_on(feed(m, fs), feed(m, own_fragments(fs, s)), s),
        completed(m, fs, s) == completed(m, own_fragments(fs, s), s),
    decreases fs.len(),
{
    if fs.len() > 0 {
        let init = fs.drop_last();
        let f = fs.last();
        lemma_sets_reassemble_independently(m, init, s);
        let own = own_fragments(fs, s);
        let own_init = own_fragments(init, s);
        let pred = |g: Fragment| g.set_id == s;
        reveal(Seq::filter);
        assert(own == fs.filter(pred));
        assert(own_init == init.filter(pred));
        assert(fs.filter(pred) == if pred(f) {
            init.filter(pred).push(f)
        } else {
            init.filter(pred)
        });
        if f.set_id == s {
            assert(own == own_init.push(f));
            assert(own.drop_last() =~= own_init);
            lemma_step_agrees(feed(m, init), feed(m, own_init), f, s);
        } else {
            assert(own == own_init);
            lemma_step_agrees(feed(m, init), feed(m, own_init), f, s);
            assert(completed(m, fs, s) =~= completed(m, init, s));
        }
    }
}

/// `fs` are the fragments of a message made of `pieces`, as set `s`: one
/// fragment for each place, in some order.
pub open spec fn fragments_of(fs: Seq<Fragment>, s: u64, pieces: Seq<Seq<u8>>) -> bool {
    &&& fs.len() == pieces.len()
    &&& forall|i: int|
        0 <= i < fs.len() ==> {
            &&& #[trigger] fs[i].set_id == s
            &&& fs[i].total as nat == pieces.len()
            &&& fs[i].index < pieces.len()
            &&& fs[i].payload@ == pieces[fs[i].index as int]
        }
    &&& forall|i: int, j: int| 0 <= i < j < fs.len() ==> fs[i].index != fs[j].index
}

/// The places that the first `k` of `fs` fill.
pub open spec fn arrived(fs: Seq<Fragment>, k: int) -> Set<int> {
    fs.subrange(0, k).map_values(|g: Fragment| g.index as int).to_set()
}

/// The pieces of a message at the places in `places`.
pub open spec fn partial(pieces: Seq<Seq<u8>>, places: Set<int>) -> Seq<Option<Seq<u8>>> {
    Seq::new(
        pieces.len(),
        |i: int|
            if places.contains(i) {
                Some(pieces[i])
            } else {
                None
            },
    )
}

proof fn lemma_arrived_all(fs: Seq<Fragment>, s: u64, pieces: Seq<Seq<u8>>, k: int)
    requires
        fragments_of(fs, s, pieces),
        0 <= k <= fs.len(),
    ensures
        arrived(fs, k).finite(),
        arrived(fs, k).len() == k,
        arrived(fs, k).subset_of(set_int_range(0, pieces.len() as int)),
        set_int_range(0, pieces.len() as int).subset_of(arrived(fs, k)) <==> k == pieces.len(),
{
    let n = pieces.len() as int;
    let idx = fs.subrange(0, k).map_values(|g: Fragment| g.index as int);
    assert(idx.no_duplicates()) by {
        assert forall|i: int, j: int| 0 <= i < idx.len() && 0 <= j < idx.len() && i != j implies idx[i]
            != idx[j] by {
            if i < j {
                assert(fs[i].index != fs[j].index);
            } else {
                assert(fs[j].index != fs[i].index);
            }
        }
    }
    idx.unique_seq_to_set();
    idx.lemma_cardinality_of_set();
    let got = arrived(fs, k);
    let range = set_int_range(0, n);
    lemma_int_range(0, n);
    assert forall|i: int| got.contains(i) implies range.contains(i) by {
        let j = choose|j: int| 0 <= j < idx.len() && idx[j] == i;
        assert(idx[j] == fs[j].index as int);
        assert(fs[j].set_id == s);
        assert(fs[j].index < n);
    }
    if k < n && range.subset_of(got) {
        lemma_len_subset(range, got);
    }
    if k == n && !range.subset_of(got) {
        let i = choose|i: int| range.contains(i) && !got.contains(i);
        assert(got.subset_of(range.remove(i)));
        lemma_len_subset(got, range.remove(i));
    }
}

proof fn lemma_prefix(
    m: Map<u64, Seq<Option<Seq<u8>>>>,
    s: u64,
    pieces: Seq<Seq<u8>>,
    fs: Seq<Fragment>,
    k: int,
)
    requires
        !m.contains_key(s),
        pieces.len() > 0,
        fragments_of(fs, s, pieces),
        0 <= k <= fs.len(),
    ensures
        0 < k < fs.len() ==> feed(m, fs.subrange(0, k)).contains_key(s) && feed(
            m,
            fs.subrange(0, k),
        )[s] == partial(pieces, arrived(fs, k)),
        k == 0 || k == fs.len() ==> !feed(m, fs.subrange(0, k)).contains_key(s),
        k < fs.len() ==> completed(m, fs.subrange(0, k), s) == Seq::<Seq<u8>>::empty(),
        k == fs.len() ==> completed(m, fs.subrange(0, k), s) == seq![
            assemble(Seq::new(pieces.len(), |i: int| Some(pieces[i]))),
        ],
    decreases k,
{
    let n = pieces.len() as int;
    let pre = fs.subrange(0, k);
    if k == 0 {
        assert(pre.len() == 0);
    } else {
        lemma_prefix(m, s, pieces, fs, k - 1);
        let before_seq = fs.subrange(0, k - 1);
        assert(pre.drop_last() =~= before_seq);
        let f = fs[k - 1];
        assert(pre.last() == f);
        assert(f.set_id == s);
        let before = feed(m, before_seq);
        lemma_arrived_all(fs, s, pieces, k - 1);
        lemma_arrived_all(fs, s, pieces, k);
        let got = arrived(fs, k);
        assert forall|i: int| #[trigger] got.contains(i) <==> (arrived(fs, k - 1).contains(i)
            || i == f.index as int) by {
            let idx = fs.subrange(0, k).map_values(|g: Fragment| g.index as int);
            let idx0 = fs.subrange(0, k - 1).map_values(|g: Fragment| g.index as int);
            if got.contains(i) {
                let j = choose|j: int| 0 <= j < idx.len() && idx[j] == i;
                if j < k - 1 {
                    assert(idx0[j] == i);
                }
            }
            if arrived(fs, k - 1).contains(i) {
                let j = choose|j: int| 0 <= j < idx0.len() && idx0[j] == i;
                assert(idx[j] == i);
            }
            if i == f.index as int {
                assert(idx[k - 1] == i);
            }
        }
        assert(!arrived(fs, k - 1).contains(f.index as int)) by {
            if arrived(fs, k - 1).contains(f.index as int) {
                let idx0 = fs.subrange(0, k - 1).map_values(|g: Fragment| g.index as int);
                let j = choose|j: int| 0 <= j < idx0.len() && idx0[j] == f.index as int;
                assert(fs[j].index != fs[k - 1].index);
            }
        }
        assert(accepted(before, f));
        assert(slots_after(before, f) =~= partial(pieces, got));
        let range = set_int_range(0, n);
        assert(is_complete(partial(pieces, got)) <==> range.subset_of(got)) by {
            if is_complete(partial(pieces, got)) {
                assert forall|i: int| range.contains(i) implies got.contains(i) by {
                    assert(partial(pieces, got)[i] is Some);
                }
            }
        }
        if k == n {
            assert(partial(pieces, got) =~= Seq::new(pieces.len(), |i: int| Some(pieces[i])));
            assert(completed(m, pre, s) =~= seq![
                assemble(Seq::new(pieces.len(), |i: int| Some(pieces[i]))),
            ]);
        } else {
            assert(completed(m, pre, s) =~= Seq::<Seq<u8>>::empty());
        }
    }
}

/// Fed, in any order, to a state that holds nothing of their set, the
/// fragments of a message complete it exactly once, as its pieces joined in
/// order, and leave nothing of the set behind.
pub proof fn lemma_fragments_reassemble_message(
    m: Map<u64, Seq<Option<Seq<u8>>>>,
    s: u64,
    pieces: Seq<Seq<u8>>,
    fs: Seq<Fragment>,
)
    requires
        !m.contains_key(s),
        pieces.len() > 0,
        fragments_of(fs, s, pieces),
    ensures
        completed(m, fs, s) == seq![assemble(Seq::new(pieces.len(), |i: int| Some(pieces[i])))],
        !feed(m, fs).contains_key(s),
{
    lemma_prefix(m, s, pieces, fs, fs.len() as int);
    assert(fs.subrange(0, fs.len() as int) =~= fs);
}

/// The partly received fragment sets, by set identifier.
pub struct ReassemblyState {
    sets: HashMap<u64, Vec<Option<Vec<u8>>>>,
}

impl ReassemblyState {
    pub closed spec fn view(&self) -> Map<u64, Seq<Option<Seq<u8>>>> {
        Map::new(|k: u64| self.sets@.contains_key(k), |k: u64| slots_view(self.sets@[k]))
    }

    /// No set is waiting for pieces.
    pub fn new() -> (r: Self)
        ensures
            r@ == Map::<u64, Seq<Option<Seq<u8>>>>::empty(),
    {
        let r = ReassemblyState { sets: HashMap::new() };
        assert(r@ =~= Map::<u64, Seq<Option<Seq<u8>>>>::empty());
        r
    }

    fn join(slots: &Vec<Option<Vec<u8>>>) -> (r: Vec<u8>)
        requires
            is_complete(slots_view(*slots)),
        ensures
            r@ == assemble(slots_view(*slots)),
    {
        let ghost sv = slots_view(*slots);
        let mut out: Vec<u8> = Vec::new();
        let mut i: usize = 0;
        while i < slots.len()
            invariant
                0 <= i <= slots@.len(),
                sv == slots_view(*slots),
                is_complete(sv),
                out@ == assemble(sv.subrange(0, i as int)),
            decreases slots@.len() - i,
        {
            assert(sv[i as int] is Some);
            match &slots[i] {
                Some(piece) => {
                    let ghost before = out@;
                    let mut j: usize = 0;
                    while j < piece.len()
                        invariant
                            0 <= j <= piece@.len(),
                            out@ == before + piece@.subrange(0, j as int),
                        decreases piece@.len() - j,
                    {
                        out.push(piece[j]);
                        j = j + 1;
                        assert(out@ =~= before + piece@.subrange(0, j as int));
                    }
                    proof {
                        let p = sv.subrange(0, i + 1);
                        assert(p.drop_last() =~= sv.subrange(0, i as int));
                        assert(piece@.subrange(0, piece@.len() as int) =~= piece@);
                        assert(p.last() == Some(piece@));
                    }
                },
                None => {},
            }
            i = i + 1;
        }
        assert(sv.subrange(0, sv.len() as int) =~= sv);
        out
    }

    fn all_present(slots: &Vec<Option<Vec<u8>>>) -> (r: bool)
        ensures
            r == is_complete(slots_view(*slots)),
    {
        let mut i: usize = 0;
        while i < slots.len()
            invariant
                0 <= i <= slots@.len(),
                forall|k: int| 0 <= k < i ==> slots_view(*slots)[k] is Some,
            decreases slots@.len() - i,
        {
            if slots[i].is_none() {
                assert(slots_view(*slots)[i as int] is None);
                return false;
            }
            i = i + 1;
        }
        true
    }

    /// Takes in one fragment. When it completes its set, the set's pieces
    /// joined in order come back and the set is forgotten; otherwise the
    /// piece is kept. Other sets are never touched.
    pub fn insert_new_fragment(&mut self, fragment: Fragment) -> (r: Result<
        Option<Vec<u8>>,
        ReassemblyError,
    >)
        ensures
            final(self)@ == step(old(self)@, fragment),
            (r is Ok && r->Ok_0 is Some) == completes(old(self)@, fragment),
            ({
                let m = old(self)@;
                let f = fragment;
                if f.total == 0 || f.index >= f.total {
                    r == Err::<Option<Vec<u8>>, _>(ReassemblyError::MalformedFragment)
                        && final(self)@ == m
                } else if m.contains_key(f.set_id) && m[f.set_id].len() != f.total as nat {
                    r == Err::<Option<Vec<u8>>, _>(ReassemblyError::TotalMismatch)
                        && final(self)@ == m
                } else if m.contains_key(f.set_id) && m[f.set_id][f.index as int] is Some {
                    r == Err::<Option<Vec<u8>>, _>(ReassemblyError::DuplicateFragment)
                        && final(self)@ == m
                } else if is_complete(slots_after(m, f)) {
                    r is Ok && r->Ok_0 is Some && r->Ok_0->Some_0@ == assemble(slots_after(m, f))
                        && final(self)@ == m.remove(f.set_id)
                } else {
                    r == Ok::<Option<Vec<u8>>, ReassemblyError>(None) && final(self)@ == m.insert(
                        f.set_id,
                        slots_after(m, f),
                    )
                }
            }),
    {
        let ghost m = self@;
        let ghost f = fragment;
        if fragment.total == 0 || fragment.index >= fragment.total {
            return Err(ReassemblyError::MalformedFragment);
        }
        let total = fragment.total as usize;
        let index = fragment.index as usize;
        match self.sets.get(&fragment.set_id) {
            Some(known) => {
                assert(m[f.set_id] == slots_view(*known));
                if known.len() != total {
                    return Err(ReassemblyError::TotalMismatch);
                }
                if known[index].is_some() {
                    return Err(ReassemblyError::DuplicateFragment);
                }
            },
            None => {},
        }
        let mut slots: Vec<Option<Vec<u8>>> = match self.sets.remove(&fragment.set_id) {
            Some(known) => known,
            None => {
                let mut fresh: Vec<Option<Vec<u8>>> = Vec::new();
                let mut i: usize = 0;
                while i < total
                    invariant
                        0 <= i <= total,
                        fresh@.len() == i,
                        forall|k: int| 0 <= k < i ==> fresh@[k] is None,
                    decreases total - i,
                {
                    fresh.push(None);
                    i = i + 1;
                }
                assert(slots_view(fresh) =~= Seq::new(f.total as nat, |i: int| None::<Seq<u8>>));
                fresh
            },
        };
        let ghost removed = self.sets@;
        assert(slots_view(slots).len() == total);
        let set_id = fragment.set_id;
        slots.set(index, Some(fragment.payload));
        assert(slots_view(slots) =~= slots_after(m, f));
        if Self::all_present(&slots) {
            let message = Self::join(&slots);
            assert(self@ =~= m.remove(f.set_id));
            Ok(Some(message))
        } else {
            self.sets.insert(set_id, slots);
            assert(self@ =~= m.insert(f.set_id, slots_after(m, f)));
            Ok(None)
        }
    }
}

} // verus!
