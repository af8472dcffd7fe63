use vstd::prelude::*;

verus! {

/// bincode's error, carried opaquely until it is mapped to `StoreError`.
#[verifier::external_type_specification]
#[verifier::external_body]
pub struct ExBincodeErrorKind(bincode::ErrorKind);

/// What bincode reads back from `bytes` as a sequence of (string, `u32` sequence) pairs,
/// if anything.
pub uninterp spec fn bincode_decoded(bytes: Seq<u8>) -> Option<Seq<(Seq<char>, Seq<u32>)>>;

pub open spec fn entries_view(e: Seq<(String, Vec<u32>)>) -> Seq<(Seq<char>, Seq<u32>)> {
    e.map_values(|x: (String, Vec<u32>)| (x.0@, x.1@))
}

/// Relies on `bincode::deserialize` into `Vec<(String, Vec<u32>)>`: a function of the bytes.
#[verifier::external_body]
fn decode_entries(bytes: &[u8]) -> (r: Result<Vec<(String, Vec<u32>)>, Box<bincode::ErrorKind>>)
    ensures
        r is Ok <==> bincode_decoded(bytes@) is Some,
        r is Ok ==> entries_view(r->Ok_0@) == bincode_decoded(bytes@)->0,
{
    bincode::deserialize(bytes)
}

/// Relies on `bincode::serialize` of a `Vec<(String, Vec<u32>)>`: it cannot fail here (no
/// size limit, every sequence of known length), and what it writes `bincode::deserialize`
/// reads back as the same pairs.
#[verifier::external_body]
fn encode_entries(entries: &Vec<(String, Vec<u32>)>) -> (r: Result<Vec<u8>, Box<bincode::ErrorKind>>)
    ensures
        r is Ok,
        r is Ok ==> bincode_decoded(r->Ok_0@) == Some(entries_view(entries@)),
{
    bincode::serialize(entries)
}

/// A copy of `v`.
pub(crate) fn copy_u32s(v: &Vec<u32>) -> (r: Vec<u32>)
    ensures
        r@ == v@,
{
    let mut r: Vec<u32> = Vec::new();
    let mut i: usize = 0;
    while i < v.len()
        invariant
            i <= v@.len(),
            r@ == v@.subrange(0, i as int),
        decreases v@.len() - i,
    {
        r.push(v[i]);
        i = i + 1;
        assert(r@ =~= v@.subrange(0, i as int));
    }
    assert(v@.subrange(0, i as int) =~= v@);
    r
}

/// The pairs read as a map, a later pair for a path replacing an earlier one.
pub open spec fn entries_map(e: Seq<(Seq<char>, Seq<u32>)>) -> Map<Seq<char>, Seq<u32>>
    decreases e.len(),
{
    if e.len() == 0 {
        Map::empty()
    } else {
        entries_map(e.drop_last()).insert(e.last().0, e.last().1)
    }
}

pub open spec fn keys_unique(e: Seq<(Seq<char>, Seq<u32>)>) -> bool {
    forall|i: int, j: int| 0 <= i < e.len() && 0 <= j < e.len() && i != j ==> e[i].0 != e[j].0
}

proof fn lemma_entries_map_absent(e: Seq<(Seq<char>, Seq<u32>)>, k: Seq<char>)
    requires
        forall|i: int| 0 <= i < e.len() ==> e[i].0 != k,
    ensures
        !entries_map(e).contains_key(k),
    decreases e.len(),
{
    if e.len() > 0 {
        lemma_entries_map_absent(e.drop_last(), k);
    }
}

proof fn lemma_entries_map_at(e: Seq<(Seq<char>, Seq<u32>)>, i: int)
    requires
        keys_unique(e),
        0 <= i < e.len(),
    ensures
        entries_map(e).contains_key(e[i].0),
        entries_map(e)[e[i].0] == e[i].1,
    decreases e.len(),
{
    if i < e.len() - 1 {
        lemma_entries_map_at(e.drop_last(), i);
    }
}

proof fn lemma_entries_map_update(e: Seq<(Seq<char>, Seq<u32>)>, i: int, v: Seq<u32>)
    requires
        keys_unique(e),
        0 <= i < e.len(),
    ensures
        entries_map(e.update(i, (e[i].0, v))) == entries_map(e).insert(e[i].0, v),
    decreases e.len(),
{
    let e2 = e.update(i, (e[i].0, v));
    if i == e.len() - 1 {
        assert(e2.drop_last() =~= e.drop_last());
        lemma_entries_map_absent(e.drop_last(), e[i].0);
        assert(entries_map(e2) =~= entries_map(e).insert(e[i].0, v));
    } else {
        lemma_entries_map_update(e.drop_last(), i, v);
        assert(e2.drop_last() =~= e.drop_last().update(i, (e[i].0, v)));
        assert(entries_map(e2) =~= entries_map(e).insert(e[i].0, v));
    }
}

proof fn lemma_entries_map_remove(e: Seq<(Seq<char>, Seq<u32>)>, i: int)
    requires
        keys_unique(e),
        0 <= i < e.len(),
    ensures
        entries_map(e.remove(i)) == entries_map(e).remove(e[i].0),
    decreases e.len(),
{
    let e2 = e.remove(i);
    if i == e.len() - 1 {
        assert(e2 =~= e.drop_last());
        lemma_entries_map_absent(e.drop_last(), e[i].0);
        assert(entries_map(e2) =~= entries_map(e).remove(e[i].0));
    } else {
        lemma_entries_map_remove(e.drop_last(), i);
        assert(e2.drop_last() =~= e.drop_last().remove(i));
        assert(e2.last() == e.last());
        assert(entries_map(e2) =~= entries_map(e).remove(e[i].0));
    }
}

/// Feature vectors by absolute path. A vector holds the IEEE-754 bit patterns of its
/// `f32` components.
pub struct AnalysisStore {
    pub data: Vec<(String, Vec<u32>)>,
}

/// Why a feature store could not be turned into bytes or read from them.
#[derive(Debug, PartialEq, Eq, Structural)]
pub enum StoreError {
    Encode,
    Corrupt,
}

impl View for AnalysisStore {
    type V = Map<Seq<char>, Seq<u32>>;

    open spec fn view(&self) -> Map<Seq<char>, Seq<u32>> {
        entries_map(entries_view(self.data@))
    }
}

impl AnalysisStore {
    /// Each path has at most one vector.
    pub open spec fn wf(&self) -> bool {
        keys_unique(entries_view(self.data@))
    }

    /// An empty store.
    pub fn new() -> (r: Self)
        ensures
            r.wf(),
            r@ == Map::<Seq<char>, Seq<u32>>::empty(),
    {
        let r = AnalysisStore { data: Vec::new() };
        assert(entries_view(r.data@) =~= Seq::empty());
        r
    }

    fn position(&self, path: &String) -> (r: Option<usize>)
        ensures
            r is None ==> forall|i: int| 0 <= i < self.data@.len() ==> entries_view(self.data@)[i].0 != path@,
            r is Some ==> r->0 < self.data@.len() && entries_view(self.data@)[r->0 as int].0 == path@,
    {
        let mut i: usize = 0;
        while i < self.data.len()
            invariant
                i <= self.data@.len(),
                forall|j: int| 0 <= j < i ==> entries_view(self.data@)[j].0 != path@,
            decreases self.data@.len() - i,
        {
            if self.data[i].0 == *path {
                return Some(i);
            }
            i = i + 1;
        }
        None
    }

    /// Stores `analysis` for `path`, replacing what was there.
    pub fn insert(&mut self, path: String, analysis: Vec<u32>)
        requires
            old(self).wf(),
        ensures
            final(self).wf(),
            final(self)@ == old(self)@.insert(path@, analysis@),
    {
        let ghost e0 = entries_view(self.data@);
        let ghost k = path@;
        let ghost v = analysis@;
        match self.position(&path) {
            Some(i) => {
                self.data.set(i, (path, analysis));
                proof {
                    assert(entries_view(self.data@) =~= e0.update(i as int, (e0[i as int].0, v)));
                    lemma_entries_map_update(e0, i as int, v);
                }
            },
            None => {
                self.data.push((path, analysis));
                assert(entries_view(self.data@) =~= e0.push((k, v)));
                assert(entries_view(self.data@).drop_last() =~= e0);
            },
        }
    }

    /// The vector stored for `path`, if any.
    pub fn get(&self, path: &String) -> (r: Option<&Vec<u32>>)
        requires
            self.wf(),
        ensures
            r is None <==> !self@.contains_key(path@),
            r is Some ==> r->0@ == self@[path@],
    {
        match self.position(path) {
            Some(i) => {
                proof {
                    lemma_entries_map_at(entries_view(self.data@), i as int);
                }
                Some(&self.data[i].1)
            },
            None => {
                proof {
                    lemma_entries_map_absent(entries_view(self.data@), path@);
                }
                None
            },
        }
    }

    /// Forgets the vector stored for `path`.
    pub fn remove(&mut self, path: &String)
        requires
            old(self).wf(),
        ensures
            final(self).wf(),
            final(self)@ == old(self)@.remove(path@),
    {
        let ghost e0 = entries_view(self.data@);
        match self.position(path) {
            Some(i) => {
                self.data.remove(i);
                proof {
                    assert(entries_view(self.data@) =~= e0.remove(i as int));
                    lemma_entries_map_remove(e0, i as int);
                }
            },
            None => {
                proof {
                    lemma_entries_map_absent(e0, path@);
                    assert(self@ =~= old(self)@.remove(path@));
                }
            },
        }
    }

    /// The store in its compact binary form; this always succeeds.
    pub fn to_bytes(&self) -> (r: Result<Vec<u8>, StoreError>)
        ensures
            r is Ok,
            bincode_decoded(r->Ok_0@) == Some(entries_view(self.data@)),
    {
        match encode_entries(&self.data) {
            Ok(b) => Ok(b),
            Err(_) => Err(StoreError::Encode),
        }
    }

    /// Reads a store from its binary form; `Corrupt` where the bytes do not decode. A
    /// later vector for a path replaces an earlier one.
    pub fn from_bytes(bytes: &[u8]) -> (r: Result<AnalysisStore, StoreError>)
        ensures
            r is Ok <==> bincode_decoded(bytes@) is Some,
            r is Ok ==> r->Ok_0.wf() && r->Ok_0@ == entries_map(bincode_decoded(bytes@)->0),
            r is Err ==> r->Err_0 == StoreError::Corrupt,
    {
        match decode_entries(bytes) {
            Ok(entries) => {
                let ghost e = entries_view(entries@);
                let mut store = AnalysisStore::new();
                let mut i: usize = 0;
                while i < entries.len()
                    invariant
                        i <= entries@.len(),
                        e == entries_view(entries@),
                        store.wf(),
                        store@ == entries_map(e.subrange(0, i as int)),
                    decreases entries@.len() - i,
                {
                    let path = entries[i].0.clone();
                    let v = copy_u32s(&entries[i].1);
                    store.insert(path, v);
                    proof {
                        assert(e.subrange(0, i + 1).drop_last() =~= e.subrange(0, i as int));
                        assert(e.subrange(0, i + 1).last() == e[i as int]);
                    }
                    i = i + 1;
                }
                assert(e.subrange(0, i as int) =~= e);
                Ok(store)
            },
            Err(_) => Err(StoreError::Corrupt),
        }
    }
}

/// Reading back what `to_bytes` wrote gives the same store: for bytes that `to_bytes`
/// returned for `s`, `from_bytes` returns `Ok` with a store whose map is `s@`.
pub proof fn lemma_feature_store_round_trip(s: &AnalysisStore, bytes: Seq<u8>)
    requires
        s.wf(),
        bincode_decoded(bytes) == Some(entries_view(s.data@)),
    ensures
        bincode_decoded(bytes) is Some,
        entries_map(bincode_decoded(bytes)->0) == s@,
{
}

} // verus!
