use std::collections::HashMap;
use vstd::hash_map::StringHashMap;
use vstd::prelude::*;

verus! {

broadcast use {vstd::std_specs::hash::group_hash_axioms, vstd::hash_map::group_hash_map_axioms};

/// One stored record: a text and its embedding. Each component of the embedding is
/// kept as the IEEE-754 bit pattern of the `f64` that it stands for.
pub type StoredEntry = (Seq<char>, Seq<u64>);

/// `text` is the text of some stored record.
pub open spec fn holds_text(entries: Seq<StoredEntry>, text: Seq<char>) -> bool {
    exists|i: int| 0 <= i < entries.len() && #[trigger] entries[i].0 == text
}

/// No text is stored twice.
pub open spec fn texts_distinct(entries: Seq<StoredEntry>) -> bool {
    forall|i: int, j: int|
        0 <= i < entries.len() && 0 <= j < entries.len() && i != j ==> #[trigger] entries[i].0
            != #[trigger] entries[j].0
}

/// The position of the record that holds `text` (meaningful when `holds_text`).
pub open spec fn position_of(entries: Seq<StoredEntry>, text: Seq<char>) -> int {
    choose|i: int| 0 <= i < entries.len() && #[trigger] entries[i].0 == text
}

/// The embedding stored with `text`, if `text` is stored.
pub open spec fn embedding_of(entries: Seq<StoredEntry>, text: Seq<char>) -> Option<Seq<u64>> {
    if holds_text(entries, text) {
        Some(entries[position_of(entries, text)].1)
    } else {
        None
    }
}

/// A stored text reads back the embedding it was stored with, and storing a new
/// text changes what no other text reads back.
pub proof fn law_read_after_insert(entries: Seq<StoredEntry>, text: Seq<char>, vector: Seq<u64>)
    requires
        texts_distinct(entries),
        !holds_text(entries, text),
    ensures
        texts_distinct(entries.push((text, vector))),
        embedding_of(entries.push((text, vector)), text) == Some(vector),
        forall|other: Seq<char>|
            other != text ==> #[trigger] embedding_of(entries.push((text, vector)), other)
                == embedding_of(entries, other),
{
    let grown = entries.push((text, vector));
    assert(grown[entries.len() as int].0 == text);
    assert(holds_text(grown, text));
    let p = position_of(grown, text);
    assert(p == entries.len());
    assert forall|other: Seq<char>| other != text implies #[trigger] embedding_of(grown, other)
        == embedding_of(entries, other) by {
        if holds_text(entries, other) {
            let i = choose|i: int| 0 <= i < entries.len() && #[trigger] entries[i].0 == other;
            assert(grown[i].0 == other);
            let q = position_of(grown, other);
            let r = position_of(entries, other);
            assert(q == i);
            assert(r == i);
        } else {
            assert forall|i: int| 0 <= i < grown.len() implies #[trigger] grown[i].0 != other by {
                if i < entries.len() {
                    assert(grown[i] == entries[i]);
                }
            }
        }
    }
}

/// Once a text is stored, storing it again is refused, whatever embedding comes with it.
pub proof fn law_repeated_insert_refused(entries: Seq<StoredEntry>, text: Seq<char>, vector: Seq<u64>)
    ensures
        holds_text(entries.push((text, vector)), text),
{
    assert(entries.push((text, vector))[entries.len() as int].0 == text);
}

/// A stored text keeps reading back the embedding it was stored with through any
/// number of further inserts: each insert keeps the earlier records as a prefix,
/// and a store without repeated texts reads a text back as any prefix holding it does.
pub proof fn law_stored_embedding_persists(
    earlier: Seq<StoredEntry>,
    later: Seq<StoredEntry>,
    text: Seq<char>,
)
    requires
        texts_distinct(later),
        earlier.is_prefix_of(later),
        holds_text(earlier, text),
    ensures
        embedding_of(later, text) == embedding_of(earlier, text),
{
    let i = position_of(earlier, text);
    assert(later[i] == earlier[i]);
    assert(holds_text(later, text));
    let q = position_of(later, text);
    assert(later[q].0 == text);
    assert(q == i);
}

/// Records kept as a prefix through one step stay a prefix through the next.
pub proof fn law_prefix_chain(first: Seq<StoredEntry>, second: Seq<StoredEntry>, third: Seq<StoredEntry>)
    requires
        first.is_prefix_of(second),
        second.is_prefix_of(third),
    ensures
        first.is_prefix_of(third),
{
    assert forall|i: int| 0 <= i < first.len() implies #[trigger] third[i] == first[i] by {
        assert(second[i] == first[i]);
        assert(third[i] == second[i]);
    }
    assert(first =~= third.subrange(0, first.len() as int));
}

/// An in-memory store of texts and their embeddings. Each new text gets the next
/// index, counting from 0; a text that is already stored is refused.
///
/// Its value (`@`) is the sequence of stored records in the order of their indices.
pub struct InMemStore {
    string_storage: HashMap<u64, String>,
    vector_storage: HashMap<u64, Vec<u64>>,
    present_vectors: StringHashMap<u64>,
    index: u64,
}

impl View for InMemStore {
    type V = Seq<StoredEntry>;

    closed spec fn view(&self) -> Seq<StoredEntry> {
        Seq::new(
            self.index as nat,
            |i: int| (self.string_storage@[i as u64]@, self.vector_storage@[i as u64]@),
        )
    }
}

impl InMemStore {
    /// The three maps agree: both index-keyed maps hold exactly the indices below
    /// `index`, and the text map sends each stored text to the index that holds it.
    #[verifier::type_invariant]
    spec fn well_formed(&self) -> bool {
        &&& forall|i: u64| #[trigger] self.string_storage@.contains_key(i) <==> i < self.index
        &&& forall|i: u64| #[trigger] self.vector_storage@.contains_key(i) <==> i < self.index
        &&& forall|t: Seq<char>| #[trigger]
            self.present_vectors@.contains_key(t) ==> {
                &&& self.present_vectors@[t] < self.index
                &&& self.string_storage@[self.present_vectors@[t]]@ == t
            }
        &&& forall|i: u64|
            i < self.index ==> {
                &&& self.present_vectors@.contains_key(#[trigger] self.string_storage@[i]@)
                &&& self.present_vectors@[self.string_storage@[i]@] == i
            }
    }

    proof fn lemma_view_facts(&self)
        requires
            self.well_formed(),
        ensures
            self@.len() == self.index,
            texts_distinct(self@),
            forall|t: Seq<char>| holds_text(self@, t) <==> self.present_vectors@.contains_key(t),
            forall|t: Seq<char>|
                #[trigger] self.present_vectors@.contains_key(t) ==> position_of(self@, t)
                    == self.present_vectors@[t] as int,
    {
        assert forall|i: int, j: int|
            0 <= i < self@.len() && 0 <= j < self@.len() && i != j implies #[trigger] self@[i].0
            != #[trigger] self@[j].0 by {
            let si = self.string_storage@[i as u64]@;
            let sj = self.string_storage@[j as u64]@;
            assert(self.present_vectors@[si] == i as u64);
            assert(self.present_vectors@[sj] == j as u64);
        }
        assert forall|t: Seq<char>| holds_text(self@, t) implies self.present_vectors@.contains_key(
            t,
        ) by {
            let i = choose|i: int| 0 <= i < self@.len() && #[trigger] self@[i].0 == t;
            assert(self.string_storage@[i as u64]@ == t);
        }
        assert forall|t: Seq<char>| self.present_vectors@.contains_key(t) implies holds_text(
            self@,
            t,
        ) by {
            let k = self.present_vectors@[t];
            assert(self@[k as int].0 == t);
        }
        assert forall|t: Seq<char>| #[trigger]
            self.present_vectors@.contains_key(t) implies position_of(self@, t)
            == self.present_vectors@[t] as int by {
            let k = self.present_vectors@[t];
            assert(self@[k as int].0 == t);
            let p = position_of(self@, t);
            assert(0 <= p < self@.len() && self@[p].0 == t);
        }
    }

    /// An empty store; the next index is 0.
    pub fn new() -> (store: Self)
        ensures
            store@ == Seq::<StoredEntry>::empty(),
            texts_distinct(store@),
    {
        let store = InMemStore {
            string_storage: HashMap::new(),
            vector_storage: HashMap::new(),
            present_vectors: StringHashMap::new(),
            index: 0,
        };
        assert(store@ =~= Seq::<StoredEntry>::empty());
        store
    }

    /// Stores `data` with its embedding under the next index and returns `true`,
    /// unless `data` is already stored: then nothing changes and the answer is `false`.
    pub fn insert(&mut self, data: &String, vector_data: &Vec<u64>) -> (inserted: bool)
        requires
            old(self)@.len() < u64::MAX || holds_text(old(self)@, data@),
        ensures
            inserted == !holds_text(old(self)@, data@),
            inserted ==> final(self)@ == old(self)@.push((data@, vector_data@)),
            !inserted ==> final(self)@ == old(self)@,
            old(self)@.is_prefix_of(final(self)@),
            texts_distinct(old(self)@),
            texts_distinct(final(self)@),
    {
        proof {
            use_type_invariant(&*self);
            self.lemma_view_facts();
        }
        if self.present_vectors.contains_key(data.as_str()) {
            assert(self@.is_prefix_of(self@));
            return false;
        }
        let mut taken = InMemStore::new();
        std::mem::swap(self, &mut taken);
        proof {
            use_type_invariant(&taken);
        }
        let ghost old_self = taken;
        let InMemStore { mut string_storage, mut vector_storage, mut present_vectors, index } = taken;
        let key = index;
        let text = data.clone();
        let mut vector: Vec<u64> = Vec::new();
        let mut j: usize = 0;
        while j < vector_data.len()
            invariant
                j <= vector_data.len(),
                vector@ == vector_data@.subrange(0, j as int),
            decreases vector_data.len() - j,
        {
            vector.push(vector_data[j]);
            j = j + 1;
            assert(vector@ =~= vector_data@.subrange(0, j as int));
        }
        assert(vector@ =~= vector_data@);
        string_storage.insert(key, text.clone());
        vector_storage.insert(key, vector);
        present_vectors.insert(text, key);
        proof {
            assert forall|i: u64| i < key + 1 implies {
                &&& present_vectors@.contains_key(#[trigger] string_storage@[i]@)
                &&& present_vectors@[string_storage@[i]@] == i
            } by {
                if i < key {
                    let s = old_self.string_storage@[i]@;
                    assert(old_self.present_vectors@.contains_key(s));
                    assert(s != data@);
                }
            }
        }
        *self = InMemStore { string_storage, vector_storage, present_vectors, index: key + 1 };
        proof {
            assert(self@ =~= old(self)@.push((data@, vector_data@)));
            assert(old(self)@.is_prefix_of(self@));
            use_type_invariant(&*self);
            self.lemma_view_facts();
        }
        true
    }

    /// Both index-keyed maps: index to embedding and index to text.
    pub fn get_store(&self) -> (store: (&HashMap<u64, Vec<u64>>, &HashMap<u64, String>))
        ensures
            forall|i: u64| #[trigger] store.0@.contains_key(i) <==> i < self@.len(),
            forall|i: u64| #[trigger] store.1@.contains_key(i) <==> i < self@.len(),
            forall|i: u64| i < self@.len() ==> #[trigger] store.0@[i]@ == self@[i as int].1,
            forall|i: u64| i < self@.len() ==> #[trigger] store.1@[i]@ == self@[i as int].0,
    {
        proof {
            use_type_invariant(self);
        }
        (&self.vector_storage, &self.string_storage)
    }

    /// The embedding stored with `data`, if `data` is stored.
    pub fn get_vector_if_it_exists(&self, data: &String) -> (vector: Option<Vec<u64>>)
        ensures
            match vector {
                Some(v) => embedding_of(self@, data@) == Some(v@),
                None => embedding_of(self@, data@) is None,
            },
            texts_distinct(self@),
    {
        proof {
            use_type_invariant(self);
            self.lemma_view_facts();
        }
        match self.present_vectors.get(data.as_str()) {
            None => None,
            Some(index) => {
                let key: u64 = *index;
                match self.vector_storage.get(&key) {
                    Some(stored) => {
                        let mut copy: Vec<u64> = Vec::new();
                        let mut j: usize = 0;
                        while j < stored.len()
                            invariant
                                j <= stored.len(),
                                copy@ == stored@.subrange(0, j as int),
                            decreases stored.len() - j,
                        {
                            copy.push(stored[j]);
                            j = j + 1;
                            assert(copy@ =~= stored@.subrange(0, j as int));
                        }
                        assert(copy@ =~= stored@);
                        Some(copy)
                    },
                    None => None,
                }
            },
        }
    }

    /// The index that the next stored text will get: the number of stored texts.
    /// The text given is not looked at.
    pub fn get_index(&self, data: &String) -> (next: u64)
        ensures
            next == self@.len(),
    {
        let _ = data;
        self.index
    }
}

} // verus!
