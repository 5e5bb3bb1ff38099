//! The storage component: an in-memory string-to-string mapping together
//! with the paths of its backing folder and backing JSON file.
//!
//! All mutation is in memory; loading and saving are split into pure
//! text-to-store and store-to-text steps, so the caller owns all file I/O
//! and decides explicitly when to persist.

use vstd::prelude::*;

use crate::json;

verus! {

/// Why a storage operation failed.
#[derive(Clone, Copy, Debug, PartialEq, Eq, Structural)]
pub enum StoreError {
    /// A required path configuration value is missing or empty.
    ConfigError,
    /// A filesystem create/read/write failure, including a short read.
    IOError,
    /// The backing file's content is not a JSON object of strings.
    ParseError,
    /// The clipboard could not be read or written.
    ClipboardError,
    /// The clipboard was queried but holds nothing.
    EmptyClipboardError,
}

/// The mapping denoted by a sequence of key/value pairs, inserted from
/// first to last (so a later pair with the same key would win).
pub open spec fn pairs_map(s: Seq<(String, String)>) -> Map<Seq<char>, Seq<char>>
    decreases s.len(),
{
    if s.len() == 0 {
        Map::empty()
    } else {
        pairs_map(s.drop_last()).insert(s.last().0@, s.last().1@)
    }
}

/// No two pairs of the sequence share a key.
pub open spec fn unique_keys(s: Seq<(String, String)>) -> bool {
    forall|i: int, j: int| 0 <= i < j < s.len() ==> s[i].0@ != s[j].0@
}

/// What `add` does to a mapping: bind the key only if it is absent
/// (first write wins).
pub open spec fn add_spec(
    m: Map<Seq<char>, Seq<char>>,
    k: Seq<char>,
    v: Seq<char>,
) -> Map<Seq<char>, Seq<char>> {
    if m.contains_key(k) {
        m
    } else {
        m.insert(k, v)
    }
}

/// What `update` does to a mapping: rebind the key only if it is present
/// (no implicit creation).
pub open spec fn update_spec(
    m: Map<Seq<char>, Seq<char>>,
    k: Seq<char>,
    v: Seq<char>,
) -> Map<Seq<char>, Seq<char>> {
    if m.contains_key(k) {
        m.insert(k, v)
    } else {
        m
    }
}

/// A key is bound in the mapping of a pair sequence exactly when some pair
/// holds it.
pub proof fn lemma_pairs_map_contains(s: Seq<(String, String)>, x: Seq<char>)
    ensures
        pairs_map(s).contains_key(x) <==> exists|i: int| 0 <= i < s.len() && s[i].0@ == x,
    decreases s.len(),
{
    if s.len() == 0 {
    } else {
        lemma_pairs_map_contains(s.drop_last(), x);
        if s.last().0@ == x {
            assert(s[s.len() - 1].0@ == x);
        } else {
            if pairs_map(s).contains_key(x) {
                let i = choose|i: int|
                    0 <= i < s.drop_last().len() && s.drop_last()[i].0@ == x;
                assert(s[i].0@ == x);
            }
            if exists|i: int| 0 <= i < s.len() && s[i].0@ == x {
                let i = choose|i: int| 0 <= i < s.len() && s[i].0@ == x;
                assert(s.drop_last()[i].0@ == x);
            }
        }
    }
}

/// Under unique keys, the pair at any index gives the mapping's value for
/// its key.
pub proof fn lemma_pairs_map_value(s: Seq<(String, String)>, i: int)
    requires
        unique_keys(s),
        0 <= i < s.len(),
    ensures
        pairs_map(s).contains_key(s[i].0@),
        pairs_map(s)[s[i].0@] == s[i].1@,
    decreases s.len(),
{
    if i == s.len() - 1 {
    } else {
        assert(unique_keys(s.drop_last())) by {
            assert(forall|a: int, b: int|
                0 <= a < b < s.drop_last().len() ==> s.drop_last()[a].0@ != s.drop_last()[b].0@);
        }
        lemma_pairs_map_value(s.drop_last(), i);
        assert(s.drop_last()[i] == s[i]);
        assert(s[i].0@ != s.last().0@);
    }
}

/// Under unique keys, the mapping has exactly one entry per pair, and a
/// finite domain.
pub proof fn lemma_pairs_map_len(s: Seq<(String, String)>)
    requires
        unique_keys(s),
    ensures
        pairs_map(s).dom().finite(),
        pairs_map(s).len() == s.len(),
    decreases s.len(),
{
    if s.len() == 0 {
        assert(Map::<Seq<char>, Seq<char>>::empty().dom() =~= Set::empty());
    } else {
        let dl = s.drop_last();
        assert(unique_keys(dl)) by {
            assert(forall|a: int, b: int| 0 <= a < b < dl.len() ==> dl[a].0@ != dl[b].0@);
        }
        lemma_pairs_map_len(dl);
        lemma_pairs_map_contains(dl, s.last().0@);
        assert(!pairs_map(dl).contains_key(s.last().0@)) by {
            if exists|i: int| 0 <= i < dl.len() && dl[i].0@ == s.last().0@ {
                let i = choose|i: int| 0 <= i < dl.len() && dl[i].0@ == s.last().0@;
                assert(s[i].0@ == s[s.len() - 1].0@);
            }
        }
    }
}

/// Under unique keys, removing the pair at an index removes exactly its
/// key from the mapping.
pub proof fn lemma_pairs_map_remove(s: Seq<(String, String)>, i: int)
    requires
        unique_keys(s),
        0 <= i < s.len(),
    ensures
        pairs_map(s.remove(i)) == pairs_map(s).remove(s[i].0@),
    decreases s.len(),
{
    let k = s[i].0@;
    if i == s.len() - 1 {
        assert(s.remove(i) =~= s.drop_last());
        lemma_pairs_map_contains(s.drop_last(), k);
        assert(!pairs_map(s.drop_last()).contains_key(k)) by {
            if exists|j: int| 0 <= j < s.drop_last().len() && s.drop_last()[j].0@ == k {
                let j = choose|j: int| 0 <= j < s.drop_last().len() && s.drop_last()[j].0@ == k;
                assert(s[j].0@ == s[i].0@);
            }
        }
        assert(pairs_map(s.drop_last()) =~= pairs_map(s).remove(k));
    } else {
        let dl = s.drop_last();
        assert(unique_keys(dl)) by {
            assert(forall|a: int, b: int| 0 <= a < b < dl.len() ==> dl[a].0@ != dl[b].0@);
        }
        assert(dl[i] == s[i]);
        lemma_pairs_map_remove(dl, i);
        assert(s.remove(i).drop_last() =~= dl.remove(i));
        assert(s.remove(i).last() == s.last());
        assert(s.last().0@ != k);
        assert(pairs_map(dl).remove(k).insert(s.last().0@, s.last().1@)
            =~= pairs_map(dl).insert(s.last().0@, s.last().1@).remove(k));
    }
}

/// The storage handle: the in-memory mapping plus the paths of the backing
/// folder and backing file it was loaded from and will be saved to.
pub struct Storage {
    data: Vec<(String, String)>,
    folder_path: String,
    file_path: String,
}

impl View for Storage {
    type V = Map<Seq<char>, Seq<char>>;

    closed spec fn view(&self) -> Map<Seq<char>, Seq<char>> {
        pairs_map(self.data@)
    }
}

impl Storage {
    /// Well-formedness: a key is bound at most once.
    pub closed spec fn wf(&self) -> bool {
        unique_keys(self.data@)
    }

    /// The path of the folder that contains the backing file.
    pub closed spec fn spec_folder_path(&self) -> Seq<char> {
        self.folder_path@
    }

    /// The path of the backing file.
    pub closed spec fn spec_file_path(&self) -> Seq<char> {
        self.file_path@
    }

    /// An empty store with no backing paths: the explicit in-memory-only
    /// construction, for callers that opt out of persistence.
    pub fn new_in_memory() -> (s: Storage)
        ensures
            s.wf(),
            s@ == Map::<Seq<char>, Seq<char>>::empty(),
            s.spec_folder_path().len() == 0,
            s.spec_file_path().len() == 0,
    {
        Storage { data: Vec::new(), folder_path: String::new(), file_path: String::new() }
    }

    fn find_index(&self, k: &str) -> (r: Option<usize>)
        ensures
            match r {
                Some(i) => i < self.data@.len() && self.data@[i as int].0@ == k@,
                None => forall|j: int| 0 <= j < self.data@.len() ==> self.data@[j].0@ != k@,
            },
    {
        let key: String = k.to_owned();
        let mut i: usize = 0;
        while i < self.data.len()
            invariant
                i <= self.data@.len(),
                key@ == k@,
                forall|j: int| 0 <= j < i ==> self.data@[j].0@ != k@,
            decreases self.data@.len() - i,
        {
            if self.data[i].0 == key {
                return Some(i);
            }
            i = i + 1;
        }
        None
    }

    /// Inserts `k -> v` only if `k` is absent; if `k` is already bound the
    /// call is a silent no-op (first write wins, never an overwrite).
    pub fn add(&mut self, k: &str, v: &str)
        requires
            old(self).wf(),
        ensures
            final(self).wf(),
            final(self)@ == add_spec(old(self)@, k@, v@),
            final(self).spec_folder_path() == old(self).spec_folder_path(),
            final(self).spec_file_path() == old(self).spec_file_path(),
    {
        match self.find_index(k) {
            Some(i) => {
                proof {
                    lemma_pairs_map_contains(self.data@, k@);
                    assert(exists|j: int| 0 <= j < self.data@.len() && self.data@[j].0@ == k@)
                        by {
                        assert(self.data@[i as int].0@ == k@);
                    }
                }
            },
            None => {
                proof {
                    lemma_pairs_map_contains(self.data@, k@);
                }
                let ghost s0 = self.data@;
                self.data.push((k.to_owned(), v.to_owned()));
                proof {
                    assert(self.data@.drop_last() =~= s0);
                    assert(unique_keys(self.data@)) by {
                        assert forall|a: int, b: int|
                            0 <= a < b < self.data@.len() implies self.data@[a].0@
                            != self.data@[b].0@ by {
                            if b < s0.len() as int {
                                assert(s0[a].0@ != s0[b].0@);
                            } else {
                                assert(self.data@[b].0@ == k@);
                                assert(s0[a].0@ != k@);
                            }
                        }
                    }
                }
            },
        }
    }

    /// Pure read: the stored value for `k`, or `None` if `k` is absent.
    pub fn get(&self, k: &str) -> (r: Option<&String>)
        requires
            self.wf(),
        ensures
            match r {
                Some(v) => self@.contains_key(k@) && v@ == self@[k@],
                None => !self@.contains_key(k@),
            },
    {
        match self.find_index(k) {
            Some(i) => {
                proof {
                    lemma_pairs_map_value(self.data@, i as int);
                }
                Some(&self.data[i].1)
            },
            None => {
                proof {
                    lemma_pairs_map_contains(self.data@, k@);
                }
                None
            },
        }
    }

    /// Rebinds `k` to `v` only if `k` is already bound; if `k` is absent
    /// the call is a silent no-op (no implicit creation). Rebinding to the
    /// value already stored changes nothing.
    pub fn update(&mut self, k: &str, v: &str)
        requires
            old(self).wf(),
        ensures
            final(self).wf(),
            final(self)@ == update_spec(old(self)@, k@, v@),
            final(self).spec_folder_path() == old(self).spec_folder_path(),
            final(self).spec_file_path() == old(self).spec_file_path(),
    {
        match self.find_index(k) {
            Some(i) => {
                proof {
                    lemma_pairs_map_value(self.data@, i as int);
                }
                let val: String = v.to_owned();
                if self.data[i].1 == val {
                    proof {
                        assert(self@[k@] == v@);
                        assert(update_spec(self@, k@, v@) =~= self@);
                    }
                } else {
                    let ghost s0 = self.data@;
                    proof {
                        lemma_pairs_map_remove(s0, i as int);
                        s0.remove_ensures(i as int);
                    }
                    self.data.remove(i);
                    let ghost s1 = self.data@;
                    proof {
                        assert(unique_keys(s1)) by {
                            assert forall|a: int, b: int|
                                0 <= a < b < s1.len() implies s1[a].0@ != s1[b].0@ by {
                                let a0 = if a < i as int { a } else { a + 1 };
                                let b0 = if b < i as int { b } else { b + 1 };
                                assert(s1[a] == s0[a0]);
                                assert(s1[b] == s0[b0]);
                            }
                        }
                        assert forall|j: int| 0 <= j < s1.len() implies s1[j].0@ != k@ by {
                            let j0 = if j < i as int { j } else { j + 1 };
                            assert(s1[j] == s0[j0]);
                            assert(j0 != i as int);
                        }
                    }
                    self.data.push((k.to_owned(), val));
                    proof {
                        assert(self.data@.drop_last() =~= s1);
                        assert(unique_keys(self.data@)) by {
                            assert forall|a: int, b: int|
                                0 <= a < b < self.data@.len() implies self.data@[a].0@
                                != self.data@[b].0@ by {
                                if b < s1.len() as int {
                                    assert(s1[a].0@ != s1[b].0@);
                                } else {
                                    assert(self.data@[b].0@ == k@);
                                    assert(s1[a].0@ != k@);
                                }
                            }
                        }
                        assert(pairs_map(self.data@) == pairs_map(s1).insert(k@, v@));
                        assert(pairs_map(s0).remove(k@).insert(k@, v@)
                            =~= pairs_map(s0).insert(k@, v@));
                    }
                }
            },
            None => {
                proof {
                    lemma_pairs_map_contains(self.data@, k@);
                }
            },
        }
    }

    /// Deletes `k` if present; a silent no-op if `k` is absent.
    pub fn remove(&mut self, k: &str)
        requires
            old(self).wf(),
        ensures
            final(self).wf(),
            final(self)@ == old(self)@.remove(k@),
            final(self).spec_folder_path() == old(self).spec_folder_path(),
            final(self).spec_file_path() == old(self).spec_file_path(),
    {
        match self.find_index(k) {
            Some(i) => {
                let ghost s0 = self.data@;
                proof {
                    lemma_pairs_map_remove(s0, i as int);
                    s0.remove_ensures(i as int);
                }
                self.data.remove(i);
                proof {
                    let s1 = self.data@;
                    assert(unique_keys(s1)) by {
                        assert forall|a: int, b: int|
                            0 <= a < b < s1.len() implies s1[a].0@ != s1[b].0@ by {
                            let a0 = if a < i as int { a } else { a + 1 };
                            let b0 = if b < i as int { b } else { b + 1 };
                            assert(s1[a] == s0[a0]);
                            assert(s1[b] == s0[b0]);
                        }
                    }
                }
            },
            None => {
                proof {
                    lemma_pairs_map_contains(self.data@, k@);
                    assert(self@.remove(k@) =~= self@);
                }
            },
        }
    }

    /// Builds the storage handle from the text read out of the backing
    /// file. Both paths must be non-empty (else `ConfigError`); empty text
    /// is the valid "no data yet" state and yields an empty mapping; any
    /// other text must be one JSON object of strings (else `ParseError`).
    pub fn open_from_text(folder_path: String, file_path: String, text: &str) -> (r: Result<
        Storage,
        StoreError,
    >)
        ensures
            folder_path@.len() == 0 || file_path@.len() == 0 <==> r == Err::<Storage, StoreError>(
                StoreError::ConfigError,
            ),
            r matches Ok(s) ==> s.wf() && s.spec_folder_path() == folder_path@
                && s.spec_file_path() == file_path@ && (text@.len() == 0 ==> s@ == Map::<
                Seq<char>,
                Seq<char>,
            >::empty()) && (text@.len() > 0 ==> json::json_object_of(text@) == Some(s@)),
            folder_path@.len() > 0 && file_path@.len() > 0 && text@.len() == 0 ==> r is Ok,
            folder_path@.len() > 0 && file_path@.len() > 0 && text@.len() > 0 ==> (r is Ok
                <==> json::json_object_of(text@) is Some) && (json::json_object_of(text@) is None
                ==> r == Err::<Storage, StoreError>(StoreError::ParseError)),
    {
        if folder_path.as_str().is_empty() || file_path.as_str().is_empty() {
            return Err(StoreError::ConfigError);
        }
        if text.is_empty() {
            return Ok(Storage { data: Vec::new(), folder_path, file_path });
        }
        match json::parse_object(text) {
            Ok(pairs) => Ok(Storage { data: pairs, folder_path, file_path }),
            Err(_) => Err(StoreError::ParseError),
        }
    }

    /// Serializes the whole mapping to the text the backing file is to
    /// hold. Serialization always succeeds, and parsing the returned text
    /// back yields exactly this mapping.
    pub fn to_backing_text(&self) -> (r: Result<String, StoreError>)
        requires
            self.wf(),
        ensures
            r is Ok,
            r matches Ok(text) ==> text@ == json::json_text_of(self@) && json::json_object_of(
                text@,
            ) == Some(self@) && text@.len() > 0,
    {
        match json::render_object(&self.data) {
            Ok(t) => Ok(t),
            Err(_) => Err(StoreError::IOError),
        }
    }

    /// The path of the backing file, for the caller that performs the
    /// actual write.
    pub fn file_path(&self) -> (r: &str)
        ensures
            r@ == self.spec_file_path(),
    {
        self.file_path.as_str()
    }

    /// The number of keys currently bound.
    pub fn len(&self) -> (n: usize)
        requires
            self.wf(),
        ensures
            n == self@.len(),
    {
        proof {
            lemma_pairs_map_len(self.data@);
        }
        self.data.len()
    }

    /// Law: a well-formed store binds finitely many keys, so the length
    /// of its mapping follows the usual insert/remove arithmetic.
    pub proof fn lemma_finite(&self)
        requires
            self.wf(),
        ensures
            self@.dom().finite(),
    {
        lemma_pairs_map_len(self.data@);
    }
}

/// Law: adding a binding for an absent key makes lookup return the new
/// value.
pub proof fn lemma_add_absent_then_get(m: Map<Seq<char>, Seq<char>>, k: Seq<char>, v: Seq<char>)
    requires
        !m.contains_key(k),
    ensures
        add_spec(m, k, v).contains_key(k),
        add_spec(m, k, v)[k] == v,
{
}

/// Law: adding under a key that is already bound changes nothing, so
/// lookup still returns the first value (first write wins).
pub proof fn lemma_add_present_keeps_first(m: Map<Seq<char>, Seq<char>>, k: Seq<char>, v2: Seq<char>)
    requires
        m.contains_key(k),
    ensures
        add_spec(m, k, v2) == m,
        add_spec(m, k, v2)[k] == m[k],
{
}

/// Law: updating a present key rebinds it, so lookup returns the new
/// value.
pub proof fn lemma_update_present_then_get(m: Map<Seq<char>, Seq<char>>, k: Seq<char>, v2: Seq<char>)
    requires
        m.contains_key(k),
    ensures
        update_spec(m, k, v2).contains_key(k),
        update_spec(m, k, v2)[k] == v2,
{
}

/// Law: updating a present key with the value it already holds changes
/// nothing at all.
pub proof fn lemma_update_same_value_noop(m: Map<Seq<char>, Seq<char>>, k: Seq<char>)
    requires
        m.contains_key(k),
    ensures
        update_spec(m, k, m[k]) == m,
{
    assert(update_spec(m, k, m[k]) =~= m);
}

/// Law: updating an absent key changes nothing and in particular leaves
/// the key absent (no implicit creation).
pub proof fn lemma_update_absent_noop(m: Map<Seq<char>, Seq<char>>, k: Seq<char>, v: Seq<char>)
    requires
        !m.contains_key(k),
    ensures
        update_spec(m, k, v) == m,
        !update_spec(m, k, v).contains_key(k),
{
}

/// Law: removal makes the key absent, and removing an absent key changes
/// nothing.
pub proof fn lemma_remove_then_get(m: Map<Seq<char>, Seq<char>>, k: Seq<char>)
    ensures
        !m.remove(k).contains_key(k),
        !m.contains_key(k) ==> m.remove(k) == m,
{
    if !m.contains_key(k) {
        assert(m.remove(k) =~= m);
    }
}

/// Law: adding an absent key to a finite mapping grows the key count by
/// exactly one.
pub proof fn lemma_add_grows_len(m: Map<Seq<char>, Seq<char>>, k: Seq<char>, v: Seq<char>)
    requires
        m.dom().finite(),
        !m.contains_key(k),
    ensures
        add_spec(m, k, v).len() == m.len() + 1,
{
}

/// Law: removing a present key from a finite mapping shrinks the key
/// count by exactly one.
pub proof fn lemma_remove_shrinks_len(m: Map<Seq<char>, Seq<char>>, k: Seq<char>)
    requires
        m.dom().finite(),
        m.contains_key(k),
    ensures
        m.remove(k).len() == m.len() - 1,
{
}

} // verus!
