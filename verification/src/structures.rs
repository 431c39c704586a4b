//! Shared building blocks: canonical module paths, source spans, scope
//! entries and a small string-keyed table.

use vstd::prelude::*;

verus! {

/// Whether two strings hold the same characters.
pub open spec fn same_text(a: String, b: String) -> bool {
    a@ == b@
}

/// The identity of a module: the text of its absolute, symlink-free path.
/// Two canonical paths name the same module exactly when their texts agree.
#[derive(Debug, PartialEq, Eq, Hash)]
pub struct CanonPath {
    pub text: String,
}

impl View for CanonPath {
    type V = Seq<char>;

    open spec fn view(&self) -> Seq<char> {
        self.text@
    }
}

impl Clone for CanonPath {
    fn clone(&self) -> (r: Self)
        ensures
            r == *self,
    {
        CanonPath { text: self.text.clone() }
    }
}

impl CanonPath {
    /// Wraps a path text that the caller has already made canonical.
    pub fn new(text: String) -> (r: Self)
        ensures
            r.text == text,
    {
        CanonPath { text }
    }

    /// The path text.
    pub fn as_path(&self) -> (r: &str)
        ensures
            r@ == self@,
    {
        self.text.as_str()
    }

    /// Whether `self` and `other` name the same module.
    pub fn same(&self, other: &CanonPath) -> (r: bool)
        ensures
            r == (self@ == other@),
    {
        self.text == other.text
    }
}

/// A byte range in a module's source text.
#[derive(Debug, Clone, Copy, PartialEq, Eq, Structural)]
pub struct Span {
    pub lo: u32,
    pub hi: u32,
}

/// Whether one of `keys` is written with the characters `k`.
pub open spec fn has_key(keys: Seq<String>, k: Seq<char>) -> bool {
    exists|i: int| 0 <= i < keys.len() && #[trigger] keys[i]@ == k
}

/// `keys`, with `k` added at the end unless it is there already.
pub open spec fn with_key(keys: Seq<String>, k: String) -> Seq<String> {
    if has_key(keys, k@) {
        keys
    } else {
        keys.push(k)
    }
}

/// No two of `keys` are written with the same characters.
pub open spec fn distinct_keys(keys: Seq<String>) -> bool {
    forall|i: int, j: int| 0 <= i < j < keys.len() ==> keys[i]@ != keys[j]@
}

/// The characters of each of `names`.
pub open spec fn texts(names: Seq<String>) -> Seq<Seq<char>> {
    Seq::new(names.len(), |i: int| names[i]@)
}

/// Whether `k` is among `keys`.
pub fn contains_key(keys: &Vec<String>, k: &String) -> (r: bool)
    ensures
        r == has_key(keys@, k@),
{
    let mut i: usize = 0;
    while i < keys.len()
        invariant
            i <= keys@.len(),
            forall|j: int| 0 <= j < i ==> keys@[j]@ != k@,
        decreases keys@.len() - i,
    {
        if keys[i] == *k {
            return true;
        }
        i += 1;
    }
    false
}

/// Adds `k` to `keys` unless it is there already.
pub fn insert_key(keys: &mut Vec<String>, k: String)
    ensures
        final(keys)@ == with_key(old(keys)@, k),
{
    if !contains_key(keys, &k) {
        keys.push(k);
    }
}

/// Adding a key keeps a list of keys free of repetitions.
pub proof fn lemma_with_key_distinct(keys: Seq<String>, k: String)
    requires
        distinct_keys(keys),
    ensures
        distinct_keys(with_key(keys, k)),
{
}

/// What a name stands for in one of a module's two scopes.
#[derive(Debug, PartialEq, Eq)]
pub enum ItemState {
    /// The name is declared in the module itself.
    Rooted,
    /// The name was imported: `source` exports it as `src_key`, and the
    /// module knows it as `as_key`.
    Imported { source: CanonPath, src_key: String, as_key: String },
}

impl Clone for ItemState {
    fn clone(&self) -> (r: Self)
        ensures
            r == *self,
    {
        match self {
            ItemState::Rooted => ItemState::Rooted,
            ItemState::Imported { source, src_key, as_key } => ItemState::Imported {
                source: source.clone(),
                src_key: src_key.clone(),
                as_key: as_key.clone(),
            },
        }
    }
}

/// `m` with `k` bound to `v`, unless `k` is bound already: the first
/// binding of a name wins.
pub open spec fn bound_first<T>(m: Map<Seq<char>, T>, k: Seq<char>, v: T) -> Map<Seq<char>, T> {
    if m.contains_key(k) {
        m
    } else {
        m.insert(k, v)
    }
}

/// A table from names to values. A name is looked up by its characters;
/// once bound, a name keeps what it is bound to.
pub struct Scope<T> {
    keys: Vec<String>,
    values: Vec<T>,
}

impl<T> View for Scope<T> {
    type V = Map<Seq<char>, T>;

    closed spec fn view(&self) -> Map<Seq<char>, T> {
        Map::new(
            |k: Seq<char>| exists|i: int| 0 <= i < self.keys@.len() && self.keys@[i]@ == k,
            |k: Seq<char>|
                self.values@[choose|i: int| 0 <= i < self.keys@.len() && self.keys@[i]@ == k],
        )
    }
}

impl<T> Scope<T> {
    /// Every key has its value, and no key occurs twice.
    pub closed spec fn wf(&self) -> bool {
        &&& self.keys@.len() == self.values@.len()
        &&& forall|i: int, j: int|
            0 <= i < j < self.keys@.len() ==> self.keys@[i]@ != self.keys@[j]@
    }

    /// In a well-formed table the key at position `i` is bound to the value
    /// at position `i`.
    proof fn lemma_bound_at(&self, i: int)
        requires
            self.wf(),
            0 <= i < self.keys@.len(),
        ensures
            self@.contains_key(self.keys@[i]@),
            self@[self.keys@[i]@] == self.values@[i],
    {
    }

    /// The empty table.
    pub fn new() -> (s: Self)
        ensures
            s.wf(),
            s@ == Map::<Seq<char>, T>::empty(),
    {
        let s = Scope { keys: Vec::new(), values: Vec::new() };
        assert(s@ =~= Map::<Seq<char>, T>::empty());
        s
    }

    /// The position of `key` among the keys, if it is there.
    fn position(&self, key: &String) -> (r: Option<usize>)
        ensures
            match r {
                Some(i) => i < self.keys@.len() && self.keys@[i as int]@ == key@,
                None => forall|i: int| 0 <= i < self.keys@.len() ==> self.keys@[i]@ != key@,
            },
    {
        let mut i: usize = 0;
        while i < self.keys.len()
            invariant
                i <= self.keys@.len(),
                forall|j: int| 0 <= j < i ==> self.keys@[j]@ != key@,
            decreases self.keys@.len() - i,
        {
            if self.keys[i] == *key {
                return Some(i);
            }
            i += 1;
        }
        None
    }

    /// Binds `key` to `v`, unless `key` is bound already: the first binding
    /// of a name stays, a later one is passed over.
    pub fn insert(&mut self, key: String, v: T)
        requires
            old(self).wf(),
        ensures
            final(self).wf(),
            final(self)@ == bound_first(old(self)@, key@, v),
    {
        match self.position(&key) {
            Some(i) => {
                proof {
                    self.lemma_bound_at(i as int);
                }
            },
            None => {
                self.keys.push(key);
                self.values.push(v);
                proof {
                    let before = *old(self);
                    let after = *self;
                    let at = after.keys@.len() - 1;
                    assert(after.keys@[at]@ == key@);
                    assert(!before@.contains_key(key@));
                    assert forall|k: Seq<char>| #[trigger] after@.contains_key(k) <==> (k == key@
                        || before@.contains_key(k)) by {
                        if before@.contains_key(k) {
                            let i = choose|i: int|
                                0 <= i < before.keys@.len() && before.keys@[i]@ == k;
                            assert(after.keys@[i]@ == k);
                        }
                    }
                    assert forall|k: Seq<char>| #[trigger] after@.contains_key(k) implies after@[k]
                        == before@.insert(key@, v)[k] by {
                        let i = choose|i: int| 0 <= i < after.keys@.len() && after.keys@[i]@ == k;
                        after.lemma_bound_at(i);
                        if k != key@ {
                            before.lemma_bound_at(i);
                        } else {
                            after.lemma_bound_at(at);
                        }
                    }
                    assert(after@ =~= before@.insert(key@, v));
                }
            },
        }
    }

    /// What `key` is bound to, if anything.
    pub fn get(&self, key: &str) -> (r: Option<&T>)
        requires
            self.wf(),
        ensures
            match r {
                Some(v) => self@.contains_key(key@) && *v == self@[key@],
                None => !self@.contains_key(key@),
            },
    {
        let owned = key.to_owned();
        match self.position(&owned) {
            Some(i) => {
                proof {
                    self.lemma_bound_at(i as int);
                }
                Some(&self.values[i])
            },
            None => None,
        }
    }
}

} // verus!
