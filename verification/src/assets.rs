//! Asset keys, load options and the explicit asset cache.
use crate::text::{chars_of, string_of};
use crate::texture::TextureFilter;
use vstd::prelude::*;

verus! {

/// GPU block compression applied when a texture is uploaded.
#[derive(Clone, Copy, Debug, PartialEq, Eq, Hash, Structural)]
pub enum TextureCompression {
    BC1,
    BC2,
    BC3,
    BC4,
    BC5,
    BC6H,
    BC7,
    RGBA8,
}

impl Default for TextureCompression {
    fn default() -> (r: Self)
        ensures
            r == TextureCompression::BC7,
    {
        TextureCompression::BC7
    }
}

/// How a texture asset is prepared; part of the cache key.
#[derive(Clone, Copy, Debug, PartialEq, Eq, Hash, Structural)]
pub struct TextureLoadOptions {
    pub compression: TextureCompression,
    pub filter: TextureFilter,
}

impl Default for TextureLoadOptions {
    fn default() -> (r: Self)
        ensures
            r == (TextureLoadOptions {
                compression: TextureCompression::BC7,
                filter: TextureFilter::Linear,
            }),
    {
        TextureLoadOptions { compression: TextureCompression::BC7, filter: TextureFilter::Linear }
    }
}

/// `key` with every backslash turned into a slash.
pub open spec fn slashed(key: Seq<char>) -> Seq<char> {
    key.map_values(|c: char| if c == '\\' { '/' } else { c })
}

/// A `/`-separated component of `t` starts at `i`.
pub open spec fn starts_component(t: Seq<char>, i: int) -> bool {
    i == 0 || t[i - 1] == '/'
}

/// A component of `t` ends just before `j`.
pub open spec fn ends_component(t: Seq<char>, j: int) -> bool {
    j >= t.len() || t[j] == '/'
}

/// Position `i` of `t` breaks no rule: it is not `:`, it is not a `/` that
/// closes an empty component, and it does not begin a `.` or `..` component.
pub open spec fn key_ok_at(t: Seq<char>, i: int) -> bool {
    &&& t[i] != ':'
    &&& t[i] == '/' ==> !starts_component(t, i)
    &&& (starts_component(t, i) && t[i] == '.') ==> !(ends_component(t, i + 1) || (i + 1 < t.len()
        && t[i + 1] == '.' && ends_component(t, i + 2)))
}

/// `t` is a relative path inside the asset folder: nonempty, and every
/// `/`-separated component is nonempty, is neither `.` nor `..`, and holds no `:`.
pub open spec fn valid_key(t: Seq<char>) -> bool {
    &&& t.len() > 0
    &&& t.last() != '/'
    &&& forall|i: int| 0 <= i < t.len() ==> key_ok_at(t, i)
}

/// The normalized form of an asset key, when it is valid.
pub open spec fn normalized(key: Seq<char>) -> Option<Seq<char>> {
    if valid_key(slashed(key)) {
        Some(slashed(key))
    } else {
        None
    }
}

/// Turns backslashes into slashes and checks that the key stays inside the
/// asset folder.
pub fn normalize(key: &str) -> (r: Result<String, String>)
    ensures
        match normalized(key@) {
            Some(k) => r matches Ok(s) && s@ == k,
            None => r matches Err(e) && e@ == "asset keys must be relative paths inside assets"@,
        },
{
    let chars = chars_of(key);
    let mut t: Vec<char> = Vec::new();
    for i in 0..chars.len()
        invariant
            chars@ == key@,
            t@ == slashed(chars@.take(i as int)),
    {
        let c = if chars[i] == '\\' {
            '/'
        } else {
            chars[i]
        };
        t.push(c);
        assert(slashed(chars@.take(i + 1)) =~= slashed(chars@.take(i as int)).push(c));
    }
    assert(chars@.take(chars@.len() as int) =~= chars@);
    assert(t@ == slashed(key@));
    let n = t.len();
    if n == 0 || t[n - 1] == '/' {
        assert(!valid_key(t@));
        return Err("asset keys must be relative paths inside assets".to_owned());
    }
    let mut i: usize = 0;
    while i < n
        invariant
            n == t@.len(),
            t@ == slashed(key@),
            i <= n,
            forall|j: int| 0 <= j < i ==> key_ok_at(t@, j),
        decreases n - i,
    {
        let c = t[i];
        let starts = i == 0 || t[i - 1] == '/';
        let dot_component = starts && c == '.' && (i + 1 >= n || t[i + 1] == '/' || (t[i + 1]
            == '.' && (i + 2 >= n || t[i + 2] == '/')));
        if c == ':' || (c == '/' && starts) || dot_component {
            assert(!key_ok_at(t@, i as int));
            return Err("asset keys must be relative paths inside assets".to_owned());
        }
        i = i + 1;
    }
    Ok(string_of(&t))
}

/// Normalizing is idempotent: a normalized key normalizes to itself.
pub proof fn law_normalize_idempotent(key: Seq<char>)
    requires
        normalized(key) is Some,
    ensures
        normalized(normalized(key)->0) == normalized(key),
{
    let t = slashed(key);
    assert(slashed(t) =~= t);
}

/// Backslashes and slashes name the same asset.
pub proof fn law_separators_are_equivalent(a: Seq<char>, b: Seq<char>)
    requires
        slashed(a) == slashed(b),
    ensures
        normalized(a) == normalized(b),
{
}

/// The kind of an asset; part of the cache key.
#[derive(Clone, Copy, Debug, PartialEq, Eq, Hash, Structural)]
pub enum AssetKind {
    Texture,
    SpriteFrames,
}

/// A cache key: normalized asset key, kind and load options.
pub type CacheKey = (Seq<char>, AssetKind, TextureLoadOptions);

/// The path that the first entry with key `k` names.
pub open spec fn first_path(entries: Seq<(Seq<char>, Seq<char>)>, k: Seq<char>) -> Option<Seq<char>>
    decreases entries.len(),
{
    if entries.len() == 0 {
        None
    } else if entries[0].0 == k {
        Some(entries[0].1)
    } else {
        first_path(entries.drop_first(), k)
    }
}

/// The value that the first entry with cache key `k` holds.
pub open spec fn first_cached<V>(entries: Seq<(CacheKey, V)>, k: CacheKey) -> Option<V>
    decreases entries.len(),
{
    if entries.len() == 0 {
        None
    } else {
        match first_cached(entries.drop_last(), k) {
            Some(v) => Some(v),
            None => if entries.last().0 == k {
                Some(entries.last().1)
            } else {
                None
            },
        }
    }
}

/// Keeps the cache entries whose asset key is not `k`.
pub open spec fn other_keys<V>(k: Seq<char>) -> spec_fn((CacheKey, V)) -> bool {
    |e: (CacheKey, V)| e.0.0 != k
}

struct IndexEntry {
    key: String,
    path: String,
}

struct CacheEntry<V> {
    key: String,
    kind: AssetKind,
    options: TextureLoadOptions,
    value: V,
}

/// The asset index (key to file path) and the explicit cache. `load` never
/// caches; `preload` keeps what it loads until `deload`.
pub struct Assets<V> {
    index: Result<Vec<IndexEntry>, String>,
    cache: Vec<CacheEntry<V>>,
}

impl<V> Assets<V> {
    /// The error that indexing the asset folder ended in, if any.
    pub closed spec fn index_error(&self) -> Option<Seq<char>> {
        match self.index {
            Ok(_) => None,
            Err(e) => Some(e@),
        }
    }

    /// The indexed (key, path) pairs; empty when indexing failed.
    pub closed spec fn index_entries(&self) -> Seq<(Seq<char>, Seq<char>)> {
        match self.index {
            Ok(v) => v@.map_values(|e: IndexEntry| (e.key@, e.path@)),
            Err(_) => Seq::empty(),
        }
    }

    /// The file that key `k` names, if indexed.
    pub open spec fn indexed(&self, k: Seq<char>) -> Option<Seq<char>> {
        first_path(self.index_entries(), k)
    }

    /// The cached (key, value) pairs, oldest first.
    pub closed spec fn cache_entries(&self) -> Seq<(CacheKey, V)> {
        self.cache@.map_values(|e: CacheEntry<V>| ((e.key@, e.kind, e.options), e.value))
    }

    /// The value cached under `k`, if any.
    pub open spec fn cached(&self, k: CacheKey) -> Option<V> {
        first_cached(self.cache_entries(), k)
    }

    /// No key is indexed twice.
    pub closed spec fn wf(&self) -> bool {
        forall|i: int, j: int|
            0 <= i < j < self.index_entries().len() ==> #[trigger] self.index_entries()[i].0
                != #[trigger] self.index_entries()[j].0
    }

    /// An empty index and an empty cache.
    pub fn new() -> (r: Self)
        ensures
            r.wf(),
            r.index_error() is None,
            r.index_entries() == Seq::<(Seq<char>, Seq<char>)>::empty(),
            r.cache_entries() == Seq::<(CacheKey, V)>::empty(),
    {
        let r = Assets { index: Ok(Vec::new()), cache: Vec::new() };
        assert(r.index_entries() =~= Seq::<(Seq<char>, Seq<char>)>::empty());
        assert(r.cache_entries() =~= Seq::<(CacheKey, V)>::empty());
        r
    }

    /// Assets whose folder could not be indexed; every load reports `error`.
    pub fn unavailable(error: String) -> (r: Self)
        ensures
            r.wf(),
            r.index_error() == Some(error@),
            r.index_entries() == Seq::<(Seq<char>, Seq<char>)>::empty(),
            r.cache_entries() == Seq::<(CacheKey, V)>::empty(),
    {
        let r = Assets { index: Err(error), cache: Vec::new() };
        assert(r.cache_entries() =~= Seq::<(CacheKey, V)>::empty());
        r
    }

    /// Indexes `key` as naming the file at `path`, replacing an earlier path
    /// for the same key.
    pub fn insert_index(&mut self, key: String, path: String)
        requires
            old(self).wf(),
        ensures
            final(self).wf(),
            final(self).index_error() == old(self).index_error(),
            final(self).cache_entries() == old(self).cache_entries(),
            old(self).index_error() is None ==> forall|k: Seq<char>|
                #[trigger] final(self).indexed(k) == if k == key@ {
                    Some(path@)
                } else {
                    old(self).indexed(k)
                },
            old(self).index_error() is Some ==> final(self).index_entries() == old(
                self,
            ).index_entries(),
    {
        let ghost prev = *self;
        match &mut self.index {
            Err(_) => {},
            Ok(entries) => {
                let ghost before = entries@;
                match find_key(entries, &key) {
                    Some(i) => {
                        entries[i].path = path;
                        proof {
                            let e0 = before.map_values(|e: IndexEntry| (e.key@, e.path@));
                            let e1 = entries@.map_values(|e: IndexEntry| (e.key@, e.path@));
                            assert(e1 =~= e0.update(i as int, (key@, path@)));
                            assert(e0 == prev.index_entries());
                            assert forall|a: int, b: int| 0 <= a < b < e1.len() implies #[trigger] e1[a].0
                                != #[trigger] e1[b].0 by {
                                assert(e1[a].0 == e0[a].0);
                                assert(e1[b].0 == e0[b].0);
                            }
                            assert forall|k: Seq<char>| #[trigger] first_path(e1, k) == if k == key@ {
                                Some(path@)
                            } else {
                                first_path(e0, k)
                            } by {
                                lemma_first_path_distinct(e0, k);
                                lemma_first_path_distinct(e1, k);
                                if k != key@ {
                                    if exists|j: int| 0 <= j < e0.len() && e0[j].0 == k {
                                        let j = choose|j: int| 0 <= j < e0.len() && e0[j].0 == k;
                                        assert(e1[j].0 == k);
                                    }
                                } else {
                                    assert(e1[i as int].0 == k);
                                }
                            }
                        }
                    },
                    None => {
                        entries.push(IndexEntry { key, path });
                        proof {
                            let e0 = before.map_values(|e: IndexEntry| (e.key@, e.path@));
                            let e1 = entries@.map_values(|e: IndexEntry| (e.key@, e.path@));
                            assert(e1 =~= e0.push((key@, path@)));
                            assert(e0 == prev.index_entries());
                            assert forall|a: int, b: int| 0 <= a < b < e1.len() implies #[trigger] e1[a].0
                                != #[trigger] e1[b].0 by {
                                if b == e0.len() {
                                    assert(before[a].key@ != key@);
                                }
                            }
                            assert forall|k: Seq<char>| #[trigger] first_path(e1, k) == if k == key@ {
                                Some(path@)
                            } else {
                                first_path(e0, k)
                            } by {
                                lemma_first_path_distinct(e0, k);
                                lemma_first_path_distinct(e1, k);
                                if k != key@ {
                                    if exists|j: int| 0 <= j < e0.len() && e0[j].0 == k {
                                        let j = choose|j: int| 0 <= j < e0.len() && e0[j].0 == k;
                                        assert(e1[j].0 == k);
                                    }
                                } else {
                                    assert(e1[e0.len() as int].0 == k);
                                }
                            }
                        }
                    },
                }
            },
        }
    }
}

impl<V: Clone> Assets<V> {
    /// Where `key` leads: the normalized key and its file, or the error a
    /// load of it reports before any cache lookup.
    pub open spec fn located(&self, key: Seq<char>) -> Result<(Seq<char>, Seq<char>), Seq<char>> {
        match normalized(key) {
            None => Err("asset keys must be relative paths inside assets"@),
            Some(k) => match self.index_error() {
                Some(e) => Err(e),
                None => match self.indexed(k) {
                    None => Err("asset not indexed: "@ + k),
                    Some(p) => Ok((k, p)),
                },
            },
        }
    }

    /// What loading `key` through the cache gives. Keys that do not lead to an
    /// indexed file fail with the error of `located`. A cached value is handed
    /// out again (cloned) without calling `load`. Otherwise `load` gets the
    /// file path and its result is returned; with `retain`, a successful
    /// result is also cached (cloned), at the end. Nothing else changes.
    pub open spec fn load_result<F: FnOnce(String) -> Result<V, String>>(
        before: Self,
        after: Self,
        key: Seq<char>,
        kind: AssetKind,
        options: TextureLoadOptions,
        retain: bool,
        load: F,
        r: Result<V, String>,
    ) -> bool {
        &&& after.index_entries() == before.index_entries()
        &&& after.index_error() == before.index_error()
        &&& match before.located(key) {
            Err(e) => r matches Err(m) && m@ == e && after.cache_entries() == before.cache_entries(),
            Ok((k, p)) => match before.cached((k, kind, options)) {
                Some(v) => r matches Ok(w) && cloned(v, w) && after.cache_entries()
                    == before.cache_entries(),
                None => {
                    &&& exists|path: String| path@ == p && load.ensures((path,), r)
                    &&& (retain && r is Ok) ==> {
                        &&& after.cache_entries() == before.cache_entries().push(
                            ((k, kind, options), after.cache_entries().last().1),
                        )
                        &&& cloned(r->Ok_0, after.cache_entries().last().1)
                    }
                    &&& !(retain && r is Ok) ==> after.cache_entries() == before.cache_entries()
                },
            },
        }
    }

    /// Loads `key` with default options, without caching the result (a value
    /// preloaded under the same key, kind and options is handed out instead).
    pub fn load<F>(&mut self, key: &str, kind: AssetKind, load: F) -> (r: Result<V, String>) where
        F: FnOnce(String) -> Result<V, String>,
        requires
            old(self).wf(),
            forall|p: String| load.requires((p,)),
        ensures
            final(self).wf(),
            Self::load_result(
                *old(self),
                *final(self),
                key@,
                kind,
                TextureLoadOptions { compression: TextureCompression::BC7, filter: TextureFilter::Linear },
                false,
                load,
                r,
            ),
    {
        self.get(key, kind, TextureLoadOptions::default(), false, load)
    }

    /// Loads `key` with `options`, without caching the result.
    pub fn load_with<F>(&mut self, key: &str, kind: AssetKind, options: TextureLoadOptions, load: F) -> (r:
        Result<V, String>) where F: FnOnce(String) -> Result<V, String>
        requires
            old(self).wf(),
            forall|p: String| load.requires((p,)),
        ensures
            final(self).wf(),
            Self::load_result(*old(self), *final(self), key@, kind, options, false, load, r),
    {
        self.get(key, kind, options, false, load)
    }

    /// Loads `key` with default options and keeps it cached until `deload`.
    pub fn preload<F>(&mut self, key: &str, kind: AssetKind, load: F) -> (r: Result<V, String>) where
        F: FnOnce(String) -> Result<V, String>,
        requires
            old(self).wf(),
            forall|p: String| load.requires((p,)),
        ensures
            final(self).wf(),
            Self::load_result(
                *old(self),
                *final(self),
                key@,
                kind,
                TextureLoadOptions { compression: TextureCompression::BC7, filter: TextureFilter::Linear },
                true,
                load,
                r,
            ),
    {
        self.get(key, kind, TextureLoadOptions::default(), true, load)
    }

    /// Loads `key` with `options` and keeps it cached until `deload`.
    pub fn preload_with<F>(&mut self, key: &str, kind: AssetKind, options: TextureLoadOptions, load: F) -> (r:
        Result<V, String>) where F: FnOnce(String) -> Result<V, String>
        requires
            old(self).wf(),
            forall|p: String| load.requires((p,)),
        ensures
            final(self).wf(),
            Self::load_result(*old(self), *final(self), key@, kind, options, true, load, r),
    {
        self.get(key, kind, options, true, load)
    }

    /// Drops every cached value under `key`, whatever its kind and options.
    /// Invalid keys change nothing.
    pub fn deload(&mut self, key: &str)
        requires
            old(self).wf(),
        ensures
            final(self).wf(),
            final(self).index_entries() == old(self).index_entries(),
            final(self).index_error() == old(self).index_error(),
            match normalized(key@) {
                None => final(self).cache_entries() == old(self).cache_entries(),
                Some(k) => final(self).cache_entries() == old(self).cache_entries().filter(
                    other_keys::<V>(k),
                ),
            },
    {
        let k = match normalize(key) {
            Ok(k) => k,
            Err(_) => return ,
        };
        let ghost s0 = self.cache_entries();
        let ghost keep = other_keys::<V>(k@);
        let mut i: usize = 0;
        let ghost mut j: int = 0;
        while i < self.cache.len()
            invariant
                0 <= j <= s0.len(),
                keep == other_keys::<V>(k@),
                self.cache_entries() == s0.take(j).filter(keep) + s0.skip(j),
                i == s0.take(j).filter(keep).len(),
                self.index == old(self).index,
            decreases s0.len() - j,
        {
            let ghost before = self.cache_entries();
            proof {
                assert(before[i as int] == s0[j]);
                assert(s0.take(j + 1).drop_last() =~= s0.take(j));
                reveal(Seq::filter);
                assert(s0.skip(j).drop_first() =~= s0.skip(j + 1));
            }
            assert(before[i as int] == ((self.cache@[i as int].key@, self.cache@[i as int].kind, self.cache@[i as int].options), self.cache@[i as int].value));
            if self.cache[i].key == k {
                self.cache.remove(i);
                proof {
                    assert(self.cache_entries() =~= before.remove(i as int));
                    assert(!keep(s0[j]));
                    assert(s0.take(j + 1).filter(keep) == s0.take(j).filter(keep));
                    assert(self.cache_entries() =~= s0.take(j + 1).filter(keep) + s0.skip(j + 1));
                    j = j + 1;
                }
            } else {
                proof {
                    assert(keep(s0[j]));
                    assert(s0.take(j + 1).filter(keep) == s0.take(j).filter(keep).push(s0[j]));
                    assert(self.cache_entries() =~= s0.take(j + 1).filter(keep) + s0.skip(j + 1));
                    j = j + 1;
                }
                i = i + 1;
            }
        }
        proof {
            assert(j == s0.len()) by {
                if j < s0.len() {
                    assert(self.cache_entries().len() > i);
                }
            }
            assert(s0.take(j) =~= s0);
            assert(s0.skip(j) =~= Seq::<(CacheKey, V)>::empty());
            assert(self.cache_entries() =~= s0.filter(keep));
            assert(self.index_entries() == old(self).index_entries());
        }
    }

    /// Number of indexed keys.
    pub fn len(&self) -> (r: usize)
        ensures
            r == self.index_entries().len(),
    {
        match &self.index {
            Ok(entries) => entries.len(),
            Err(_) => 0,
        }
    }

    pub fn is_empty(&self) -> (r: bool)
        ensures
            r == (self.index_entries().len() == 0),
    {
        self.len() == 0
    }

    fn locate(&self, key: &str) -> (r: Result<(String, String), String>)
        requires
            self.wf(),
        ensures
            match (r, self.located(key@)) {
                (Ok((k, p)), Ok((sk, sp))) => k@ == sk && p@ == sp,
                (Err(e), Err(se)) => e@ == se,
                _ => false,
            },
    {
        let k = normalize(key)?;
        let entries = match &self.index {
            Ok(entries) => entries,
            Err(e) => return Err(e.clone()),
        };
        let ghost e0 = self.index_entries();
        match find_key(entries, &k) {
            Some(i) => {
                proof {
                    lemma_first_path_distinct(e0, k@);
                    assert(e0[i as int].0 == k@);
                }
                Ok((k, entries[i].path.clone()))
            },
            None => {
                proof {
                    lemma_first_path_distinct(e0, k@);
                    assert forall|j: int| 0 <= j < e0.len() implies e0[j].0 != k@ by {
                        assert(e0[j].0 == entries@[j].key@);
                    }
                }
                let mut msg = "asset not indexed: ".to_owned();
                msg.append(k.as_str());
                Err(msg)
            },
        }
    }

    /// The position of the first cache entry under (`key`, `kind`, `options`).
    fn find_cached(&self, key: &String, kind: AssetKind, options: TextureLoadOptions) -> (r: Option<
        usize,
    >)
        ensures
            match r {
                Some(i) => i < self.cache_entries().len() && self.cached((key@, kind, options)) == Some(
                    self.cache_entries()[i as int].1,
                ) && self.cache_entries()[i as int].0 == (key@, kind, options) && first_cached(
                    self.cache_entries().take(i as int),
                    (key@, kind, options),
                ) is None,
                None => self.cached((key@, kind, options)) is None,
            },
    {
        let ghost s = self.cache_entries();
        let ghost ck = (key@, kind, options);
        let mut i: usize = 0;
        while i < self.cache.len()
            invariant
                s == self.cache_entries(),
                ck == (key@, kind, options),
                i <= s.len(),
                first_cached(s.take(i as int), ck) is None,
            decreases s.len() - i,
        {
            let e = &self.cache[i];
            assert(s[i as int] == ((e.key@, e.kind, e.options), e.value));
            if e.key == *key && e.kind == kind && e.options == options {
                proof {
                    assert(s.take(i + 1).drop_last() =~= s.take(i as int));
                    assert(s[i as int].0 == ck);
                    lemma_first_cached_prefix(s, ck, i + 1);
                }
                return Some(i);
            }
            proof {
                assert(s.take(i + 1).drop_last() =~= s.take(i as int));
                assert(s[i as int].0 != ck);
            }
            i = i + 1;
        }
        proof {
            assert(s.take(s.len() as int) =~= s);
        }
        None
    }

    /// What a load of `key` finds before loading anything: the value cached
    /// under the normalized key, `kind` and `options`, or else the normalized
    /// key and the indexed file to load it from.
    pub fn lookup(&self, key: &str, kind: AssetKind, options: TextureLoadOptions) -> (r: Result<Lookup<V>, String>)
        requires
            self.wf(),
        ensures
            match self.located(key@) {
                Err(e) => r matches Err(m) && m@ == e,
                Ok((k, p)) => match self.cached((k, kind, options)) {
                    Some(v) => r matches Ok(Lookup::Cached(w)) && cloned(v, w),
                    None => r matches Ok(Lookup::Load { key: lk, path: lp }) && lk@ == k && lp@ == p,
                },
            },
    {
        let (k, path) = match self.locate(key) {
            Ok(found) => found,
            Err(e) => return Err(e),
        };
        match self.find_cached(&k, kind, options) {
            Some(i) => Ok(Lookup::Cached(self.cache[i].value.clone())),
            None => Ok(Lookup::Load { key: k, path }),
        }
    }

    /// Keeps `value` cached under (`key`, `kind`, `options`) until `deload`,
    /// in place of a value cached there already (one another load stored
    /// while this one ran).
    pub fn store(&mut self, key: String, kind: AssetKind, options: TextureLoadOptions, value: V)
        requires
            old(self).wf(),
        ensures
            final(self).wf(),
            final(self).index_entries() == old(self).index_entries(),
            final(self).index_error() == old(self).index_error(),
            final(self).cached((key@, kind, options)) == Some(value),
            forall|k: CacheKey| k != (key@, kind, options) ==> #[trigger] final(self).cached(k) == old(self).cached(k),
            old(self).cached((key@, kind, options)) is None ==> final(self).cache_entries()
                == old(self).cache_entries().push(((key@, kind, options), value)),
            old(self).cached((key@, kind, options)) is Some ==> final(self).cache_entries().len()
                == old(self).cache_entries().len(),
    {
        let ghost ck = (key@, kind, options);
        if let Some(i) = self.find_cached(&key, kind, options) {
            let ghost before = self.cache_entries();
            let entry = self.cache.remove(i);
            let kept = CacheEntry { key: entry.key, kind: entry.kind, options: entry.options, value };
            self.cache.insert(i, kept);
            proof {
                assert(self.cache_entries() =~= before.update(i as int, (ck, value)));
                lemma_first_cached_update(before, i as int, ck, value);
                assert(self.index_entries() == old(self).index_entries());
            }
            return ;
        }
        let ghost before = self.cache_entries();
        let ghost k = key@;
        self.cache.push(CacheEntry { key, kind, options, value });
        proof {
            assert(self.cache_entries() =~= before.push(((k, kind, options), value)));
            assert(self.cache_entries().drop_last() =~= before);
            assert(self.index_entries() == old(self).index_entries());
        }
    }

    /// Loads through the cache. A cached value is handed out again; otherwise
    /// `load` reads the indexed file, and with `retain` its result is cached.
    pub fn get<F>(
        &mut self,
        key: &str,
        kind: AssetKind,
        options: TextureLoadOptions,
        retain: bool,
        load: F,
    ) -> (r: Result<V, String>) where F: FnOnce(String) -> Result<V, String>
        requires
            old(self).wf(),
            forall|p: String| load.requires((p,)),
        ensures
            final(self).wf(),
            Self::load_result(*old(self), *final(self), key@, kind, options, retain, load, r),
    {
        let (k, path) = match self.lookup(key, kind, options) {
            Err(e) => return Err(e),
            Ok(Lookup::Cached(v)) => return Ok(v),
            Ok(Lookup::Load { key, path }) => (key, path),
        };
        let asset = load(path);
        if retain {
            if let Ok(value) = &asset {
                let ghost before = self.cache_entries();
                self.store(k, kind, options, value.clone());
                proof {
                    assert(self.cache_entries().last().1 == self.cache_entries()[before.len() as int].1);
                }
            }
        }
        asset
    }
}

/// What a load finds in the cache and the index.
pub enum Lookup<V> {
    /// The value cached under the key, kind and options.
    Cached(V),
    /// Nothing cached: the normalized key, and the file to load.
    Load { key: String, path: String },
}

/// After `deload(k)` nothing is cached under `k`, whatever the kind and
/// options, and what is cached under other keys is unchanged.
pub proof fn law_deload_forgets_only_that_key<V>(entries: Seq<(CacheKey, V)>, k: Seq<char>, ck: CacheKey)
    ensures
        ck.0 == k ==> first_cached(entries.filter(other_keys::<V>(k)), ck) is None,
        ck.0 != k ==> first_cached(entries.filter(other_keys::<V>(k)), ck) == first_cached(
            entries,
            ck,
        ),
    decreases entries.len(),
{
    reveal(Seq::filter);
    if entries.len() > 0 {
        law_deload_forgets_only_that_key(entries.drop_last(), k, ck);
        let keep = other_keys::<V>(k);
        let f = entries.filter(keep);
        if keep(entries.last()) {
            assert(f.drop_last() == entries.drop_last().filter(keep));
        } else {
            assert(f == entries.drop_last().filter(keep));
        }
    }
}

/// A value that `preload` cached is what later loads of the same key, kind
/// and options get, until `deload`.
pub proof fn law_preload_then_load_hits<V>(before: Seq<(CacheKey, V)>, ck: CacheKey, v: V)
    requires
        first_cached(before, ck) is None,
    ensures
        first_cached(before.push((ck, v)), ck) == Some(v),
{
    assert(before.push((ck, v)).drop_last() =~= before);
}

/// Caching under one key, kind and options leaves every other cache key as it
/// was: options are part of the key.
pub proof fn law_cache_keys_are_independent<V>(before: Seq<(CacheKey, V)>, ck: CacheKey, v: V, other: CacheKey)
    requires
        other != ck,
    ensures
        first_cached(before.push((ck, v)), other) == first_cached(before, other),
{
    assert(before.push((ck, v)).drop_last() =~= before);
}

/// A prefix that already holds a match decides `first_cached`.
proof fn lemma_first_cached_prefix<V>(s: Seq<(CacheKey, V)>, k: CacheKey, m: int)
    requires
        0 <= m <= s.len(),
        first_cached(s.take(m), k) is Some,
    ensures
        first_cached(s, k) == first_cached(s.take(m), k),
    decreases s.len() - m,
{
    if m < s.len() {
        assert(s.drop_last().take(m) =~= s.take(m));
        lemma_first_cached_prefix(s.drop_last(), k, m);
    } else {
        assert(s.take(m) =~= s);
    }
}

/// Replacing the value of the first entry under `ck` makes `ck` find the
/// new value and leaves every other key's value as it was.
proof fn lemma_first_cached_update<V>(s: Seq<(CacheKey, V)>, i: int, ck: CacheKey, v: V)
    requires
        0 <= i < s.len(),
        s[i].0 == ck,
        first_cached(s.take(i), ck) is None,
    ensures
        first_cached(s.update(i, (ck, v)), ck) == Some(v),
        forall|k: CacheKey| k != ck ==> #[trigger] first_cached(s.update(i, (ck, v)), k) == first_cached(s, k),
    decreases s.len(),
{
    let u = s.update(i, (ck, v));
    if i == s.len() - 1 {
        assert(u.drop_last() =~= s.drop_last());
        assert(s.take(i) =~= s.drop_last());
        assert forall|k: CacheKey| k != ck implies #[trigger] first_cached(u, k) == first_cached(s, k) by {
            assert(u.last().0 == s.last().0);
        }
    } else {
        assert(u.drop_last() =~= s.drop_last().update(i, (ck, v)));
        assert(s.drop_last().take(i) =~= s.take(i));
        lemma_first_cached_update(s.drop_last(), i, ck, v);
        assert(u.last() == s.last());
        assert forall|k: CacheKey| k != ck implies #[trigger] first_cached(u, k) == first_cached(s, k) by {
            assert(first_cached(u.drop_last(), k) == first_cached(s.drop_last(), k));
        }
    }
}

/// The position of the entry indexed under `key`, if any.
fn find_key(entries: &Vec<IndexEntry>, key: &String) -> (r: Option<usize>)
    ensures
        match r {
            Some(i) => i < entries@.len() && entries@[i as int].key@ == key@,
            None => forall|j: int| 0 <= j < entries@.len() ==> entries@[j].key@ != key@,
        },
{
    let mut i: usize = 0;
    while i < entries.len()
        invariant
            i <= entries@.len(),
            forall|j: int| 0 <= j < i ==> entries@[j].key@ != key@,
        decreases entries@.len() - i,
    {
        if entries[i].key == *key {
            return Some(i);
        }
        i = i + 1;
    }
    None
}

/// `first_path` finds the first entry with the key.
proof fn lemma_first_path_at(e: Seq<(Seq<char>, Seq<char>)>, k: Seq<char>, i: int)
    requires
        0 <= i < e.len(),
        e[i].0 == k,
        forall|j: int| 0 <= j < i ==> e[j].0 != k,
    ensures
        first_path(e, k) == Some(e[i].1),
    decreases i,
{
    if i > 0 {
        assert(e[0].0 != k);
        lemma_first_path_at(e.drop_first(), k, i - 1);
    }
}

/// `first_path` is `None` when no entry has the key.
proof fn lemma_first_path_none(e: Seq<(Seq<char>, Seq<char>)>, k: Seq<char>)
    requires
        forall|j: int| 0 <= j < e.len() ==> e[j].0 != k,
    ensures
        first_path(e, k) is None,
    decreases e.len(),
{
    if e.len() > 0 {
        lemma_first_path_none(e.drop_first(), k);
    }
}

/// With distinct keys, `first_path` is the path of the one entry with the key.
proof fn lemma_first_path_distinct(e: Seq<(Seq<char>, Seq<char>)>, k: Seq<char>)
    requires
        forall|a: int, b: int| 0 <= a < b < e.len() ==> #[trigger] e[a].0 != #[trigger] e[b].0,
    ensures
        forall|i: int| 0 <= i < e.len() && e[i].0 == k ==> first_path(e, k) == Some(e[i].1),
        (forall|i: int| 0 <= i < e.len() ==> e[i].0 != k) ==> first_path(e, k) is None,
{
    assert forall|i: int| 0 <= i < e.len() && e[i].0 == k implies first_path(e, k) == Some(e[i].1) by {
        assert forall|j: int| 0 <= j < i implies e[j].0 != k by {
            assert(e[j].0 != e[i].0);
        }
        lemma_first_path_at(e, k, i);
    }
    if forall|i: int| 0 <= i < e.len() ==> e[i].0 != k {
        lemma_first_path_none(e, k);
    }
}

} // verus!
