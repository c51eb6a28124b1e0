//! A cache of resolved assets on top of any loader.

use crate::asset::Asset;
use crate::loader::AssetLoader;
use std::sync::Arc;
use vstd::prelude::*;

verus! {

/// One remembered resolution.
struct CacheEntry {
    name: String,
    asset: Arc<Asset>,
}

/// The place of `name` among `entries`, if it is there.
spec fn place_of(entries: Seq<CacheEntry>, name: Seq<char>) -> int {
    choose|i: int| 0 <= i < entries.len() && (#[trigger] entries[i]).name@ == name
}

/// What `entries` remember: each name with its asset.
spec fn remembered_by(entries: Seq<CacheEntry>) -> Map<Seq<char>, Arc<Asset>> {
    Map::new(
        |name: Seq<char>|
            exists|i: int| 0 <= i < entries.len() && (#[trigger] entries[i]).name@ == name,
        |name: Seq<char>| entries[place_of(entries, name)].asset,
    )
}

/// No name is remembered twice.
spec fn names_once(entries: Seq<CacheEntry>) -> bool {
    forall|i: int, j: int|
        0 <= i < j < entries.len() ==> (#[trigger] entries[i]).name@ != (
        #[trigger] entries[j]).name@
}

/// The cache after a miss on `path` that the loader answered with `loaded`:
/// an asset is remembered under `path`, a failure is not remembered.
pub open spec fn cache_after_miss(
    cache: Map<Seq<char>, Arc<Asset>>,
    path: Seq<char>,
    loaded: Option<Arc<Asset>>,
) -> Map<Seq<char>, Arc<Asset>> {
    match loaded {
        Some(a) => cache.insert(path, a),
        None => cache,
    }
}

/// Remembers every asset that its loader has resolved, by name, for as long
/// as it lives: the loader is asked at most once for a name that it can
/// resolve. Nothing is ever forgotten.
pub struct AssetManager<T: AssetLoader> {
    assets: Vec<CacheEntry>,
    loader: T,
}

impl<T: AssetLoader> View for AssetManager<T> {
    type V = Map<Seq<char>, Arc<Asset>>;

    /// The assets remembered, by name.
    closed spec fn view(&self) -> Map<Seq<char>, Arc<Asset>> {
        remembered_by(self.assets@)
    }
}

impl<T: AssetLoader> AssetManager<T> {
    #[verifier::type_invariant]
    spec fn no_name_twice(self) -> bool {
        names_once(self.assets@)
    }

    /// The loader that misses are handed to.
    pub closed spec fn spec_loader(&self) -> T {
        self.loader
    }

    /// A cache on top of `loader` that remembers nothing yet.
    pub fn new(loader: T) -> (m: Self)
        ensures
            m@ == Map::<Seq<char>, Arc<Asset>>::empty(),
            m.spec_loader() == loader,
    {
        let m = AssetManager { assets: Vec::new(), loader };
        assert(m@ =~= Map::<Seq<char>, Arc<Asset>>::empty());
        m
    }

    /// The asset remembered under `path`, if there is one.
    pub fn cached(&self, path: &str) -> (r: Option<Arc<Asset>>)
        ensures
            r == if self@.contains_key(path@) {
                Some(self@[path@])
            } else {
                None
            },
    {
        proof {
            use_type_invariant(self);
        }
        let name: String = path.to_owned();
        let mut i: usize = 0;
        while i < self.assets.len()
            invariant
                i <= self.assets@.len(),
                name@ == path@,
                names_once(self.assets@),
                forall|j: int| 0 <= j < i ==> (#[trigger] self.assets@[j]).name@ != path@,
            decreases self.assets@.len() - i,
        {
            if self.assets[i].name == name {
                proof {
                    let k = place_of(self.assets@, path@);
                    assert(self.assets@[i as int].name@ == path@);
                    if k < i {
                        assert(self.assets@[k].name@ != self.assets@[i as int].name@);
                    }
                    if i < k {
                        assert(self.assets@[i as int].name@ != self.assets@[k].name@);
                    }
                }
                return Some(self.assets[i].asset.clone());
            }
            i = i + 1;
        }
        None
    }

    /// Takes in what the loader answered on a miss: an asset is remembered
    /// under `path` and handed on, a failure is handed on and not remembered.
    /// If an asset is remembered under `path` already, that one is handed out
    /// and `loaded` is dropped.
    pub fn remember(&mut self, path: &str, loaded: Option<Arc<Asset>>) -> (r: Option<Arc<Asset>>)
        ensures
            old(self)@.contains_key(path@) ==> r == Some(old(self)@[path@]) && final(self)@ == old(
                self,
            )@,
            !old(self)@.contains_key(path@) ==> r == loaded && final(self)@ == cache_after_miss(
                old(self)@,
                path@,
                loaded,
            ),
            final(self).spec_loader() == old(self).spec_loader(),
    {
        proof {
            use_type_invariant(&*self);
        }
        match self.cached(path) {
            Some(a) => Some(a),
            None => match loaded {
                Some(a) => {
                    let entry = CacheEntry { name: path.to_owned(), asset: a.clone() };
                    let mut assets: Vec<CacheEntry> = Vec::new();
                    core::mem::swap(&mut self.assets, &mut assets);
                    let ghost before: Seq<CacheEntry> = assets@;
                    assets.push(entry);
                    proof {
                        let after: Seq<CacheEntry> = assets@;
                        assert(names_once(after));
                        assert forall|name: Seq<char>|
                            remembered_by(after).contains_key(name) <==> remembered_by(
                                before,
                            ).insert(path@, a).contains_key(name) by {
                            if remembered_by(after).contains_key(name) {
                                let k = place_of(after, name);
                                if k < before.len() {
                                    assert(before[k].name@ == name);
                                }
                            }
                            if remembered_by(before).contains_key(name) {
                                let k = place_of(before, name);
                                assert(after[k].name@ == name);
                            }
                            if name == path@ {
                                assert(after[before.len() as int].name@ == name);
                            }
                        }
                        assert forall|name: Seq<char>|
                            remembered_by(after).contains_key(name) implies remembered_by(
                            after,
                        )[name] == remembered_by(before).insert(path@, a)[name] by {
                            let k = place_of(after, name);
                            assert(0 <= k < after.len() && after[k].name@ == name);
                            if name == path@ {
                                let l = before.len() as int;
                                assert(after[l].name@ == name);
                                if k < l {
                                    assert(after[k].name@ != after[l].name@);
                                }
                            } else {
                                let m = place_of(before, name);
                                assert(before[k].name@ == name);
                                assert(0 <= m < before.len() && before[m].name@ == name);
                                if m < k {
                                    assert(before[m].name@ != before[k].name@);
                                }
                                if k < m {
                                    assert(before[k].name@ != before[m].name@);
                                }
                            }
                        }
                        assert(remembered_by(after) =~= remembered_by(before).insert(path@, a));
                    }
                    self.assets = assets;
                    Some(a)
                },
                None => None,
            },
        }
    }

    /// Resolves `path` through the cache. A name that is remembered is
    /// answered from the cache, with the very asset that was handed out
    /// before, and the loader is not asked. Any other name is handed to the
    /// loader: the answer is one that the loader's `load` gives for `path`,
    /// and an asset that it resolves is remembered under `path`.
    pub fn load(&mut self, path: &str) -> (r: Option<Arc<Asset>>)
        ensures
            old(self)@.contains_key(path@) ==> r == Some(old(self)@[path@]) && final(self)@ == old(
                self,
            )@,
            !old(self)@.contains_key(path@) ==> call_ensures(
                T::load,
                (&old(self).spec_loader(), path),
                r,
            ) && final(self)@ == cache_after_miss(old(self)@, path@, r),
            final(self).spec_loader() == old(self).spec_loader(),
    {
        match self.cached(path) {
            Some(a) => Some(a),
            None => {
                let loaded: Option<Arc<Asset>> = self.loader.load(path);
                self.remember(path, loaded)
            },
        }
    }
}

} // verus!
