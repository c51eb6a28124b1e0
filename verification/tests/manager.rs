use assetio::{Asset, AssetDescription, AssetLoader, AssetManager, Builder, Library};
use memmap::{Mmap, MmapMut};
use std::cell::Cell;
use std::rc::Rc;
use std::sync::Arc;

fn map_of(bytes: &[u8]) -> Mmap {
    let mut map = MmapMut::map_anon(bytes.len()).unwrap();
    map.copy_from_slice(bytes);
    map.make_read_only().unwrap()
}

fn library_of(blobs: &[(&str, &[u8])]) -> Library {
    let mut builder = Builder::new();
    for (name, data) in blobs {
        builder.insert(&AssetDescription::new(name, data.to_vec()));
    }
    let mut out: Vec<u8> = Vec::new();
    assert_eq!(builder.build(&mut out), Ok(()));
    Library::new(map_of(&out)).ok().unwrap()
}

/// A loader that counts how often it is asked.
struct Counting {
    inner: Library,
    calls: Rc<Cell<usize>>,
}

impl AssetLoader for Counting {
    fn load(&self, path: &str) -> Option<Arc<Asset>> {
        self.calls.set(self.calls.get() + 1);
        self.inner.load(path)
    }
}

fn counting(blobs: &[(&str, &[u8])]) -> (Counting, Rc<Cell<usize>>) {
    let calls = Rc::new(Cell::new(0usize));
    (Counting { inner: library_of(blobs), calls: calls.clone() }, calls)
}

/// A loader that serves every name but the empty one, with the name's own
/// bytes as content.
struct Echo;

impl AssetLoader for Echo {
    fn load(&self, path: &str) -> Option<Arc<Asset>> {
        if path.is_empty() {
            None
        } else {
            Some(Arc::new(Asset::whole(path, map_of(path.as_bytes()))))
        }
    }
}

#[test]
fn manager_over_a_library() {
    let blobs: [(&str, &[u8]); 3] =
        [("test0.txt", b"zero"), ("test1.txt", b"one"), ("test2.txt", b"two")];
    let mut mgr = AssetManager::<Library>::new(library_of(&blobs));
    for (name, data) in blobs {
        let asset = mgr.load(name).unwrap();
        assert_eq!(asset.data(), data);
        assert_eq!(asset.path(), name);
    }
}

#[test]
fn second_load_is_served_from_the_cache() {
    let (loader, calls) = counting(&[("a", b"alpha"), ("b", b"beta")]);
    let mut mgr = AssetManager::new(loader);
    let first = mgr.load("a").unwrap();
    let second = mgr.load("a").unwrap();
    assert_eq!(calls.get(), 1);
    assert!(Arc::ptr_eq(&first, &second));
    assert_eq!(first.data(), b"alpha");
    assert_eq!(second.data(), b"alpha");
    let third = mgr.cached("a").unwrap();
    assert!(Arc::ptr_eq(&first, &third));
    assert_eq!(calls.get(), 1);
}

#[test]
fn loader_is_asked_once_per_name() {
    let (loader, calls) = counting(&[("a", b"alpha"), ("b", b"beta")]);
    let mut mgr = AssetManager::new(loader);
    assert_eq!(calls.get(), 0);
    let a1 = mgr.load("a").unwrap();
    assert_eq!(calls.get(), 1);
    let b1 = mgr.load("b").unwrap();
    assert_eq!(calls.get(), 2);
    assert_eq!(b1.data(), b"beta");
    let a2 = mgr.load("a").unwrap();
    let b2 = mgr.load("b").unwrap();
    let a3 = mgr.load("a").unwrap();
    assert_eq!(calls.get(), 2);
    assert!(Arc::ptr_eq(&a1, &a2));
    assert!(Arc::ptr_eq(&a1, &a3));
    assert!(Arc::ptr_eq(&b1, &b2));
    assert!(!Arc::ptr_eq(&a1, &b1));
}

#[test]
fn misses_are_not_remembered() {
    let (loader, calls) = counting(&[("a", b"alpha")]);
    let mut mgr = AssetManager::new(loader);
    assert!(mgr.load("missing").is_none());
    assert!(mgr.cached("missing").is_none());
    assert!(mgr.load("missing").is_none());
    assert_eq!(calls.get(), 2);
    assert!(mgr.cached("a").is_none());
    assert!(mgr.load("a").is_some());
    assert!(mgr.cached("a").is_some());
    assert_eq!(calls.get(), 3);
}

#[test]
fn remember_keeps_what_is_already_there() {
    let mut mgr = AssetManager::new(Echo);
    let first = Arc::new(Asset::whole("x", map_of(b"first")));
    let second = Arc::new(Asset::whole("x", map_of(b"second")));
    let kept = mgr.remember("x", Some(first.clone())).unwrap();
    assert!(Arc::ptr_eq(&kept, &first));
    let still = mgr.remember("x", Some(second.clone())).unwrap();
    assert!(Arc::ptr_eq(&still, &first));
    assert!(Arc::ptr_eq(&mgr.remember("x", None).unwrap(), &first));
    assert!(mgr.remember("y", None).is_none());
    assert!(mgr.cached("y").is_none());
    assert_eq!(mgr.load("x").unwrap().data(), b"first");
}

#[test]
fn manager_over_another_loader() {
    let mut mgr = AssetManager::new(Echo);
    let a = mgr.load("some/file").unwrap();
    assert_eq!(a.path(), "some/file");
    assert_eq!(a.data(), b"some/file");
    let b = mgr.load("some/file").unwrap();
    assert!(Arc::ptr_eq(&a, &b));
    assert!(mgr.load("").is_none());
}
