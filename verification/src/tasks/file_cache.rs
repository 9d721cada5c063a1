//! A cache of open files that does not keep them open

use vstd::prelude::*;
use vstd::string::*;

use std::sync::{Arc, Weak};

use crate::name_map::NameMap;

verus! {

/// `std::sync::Weak`: a reference to a shared value that does not keep the value alive
#[verifier::external_body]
#[verifier::reject_recursive_types(F)]
pub struct WeakCell<F> {
    weak: Weak<F>,
}

/// A weak reference to a shared file, together with the file it was made from
#[verifier::reject_recursive_types(F)]
pub struct WeakFile<F> {
    cell: WeakCell<F>,
    /// The file this reference was made from
    pub file: Ghost<F>,
}

/// `Arc::downgrade`: a weak reference to the shared file. The returned reference records the
/// file it was made from (a ghost value); nothing is claimed of the reference itself.
#[verifier::external_body]
fn downgrade<F>(file: &Arc<F>) -> (weak: WeakFile<F>)
    ensures
        weak.file@ == **file,
{
    WeakFile { cell: WeakCell { weak: Arc::downgrade(file) }, file: Ghost(**file) }
}

/// `Weak::upgrade`: the shared file, if something else still keeps it alive, and nothing
/// otherwise. Whether the file is still alive depends on the other owners of the file, so
/// nothing is claimed of when the result is `None`; when it is `Some`, it is a shared reference
/// to the file the weak reference was made from.
#[verifier::external_body]
fn upgrade<F>(weak: &WeakFile<F>) -> (file: Option<Arc<F>>)
    ensures
        file matches Some(f) ==> *f == weak.file@,
{
    weak.cell.weak.upgrade()
}

/// A file that can be opened from a path: by the format its extension names, or as a glTF file
pub trait OpenFile: Sized {
    /// Why a file could not be opened
    type Error;

    /// Opens a 3D file based on its extension
    fn open(path: &str) -> Result<Self, Self::Error>;

    /// Opens a glTF file
    fn open_gltf(path: &str) -> Result<Self, Self::Error>;
}

/// A cache for shared files `F` that will only keep weak references.
///
/// If the file has not been opened or if the current reference to the file has been dropped,
/// a new shared file will be created. The purpose of using weak references explicitly is to
/// ensure that files are dropped in a timely manner, even if this cache is accidentally left
/// around.
///
/// Files are cached by their path as written, so the paths handed to the cache should be
/// resolved ones (see `resolve_path`), in which each file has a single spelling.
#[verifier::reject_recursive_types(F)]
pub struct WeakFileCache<F> {
    cache: NameMap<WeakFile<F>>,
}

impl<F> WeakFileCache<F> {
    /// The files that were opened, by path
    pub closed spec fn view(&self) -> Map<Seq<char>, F> {
        self.cache@.map_values(|weak: WeakFile<F>| weak.file@)
    }

    /// An empty cache
    pub fn new() -> (cache: Self)
        ensures
            cache@ == Map::<Seq<char>, F>::empty(),
    {
        let cache = WeakFileCache { cache: NameMap::new() };
        assert(cache@ =~= Map::<Seq<char>, F>::empty());
        cache
    }

    /// Attempt to get a file from the cache
    ///
    /// Returns None if the file was never opened or if it has since been closed
    pub fn get(&self, path: &str) -> (file: Option<Arc<F>>)
        ensures
            !self@.contains_key(path@) ==> file is None,
            file matches Some(f) ==> *f == self@[path@],
    {
        let key = String::from_str(path);
        match self.cache.get(&key) {
            Some(weak) => upgrade(weak),
            None => None,
        }
    }

    /// Opens a 3D file based on its extension
    pub fn open(&mut self, path: &str) -> (file: Result<Arc<F>, F::Error>)
        where F: OpenFile,
        ensures
            open_outcome(*old(self), *final(self), path, F::open, file),
    {
        self.open_with(path, F::open)
    }

    /// Opens a glTF file
    pub fn open_gltf(&mut self, path: &str) -> (file: Result<Arc<F>, F::Error>)
        where F: OpenFile,
        ensures
            open_outcome(*old(self), *final(self), path, F::open_gltf, file),
    {
        self.open_with(path, F::open_gltf)
    }

    /// Attempts to retrieve the file from the cache, or opens the file with the given function if
    /// it was never opened or has since been closed
    fn open_with<E, O>(&mut self, path: &str, open: O) -> (file: Result<Arc<F>, E>)
        where O: FnOnce(&str) -> Result<F, E>,
        requires
            call_requires(open, (path,)),
        ensures
            open_outcome(*old(self), *final(self), path, open, file),
    {
        let cached = self.get(path);
        self.open_or_reuse(cached, path, open)
    }

    /// Opening a path once the cache has been looked up for it: the file the lookup found still
    /// open is handed back as it is, with the cache unchanged and the opener not called; when
    /// the lookup found none, the opener opens the file and the cache then holds it for the
    /// path, or the opener's error is handed back with the cache unchanged
    pub fn open_or_reuse<E, O>(&mut self, cached: Option<Arc<F>>, path: &str, open: O) -> (file:
        Result<Arc<F>, E>)
        where O: FnOnce(&str) -> Result<F, E>,
        requires
            cached is None ==> call_requires(open, (path,)),
        ensures
            cached matches Some(f) ==> file == Ok::<Arc<F>, E>(f) && final(self)@ == old(self)@,
            cached is None ==> match file {
                Ok(f) => call_ensures(open, (path,), Ok::<F, E>(*f)) && final(self)@ == old(
                    self,
                )@.insert(path@, *f),
                Err(e) => call_ensures(open, (path,), Err::<F, E>(e)) && final(self)@ == old(
                    self,
                )@,
            },
    {
        match cached {
            Some(file) => Ok(file),
            None => match open(path) {
                Ok(opened) => {
                    let file = Arc::new(opened);
                    self.remember(path, &file);
                    Ok(file)
                },
                Err(e) => Err(e),
            },
        }
    }

    /// Records the file just opened from the path
    fn remember(&mut self, path: &str, file: &Arc<F>)
        ensures
            final(self)@ == old(self)@.insert(path@, **file),
    {
        let weak = downgrade(file);
        self.cache.insert(String::from_str(path), weak);
        assert(self@ =~= old(self)@.insert(path@, **file));
    }
}

impl<F> Default for WeakFileCache<F> {
    fn default() -> (cache: Self)
        ensures
            cache@ == Map::<Seq<char>, F>::empty(),
    {
        WeakFileCache::new()
    }
}

/// What opening a path through the cache with the opener `open` gives: the cached file, with
/// the cache unchanged; or the file that the opener opened, which the cache now holds for the
/// path; or the error that the opener gave, with the cache unchanged
pub open spec fn open_outcome<F, E, O: FnOnce(&str) -> Result<F, E>>(
    before: WeakFileCache<F>,
    after: WeakFileCache<F>,
    path: &str,
    open: O,
    file: Result<Arc<F>, E>,
) -> bool {
    match file {
        Ok(f) => (before@.contains_key(path@) && *f == before@[path@] && after@ == before@) || (
        call_ensures(open, (path,), Ok::<F, E>(*f)) && after@ == before@.insert(path@, *f)),
        Err(e) => call_ensures(open, (path,), Err::<F, E>(e)) && after@ == before@,
    }
}

} // verus!
