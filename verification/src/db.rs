//! Local database: a name-keyed, lazily filled, insert-only cache over a
//! snapshot of the backing store.
//!
//! The backing store is one directory per installed package, named by
//! convention `<name>-<version>`; a directory can source an entry only if it
//! holds both a descriptor and a manifest file.  The snapshot is injected at
//! construction, so the cache itself performs no input or output; a scan
//! counter records how often the store was walked, and repeated lookups of a
//! cached name leave it untouched.

use vstd::prelude::*;

use crate::desc::{spec_parse_desc, parse_desc, PackageDescription, PackageDescriptionV};
use crate::mtree::{read_mtree_from_bytes, spec_read_mtree_bytes, MTreeEntry, MTreeEntryV};
use crate::text::{chars_of, contains_chars, contains_seq, is_prefix, starts_with_chars, str_eq};
use crate::{Error, ErrorV};

verus! {

/// Spec-level image of [`DirEntry`].
pub struct DirEntryV {
    pub name: Seq<char>,
    pub desc: Option<Seq<char>>,
    pub mtree: Option<Seq<u8>>,
}

/// One subdirectory of the backing store, as a snapshot: its name, and the
/// contents of its two source files where they exist.
#[derive(Debug, Clone)]
pub struct DirEntry {
    /// The directory's name, by convention `<name>-<version>`.
    pub name: String,
    /// The descriptor file's text, if the file exists.
    pub desc: Option<String>,
    /// The manifest file's compressed bytes, if the file exists.
    pub mtree: Option<Vec<u8>>,
}

impl View for DirEntry {
    type V = DirEntryV;

    open spec fn view(&self) -> DirEntryV {
        DirEntryV { name: self.name@, desc: self.desc.deep_view(), mtree: self.mtree.deep_view() }
    }
}

impl DeepView for DirEntry {
    type V = DirEntryV;

    open spec fn deep_view(&self) -> DirEntryV {
        self.view()
    }
}

/// Spec-level image of [`LocalDatabaseEntry`].
pub struct LocalDatabaseEntryV {
    pub desc: PackageDescriptionV,
    pub mtree: Seq<MTreeEntryV>,
}

/// One installed package: its metadata record and, in manifest order, the
/// files it owns.  Constructed atomically from one store directory and
/// immutable afterwards.
#[derive(Debug, Clone)]
pub struct LocalDatabaseEntry {
    pub desc: PackageDescription,
    pub mtree: Vec<MTreeEntry>,
}

impl View for LocalDatabaseEntry {
    type V = LocalDatabaseEntryV;

    open spec fn view(&self) -> LocalDatabaseEntryV {
        LocalDatabaseEntryV { desc: self.desc@, mtree: self.mtree.deep_view() }
    }
}

impl DeepView for LocalDatabaseEntry {
    type V = LocalDatabaseEntryV;

    open spec fn deep_view(&self) -> LocalDatabaseEntryV {
        self.view()
    }
}

/// A directory can source an entry only if it holds both files.
pub open spec fn spec_is_valid_dir(d: DirEntryV) -> bool {
    d.desc is Some && d.mtree is Some
}

/// Tests whether a store directory holds both source files.
pub fn is_valid_local_entry_dir(d: &DirEntry) -> (r: bool)
    ensures
        r == spec_is_valid_dir(d@),
{
    d.desc.is_some() && d.mtree.is_some()
}

/// What constructing an entry from one directory yields: the descriptor is
/// read first, then the manifest; a missing file or a parse fault aborts the
/// whole entry, and no partial record is returned.
pub open spec fn spec_entry_of(d: DirEntryV) -> Result<LocalDatabaseEntryV, ErrorV> {
    match d.desc {
        None => Err(ErrorV::MissingDesc(d.name)),
        Some(dt) => match spec_parse_desc(dt) {
            Err(e) => Err(e),
            Ok(pd) => match d.mtree {
                None => Err(ErrorV::MissingMtree(d.name)),
                Some(mb) => match spec_read_mtree_bytes(mb) {
                    Err(e) => Err(e),
                    Ok(ents) => Ok(LocalDatabaseEntryV { desc: pd, mtree: ents }),
                },
            },
        },
    }
}

impl LocalDatabaseEntry {
    /// Builds one package's entry from a store directory, which must hold
    /// both the descriptor and the manifest.
    pub fn new_from_directory(dir: &DirEntry) -> (r: Result<Self, Error>)
        ensures
            match r {
                Ok(e) => spec_entry_of(dir@) == Ok::<LocalDatabaseEntryV, ErrorV>(e@),
                Err(e) => spec_entry_of(dir@) == Err::<LocalDatabaseEntryV, ErrorV>(e@),
            },
    {
        let desc_text = match &dir.desc {
            Some(t) => t,
            None => {
                return Err(Error::MissingDesc(dir.name.clone()));
            },
        };
        let pd = match parse_desc(desc_text.as_str()) {
            Ok(p) => p,
            Err(e) => {
                return Err(e);
            },
        };
        let mb = match &dir.mtree {
            Some(b) => b,
            None => {
                return Err(Error::MissingMtree(dir.name.clone()));
            },
        };
        proof {
            assert(dir@.mtree->Some_0 =~= mb@);
        }
        let ents = match read_mtree_from_bytes(mb) {
            Ok(v) => v,
            Err(e) => {
                return Err(e);
            },
        };
        Ok(LocalDatabaseEntry { desc: pd, mtree: ents })
    }

    /// The paths of every file the package owns, in manifest order.
    pub fn files(&self) -> (r: Vec<String>)
        ensures
            r.deep_view() == self@.mtree.map_values(|m: MTreeEntryV| m.filepath),
    {
        let ghost mv = self.mtree.deep_view();
        let mut r: Vec<String> = Vec::new();
        let mut i: usize = 0;
        proof {
            assert(r.deep_view() =~= mv.take(0).map_values(|m: MTreeEntryV| m.filepath));
        }
        while i < self.mtree.len()
            invariant
                0 <= i <= self.mtree@.len(),
                mv == self.mtree.deep_view(),
                mv.len() == self.mtree@.len(),
                r.deep_view() == mv.take(i as int).map_values(|m: MTreeEntryV| m.filepath),
            decreases self.mtree@.len() - i,
        {
            let ghost r0 = r.deep_view();
            r.push(self.mtree[i].filepath.clone());
            proof {
                assert(r.deep_view() =~= r0.push(mv[i as int].filepath));
                assert(r.deep_view() =~= mv.take(i + 1).map_values(|m: MTreeEntryV| m.filepath));
            }
            i += 1;
        }
        proof {
            assert(mv.take(mv.len() as int) =~= mv);
        }
        r
    }

    /// Exact-match ownership: true iff some manifest record's path equals the
    /// queried path, character for character; no prefix or pattern matching.
    pub fn owns(&self, file: &str) -> (r: bool)
        ensures
            r == exists|k: int|
                0 <= k < self@.mtree.len() && #[trigger] self@.mtree[k].filepath == file@,
    {
        let ghost mv = self.mtree.deep_view();
        let mut i: usize = 0;
        while i < self.mtree.len()
            invariant
                0 <= i <= self.mtree@.len(),
                mv == self.mtree.deep_view(),
                mv.len() == self.mtree@.len(),
                forall|k: int| 0 <= k < i ==> #[trigger] mv[k].filepath != file@,
            decreases self.mtree@.len() - i,
        {
            if str_eq(self.mtree[i].filepath.as_str(), file) {
                proof {
                    assert(mv[i as int].filepath == file@);
                }
                return true;
            }
            i += 1;
        }
        false
    }
}

/// Names in the cache are unique: an entry, once inserted, is never replaced.
pub open spec fn db_wf(db: Seq<LocalDatabaseEntryV>) -> bool {
    forall|i: int, j: int|
        0 <= i < j < db.len() ==> #[trigger] db[i].desc.name != #[trigger] db[j].desc.name
}

/// A name is cached.
pub open spec fn db_has(db: Seq<LocalDatabaseEntryV>, name: Seq<char>) -> bool {
    exists|i: int| 0 <= i < db.len() && #[trigger] db[i].desc.name == name
}

/// The index of the first cached entry under `name`, or the cache's length
/// if there is none.
pub open spec fn db_index(db: Seq<LocalDatabaseEntryV>, name: Seq<char>) -> int
    decreases db.len(),
{
    if db.len() == 0 {
        0
    } else if db[0].desc.name == name {
        0
    } else {
        1 + db_index(db.drop_first(), name)
    }
}

/// The cached entry under `name`.
pub open spec fn db_at(db: Seq<LocalDatabaseEntryV>, name: Seq<char>) -> LocalDatabaseEntryV {
    db[db_index(db, name)]
}

pub proof fn lemma_db_index(db: Seq<LocalDatabaseEntryV>, name: Seq<char>)
    ensures
        0 <= db_index(db, name) <= db.len(),
        forall|i: int| 0 <= i < db_index(db, name) ==> #[trigger] db[i].desc.name != name,
        db_index(db, name) < db.len() ==> db[db_index(db, name)].desc.name == name,
        db_has(db, name) <==> db_index(db, name) < db.len(),
    decreases db.len(),
{
    if db.len() > 0 && db[0].desc.name != name {
        lemma_db_index(db.drop_first(), name);
        assert forall|i: int| 0 <= i < db_index(db, name) implies #[trigger] db[i].desc.name
            != name by {
            if i > 0 {
                assert(db.drop_first()[i - 1] == db[i]);
            }
        }
        if db_index(db, name) < db.len() {
            assert(db.drop_first()[db_index(db, name) - 1] == db[db_index(db, name)]);
        }
        if db_has(db, name) {
            let w = choose|i: int| 0 <= i < db.len() && #[trigger] db[i].desc.name == name;
            assert(db.drop_first()[w - 1] == db[w]);
            assert(db_has(db.drop_first(), name));
        }
        if db_has(db.drop_first(), name) {
            let w = choose|i: int|
                0 <= i < db.drop_first().len() && #[trigger] db.drop_first()[i].desc.name == name;
            assert(db.drop_first()[w] == db[w + 1]);
            assert(db_has(db, name));
        }
    }
}

/// What scanning the store for `name` yields: the first directory whose name
/// starts with the requested one and whose parsed entry's own name matches it
/// exactly; a parse fault on any candidate propagates; no exact match after
/// the full scan is a not-found fault.
pub open spec fn spec_find(store: Seq<DirEntryV>, name: Seq<char>) -> Result<
    LocalDatabaseEntryV,
    ErrorV,
>
    decreases store.len(),
{
    if store.len() == 0 {
        Err(ErrorV::NotFound(name))
    } else if is_prefix(name, store[0].name) {
        match spec_entry_of(store[0]) {
            Err(e) => Err(e),
            Ok(ent) => if ent.desc.name == name {
                Ok(ent)
            } else {
                spec_find(store.drop_first(), name)
            },
        }
    } else {
        spec_find(store.drop_first(), name)
    }
}

/// Exact-match law: a found entry's own name equals the requested name, so a
/// directory matching only by prefix is never returned.
pub proof fn lemma_find_exact(store: Seq<DirEntryV>, name: Seq<char>)
    ensures
        spec_find(store, name) matches Ok(ent) ==> ent.desc.name == name,
    decreases store.len(),
{
    if store.len() > 0 {
        lemma_find_exact(store.drop_first(), name);
    }
}

/// What bulk population does: every valid directory whose name holds the
/// query substring contributes its entry under its own descriptor name,
/// unless that name is already cached; a directory that fails to parse is
/// skipped, never fatal.
pub open spec fn spec_populate(
    store: Seq<DirEntryV>,
    db: Seq<LocalDatabaseEntryV>,
    query: Seq<char>,
) -> Seq<LocalDatabaseEntryV>
    decreases store.len(),
{
    if store.len() == 0 {
        db
    } else {
        let d = store[0];
        let db2 = if spec_is_valid_dir(d) && contains_seq(d.name, query) {
            match spec_entry_of(d) {
                Ok(e) => if db_has(db, e.desc.name) {
                    db
                } else {
                    db.push(e)
                },
                Err(_) => db,
            }
        } else {
            db
        };
        spec_populate(store.drop_first(), db2, query)
    }
}

/// Pushing an entry under a fresh name keeps cached names unique and makes
/// the new entry the one found under its name.
pub proof fn lemma_db_push_wf(db: Seq<LocalDatabaseEntryV>, e: LocalDatabaseEntryV)
    requires
        db_wf(db),
        !db_has(db, e.desc.name),
    ensures
        db_wf(db.push(e)),
        db_has(db.push(e), e.desc.name),
        db_index(db.push(e), e.desc.name) == db.len(),
        db_at(db.push(e), e.desc.name) == e,
{
    assert forall|i: int, j: int| 0 <= i < j < db.push(e).len() implies #[trigger] db.push(
        e,
    )[i].desc.name != #[trigger] db.push(e)[j].desc.name by {
        if j == db.len() {
            assert(db.push(e)[i] == db[i]);
            if db[i].desc.name == e.desc.name {
                assert(db_has(db, e.desc.name));
            }
        } else {
            assert(db.push(e)[i] == db[i]);
            assert(db.push(e)[j] == db[j]);
        }
    }
    lemma_db_index(db.push(e), e.desc.name);
    assert(db.push(e)[db.len() as int] == e);
    assert(db_has(db.push(e), e.desc.name));
    let di = db_index(db.push(e), e.desc.name);
    if di < db.len() {
        assert(db.push(e)[di] == db[di]);
        assert(db_has(db, e.desc.name));
    }
}

/// What listing names yields: for every valid directory, in store order, the
/// descriptor's name; a descriptor that fails to parse fails the listing.
pub open spec fn spec_names(store: Seq<DirEntryV>) -> Result<Seq<Seq<char>>, ErrorV>
    decreases store.len(),
{
    if store.len() == 0 {
        Ok(Seq::empty())
    } else if spec_is_valid_dir(store[0]) {
        match spec_parse_desc(store[0].desc->Some_0) {
            Err(e) => Err(e),
            Ok(d) => match spec_names(store.drop_first()) {
                Ok(r) => Ok(seq![d.name] + r),
                Err(e) => Err(e),
            },
        }
    } else {
        spec_names(store.drop_first())
    }
}

/// Spec-level image of [`LocalDatabase`].
pub struct LocalDatabaseV {
    pub store: Seq<DirEntryV>,
    pub db: Seq<LocalDatabaseEntryV>,
    pub scans: u64,
}

/// The scan counter, advanced once per directory walk; it saturates rather
/// than wrapping.
pub open spec fn bump(s: u64) -> u64 {
    if s < u64::MAX {
        (s + 1) as u64
    } else {
        s
    }
}

/// A lazy view of the local database: entries are read from the injected
/// store snapshot when requested and cached under their descriptor names;
/// the cache is insert-only and an entry is never replaced or mutated.
pub struct LocalDatabase {
    store: Vec<DirEntry>,
    db: Vec<LocalDatabaseEntry>,
    scans: u64,
}

impl View for LocalDatabase {
    type V = LocalDatabaseV;

    closed spec fn view(&self) -> LocalDatabaseV {
        LocalDatabaseV { store: self.store.deep_view(), db: self.db.deep_view(), scans: self.scans }
    }
}

impl LocalDatabase {
    /// Cached names are unique.
    pub open spec fn wf(&self) -> bool {
        db_wf(self@.db)
    }

    /// An empty cache over the given store snapshot.
    pub fn new(store: Vec<DirEntry>) -> (r: Self)
        ensures
            r@.store == store.deep_view(),
            r@.db == Seq::<LocalDatabaseEntryV>::empty(),
            r@.scans == 0,
            r.wf(),
    {
        let r = LocalDatabase { store, db: Vec::new(), scans: 0 };
        proof {
            assert(r@.db =~= Seq::<LocalDatabaseEntryV>::empty());
        }
        r
    }

    /// How often the backing store has been walked.
    pub fn scan_count(&self) -> (r: u64)
        ensures
            r == self@.scans,
    {
        self.scans
    }

    /// The names of the packages read so far, in insertion order.
    pub fn pacakge_names(&self) -> (r: Vec<String>)
        ensures
            r.deep_view() == self@.db.map_values(|e: LocalDatabaseEntryV| e.desc.name),
    {
        let ghost dv = self.db.deep_view();
        let mut r: Vec<String> = Vec::new();
        let mut i: usize = 0;
        proof {
            assert(r.deep_view() =~= dv.take(0).map_values(|e: LocalDatabaseEntryV| e.desc.name));
        }
        while i < self.db.len()
            invariant
                0 <= i <= self.db@.len(),
                dv == self.db.deep_view(),
                dv.len() == self.db@.len(),
                r.deep_view() == dv.take(i as int).map_values(
                    |e: LocalDatabaseEntryV| e.desc.name,
                ),
            decreases self.db@.len() - i,
        {
            let ghost r0 = r.deep_view();
            r.push(self.db[i].desc.name.clone());
            proof {
                assert(r.deep_view() =~= r0.push(dv[i as int].desc.name));
                assert(r.deep_view() =~= dv.take(i + 1).map_values(
                    |e: LocalDatabaseEntryV| e.desc.name,
                ));
            }
            i += 1;
        }
        proof {
            assert(dv.take(dv.len() as int) =~= dv);
        }
        r
    }

    /// Lists the descriptor names of all valid store directories without
    /// touching any manifest, the cheaper existence query.
    pub fn names(&self) -> (r: Result<Vec<String>, Error>)
        ensures
            match r {
                Ok(v) => spec_names(self@.store) == Ok::<Seq<Seq<char>>, ErrorV>(v.deep_view()),
                Err(e) => spec_names(self@.store) == Err::<Seq<Seq<char>>, ErrorV>(e@),
            },
    {
        let ghost sv = self.store.deep_view();
        let mut out: Vec<String> = Vec::new();
        let mut i: usize = 0;
        proof {
            assert(sv.skip(0) =~= sv);
            assert(out.deep_view() =~= Seq::<Seq<char>>::empty());
        }
        while i < self.store.len()
            invariant
                0 <= i <= self.store@.len(),
                sv == self.store.deep_view(),
                sv.len() == self.store@.len(),
                spec_names(sv) == (match spec_names(sv.skip(i as int)) {
                    Ok(r) => Ok::<Seq<Seq<char>>, ErrorV>(out.deep_view() + r),
                    Err(e) => Err::<Seq<Seq<char>>, ErrorV>(e),
                }),
            decreases self.store@.len() - i,
        {
            let ghost dv = sv[i as int];
            proof {
                assert(sv.skip(i as int)[0] == dv);
                assert(sv.skip(i as int).drop_first() =~= sv.skip(i + 1));
            }
            let dir = &self.store[i];
            proof {
                assert(dir@ == dv);
            }
            match (&dir.desc, &dir.mtree) {
                (Some(text), Some(_)) => {
                    match parse_desc(text.as_str()) {
                        Ok(d) => {
                            let ghost o0 = out.deep_view();
                            out.push(d.name);
                            proof {
                                assert(out.deep_view() =~= o0.push(
                                    spec_parse_desc(dv.desc->Some_0)->Ok_0.name,
                                ));
                                assert forall|rest: Seq<Seq<char>>|
                                    true implies o0 + (seq![
                                    spec_parse_desc(dv.desc->Some_0)->Ok_0.name,
                                ] + rest) =~= out.deep_view() + rest by {}
                            }
                        },
                        Err(e) => {
                            return Err(e);
                        },
                    }
                },
                _ => {},
            }
            i += 1;
        }
        proof {
            assert(sv.skip(sv.len() as int) =~= Seq::<DirEntryV>::empty());
            assert(out.deep_view() + Seq::<Seq<char>>::empty() =~= out.deep_view());
        }
        Ok(out)
    }

    /// The cache slot under `name`, if the name is cached.
    fn find_cached(&self, name: &str) -> (r: Option<usize>)
        ensures
            match r {
                Some(i) => i < self@.db.len() && i as int == db_index(self@.db, name@)
                    && self@.db[i as int].desc.name == name@ && db_has(self@.db, name@),
                None => !db_has(self@.db, name@),
            },
    {
        let ghost dv = self@.db;
        let mut i: usize = 0;
        while i < self.db.len()
            invariant
                0 <= i <= self.db@.len(),
                dv == self.db.deep_view(),
                dv.len() == self.db@.len(),
                forall|k: int| 0 <= k < i ==> #[trigger] dv[k].desc.name != name@,
            decreases self.db@.len() - i,
        {
            if str_eq(self.db[i].desc.name.as_str(), name) {
                proof {
                    assert(dv[i as int].desc.name == name@);
                    lemma_db_index(dv, name@);
                }
                return Some(i);
            }
            i += 1;
        }
        proof {
            lemma_db_index(dv, name@);
        }
        None
    }

    /// Scans the store for `package_name`: the first directory whose name
    /// starts with it is parsed in full, and the parsed record's own name is
    /// re-validated against the request, so a directory matching only by
    /// prefix is passed over.  The found entry is cached under the requested
    /// name, unless that name is already cached, in which case the cached
    /// entry stands and is returned.  Any fault during a matching attempt
    /// propagates; a fruitless full scan is a not-found fault.
    pub fn read_pacakge(&mut self, package_name: &str) -> (r: Result<&LocalDatabaseEntry, Error>)
        requires
            old(self).wf(),
        ensures
            final(self).wf(),
            final(self)@.store == old(self)@.store,
            final(self)@.scans == bump(old(self)@.scans),
            match r {
                Ok(e) => {
                    &&& spec_find(old(self)@.store, package_name@) is Ok
                    &&& e@.desc.name == package_name@
                    &&& db_has(final(self)@.db, package_name@)
                    &&& e@ == db_at(final(self)@.db, package_name@)
                    &&& (db_has(old(self)@.db, package_name@) ==> final(self)@.db == old(
                        self,
                    )@.db && e@ == db_at(old(self)@.db, package_name@))
                    &&& (!db_has(old(self)@.db, package_name@) ==> final(self)@.db == old(
                        self,
                    )@.db.push(spec_find(old(self)@.store, package_name@)->Ok_0) && e@
                        == spec_find(old(self)@.store, package_name@)->Ok_0)
                },
                Err(err) => spec_find(old(self)@.store, package_name@) == Err::<
                    LocalDatabaseEntryV,
                    ErrorV,
                >(err@) && final(self)@.db == old(self)@.db,
            },
    {
        if self.scans < u64::MAX {
            self.scans += 1;
        }
        let ghost sv = self@.store;
        let name_c = chars_of(package_name);
        proof {
            assert(sv.skip(0) =~= sv);
        }
        let mut i: usize = 0;
        while i < self.store.len()
            invariant
                0 <= i <= self.store@.len(),
                sv == self.store.deep_view(),
                sv.len() == self.store@.len(),
                name_c@ == package_name@,
                self@.store == old(self)@.store,
                self@.db == old(self)@.db,
                self@.scans == bump(old(self)@.scans),
                db_wf(self@.db),
                spec_find(sv, package_name@) == spec_find(sv.skip(i as int), package_name@),
            decreases self.store@.len() - i,
        {
            let ghost dv = sv[i as int];
            proof {
                assert(sv.skip(i as int)[0] == dv);
                assert(sv.skip(i as int).drop_first() =~= sv.skip(i + 1));
            }
            let dir_c = chars_of(self.store[i].name.as_str());
            proof {
                assert(dir_c@ == dv.name);
            }
            if starts_with_chars(&dir_c, &name_c) {
                let ent = match LocalDatabaseEntry::new_from_directory(&self.store[i]) {
                    Ok(en) => en,
                    Err(e) => {
                        return Err(e);
                    },
                };
                if str_eq(ent.desc.name.as_str(), package_name) {
                    let ghost entv = ent@;
                    proof {
                        assert(spec_find(sv, package_name@) == Ok::<LocalDatabaseEntryV, ErrorV>(
                            entv,
                        ));
                    }
                    match self.find_cached(package_name) {
                        Some(idx) => {
                            return Ok(&self.db[idx]);
                        },
                        None => {
                            let ghost db0 = self@.db;
                            proof {
                                lemma_db_push_wf(db0, entv);
                            }
                            self.db.push(ent);
                            proof {
                                assert(self@.db =~= db0.push(entv));
                            }
                            let idx = self.db.len() - 1;
                            return Ok(&self.db[idx]);
                        },
                    }
                }
            }
            i += 1;
        }
        proof {
            assert(sv.skip(sv.len() as int) =~= Seq::<DirEntryV>::empty());
        }
        Err(Error::NotFound(package_name.to_owned()))
    }

    /// Retrieves the entry for `package_name`: straight from the cache when
    /// the name is cached, leaving the database untouched; otherwise by one
    /// store scan, caching what it finds.
    pub fn get(&mut self, package_name: &str) -> (r: Result<&LocalDatabaseEntry, Error>)
        requires
            old(self).wf(),
        ensures
            final(self).wf(),
            final(self)@.store == old(self)@.store,
            db_has(old(self)@.db, package_name@) ==> *final(self) == *old(self) && (r matches Ok(e)
                && e@ == db_at(old(self)@.db, package_name@)),
            !db_has(old(self)@.db, package_name@) ==> {
                &&& final(self)@.scans == bump(old(self)@.scans)
                &&& match r {
                    Ok(e) => final(self)@.db == old(self)@.db.push(e@) && e@ == spec_find(
                        old(self)@.store,
                        package_name@,
                    )->Ok_0 && spec_find(old(self)@.store, package_name@) is Ok,
                    Err(err) => final(self)@.db == old(self)@.db && spec_find(
                        old(self)@.store,
                        package_name@,
                    ) == Err::<LocalDatabaseEntryV, ErrorV>(err@),
                }
            },
            r matches Ok(e) ==> e@.desc.name == package_name@ && db_has(
                final(self)@.db,
                package_name@,
            ) && e@ == db_at(final(self)@.db, package_name@),
    {
        let cached = self.find_cached(package_name);
        match cached {
            Some(idx) => {
                proof {
                    lemma_db_index(self@.db, package_name@);
                }
                Ok(&self.db[idx])
            },
            None => self.read_pacakge(package_name),
        }
    }

    /// Bulk-populates the cache: every valid store directory whose name holds
    /// the query substring is parsed and inserted under its own descriptor
    /// name; a candidate that fails to parse is skipped rather than fatal,
    /// and an already-cached name is never replaced.  An empty query matches
    /// every valid directory.
    pub fn populate(&mut self, query: &str) -> (r: Result<(), Error>)
        requires
            old(self).wf(),
        ensures
            r is Ok,
            final(self).wf(),
            final(self)@.store == old(self)@.store,
            final(self)@.scans == bump(old(self)@.scans),
            final(self)@.db == spec_populate(old(self)@.store, old(self)@.db, query@),
    {
        if self.scans < u64::MAX {
            self.scans += 1;
        }
        let qc = chars_of(query);
        let ghost sv = self@.store;
        proof {
            assert(sv.skip(0) =~= sv);
        }
        let mut i: usize = 0;
        while i < self.store.len()
            invariant
                0 <= i <= self.store@.len(),
                sv == self.store.deep_view(),
                sv.len() == self.store@.len(),
                qc@ == query@,
                self@.store == old(self)@.store,
                self@.scans == bump(old(self)@.scans),
                db_wf(self@.db),
                spec_populate(old(self)@.store, old(self)@.db, query@) == spec_populate(
                    sv.skip(i as int),
                    self@.db,
                    query@,
                ),
            decreases self.store@.len() - i,
        {
            let ghost dv = sv[i as int];
            let ghost dbpre = self@.db;
            proof {
                assert(sv.skip(i as int)[0] == dv);
                assert(sv.skip(i as int).drop_first() =~= sv.skip(i + 1));
            }
            let dir = &self.store[i];
            proof {
                assert(dir@ == dv);
            }
            let valid = dir.desc.is_some() && dir.mtree.is_some();
            let name_c = chars_of(dir.name.as_str());
            let matches_query = contains_chars(&name_c, &qc);
            if valid && matches_query {
                match LocalDatabaseEntry::new_from_directory(dir) {
                    Ok(ent) => {
                        let ghost entv = ent@;
                        match self.find_cached(ent.desc.name.as_str()) {
                            Some(_) => {},
                            None => {
                                proof {
                                    lemma_db_push_wf(dbpre, entv);
                                }
                                self.db.push(ent);
                                proof {
                                    assert(self@.db =~= dbpre.push(entv));
                                }
                            },
                        }
                    },
                    Err(_) => {},
                }
            }
            i += 1;
        }
        proof {
            assert(sv.skip(sv.len() as int) =~= Seq::<DirEntryV>::empty());
        }
        Ok(())
    }

    /// Full population: the degenerate bulk query that matches every valid
    /// directory.
    pub fn populate_full_database(&mut self) -> (r: Result<(), Error>)
        requires
            old(self).wf(),
        ensures
            r is Ok,
            final(self).wf(),
            final(self)@.store == old(self)@.store,
            final(self)@.scans == bump(old(self)@.scans),
            final(self)@.db == spec_populate(old(self)@.store, old(self)@.db, ""@),
    {
        self.populate("")
    }
}

} // verus!