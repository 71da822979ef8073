//! The durable catalog: installed kegs, store refcounts, and the
//! linked-file inventory, with transactional mutation.
//!
//! The tables live in memory as vectors; a transaction stages a copy of
//! all three tables and publishes them atomically on commit, so dropping
//! an uncommitted transaction provably leaves the database untouched.
//! Persistence of the tables is the caller's concern.

use vstd::prelude::*;
use vstd::seq_lib::*;
use crate::text::{lex_lt, lemma_lex_trichotomy, lemma_lex_trans, str_lt, str_eq};
use crate::ZbError;

verus! {

// ---------------------------------------------------------------------------
// Records and their mathematical models
// ---------------------------------------------------------------------------

/// One installed package: `name` is the primary key.
#[derive(Debug, Clone)]
pub struct InstalledKeg {
    pub name: String,
    pub version: String,
    pub store_key: String,
    pub installed_at: i64,
}

/// One content-addressed store entry and the number of kegs that use it.
#[derive(Debug, Clone)]
pub struct StoreRef {
    pub store_key: String,
    pub refcount: i64,
}

/// One symlink farmed out of a keg, keyed by `(name, linked_path)`.
#[derive(Debug, Clone)]
pub struct LinkedFile {
    pub name: String,
    pub version: String,
    pub linked_path: String,
    pub target_path: String,
}

#[verifier::ext_equal]
pub ghost struct KegModel {
    pub name: Seq<char>,
    pub version: Seq<char>,
    pub store_key: Seq<char>,
    pub installed_at: int,
}

#[verifier::ext_equal]
pub ghost struct RefModel {
    pub store_key: Seq<char>,
    pub refcount: int,
}

#[verifier::ext_equal]
pub ghost struct FileModel {
    pub name: Seq<char>,
    pub version: Seq<char>,
    pub linked_path: Seq<char>,
    pub target_path: Seq<char>,
}

/// The whole catalog as three mathematical tables.
#[verifier::ext_equal]
pub ghost struct DbModel {
    pub kegs: Seq<KegModel>,
    pub refs: Seq<RefModel>,
    pub files: Seq<FileModel>,
}

impl View for InstalledKeg {
    type V = KegModel;

    open spec fn view(&self) -> KegModel {
        KegModel {
            name: self.name@,
            version: self.version@,
            store_key: self.store_key@,
            installed_at: self.installed_at as int,
        }
    }
}

impl View for StoreRef {
    type V = RefModel;

    open spec fn view(&self) -> RefModel {
        RefModel { store_key: self.store_key@, refcount: self.refcount as int }
    }
}

impl View for LinkedFile {
    type V = FileModel;

    open spec fn view(&self) -> FileModel {
        FileModel {
            name: self.name@,
            version: self.version@,
            linked_path: self.linked_path@,
            target_path: self.target_path@,
        }
    }
}

pub open spec fn vkegs(s: Seq<InstalledKeg>) -> Seq<KegModel> {
    s.map_values(|k: InstalledKeg| k@)
}

pub open spec fn vrefs(s: Seq<StoreRef>) -> Seq<RefModel> {
    s.map_values(|r: StoreRef| r@)
}

pub open spec fn vfiles(s: Seq<LinkedFile>) -> Seq<FileModel> {
    s.map_values(|f: LinkedFile| f@)
}

pub open spec fn vstrs(s: Seq<String>) -> Seq<Seq<char>> {
    s.map_values(|x: String| x@)
}

// ---------------------------------------------------------------------------
// Positions in the tables
// ---------------------------------------------------------------------------

/// First index whose keg is named `name`, or `kegs.len()` if none is.
pub open spec fn keg_pos(kegs: Seq<KegModel>, name: Seq<char>) -> int
    decreases kegs.len(),
{
    if kegs.len() == 0 {
        0
    } else if kegs[0].name == name {
        0
    } else {
        1 + keg_pos(kegs.skip(1), name)
    }
}

pub open spec fn has_keg_named(kegs: Seq<KegModel>, name: Seq<char>) -> bool {
    keg_pos(kegs, name) < kegs.len()
}

/// Where a keg named `name` belongs in a name-sorted table: the number of
/// leading kegs whose names come strictly before it.
pub open spec fn insert_pos(kegs: Seq<KegModel>, name: Seq<char>) -> int
    decreases kegs.len(),
{
    if kegs.len() == 0 {
        0
    } else if lex_lt(kegs[0].name, name) {
        1 + insert_pos(kegs.skip(1), name)
    } else {
        0
    }
}

/// First index whose row carries `key`, or `refs.len()` if none does.
pub open spec fn ref_pos(refs: Seq<RefModel>, key: Seq<char>) -> int
    decreases refs.len(),
{
    if refs.len() == 0 {
        0
    } else if refs[0].store_key == key {
        0
    } else {
        1 + ref_pos(refs.skip(1), key)
    }
}

/// The recorded refcount of `key`, or 0 if no row carries it.
pub open spec fn refcount_of(refs: Seq<RefModel>, key: Seq<char>) -> int {
    let p = ref_pos(refs, key);
    if p < refs.len() {
        refs[p].refcount
    } else {
        0
    }
}

// ---------------------------------------------------------------------------
// Table transitions
// ---------------------------------------------------------------------------

/// Insert `keg` into a name-sorted table, replacing the row of the same
/// name if one is present.
pub open spec fn upsert_keg(kegs: Seq<KegModel>, keg: KegModel) -> Seq<KegModel> {
    let p = insert_pos(kegs, keg.name);
    if p < kegs.len() && kegs[p].name == keg.name {
        kegs.update(p, keg)
    } else {
        kegs.insert(p, keg)
    }
}

/// Add one to the refcount of `key`, creating the row at 1 if absent.
pub open spec fn bump_ref(refs: Seq<RefModel>, key: Seq<char>) -> Seq<RefModel> {
    let p = ref_pos(refs, key);
    if p < refs.len() {
        refs.update(p, RefModel { store_key: key, refcount: refs[p].refcount + 1 })
    } else {
        refs.push(RefModel { store_key: key, refcount: 1 })
    }
}

/// Subtract one from the refcount of `key`; no row, no change.
pub open spec fn drop_ref(refs: Seq<RefModel>, key: Seq<char>) -> Seq<RefModel> {
    let p = ref_pos(refs, key);
    if p < refs.len() {
        refs.update(p, RefModel { store_key: key, refcount: refs[p].refcount - 1 })
    } else {
        refs
    }
}

/// The linked-file rows that do not belong to `name`.
pub open spec fn files_without(files: Seq<FileModel>, name: Seq<char>) -> Seq<FileModel> {
    files.filter(|f: FileModel| f.name != name)
}

/// The linked-file rows recorded for `name`.
pub open spec fn files_of(files: Seq<FileModel>, name: Seq<char>) -> Seq<FileModel> {
    files.filter(|f: FileModel| f.name == name)
}

/// The linked-file rows other than the one keyed `(name, linked_path)`.
pub open spec fn files_without_pk(
    files: Seq<FileModel>,
    name: Seq<char>,
    linked_path: Seq<char>,
) -> Seq<FileModel> {
    files.filter(|f: FileModel| !(f.name == name && f.linked_path == linked_path))
}

/// The rows whose refcount is still positive: what a sweep leaves behind.
pub open spec fn live_refs(refs: Seq<RefModel>) -> Seq<RefModel> {
    refs.filter(|r: RefModel| r.refcount > 0)
}

/// The keys whose refcount has fallen to zero or below: what a sweep removes.
pub open spec fn unref_keys(refs: Seq<RefModel>) -> Seq<Seq<char>> {
    refs.filter(|r: RefModel| r.refcount <= 0).map_values(|r: RefModel| r.store_key)
}

/// Record an install at time `t`: upsert the keg row and bump the refcount.
pub open spec fn spec_record_install(
    m: DbModel,
    name: Seq<char>,
    version: Seq<char>,
    key: Seq<char>,
    t: int,
) -> DbModel {
    DbModel {
        kegs: upsert_keg(m.kegs, KegModel { name, version, store_key: key, installed_at: t }),
        refs: bump_ref(m.refs, key),
        files: m.files,
    }
}

/// Record a linked file: replace the row of the same `(name, linked_path)`.
pub open spec fn spec_record_linked_file(m: DbModel, f: FileModel) -> DbModel {
    DbModel {
        kegs: m.kegs,
        refs: m.refs,
        files: files_without_pk(m.files, f.name, f.linked_path).push(f),
    }
}

/// Record an uninstall: delete the keg row and its linked files, and
/// decrement the refcount of the key the keg held, if it held one.
pub open spec fn spec_record_uninstall(m: DbModel, name: Seq<char>) -> DbModel {
    let p = keg_pos(m.kegs, name);
    DbModel {
        kegs: if p < m.kegs.len() { m.kegs.remove(p) } else { m.kegs },
        refs: if p < m.kegs.len() { drop_ref(m.refs, m.kegs[p].store_key) } else { m.refs },
        files: files_without(m.files, name),
    }
}

// ---------------------------------------------------------------------------
// Well-formedness
// ---------------------------------------------------------------------------

/// Keg names strictly ascend: sorted for listing, and so unique.
pub open spec fn kegs_sorted(kegs: Seq<KegModel>) -> bool {
    forall|i: int, j: int|
        0 <= i < j < kegs.len() ==> lex_lt(kegs[i].name, kegs[j].name)
}

/// At most one row per store key.
pub open spec fn refs_unique(refs: Seq<RefModel>) -> bool {
    forall|i: int, j: int|
        0 <= i < j < refs.len() ==> refs[i].store_key != refs[j].store_key
}

pub open spec fn db_wf(m: DbModel) -> bool {
    kegs_sorted(m.kegs) && refs_unique(m.refs)
}

pub open spec fn empty_db() -> DbModel {
    DbModel { kegs: Seq::empty(), refs: Seq::empty(), files: Seq::empty() }
}

// ---------------------------------------------------------------------------
// Facts about positions
// ---------------------------------------------------------------------------

pub proof fn lemma_keg_pos_props(kegs: Seq<KegModel>, name: Seq<char>)
    ensures
        0 <= keg_pos(kegs, name) <= kegs.len(),
        keg_pos(kegs, name) < kegs.len() ==> kegs[keg_pos(kegs, name)].name == name,
        forall|j: int| 0 <= j < keg_pos(kegs, name) ==> kegs[j].name != name,
    decreases kegs.len(),
{
    if kegs.len() > 0 && kegs[0].name != name {
        lemma_keg_pos_props(kegs.skip(1), name);
        assert forall|j: int| 0 <= j < keg_pos(kegs, name) implies kegs[j].name != name by {
            if j > 0 {
                assert(kegs.skip(1)[j - 1] == kegs[j]);
            }
        }
    }
}

pub proof fn lemma_insert_pos_props(kegs: Seq<KegModel>, name: Seq<char>)
    ensures
        0 <= insert_pos(kegs, name) <= kegs.len(),
        insert_pos(kegs, name) < kegs.len() ==> !lex_lt(kegs[insert_pos(kegs, name)].name, name),
        forall|j: int| 0 <= j < insert_pos(kegs, name) ==> lex_lt(kegs[j].name, name),
    decreases kegs.len(),
{
    if kegs.len() > 0 && lex_lt(kegs[0].name, name) {
        lemma_insert_pos_props(kegs.skip(1), name);
        assert forall|j: int| 0 <= j < insert_pos(kegs, name) implies lex_lt(kegs[j].name, name) by {
            if j > 0 {
                assert(kegs.skip(1)[j - 1] == kegs[j]);
            }
        }
    }
}

pub proof fn lemma_ref_pos_props(refs: Seq<RefModel>, key: Seq<char>)
    ensures
        0 <= ref_pos(refs, key) <= refs.len(),
        ref_pos(refs, key) < refs.len() ==> refs[ref_pos(refs, key)].store_key == key,
        forall|j: int| 0 <= j < ref_pos(refs, key) ==> refs[j].store_key != key,
    decreases refs.len(),
{
    if refs.len() > 0 && refs[0].store_key != key {
        lemma_ref_pos_props(refs.skip(1), key);
        assert forall|j: int| 0 <= j < ref_pos(refs, key) implies refs[j].store_key != key by {
            if j > 0 {
                assert(refs.skip(1)[j - 1] == refs[j]);
            }
        }
    }
}

/// An upsert keeps the table sorted.
pub proof fn lemma_upsert_keg_sorted(kegs: Seq<KegModel>, keg: KegModel)
    requires
        kegs_sorted(kegs),
    ensures
        kegs_sorted(upsert_keg(kegs, keg)),
{
    lemma_insert_pos_props(kegs, keg.name);
    let p = insert_pos(kegs, keg.name);
    if p < kegs.len() && kegs[p].name == keg.name {
        let out = kegs.update(p, keg);
        assert forall|i: int, j: int|
            0 <= i < j < out.len() implies lex_lt(out[i].name, out[j].name) by {
            assert(lex_lt(kegs[i].name, kegs[j].name));
        }
    } else {
        let out = kegs.insert(p, keg);
        if p < kegs.len() {
            lemma_lex_trichotomy(kegs[p].name, keg.name);
        }
        assert forall|i: int, j: int|
            0 <= i < j < out.len() implies lex_lt(out[i].name, out[j].name) by {
            if i < p && j == p {
            } else if i == p && j > p {
                if j - 1 > p {
                    lemma_lex_trans(keg.name, kegs[p].name, kegs[j - 1].name);
                }
            } else if i < p && j > p {
                assert(out[i] == kegs[i] && out[j] == kegs[j - 1]);
            }
        }
    }
}

// ---------------------------------------------------------------------------
// The database and its transactions
// ---------------------------------------------------------------------------

/// The catalog itself. Mutated only by committing a transaction and by
/// the garbage-collection sweep.
pub struct Database {
    kegs: Vec<InstalledKeg>,
    refs: Vec<StoreRef>,
    files: Vec<LinkedFile>,
}

/// A staged copy of the catalog. Mutations land here; `commit` publishes
/// them. Dropping the transaction instead leaves the database as it was.
pub struct InstallTransaction {
    kegs: Vec<InstalledKeg>,
    refs: Vec<StoreRef>,
    files: Vec<LinkedFile>,
}

impl View for Database {
    type V = DbModel;

    closed spec fn view(&self) -> DbModel {
        DbModel { kegs: vkegs(self.kegs@), refs: vrefs(self.refs@), files: vfiles(self.files@) }
    }
}

impl View for InstallTransaction {
    type V = DbModel;

    closed spec fn view(&self) -> DbModel {
        DbModel { kegs: vkegs(self.kegs@), refs: vrefs(self.refs@), files: vfiles(self.files@) }
    }
}

// ---------------------------------------------------------------------------
// Shared row helpers
// ---------------------------------------------------------------------------

impl InstalledKeg {
    /// A fresh record with the same contents.
    pub fn duplicate(&self) -> (r: InstalledKeg)
        ensures
            r@ == self@,
    {
        InstalledKeg {
            name: self.name.clone(),
            version: self.version.clone(),
            store_key: self.store_key.clone(),
            installed_at: self.installed_at,
        }
    }
}

impl LinkedFile {
    /// A fresh record with the same contents.
    pub fn duplicate(&self) -> (r: LinkedFile)
        ensures
            r@ == self@,
    {
        LinkedFile {
            name: self.name.clone(),
            version: self.version.clone(),
            linked_path: self.linked_path.clone(),
            target_path: self.target_path.clone(),
        }
    }
}

impl StoreRef {
    /// A fresh record with the same contents.
    pub fn duplicate(&self) -> (r: StoreRef)
        ensures
            r@ == self@,
    {
        StoreRef { store_key: self.store_key.clone(), refcount: self.refcount }
    }
}

fn copy_kegs(v: &Vec<InstalledKeg>) -> (r: Vec<InstalledKeg>)
    ensures
        vkegs(r@) == vkegs(v@),
{
    let mut out: Vec<InstalledKeg> = Vec::new();
    let mut i: usize = 0;
    while i < v.len()
        invariant
            i <= v.len(),
            vkegs(out@).len() == out@.len(),
            vkegs(v@).len() == v@.len(),
            vkegs(out@) =~= vkegs(v@).take(i as int),
        decreases v.len() - i,
    {
        out.push(v[i].duplicate());
        i = i + 1;
        proof {
            assert(vkegs(out@) =~= vkegs(v@).take(i as int));
        }
    }
    proof {
        assert(vkegs(v@).take(v@.len() as int) =~= vkegs(v@));
    }
    out
}

fn copy_refs(v: &Vec<StoreRef>) -> (r: Vec<StoreRef>)
    ensures
        vrefs(r@) == vrefs(v@),
{
    let mut out: Vec<StoreRef> = Vec::new();
    let mut i: usize = 0;
    while i < v.len()
        invariant
            i <= v.len(),
            vrefs(out@).len() == out@.len(),
            vrefs(v@).len() == v@.len(),
            vrefs(out@) =~= vrefs(v@).take(i as int),
        decreases v.len() - i,
    {
        out.push(v[i].duplicate());
        i = i + 1;
        proof {
            assert(vrefs(out@) =~= vrefs(v@).take(i as int));
        }
    }
    proof {
        assert(vrefs(v@).take(v@.len() as int) =~= vrefs(v@));
    }
    out
}

fn copy_files(v: &Vec<LinkedFile>) -> (r: Vec<LinkedFile>)
    ensures
        vfiles(r@) == vfiles(v@),
{
    let mut out: Vec<LinkedFile> = Vec::new();
    let mut i: usize = 0;
    while i < v.len()
        invariant
            i <= v.len(),
            vfiles(out@).len() == out@.len(),
            vfiles(v@).len() == v@.len(),
            vfiles(out@) =~= vfiles(v@).take(i as int),
        decreases v.len() - i,
    {
        out.push(v[i].duplicate());
        i = i + 1;
        proof {
            assert(vfiles(out@) =~= vfiles(v@).take(i as int));
        }
    }
    proof {
        assert(vfiles(v@).take(v@.len() as int) =~= vfiles(v@));
    }
    out
}

/// First index of the keg named `name`, or the length if none is.
fn find_keg_pos(kegs: &Vec<InstalledKeg>, name: &str) -> (p: usize)
    ensures
        p == keg_pos(vkegs(kegs@), name@),
{
    let ghost m = vkegs(kegs@);
    let mut i: usize = 0;
    proof {
        assert(m.skip(0) =~= m);
    }
    while i < kegs.len() && !str_eq(kegs[i].name.as_str(), name)
        invariant
            i <= kegs.len(),
            m == vkegs(kegs@),
            m.len() == kegs@.len(),
            keg_pos(m, name@) == i + keg_pos(m.skip(i as int), name@),
        decreases kegs.len() - i,
    {
        proof {
            assert(m.skip(i as int)[0] == m[i as int]);
            assert(m.skip(i as int).skip(1) =~= m.skip(i as int + 1));
        }
        i = i + 1;
    }
    proof {
        if i < kegs.len() {
            assert(m.skip(i as int)[0] == m[i as int]);
        } else {
            assert(m.skip(i as int).len() == 0);
        }
    }
    i
}

/// Where a keg named `name` belongs in the sorted table.
fn find_insert_pos(kegs: &Vec<InstalledKeg>, name: &str) -> (p: usize)
    ensures
        p == insert_pos(vkegs(kegs@), name@),
{
    let ghost m = vkegs(kegs@);
    let mut i: usize = 0;
    proof {
        assert(m.skip(0) =~= m);
    }
    while i < kegs.len() && str_lt(kegs[i].name.as_str(), name)
        invariant
            i <= kegs.len(),
            m == vkegs(kegs@),
            m.len() == kegs@.len(),
            insert_pos(m, name@) == i + insert_pos(m.skip(i as int), name@),
        decreases kegs.len() - i,
    {
        proof {
            assert(m.skip(i as int)[0] == m[i as int]);
            assert(m.skip(i as int).skip(1) =~= m.skip(i as int + 1));
        }
        i = i + 1;
    }
    proof {
        if i < kegs.len() {
            assert(m.skip(i as int)[0] == m[i as int]);
        } else {
            assert(m.skip(i as int).len() == 0);
        }
    }
    i
}

/// First index of the row carrying `key`, or the length if none does.
fn find_ref_pos(refs: &Vec<StoreRef>, key: &str) -> (p: usize)
    ensures
        p == ref_pos(vrefs(refs@), key@),
{
    let ghost m = vrefs(refs@);
    let mut i: usize = 0;
    proof {
        assert(m.skip(0) =~= m);
    }
    while i < refs.len() && !str_eq(refs[i].store_key.as_str(), key)
        invariant
            i <= refs.len(),
            m == vrefs(refs@),
            m.len() == refs@.len(),
            ref_pos(m, key@) == i + ref_pos(m.skip(i as int), key@),
        decreases refs.len() - i,
    {
        proof {
            assert(m.skip(i as int)[0] == m[i as int]);
            assert(m.skip(i as int).skip(1) =~= m.skip(i as int + 1));
        }
        i = i + 1;
    }
    proof {
        if i < refs.len() {
            assert(m.skip(i as int)[0] == m[i as int]);
        } else {
            assert(m.skip(i as int).len() == 0);
        }
    }
    i
}

impl Database {
    /// The tables are well formed: names sorted, keys unique.
    pub open spec fn wf(&self) -> bool {
        db_wf(self@)
    }

    /// A fresh, empty catalog, as `open` leaves one on a path that had
    /// no database yet.
    pub fn in_memory() -> (r: Result<Database, ZbError>)
        ensures
            r matches Ok(db) && db@ == empty_db() && db.wf(),
    {
        let db = Database { kegs: Vec::new(), refs: Vec::new(), files: Vec::new() };
        proof {
            assert(vkegs(db.kegs@) =~= Seq::<KegModel>::empty());
            assert(vrefs(db.refs@) =~= Seq::<RefModel>::empty());
            assert(vfiles(db.files@) =~= Seq::<FileModel>::empty());
        }
        Ok(db)
    }

    /// Begin a transaction: a staged copy of every table.
    pub fn transaction(&self) -> (tx: InstallTransaction)
        ensures
            tx@ == self@,
    {
        InstallTransaction {
            kegs: copy_kegs(&self.kegs),
            refs: copy_refs(&self.refs),
            files: copy_files(&self.files),
        }
    }

    /// The installed keg named `name`, if any.
    pub fn get_installed(&self, name: &str) -> (r: Option<InstalledKeg>)
        ensures
            match r {
                Some(k) => has_keg_named(self@.kegs, name@) && k@ == self@.kegs[keg_pos(
                    self@.kegs,
                    name@,
                )],
                None => !has_keg_named(self@.kegs, name@),
            },
    {
        let p = find_keg_pos(&self.kegs, name);
        if p < self.kegs.len() {
            Some(self.kegs[p].duplicate())
        } else {
            None
        }
    }

    /// Every installed keg, sorted by name ascending.
    pub fn list_installed(&self) -> (r: Result<Vec<InstalledKeg>, ZbError>)
        requires
            self.wf(),
        ensures
            r matches Ok(v) && vkegs(v@) == self@.kegs && kegs_sorted(vkegs(v@)),
    {
        Ok(copy_kegs(&self.kegs))
    }

    /// Every store row, in table order.
    pub fn list_store_refs(&self) -> (r: Vec<StoreRef>)
        ensures
            vrefs(r@) == self@.refs,
    {
        copy_refs(&self.refs)
    }

    /// The refcount recorded for `store_key`; 0 when no row carries it.
    pub fn get_store_refcount(&self, store_key: &str) -> (r: i64)
        ensures
            r as int == refcount_of(self@.refs, store_key@),
    {
        let p = find_ref_pos(&self.refs, store_key);
        if p < self.refs.len() {
            self.refs[p].refcount
        } else {
            0
        }
    }

    /// Every store key whose refcount is 0 or below, in table order.
    pub fn get_unreferenced_store_keys(&self) -> (r: Result<Vec<String>, ZbError>)
        ensures
            r matches Ok(v) && vstrs(v@) == unref_keys(self@.refs),
    {
        let ghost m = vrefs(self.refs@);
        let mut out: Vec<String> = Vec::new();
        let mut i: usize = 0;
        while i < self.refs.len()
            invariant
                i <= self.refs.len(),
                m == vrefs(self.refs@),
                m.len() == self.refs@.len(),
                vstrs(out@).len() == out@.len(),
                vstrs(out@) =~= unref_keys(m.take(i as int)),
            decreases self.refs.len() - i,
        {
            proof {
                lemma_unref_keys_push(m.take(i as int), m[i as int]);
                assert(m.take(i as int).push(m[i as int]) =~= m.take(i as int + 1));
            }
            if self.refs[i].refcount <= 0 {
                out.push(self.refs[i].store_key.clone());
            }
            i = i + 1;
            proof {
                assert(vstrs(out@) =~= unref_keys(m.take(i as int)));
            }
        }
        proof {
            assert(m.take(m.len() as int) =~= m);
        }
        Ok(out)
    }

    /// The linked files recorded for `name`, in table order.
    pub fn get_linked_files(&self, name: &str) -> (r: Vec<LinkedFile>)
        ensures
            vfiles(r@) == files_of(self@.files, name@),
    {
        let ghost m = vfiles(self.files@);
        let mut out: Vec<LinkedFile> = Vec::new();
        let mut i: usize = 0;
        while i < self.files.len()
            invariant
                i <= self.files.len(),
                m == vfiles(self.files@),
                m.len() == self.files@.len(),
                vfiles(out@).len() == out@.len(),
                vfiles(out@) =~= files_of(m.take(i as int), name@),
            decreases self.files.len() - i,
        {
            proof {
                lemma_files_of_push(m.take(i as int), m[i as int], name@);
                assert(m.take(i as int).push(m[i as int]) =~= m.take(i as int + 1));
            }
            if str_eq(self.files[i].name.as_str(), name) {
                out.push(self.files[i].duplicate());
            }
            i = i + 1;
            proof {
                assert(vfiles(out@) =~= files_of(m.take(i as int), name@));
            }
        }
        proof {
            assert(m.take(m.len() as int) =~= m);
        }
        out
    }

    /// Sweep the store table: remove every row whose refcount is 0 or
    /// below and return their keys. The caller deletes the store
    /// directories for exactly the returned keys.
    pub fn gc(&mut self) -> (r: Result<Vec<String>, ZbError>)
        requires
            old(self).wf(),
        ensures
            final(self).wf(),
            r matches Ok(keys) && vstrs(keys@) == unref_keys(old(self)@.refs),
            final(self)@.refs == live_refs(old(self)@.refs),
            final(self)@.kegs == old(self)@.kegs,
            final(self)@.files == old(self)@.files,
    {
        let ghost m = vrefs(self.refs@);
        let mut keys: Vec<String> = Vec::new();
        let mut kept: Vec<StoreRef> = Vec::new();
        let mut i: usize = 0;
        while i < self.refs.len()
            invariant
                i <= self.refs.len(),
                m == vrefs(self.refs@),
                m.len() == self.refs@.len(),
                vstrs(keys@).len() == keys@.len(),
                vrefs(kept@).len() == kept@.len(),
                vstrs(keys@) =~= unref_keys(m.take(i as int)),
                vrefs(kept@) =~= live_refs(m.take(i as int)),
            decreases self.refs.len() - i,
        {
            proof {
                lemma_unref_keys_push(m.take(i as int), m[i as int]);
                lemma_live_refs_push(m.take(i as int), m[i as int]);
                assert(m.take(i as int).push(m[i as int]) =~= m.take(i as int + 1));
            }
            if self.refs[i].refcount <= 0 {
                keys.push(self.refs[i].store_key.clone());
            } else {
                kept.push(self.refs[i].duplicate());
            }
            i = i + 1;
            proof {
                assert(vstrs(keys@) =~= unref_keys(m.take(i as int)));
                assert(vrefs(kept@) =~= live_refs(m.take(i as int)));
            }
        }
        proof {
            assert(m.take(m.len() as int) =~= m);
        }
        self.refs = kept;
        proof {
            lemma_live_refs_unique(m);
        }
        Ok(keys)
    }
}

/// A filter step, unfolded once for the sweep loops.
proof fn lemma_unref_keys_push(refs: Seq<RefModel>, r: RefModel)
    ensures
        unref_keys(refs.push(r)) == if r.refcount <= 0 {
            unref_keys(refs).push(r.store_key)
        } else {
            unref_keys(refs)
        },
{
    reveal(Seq::filter);
    let pred = |x: RefModel| x.refcount <= 0;
    assert(refs.push(r).drop_last() =~= refs);
    assert(refs.push(r).last() == r);
    if r.refcount <= 0 {
        assert(refs.push(r).filter(pred) =~= refs.filter(pred).push(r));
        assert(unref_keys(refs.push(r)) =~= unref_keys(refs).push(r.store_key));
    } else {
        assert(refs.push(r).filter(pred) =~= refs.filter(pred));
        assert(unref_keys(refs.push(r)) =~= unref_keys(refs));
    }
}

proof fn lemma_live_refs_push(refs: Seq<RefModel>, r: RefModel)
    ensures
        live_refs(refs.push(r)) == if r.refcount > 0 {
            live_refs(refs).push(r)
        } else {
            live_refs(refs)
        },
{
    reveal(Seq::filter);
    let pred = |x: RefModel| x.refcount > 0;
    assert(refs.push(r).drop_last() =~= refs);
    assert(refs.push(r).last() == r);
    if r.refcount > 0 {
        assert(live_refs(refs.push(r)) =~= live_refs(refs).push(r));
    } else {
        assert(live_refs(refs.push(r)) =~= live_refs(refs));
    }
}

proof fn lemma_files_of_push(files: Seq<FileModel>, f: FileModel, name: Seq<char>)
    ensures
        files_of(files.push(f), name) == if f.name == name {
            files_of(files, name).push(f)
        } else {
            files_of(files, name)
        },
{
    reveal(Seq::filter);
    let pred = |x: FileModel| x.name == name;
    assert(files.push(f).drop_last() =~= files);
    assert(files.push(f).last() == f);
    if f.name == name {
        assert(files_of(files.push(f), name) =~= files_of(files, name).push(f));
    } else {
        assert(files_of(files.push(f), name) =~= files_of(files, name));
    }
}

proof fn lemma_files_without_push(files: Seq<FileModel>, f: FileModel, name: Seq<char>)
    ensures
        files_without(files.push(f), name) == if f.name != name {
            files_without(files, name).push(f)
        } else {
            files_without(files, name)
        },
{
    reveal(Seq::filter);
    let pred = |x: FileModel| x.name != name;
    assert(files.push(f).drop_last() =~= files);
    assert(files.push(f).last() == f);
    if f.name != name {
        assert(files_without(files.push(f), name) =~= files_without(files, name).push(f));
    } else {
        assert(files_without(files.push(f), name) =~= files_without(files, name));
    }
}

proof fn lemma_files_without_pk_push(
    files: Seq<FileModel>,
    f: FileModel,
    name: Seq<char>,
    linked_path: Seq<char>,
)
    ensures
        files_without_pk(files.push(f), name, linked_path) == if !(f.name == name
            && f.linked_path == linked_path) {
            files_without_pk(files, name, linked_path).push(f)
        } else {
            files_without_pk(files, name, linked_path)
        },
{
    reveal(Seq::filter);
    assert(files.push(f).drop_last() =~= files);
    assert(files.push(f).last() == f);
    if !(f.name == name && f.linked_path == linked_path) {
        assert(files_without_pk(files.push(f), name, linked_path) =~= files_without_pk(
            files,
            name,
            linked_path,
        ).push(f));
    } else {
        assert(files_without_pk(files.push(f), name, linked_path) =~= files_without_pk(
            files,
            name,
            linked_path,
        ));
    }
}

/// Every row a sweep keeps was a row of the table.
proof fn lemma_live_refs_elems(refs: Seq<RefModel>)
    ensures
        forall|i: int|
            0 <= i < live_refs(refs).len() ==> refs.contains(#[trigger] live_refs(refs)[i]),
    decreases refs.len(),
{
    reveal(Seq::filter);
    if refs.len() > 0 {
        let prefix = refs.drop_last();
        lemma_live_refs_elems(prefix);
        let pl = live_refs(prefix);
        let out = live_refs(refs);
        assert forall|i: int| 0 <= i < out.len() implies refs.contains(out[i]) by {
            if i < pl.len() {
                assert(prefix.contains(pl[i]));
                let w = choose|w: int| 0 <= w < prefix.len() && prefix[w] == pl[i];
                assert(refs[w] == pl[i]);
            } else {
                assert(out[i] == refs.last());
                assert(refs[refs.len() - 1] == refs.last());
            }
        }
    }
}

/// What survives a sweep keeps unique keys.
proof fn lemma_live_refs_unique(refs: Seq<RefModel>)
    requires
        refs_unique(refs),
    ensures
        refs_unique(live_refs(refs)),
    decreases refs.len(),
{
    reveal(Seq::filter);
    if refs.len() > 0 {
        let prefix = refs.drop_last();
        assert(refs_unique(prefix));
        lemma_live_refs_unique(prefix);
        lemma_live_refs_elems(prefix);
        let pl = live_refs(prefix);
        let out = live_refs(refs);
        if refs.last().refcount > 0 {
            assert(out == pl.push(refs.last()));
            assert forall|i: int, j: int|
                0 <= i < j < out.len() implies out[i].store_key != out[j].store_key by {
                if j == out.len() - 1 {
                    assert(prefix.contains(pl[i]));
                    let w = choose|w: int| 0 <= w < prefix.len() && prefix[w] == pl[i];
                    assert(refs[w].store_key != refs[refs.len() - 1].store_key);
                }
            }
        }
    }
}

} // verus!


verus! {

// ---------------------------------------------------------------------------
// Position determination: the characterisation pins the position down
// ---------------------------------------------------------------------------

/// A position that matches the first-match characterisation is `ref_pos`.
pub proof fn lemma_ref_pos_determined(refs: Seq<RefModel>, key: Seq<char>, q: int)
    requires
        0 <= q <= refs.len(),
        forall|j: int| 0 <= j < q ==> refs[j].store_key != key,
        q < refs.len() ==> refs[q].store_key == key,
    ensures
        ref_pos(refs, key) == q,
    decreases refs.len(),
{
    if refs.len() > 0 && refs[0].store_key != key {
        assert(q > 0);
        let tail = refs.skip(1);
        assert forall|j: int| 0 <= j < q - 1 implies tail[j].store_key != key by {
            assert(tail[j] == refs[j + 1]);
        }
        lemma_ref_pos_determined(tail, key, q - 1);
    }
}

/// A position that matches the first-match characterisation is `keg_pos`.
pub proof fn lemma_keg_pos_determined(kegs: Seq<KegModel>, name: Seq<char>, q: int)
    requires
        0 <= q <= kegs.len(),
        forall|j: int| 0 <= j < q ==> kegs[j].name != name,
        q < kegs.len() ==> kegs[q].name == name,
    ensures
        keg_pos(kegs, name) == q,
    decreases kegs.len(),
{
    if kegs.len() > 0 && kegs[0].name != name {
        assert(q > 0);
        let tail = kegs.skip(1);
        assert forall|j: int| 0 <= j < q - 1 implies tail[j].name != name by {
            assert(tail[j] == kegs[j + 1]);
        }
        lemma_keg_pos_determined(tail, name, q - 1);
    }
}

// ---------------------------------------------------------------------------
// Time
// ---------------------------------------------------------------------------

/// Relies on std::time::SystemTime::now and duration_since: the seconds of
/// the wall clock past the Unix epoch; 0 if the clock reads earlier, the
/// largest value if the count does not fit.
#[verifier::external_body]
fn unix_now() -> (r: i64)
    ensures
        0 <= r,
{
    match std::time::SystemTime::now().duration_since(std::time::UNIX_EPOCH) {
        Ok(d) => i64::try_from(d.as_secs()).unwrap_or(i64::MAX),
        Err(_) => 0,
    }
}

// ---------------------------------------------------------------------------
// Transaction operations
// ---------------------------------------------------------------------------

impl InstallTransaction {
    /// The staged tables are well formed: names sorted, keys unique.
    pub open spec fn wf(&self) -> bool {
        db_wf(self@)
    }

    /// Stage an install record with `now` as its timestamp: upsert the keg
    /// row and add one to the refcount of `store_key` (a fresh row enters
    /// at 1).
    pub fn record_install_at(
        &mut self,
        name: &str,
        version: &str,
        store_key: &str,
        now: i64,
    ) -> (r: Result<(), ZbError>)
        requires
            old(self).wf(),
            refcount_of(old(self)@.refs, store_key@) < i64::MAX as int,
        ensures
            r is Ok,
            final(self).wf(),
            final(self)@ == spec_record_install(old(self)@, name@, version@, store_key@, now as int),
    {
        let ghost k0 = vkegs(self.kegs@);
        let ghost r0 = vrefs(self.refs@);
        let ghost f0 = vfiles(self.files@);
        let keg = InstalledKeg {
            name: name.to_owned(),
            version: version.to_owned(),
            store_key: store_key.to_owned(),
            installed_at: now,
        };
        proof {
            lemma_insert_pos_props(k0, name@);
            assert(k0.len() == self.kegs@.len());
        }
        let p = find_insert_pos(&self.kegs, name);
        if p < self.kegs.len() && str_eq(self.kegs[p].name.as_str(), name) {
            self.kegs.set(p, keg);
        } else {
            self.kegs.insert(p, keg);
        }
        proof {
            assert(vkegs(self.kegs@) =~= upsert_keg(k0, KegModel {
                name: name@,
                version: version@,
                store_key: store_key@,
                installed_at: now as int,
            }));
            lemma_upsert_keg_sorted(k0, KegModel {
                name: name@,
                version: version@,
                store_key: store_key@,
                installed_at: now as int,
            });
        }
        proof {
            lemma_ref_pos_props(r0, store_key@);
            assert(r0.len() == self.refs@.len());
        }
        let q = find_ref_pos(&self.refs, store_key);
        if q < self.refs.len() {
            let rc = self.refs[q].refcount;
            proof {
                assert(r0[q as int].refcount == rc as int);
                assert(refcount_of(r0, store_key@) == rc as int);
            }
            let row = StoreRef { store_key: store_key.to_owned(), refcount: rc + 1 };
            self.refs.set(q, row);
            proof {
                assert(vrefs(self.refs@) =~= bump_ref(r0, store_key@));
                assert forall|i: int, j: int|
                    0 <= i < j < vrefs(self.refs@).len() implies vrefs(self.refs@)[i].store_key
                    != vrefs(self.refs@)[j].store_key by {
                    assert(vrefs(self.refs@)[i].store_key == r0[i].store_key);
                    assert(vrefs(self.refs@)[j].store_key == r0[j].store_key);
                }
            }
        } else {
            self.refs.push(StoreRef { store_key: store_key.to_owned(), refcount: 1 });
            proof {
                assert(vrefs(self.refs@) =~= bump_ref(r0, store_key@));
                assert forall|i: int, j: int|
                    0 <= i < j < vrefs(self.refs@).len() implies vrefs(self.refs@)[i].store_key
                    != vrefs(self.refs@)[j].store_key by {
                    if j < r0.len() {
                        assert(vrefs(self.refs@)[i].store_key == r0[i].store_key);
                        assert(vrefs(self.refs@)[j].store_key == r0[j].store_key);
                    } else {
                        assert(vrefs(self.refs@)[i].store_key == r0[i].store_key);
                        assert(r0[i].store_key != store_key@);
                    }
                }
            }
        }
        proof {
            assert(vfiles(self.files@) == f0);
            assert(self@ =~= spec_record_install(
                DbModel { kegs: k0, refs: r0, files: f0 },
                name@,
                version@,
                store_key@,
                now as int,
            ));
        }
        Ok(())
    }

    /// Stage an install record timestamped with the wall clock.
    pub fn record_install(&mut self, name: &str, version: &str, store_key: &str) -> (r: Result<
        (),
        ZbError,
    >)
        requires
            old(self).wf(),
            refcount_of(old(self)@.refs, store_key@) < i64::MAX as int,
        ensures
            r is Ok,
            final(self).wf(),
            exists|t: int|
                0 <= t && final(self)@ == spec_record_install(
                    old(self)@,
                    name@,
                    version@,
                    store_key@,
                    t,
                ),
    {
        let now = unix_now();
        let r = self.record_install_at(name, version, store_key, now);
        proof {
            assert(0 <= now as int && self@ == spec_record_install(
                old(self)@,
                name@,
                version@,
                store_key@,
                now as int,
            ));
        }
        r
    }

    /// Stage a linked-file record, replacing the row of the same
    /// `(name, linked_path)`.
    pub fn record_linked_file(
        &mut self,
        name: &str,
        version: &str,
        linked_path: &str,
        target_path: &str,
    ) -> (r: Result<(), ZbError>)
        requires
            old(self).wf(),
        ensures
            r is Ok,
            final(self).wf(),
            final(self)@ == spec_record_linked_file(old(self)@, FileModel {
                name: name@,
                version: version@,
                linked_path: linked_path@,
                target_path: target_path@,
            }),
    {
        let ghost f0 = vfiles(self.files@);
        let mut out: Vec<LinkedFile> = Vec::new();
        let mut i: usize = 0;
        while i < self.files.len()
            invariant
                i <= self.files.len(),
                f0 == vfiles(self.files@),
                f0.len() == self.files@.len(),
                vfiles(out@).len() == out@.len(),
                vfiles(out@) =~= files_without_pk(f0.take(i as int), name@, linked_path@),
            decreases self.files.len() - i,
        {
            proof {
                lemma_files_without_pk_push(f0.take(i as int), f0[i as int], name@, linked_path@);
                assert(f0.take(i as int).push(f0[i as int]) =~= f0.take(i as int + 1));
            }
            if !(str_eq(self.files[i].name.as_str(), name) && str_eq(
                self.files[i].linked_path.as_str(),
                linked_path,
            )) {
                out.push(self.files[i].duplicate());
            }
            i = i + 1;
            proof {
                assert(vfiles(out@) =~= files_without_pk(f0.take(i as int), name@, linked_path@));
            }
        }
        proof {
            assert(f0.take(f0.len() as int) =~= f0);
        }
        out.push(LinkedFile {
            name: name.to_owned(),
            version: version.to_owned(),
            linked_path: linked_path.to_owned(),
            target_path: target_path.to_owned(),
        });
        self.files = out;
        proof {
            assert(vfiles(self.files@) =~= files_without_pk(f0, name@, linked_path@).push(
                FileModel {
                    name: name@,
                    version: version@,
                    linked_path: linked_path@,
                    target_path: target_path@,
                },
            ));
            assert(self@ =~= spec_record_linked_file(old(self)@, FileModel {
                name: name@,
                version: version@,
                linked_path: linked_path@,
                target_path: target_path@,
            }));
        }
        Ok(())
    }

    /// Stage an uninstall: delete the keg row of `name` and its linked
    /// files, decrement the refcount of the key it held, and hand that key
    /// back so the caller can schedule a sweep.
    pub fn record_uninstall(&mut self, name: &str) -> (r: Result<Option<String>, ZbError>)
        requires
            old(self).wf(),
            has_keg_named(old(self)@.kegs, name@) ==> refcount_of(
                old(self)@.refs,
                old(self)@.kegs[keg_pos(old(self)@.kegs, name@)].store_key,
            ) > i64::MIN as int,
        ensures
            final(self).wf(),
            final(self)@ == spec_record_uninstall(old(self)@, name@),
            r matches Ok(k) && match k {
                Some(s) => has_keg_named(old(self)@.kegs, name@) && s@ == old(self)@.kegs[keg_pos(
                    old(self)@.kegs,
                    name@,
                )].store_key,
                None => !has_keg_named(old(self)@.kegs, name@),
            },
    {
        let ghost k0 = vkegs(self.kegs@);
        let ghost r0 = vrefs(self.refs@);
        let ghost f0 = vfiles(self.files@);
        proof {
            lemma_keg_pos_props(k0, name@);
            assert(k0.len() == self.kegs@.len());
        }
        let p = find_keg_pos(&self.kegs, name);
        let result: Option<String>;
        if p < self.kegs.len() {
            let key = self.kegs[p].store_key.clone();
            self.kegs.remove(p);
            proof {
                assert(vkegs(self.kegs@) =~= k0.remove(p as int));
                assert forall|i: int, j: int|
                    0 <= i < j < vkegs(self.kegs@).len() implies lex_lt(
                    vkegs(self.kegs@)[i].name,
                    vkegs(self.kegs@)[j].name,
                ) by {
                    assert(vkegs(self.kegs@)[i] == if i < p as int {
                        k0[i]
                    } else {
                        k0[i + 1]
                    });
                    assert(vkegs(self.kegs@)[j] == if j < p as int {
                        k0[j]
                    } else {
                        k0[j + 1]
                    });
                }
                lemma_ref_pos_props(r0, key@);
                assert(r0.len() == self.refs@.len());
            }
            let q = find_ref_pos(&self.refs, key.as_str());
            if q < self.refs.len() {
                let rc = self.refs[q].refcount;
                proof {
                    assert(r0[q as int].refcount == rc as int);
                    assert(refcount_of(r0, key@) == rc as int);
                }
                let row = StoreRef { store_key: key.clone(), refcount: rc - 1 };
                self.refs.set(q, row);
            }
            proof {
                assert(vrefs(self.refs@) =~= drop_ref(r0, key@));
                assert forall|i: int, j: int|
                    0 <= i < j < vrefs(self.refs@).len() implies vrefs(self.refs@)[i].store_key
                    != vrefs(self.refs@)[j].store_key by {
                    assert(vrefs(self.refs@)[i].store_key == r0[i].store_key);
                    assert(vrefs(self.refs@)[j].store_key == r0[j].store_key);
                }
            }
            result = Some(key);
        } else {
            result = None;
        }
        let ghost k1 = vkegs(self.kegs@);
        let ghost r1 = vrefs(self.refs@);
        let mut out: Vec<LinkedFile> = Vec::new();
        let mut i: usize = 0;
        while i < self.files.len()
            invariant
                i <= self.files.len(),
                f0 == vfiles(self.files@),
                f0.len() == self.files@.len(),
                vfiles(out@).len() == out@.len(),
                vfiles(out@) =~= files_without(f0.take(i as int), name@),
            decreases self.files.len() - i,
        {
            proof {
                lemma_files_without_push(f0.take(i as int), f0[i as int], name@);
                assert(f0.take(i as int).push(f0[i as int]) =~= f0.take(i as int + 1));
            }
            if !str_eq(self.files[i].name.as_str(), name) {
                out.push(self.files[i].duplicate());
            }
            i = i + 1;
            proof {
                assert(vfiles(out@) =~= files_without(f0.take(i as int), name@));
            }
        }
        proof {
            assert(f0.take(f0.len() as int) =~= f0);
        }
        self.files = out;
        proof {
            assert(vkegs(self.kegs@) == k1);
            assert(vrefs(self.refs@) == r1);
            assert(self@ =~= spec_record_uninstall(
                DbModel { kegs: k0, refs: r0, files: f0 },
                name@,
            ));
        }
        Ok(result)
    }

    /// Publish the staged tables: after commit the database holds exactly
    /// what the transaction staged.
    pub fn commit(self, db: &mut Database) -> (r: Result<(), ZbError>)
        requires
            self.wf(),
        ensures
            r is Ok,
            final(db)@ == self@,
            final(db).wf(),
    {
        let InstallTransaction { kegs, refs, files } = self;
        db.kegs = kegs;
        db.refs = refs;
        db.files = files;
        Ok(())
    }
}

} // verus!

verus! {

// ---------------------------------------------------------------------------
// Laws of the catalog
// ---------------------------------------------------------------------------

/// How many kegs hold `key` as their store key.
pub open spec fn kegs_holding(kegs: Seq<KegModel>, key: Seq<char>) -> int
    decreases kegs.len(),
{
    if kegs.len() == 0 {
        0
    } else {
        (if kegs[0].store_key == key {
            1int
        } else {
            0int
        }) + kegs_holding(kegs.skip(1), key)
    }
}

/// Every store key's refcount equals the number of installed kegs that
/// reference it.
pub open spec fn balanced(m: DbModel) -> bool {
    forall|key: Seq<char>| #[trigger] refcount_of(m.refs, key) == kegs_holding(m.kegs, key)
}

pub proof fn lemma_balanced_empty()
    ensures
        balanced(empty_db()),
{
    assert forall|key: Seq<char>|
        #[trigger] refcount_of(empty_db().refs, key) == kegs_holding(empty_db().kegs, key) by {
        assert(ref_pos(empty_db().refs, key) == 0);
        assert(kegs_holding(empty_db().kegs, key) == 0);
    }
}

/// Inserting a row changes the holder count of `key` by one exactly when
/// the row holds `key`.
proof fn lemma_holding_insert(kegs: Seq<KegModel>, p: int, keg: KegModel, key: Seq<char>)
    requires
        0 <= p <= kegs.len(),
    ensures
        kegs_holding(kegs.insert(p, keg), key) == kegs_holding(kegs, key) + (
        if keg.store_key == key {
            1int
        } else {
            0int
        }),
    decreases p,
{
    let out = kegs.insert(p, keg);
    if p == 0 {
        assert(out[0] == keg);
        assert(out.skip(1) =~= kegs);
    } else {
        assert(out[0] == kegs[0]);
        assert(out.skip(1) =~= kegs.skip(1).insert(p - 1, keg));
        lemma_holding_insert(kegs.skip(1), p - 1, keg, key);
    }
}

/// Removing a row changes the holder count of `key` by one exactly when
/// the row held `key`.
proof fn lemma_holding_remove(kegs: Seq<KegModel>, p: int, key: Seq<char>)
    requires
        0 <= p < kegs.len(),
    ensures
        kegs_holding(kegs.remove(p), key) == kegs_holding(kegs, key) - (
        if kegs[p].store_key == key {
            1int
        } else {
            0int
        }),
    decreases p,
{
    let out = kegs.remove(p);
    if p == 0 {
        assert(out =~= kegs.skip(1));
    } else {
        assert(out[0] == kegs[0]);
        assert(out.skip(1) =~= kegs.skip(1).remove(p - 1));
        lemma_holding_remove(kegs.skip(1), p - 1, key);
    }
}

/// Bumping `key` raises its refcount by one and no other.
proof fn lemma_refcount_bump(refs: Seq<RefModel>, key: Seq<char>, other: Seq<char>)
    requires
        refs_unique(refs),
    ensures
        refcount_of(bump_ref(refs, key), other) == refcount_of(refs, other) + (
        if other == key {
            1int
        } else {
            0int
        }),
{
    lemma_ref_pos_props(refs, key);
    lemma_ref_pos_props(refs, other);
    let p = ref_pos(refs, key);
    let q = ref_pos(refs, other);
    let out = bump_ref(refs, key);
    if p < refs.len() {
        // A row carries `key`: it is updated in place.
        assert(out == refs.update(p, RefModel { store_key: key, refcount: refs[p].refcount + 1 }));
        if other == key {
            assert(q == p) by {
                lemma_ref_pos_determined(refs, other, p);
            }
            assert forall|j: int| 0 <= j < p implies out[j].store_key != other by {
                assert(out[j] == refs[j]);
            }
            lemma_ref_pos_determined(out, other, p);
        } else {
            assert(q != p);
            assert forall|j: int| 0 <= j < q implies out[j].store_key != other by {
                if j != p {
                    assert(out[j] == refs[j]);
                }
            }
            if q < refs.len() {
                assert(out[q] == refs[q]);
            }
            lemma_ref_pos_determined(out, other, q);
        }
    } else {
        // No row carries `key`: a fresh row enters at 1.
        assert(out == refs.push(RefModel { store_key: key, refcount: 1 }));
        if other == key {
            assert forall|j: int| 0 <= j < refs.len() implies out[j].store_key != other by {
                assert(out[j] == refs[j]);
            }
            lemma_ref_pos_determined(out, other, refs.len() as int);
        } else {
            if q < refs.len() {
                assert forall|j: int| 0 <= j < q implies out[j].store_key != other by {
                    assert(out[j] == refs[j]);
                }
                assert(out[q] == refs[q]);
                lemma_ref_pos_determined(out, other, q);
            } else {
                assert forall|j: int| 0 <= j < out.len() implies out[j].store_key != other by {
                    if j < refs.len() {
                        assert(out[j] == refs[j]);
                    }
                }
                lemma_ref_pos_determined(out, other, out.len() as int);
            }
        }
    }
}

/// Dropping `key` lowers its refcount by one (when a row carries it) and
/// no other.
proof fn lemma_refcount_drop(refs: Seq<RefModel>, key: Seq<char>, other: Seq<char>)
    requires
        refs_unique(refs),
    ensures
        refcount_of(drop_ref(refs, key), other) == refcount_of(refs, other) - (
        if other == key && ref_pos(refs, key) < refs.len() {
            1int
        } else {
            0int
        }),
{
    lemma_ref_pos_props(refs, key);
    lemma_ref_pos_props(refs, other);
    let p = ref_pos(refs, key);
    let q = ref_pos(refs, other);
    let out = drop_ref(refs, key);
    if p < refs.len() {
        assert(out == refs.update(p, RefModel { store_key: key, refcount: refs[p].refcount - 1 }));
        if other == key {
            assert(q == p) by {
                lemma_ref_pos_determined(refs, other, p);
            }
            assert forall|j: int| 0 <= j < p implies out[j].store_key != other by {
                assert(out[j] == refs[j]);
            }
            lemma_ref_pos_determined(out, other, p);
        } else {
            assert(q != p);
            assert forall|j: int| 0 <= j < q implies out[j].store_key != other by {
                if j != p {
                    assert(out[j] == refs[j]);
                }
            }
            if q < refs.len() {
                assert(out[q] == refs[q]);
            }
            lemma_ref_pos_determined(out, other, q);
        }
    }
}

/// Law: recording an install of a name that is not yet installed keeps
/// every refcount equal to the number of kegs holding its key.
pub proof fn lemma_record_install_balanced(
    m: DbModel,
    name: Seq<char>,
    version: Seq<char>,
    key: Seq<char>,
    t: int,
)
    requires
        db_wf(m),
        balanced(m),
        !has_keg_named(m.kegs, name),
    ensures
        balanced(spec_record_install(m, name, version, key, t)),
{
    let keg = KegModel { name, version, store_key: key, installed_at: t };
    let out = spec_record_install(m, name, version, key, t);
    lemma_insert_pos_props(m.kegs, name);
    lemma_keg_pos_props(m.kegs, name);
    let p = insert_pos(m.kegs, name);
    if p < m.kegs.len() && m.kegs[p].name == name {
        assert(has_keg_named(m.kegs, name)) by {
            lemma_keg_pos_determined(m.kegs, name, keg_pos(m.kegs, name));
            assert(m.kegs[p].name == name);
        }
    }
    assert(out.kegs == m.kegs.insert(p, keg));
    assert forall|k: Seq<char>|
        #[trigger] refcount_of(out.refs, k) == kegs_holding(out.kegs, k) by {
        lemma_refcount_bump(m.refs, key, k);
        lemma_holding_insert(m.kegs, p, keg, k);
    }
}

/// Law: recording an uninstall keeps every refcount equal to the number
/// of kegs holding its key.
pub proof fn lemma_record_uninstall_balanced(m: DbModel, name: Seq<char>)
    requires
        db_wf(m),
        balanced(m),
    ensures
        balanced(spec_record_uninstall(m, name)),
{
    let out = spec_record_uninstall(m, name);
    let p = keg_pos(m.kegs, name);
    lemma_keg_pos_props(m.kegs, name);
    if p < m.kegs.len() {
        let key = m.kegs[p].store_key;
        assert(kegs_holding(m.kegs, key) >= 1) by {
            lemma_holding_remove(m.kegs, p, key);
            lemma_holding_nonnegative(m.kegs.remove(p), key);
        }
        assert(refcount_of(m.refs, key) >= 1);
        assert(ref_pos(m.refs, key) < m.refs.len());
        assert forall|k: Seq<char>|
            #[trigger] refcount_of(out.refs, k) == kegs_holding(out.kegs, k) by {
            lemma_refcount_drop(m.refs, key, k);
            lemma_holding_remove(m.kegs, p, k);
        }
    }
}

/// No key is held a negative number of times.
proof fn lemma_holding_nonnegative(kegs: Seq<KegModel>, key: Seq<char>)
    ensures
        kegs_holding(kegs, key) >= 0,
    decreases kegs.len(),
{
    if kegs.len() > 0 {
        lemma_holding_nonnegative(kegs.skip(1), key);
    }
}

/// Law: an install of a fresh name with a fresh key, followed by an
/// uninstall of that name, leaves the kegs and files exactly as they
/// were; only a store row at refcount 0 remains, and a sweep removes
/// exactly that row.
pub proof fn lemma_install_uninstall_roundtrip(
    m: DbModel,
    name: Seq<char>,
    version: Seq<char>,
    key: Seq<char>,
    t: int,
)
    requires
        db_wf(m),
        !has_keg_named(m.kegs, name),
        ref_pos(m.refs, key) == m.refs.len(),
        files_without(m.files, name) == m.files,
    ensures
        ({
            let after = spec_record_uninstall(
                spec_record_install(m, name, version, key, t),
                name,
            );
            after.kegs == m.kegs && after.files == m.files && after.refs == m.refs.push(
                RefModel { store_key: key, refcount: 0 },
            ) && live_refs(after.refs) == live_refs(m.refs) && unref_keys(after.refs)
                == unref_keys(m.refs).push(key)
        }),
{
    let keg = KegModel { name, version, store_key: key, installed_at: t };
    let m1 = spec_record_install(m, name, version, key, t);
    lemma_insert_pos_props(m.kegs, name);
    lemma_keg_pos_props(m.kegs, name);
    let p = insert_pos(m.kegs, name);
    if p < m.kegs.len() && m.kegs[p].name == name {
        lemma_keg_pos_determined(m.kegs, name, keg_pos(m.kegs, name));
    }
    assert(m1.kegs == m.kegs.insert(p, keg));
    assert(m1.refs == m.refs.push(RefModel { store_key: key, refcount: 1 }));
    // The inserted row is the first (and only) row named `name`.
    assert forall|j: int| 0 <= j < p implies m1.kegs[j].name != name by {
        assert(m1.kegs[j] == m.kegs[j]);
        lemma_lex_trichotomy(m.kegs[j].name, name);
    }
    lemma_keg_pos_determined(m1.kegs, name, p);
    let after = spec_record_uninstall(m1, name);
    assert(after.kegs =~= m.kegs) by {
        assert(after.kegs == m1.kegs.remove(p));
    }
    // The pushed row is the first (and only) row carrying `key`.
    lemma_ref_pos_props(m.refs, key);
    assert forall|j: int| 0 <= j < m.refs.len() implies m1.refs[j].store_key != key by {
        assert(m1.refs[j] == m.refs[j]);
    }
    lemma_ref_pos_determined(m1.refs, key, m.refs.len() as int);
    assert(after.refs =~= m.refs.push(RefModel { store_key: key, refcount: 0 })) by {
        assert(after.refs == drop_ref(m1.refs, key));
    }
    assert(after.files == files_without(m1.files, name));
    assert(m1.files == m.files);
    lemma_live_refs_push(m.refs, RefModel { store_key: key, refcount: 0 });
    lemma_unref_keys_push(m.refs, RefModel { store_key: key, refcount: 0 });
}

} // verus!

verus! {

/// Law: recording a linked file changes no keg and no refcount, so the
/// balance between refcounts and keg holders is untouched.
pub proof fn lemma_record_linked_file_balanced(m: DbModel, f: FileModel)
    requires
        balanced(m),
    ensures
        balanced(spec_record_linked_file(m, f)),
{
    let out = spec_record_linked_file(m, f);
    assert(out.kegs == m.kegs && out.refs == m.refs);
}

/// Law: the sweep removes only rows at refcount 0 whose key no keg holds,
/// so the balance between refcounts and keg holders survives it.
pub proof fn lemma_gc_balanced(m: DbModel)
    requires
        db_wf(m),
        balanced(m),
    ensures
        balanced(DbModel { kegs: m.kegs, refs: live_refs(m.refs), files: m.files }),
{
    let live = live_refs(m.refs);
    lemma_live_refs_unique(m.refs);
    lemma_live_refs_elems(m.refs);
    assert forall|key: Seq<char>|
        #[trigger] refcount_of(live, key) == kegs_holding(m.kegs, key) by {
        lemma_ref_pos_props(m.refs, key);
        let p = ref_pos(m.refs, key);
        lemma_holding_nonnegative(m.kegs, key);
        if p < m.refs.len() && m.refs[p].refcount > 0 {
            // The row survives; it is the only row of `key` in the sweep's
            // output, at the same count.
            m.refs.lemma_filter_contains(|r: RefModel| r.refcount > 0, p);
            let q = choose|q: int| 0 <= q < live.len() && live[q] == m.refs[p];
            assert forall|j: int| 0 <= j < q implies live[j].store_key != key by {
                assert(live[j].store_key != live[q].store_key);
            }
            lemma_ref_pos_determined(live, key, q);
        } else {
            // No surviving row carries `key`: any that did would map back
            // to a positive row of `key` in the table, and there is none.
            assert forall|j: int| 0 <= j < live.len() implies live[j].store_key != key by {
                if live[j].store_key == key {
                    assert(m.refs.contains(live[j]));
                    let w = choose|w: int| 0 <= w < m.refs.len() && m.refs[w] == live[j];
                    m.refs.lemma_filter_pred(|r: RefModel| r.refcount > 0, j);
                    assert(m.refs[w].refcount > 0);
                    if w != p {
                        assert(m.refs[w].store_key != m.refs[p].store_key || p >= m.refs.len());
                        lemma_ref_pos_determined(m.refs, key, if w < p { w } else { p });
                    }
                }
            }
            lemma_ref_pos_determined(live, key, live.len() as int);
            assert(refcount_of(live, key) == 0);
            assert(refcount_of(m.refs, key) == kegs_holding(m.kegs, key));
        }
    }
}

/// Law: from the empty catalog, an install and uninstall of the same
/// package leave the catalog identical to the initial empty state except
/// a store row at refcount 0 — matching the store entry that stays on
/// disk — and the next sweep removes exactly that row.
pub proof fn lemma_roundtrip_from_empty(
    name: Seq<char>,
    version: Seq<char>,
    key: Seq<char>,
    t: int,
)
    ensures
        ({
            let after = spec_record_uninstall(
                spec_record_install(empty_db(), name, version, key, t),
                name,
            );
            after.kegs.len() == 0 && after.files.len() == 0 && after.refs == seq![
                RefModel { store_key: key, refcount: 0 },
            ] && unref_keys(after.refs) == seq![key] && live_refs(after.refs)
                == Seq::<RefModel>::empty()
        }),
{
    reveal(Seq::filter);
    let m = empty_db();
    assert(files_without(m.files, name) =~= m.files);
    lemma_install_uninstall_roundtrip(m, name, version, key, t);
    let after = spec_record_uninstall(spec_record_install(m, name, version, key, t), name);
    assert(after.refs =~= seq![RefModel { store_key: key, refcount: 0 }]);
    lemma_unref_keys_push(m.refs, RefModel { store_key: key, refcount: 0 });
    assert(unref_keys(m.refs) =~= Seq::<Seq<char>>::empty());
    assert(unref_keys(after.refs) =~= seq![key]);
    assert(live_refs(after.refs) =~= Seq::<RefModel>::empty());
}

} // verus!
