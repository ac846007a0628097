use vstd::prelude::*;

use crate::text::{chars_eq, chars_of};

verus! {

/// What the manifest remembers of a file: its content hash, its
/// modification time and the ids of the chunks written for it.
#[derive(Clone, Debug)]
pub struct ManifestEntry {
    pub hash: String,
    pub mtime: u64,
    pub chunk_ids: Vec<String>,
}

/// The state that outlives a run: one entry per path, paths unique.
#[derive(Clone, Debug)]
pub struct IngestManifest {
    pub version: u8,
    pub files: Vec<(String, ManifestEntry)>,
}

/// Position of the first entry for `path`, from `from` on.
pub open spec fn path_position(files: Seq<(String, ManifestEntry)>, path: Seq<char>, from: int) -> Option<int>
    decreases files.len() - from,
{
    if from < 0 || from >= files.len() {
        None
    } else if files[from].0@ == path {
        Some(from)
    } else {
        path_position(files, path, from + 1)
    }
}

proof fn lemma_path_position(files: Seq<(String, ManifestEntry)>, path: Seq<char>, from: int)
    requires
        0 <= from,
    ensures
        match path_position(files, path, from) {
            Some(i) => from <= i < files.len() && files[i].0@ == path && forall|j: int|
                from <= j < i ==> #[trigger] files[j].0@ != path,
            None => forall|j: int| from <= j < files.len() ==> #[trigger] files[j].0@ != path,
        },
    decreases files.len() - from,
{
    if from < files.len() && files[from].0@ != path {
        lemma_path_position(files, path, from + 1);
    }
}

proof fn lemma_path_position_absent(files: Seq<(String, ManifestEntry)>, path: Seq<char>, from: int)
    requires
        0 <= from,
        forall|j: int| from <= j < files.len() ==> #[trigger] files[j].0@ != path,
    ensures
        path_position(files, path, from).is_none(),
    decreases files.len() - from,
{
    if from < files.len() {
        lemma_path_position_absent(files, path, from + 1);
    }
}

proof fn lemma_path_position_at(files: Seq<(String, ManifestEntry)>, path: Seq<char>, i: int)
    requires
        0 <= i < files.len(),
        files[i].0@ == path,
        forall|j: int| 0 <= j < i ==> #[trigger] files[j].0@ != path,
    ensures
        path_position(files, path, 0) == Some(i),
    decreases i,
{
    lemma_path_position_from(files, path, 0, i);
}

proof fn lemma_path_position_from(files: Seq<(String, ManifestEntry)>, path: Seq<char>, from: int, i: int)
    requires
        0 <= from <= i < files.len(),
        files[i].0@ == path,
        forall|j: int| from <= j < i ==> #[trigger] files[j].0@ != path,
    ensures
        path_position(files, path, from) == Some(i),
    decreases i - from,
{
    if from < i {
        lemma_path_position_from(files, path, from + 1, i);
    }
}

impl IngestManifest {
    /// Paths are unique.
    pub open spec fn wf(self) -> bool {
        forall|i: int, j: int|
            0 <= i < j < self.files@.len() ==> #[trigger] self.files@[i].0@ != #[trigger] self.files@[j].0@
    }

    /// The entry recorded for `path`.
    pub open spec fn entry_of(self, path: Seq<char>) -> Option<ManifestEntry> {
        match path_position(self.files@, path, 0) {
            Some(i) => Some(self.files@[i].1),
            None => None,
        }
    }

    /// An empty manifest.
    pub fn new() -> (r: IngestManifest)
        ensures
            r.wf(),
            r.version == 0,
            forall|p: Seq<char>| #[trigger] r.entry_of(p).is_none(),
    {
        IngestManifest { version: 0, files: Vec::new() }
    }

    fn find(&self, path: &str) -> (r: Option<usize>)
        ensures
            match r {
                Some(i) => i < self.files@.len() && path_position(self.files@, path@, 0) == Some(i as int),
                None => path_position(self.files@, path@, 0).is_none(),
            },
    {
        let p = chars_of(path);
        let mut i: usize = 0;
        while i < self.files.len()
            invariant
                i <= self.files@.len(),
                p@ == path@,
                path_position(self.files@, path@, 0) == path_position(self.files@, path@, i as int),
            decreases self.files@.len() - i,
        {
            let k = chars_of(self.files[i].0.as_str());
            if chars_eq(&k, &p) {
                return Some(i);
            }
            i = i + 1;
        }
        None
    }

    /// The entry recorded for `path`, if any.
    pub fn get(&self, path: &str) -> (r: Option<&ManifestEntry>)
        ensures
            r.is_some() == self.entry_of(path@).is_some(),
            r.is_some() ==> *r.unwrap() == self.entry_of(path@).unwrap(),
    {
        match self.find(path) {
            Some(i) => Some(&self.files[i].1),
            None => None,
        }
    }

    /// Records `entry` for `path`, replacing what was recorded for it.
    pub fn insert(&mut self, path: String, entry: ManifestEntry)
        requires
            old(self).wf(),
        ensures
            final(self).wf(),
            final(self).version == old(self).version,
            final(self).entry_of(path@) == Some(entry),
            forall|p: Seq<char>| p != path@ ==> #[trigger] final(self).entry_of(p) == old(self).entry_of(p),
    {
        let ghost old_files = self.files@;
        let ghost key = path@;
        match self.find(path.as_str()) {
            Some(i) => {
                proof {
                    lemma_path_position(old_files, key, 0);
                }
                self.files.set(i, (path, entry));
                proof {
                    let nf = self.files@;
                    assert(nf == old_files.update(i as int, (nf[i as int].0, entry)));
                    assert forall|a: int, b: int| 0 <= a < b < nf.len() implies #[trigger] nf[a].0@
                        != #[trigger] nf[b].0@ by {
                        if a == i as int {
                            assert(old_files[b].0@ != old_files[a].0@);
                        } else if b == i as int {
                            assert(old_files[b].0@ != old_files[a].0@);
                        } else {
                            assert(old_files[a].0@ != old_files[b].0@);
                        }
                    }
                    lemma_path_position_at(nf, key, i as int);
                    assert forall|p: Seq<char>| p != key implies path_position(nf, p, 0) == path_position(
                        old_files,
                        p,
                        0,
                    ) by {
                        lemma_path_position(old_files, p, 0);
                        match path_position(old_files, p, 0) {
                            Some(k) => {
                                assert(k != i);
                                assert forall|j: int| 0 <= j < k implies #[trigger] nf[j].0@ != p by {
                                    if j != i {
                                        assert(nf[j] == old_files[j]);
                                    }
                                }
                                lemma_path_position_at(nf, p, k);
                            },
                            None => {
                                assert forall|j: int| 0 <= j < nf.len() implies #[trigger] nf[j].0@ != p by {
                                    if j != i {
                                        assert(nf[j] == old_files[j]);
                                    }
                                }
                                lemma_path_position_absent(nf, p, 0);
                            },
                        }
                    }
                    assert forall|p: Seq<char>| p != key implies #[trigger] self.entry_of(p) == old(
                        self,
                    ).entry_of(p) by {
                        lemma_path_position(old_files, p, 0);
                        if let Some(k) = path_position(old_files, p, 0) {
                            assert(k != i);
                            assert(nf[k] == old_files[k]);
                        }
                    }
                }
            },
            None => {
                proof {
                    lemma_path_position(old_files, key, 0);
                }
                self.files.push((path, entry));
                proof {
                    let nf = self.files@;
                    let n = old_files.len() as int;
                    assert forall|a: int, b: int| 0 <= a < b < nf.len() implies #[trigger] nf[a].0@
                        != #[trigger] nf[b].0@ by {
                        if b == n {
                            assert(old_files[a].0@ != key);
                        } else {
                            assert(old_files[a].0@ != old_files[b].0@);
                        }
                    }
                    assert forall|j: int| 0 <= j < n implies #[trigger] nf[j].0@ != key by {
                        assert(nf[j] == old_files[j]);
                    }
                    lemma_path_position_at(nf, key, n);
                    assert forall|p: Seq<char>| p != key implies path_position(nf, p, 0) == path_position(
                        old_files,
                        p,
                        0,
                    ) by {
                        lemma_path_position(old_files, p, 0);
                        match path_position(old_files, p, 0) {
                            Some(k) => {
                                assert forall|j: int| 0 <= j < k implies #[trigger] nf[j].0@ != p by {
                                    assert(nf[j] == old_files[j]);
                                }
                                lemma_path_position_at(nf, p, k);
                            },
                            None => {
                                assert forall|j: int| 0 <= j < nf.len() implies #[trigger] nf[j].0@ != p by {
                                    if j < n {
                                        assert(nf[j] == old_files[j]);
                                    }
                                }
                                lemma_path_position_absent(nf, p, 0);
                            },
                        }
                    }
                    assert forall|p: Seq<char>| p != key implies #[trigger] self.entry_of(p) == old(
                        self,
                    ).entry_of(p) by {
                        lemma_path_position(old_files, p, 0);
                        if let Some(k) = path_position(old_files, p, 0) {
                            assert(nf[k] == old_files[k]);
                        }
                    }
                }
            },
        }
    }
}

/// Whether the manifest records exactly this hash and modification time for
/// `path`.
pub open spec fn unchanged(m: IngestManifest, path: Seq<char>, hash: Seq<char>, mtime: u64) -> bool {
    match m.entry_of(path) {
        Some(e) => e.hash@ == hash && e.mtime == mtime,
        None => false,
    }
}

/// True iff the manifest holds an entry for `path` with this very hash and
/// modification time.
pub fn is_unchanged_in_manifest(path: &str, manifest: &IngestManifest, file_hash: &str, mtime: u64) -> (r: bool)
    ensures
        r == unchanged(*manifest, path@, file_hash@, mtime),
{
    match manifest.get(path) {
        Some(entry) => {
            let a = chars_of(entry.hash.as_str());
            let b = chars_of(file_hash);
            chars_eq(&a, &b) && entry.mtime == mtime
        },
        None => false,
    }
}

/// A file whose hash differs from the recorded one is not unchanged, whatever
/// its modification time; nor is a file the manifest does not record.
pub proof fn lemma_new_hash_is_changed(m: IngestManifest, path: Seq<char>, hash: Seq<char>, mtime: u64)
    requires
        m.entry_of(path).is_none() || m.entry_of(path).unwrap().hash@ != hash,
    ensures
        !unchanged(m, path, hash, mtime),
{
}

} // verus!
