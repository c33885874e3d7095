//! The content-fingerprint cache: a mapping from a command/package key to a
//! digest over the command's declared input files (paths and content). An
//! entry is trusted only on an exact match of digest and file-set
//! membership: any added or removed file invalidates it. The digest is
//! combined over the input files brought into a canonical order, so the
//! result does not depend on enumeration order.

use vstd::prelude::*;
use crate::errors::Error;

verus! {

/// One declared input file: its path and its current content.
pub struct FileInput {
    pub path: Vec<u8>,
    pub content: Vec<u8>,
}

/// Byte-wise lexicographic order: `a` is a prefix of `b`, or the first
/// differing byte of `a` is smaller.
pub open spec fn lex_le(a: Seq<u8>, b: Seq<u8>) -> bool {
    ||| (a.len() <= b.len() && forall|t: int| 0 <= t < a.len() ==> a[t] == b[t])
    ||| (exists|t: int|
        0 <= t < a.len() && t < b.len() && a[t] < b[t] && (forall|u: int|
            0 <= u < t ==> a[u] == b[u]))
}

/// Executable byte-wise lexicographic comparison.
fn bytes_le(a: &Vec<u8>, b: &Vec<u8>) -> (r: bool)
    ensures
        r == lex_le(a@, b@),
{
    let mut i: usize = 0;
    while i < a.len() && i < b.len()
        invariant
            i <= a@.len(),
            i <= b@.len(),
            forall|t: int| 0 <= t < i ==> a@[t] == b@[t],
        decreases a@.len() - i,
    {
        if a[i] < b[i] {
            return true;
        }
        if a[i] > b[i] {
            proof {
                if lex_le(a@, b@) {
                    if a@.len() <= b@.len() && (forall|t: int|
                        0 <= t < a@.len() ==> a@[t] == b@[t]) {
                        assert(a@[i as int] == b@[i as int]);
                    } else {
                        let t = choose|t: int|
                            0 <= t < a@.len() && t < b@.len() && a@[t] < b@[t] && (forall|u: int|
                                0 <= u < t ==> a@[u] == b@[u]);
                        if t > i {
                            assert(a@[i as int] == b@[i as int]);
                        }
                    }
                    assert(false);
                }
            }
            return false;
        }
        i = i + 1;
    }
    if a.len() <= b.len() {
        true
    } else {
        proof {
            if lex_le(a@, b@) {
                if a@.len() <= b@.len() && (forall|t: int| 0 <= t < a@.len() ==> a@[t] == b@[t]) {
                } else {
                    let t = choose|t: int|
                        0 <= t < a@.len() && t < b@.len() && a@[t] < b@[t] && (forall|u: int|
                            0 <= u < t ==> a@[u] == b@[u]);
                    assert(a@[t] == b@[t]);
                }
                assert(false);
            }
        }
        false
    }
}

/// Executable byte string equality.
fn bytes_eq(a: &Vec<u8>, b: &Vec<u8>) -> (r: bool)
    ensures
        r == (a@ == b@),
{
    if a.len() != b.len() {
        return false;
    }
    let mut i: usize = 0;
    while i < a.len()
        invariant
            a@.len() == b@.len(),
            i <= a@.len(),
            forall|t: int| 0 <= t < i ==> a@[t] == b@[t],
        decreases a@.len() - i,
    {
        if a[i] != b[i] {
            return false;
        }
        i = i + 1;
    }
    proof {
        assert(a@ =~= b@);
    }
    true
}

fn clone_bytes(src: &Vec<u8>) -> (r: Vec<u8>)
    ensures
        r@ == src@,
{
    let mut r: Vec<u8> = Vec::new();
    let mut i: usize = 0;
    while i < src.len()
        invariant
            i <= src@.len(),
            r@ == src@.subrange(0, i as int),
        decreases src@.len() - i,
    {
        r.push(src[i]);
        i = i + 1;
    }
    proof {
        assert(r@ =~= src@);
    }
    r
}

/// One mixing step of the rolling 64-bit hash.
pub open spec fn mix(h: u64, x: u64) -> u64 {
    (h ^ x).wrapping_mul(0x100000001b3u64)
}

/// The rolling hash folded over a byte string.
pub open spec fn hash_bytes(h: u64, s: Seq<u8>) -> u64
    decreases s.len(),
{
    if s.len() == 0 {
        h
    } else {
        mix(hash_bytes(h, s.drop_last()), s.last() as u64)
    }
}

fn hash_bytes_exec(h0: u64, s: &Vec<u8>) -> (r: u64)
    ensures
        r == hash_bytes(h0, s@),
{
    let mut h = h0;
    let mut i: usize = 0;
    while i < s.len()
        invariant
            i <= s@.len(),
            h == hash_bytes(h0, s@.subrange(0, i as int)),
        decreases s@.len() - i,
    {
        h = (h ^ (s[i] as u64)).wrapping_mul(0x100000001b3u64);
        proof {
            assert(s@.subrange(0, i + 1).drop_last() =~= s@.subrange(0, i as int));
            assert(s@.subrange(0, i + 1).last() == s@[i as int]);
        }
        i = i + 1;
    }
    proof {
        assert(s@.subrange(0, s@.len() as int) =~= s@);
    }
    h
}

/// Folds one file into the rolling hash: its path length, path bytes,
/// content length, and content bytes, so that no two distinct framings
/// collide trivially.
pub open spec fn hash_file(h: u64, f: FileInput) -> u64 {
    hash_bytes(mix(hash_bytes(mix(h, f.path@.len() as u64), f.path@), f.content@.len() as u64), f.content@)
}

/// The digest of a list of files, folded left to right.
pub open spec fn spec_digest(s: Seq<FileInput>) -> u64
    decreases s.len(),
{
    if s.len() == 0 {
        0xcbf29ce484222325u64
    } else {
        hash_file(spec_digest(s.drop_last()), s.last())
    }
}

/// The paths of a list of files.
pub open spec fn paths_of(s: Seq<FileInput>) -> Seq<Seq<u8>> {
    s.map_values(|f: FileInput| f.path@)
}

/// Inserts a file into a path-ordered list, before the first entry whose
/// path does not precede it.
pub open spec fn sorted_insert(s: Seq<FileInput>, f: FileInput) -> Seq<FileInput>
    decreases s.len(),
{
    if s.len() == 0 {
        seq![f]
    } else if lex_le(s[0].path@, f.path@) {
        seq![s[0]] + sorted_insert(s.drop_first(), f)
    } else {
        seq![f] + s
    }
}

/// The canonical (path-ordered) form of a list of files.
pub open spec fn canon(s: Seq<FileInput>) -> Seq<FileInput>
    decreases s.len(),
{
    if s.len() == 0 {
        Seq::empty()
    } else {
        sorted_insert(canon(s.drop_first()), s[0])
    }
}

proof fn lemma_sorted_insert_split(s: Seq<FileInput>, f: FileInput, p: int)
    requires
        0 <= p <= s.len(),
        forall|t: int| 0 <= t < p ==> lex_le(s[t].path@, f.path@),
        p < s.len() ==> !lex_le(s[p].path@, f.path@),
    ensures
        sorted_insert(s, f) == s.insert(p, f),
    decreases s.len(),
{
    if s.len() == 0 {
        assert(sorted_insert(s, f) =~= s.insert(0, f));
    } else if p == 0 {
        assert(!lex_le(s[0].path@, f.path@));
        assert(sorted_insert(s, f) =~= s.insert(0, f));
    } else {
        assert(lex_le(s[0].path@, f.path@));
        lemma_sorted_insert_split(s.drop_first(), f, p - 1);
        assert(seq![s[0]] + s.drop_first().insert(p - 1, f) =~= s.insert(p, f));
    }
}

proof fn lemma_sorted_insert_multiset(s: Seq<FileInput>, f: FileInput)
    ensures
        paths_of(sorted_insert(s, f)).to_multiset() =~= paths_of(s).to_multiset().insert(f.path@),
    decreases s.len(),
{
    broadcast use vstd::seq_lib::group_to_multiset_ensures;

    if s.len() == 0 {
        assert(paths_of(sorted_insert(s, f)) =~= Seq::<Seq<u8>>::empty().push(f.path@));
        assert(paths_of(s) =~= Seq::<Seq<u8>>::empty());
    } else if lex_le(s[0].path@, f.path@) {
        lemma_sorted_insert_multiset(s.drop_first(), f);
        assert(paths_of(sorted_insert(s, f)) =~= seq![s[0].path@] + paths_of(
            sorted_insert(s.drop_first(), f),
        ));
        vstd::seq_lib::lemma_multiset_commutative(
            seq![s[0].path@],
            paths_of(sorted_insert(s.drop_first(), f)),
        );
        assert(paths_of(s) =~= seq![s[0].path@] + paths_of(s.drop_first()));
        vstd::seq_lib::lemma_multiset_commutative(seq![s[0].path@], paths_of(s.drop_first()));
    } else {
        assert(paths_of(sorted_insert(s, f)) =~= seq![f.path@] + paths_of(s));
        vstd::seq_lib::lemma_multiset_commutative(seq![f.path@], paths_of(s));
        assert(seq![f.path@] =~= Seq::<Seq<u8>>::empty().push(f.path@));
    }
}

/// Canonicalization keeps exactly the same multiset of paths: file-set
/// membership survives the reordering.
pub proof fn lemma_canon_paths_multiset(s: Seq<FileInput>)
    ensures
        paths_of(canon(s)).to_multiset() =~= paths_of(s).to_multiset(),
    decreases s.len(),
{
    broadcast use vstd::seq_lib::group_to_multiset_ensures;

    if s.len() > 0 {
        lemma_canon_paths_multiset(s.drop_first());
        lemma_sorted_insert_multiset(canon(s.drop_first()), s[0]);
        assert(paths_of(s) =~= seq![s[0].path@] + paths_of(s.drop_first()));
        vstd::seq_lib::lemma_multiset_commutative(seq![s[0].path@], paths_of(s.drop_first()));
        assert(seq![s[0].path@] =~= Seq::<Seq<u8>>::empty().push(s[0].path@));
    }
}

/// Brings the files into canonical (path-ordered) form.
pub fn sort_files(files: Vec<FileInput>) -> (r: Vec<FileInput>)
    ensures
        r@ == canon(files@),
{
    let ghost orig = files@;
    let mut files = files;
    let mut acc: Vec<FileInput> = Vec::new();
    proof {
        assert(files@ =~= orig.subrange(0, files@.len() as int));
        assert(acc@ =~= canon(orig.subrange(files@.len() as int, orig.len() as int)));
    }
    while files.len() > 0
        invariant
            files@.len() <= orig.len(),
            files@ == orig.subrange(0, files@.len() as int),
            acc@ == canon(orig.subrange(files@.len() as int, orig.len() as int)),
        decreases files@.len(),
    {
        let ghost pre = files@;
        let f = match files.pop() {
            Some(f) => f,
            None => {
                proof {
                    assert(false);
                }
                return acc;
            },
        };
        proof {
            assert(f == pre.last());
            assert(files@ =~= pre.drop_last());
            assert(files@ =~= orig.subrange(0, files@.len() as int));
        }
        // find the insertion position
        let mut p: usize = 0;
        let n = acc.len();
        while p < n && bytes_le(&acc[p].path, &f.path)
            invariant
                n == acc@.len(),
                p <= n,
                forall|t: int| 0 <= t < p ==> lex_le(acc@[t].path@, f.path@),
            decreases n - p,
        {
            p = p + 1;
        }
        proof {
            lemma_sorted_insert_split(acc@, f, p as int);
        }
        acc.insert(p, f);
        proof {
            let rest = orig.subrange(files@.len() as int, orig.len() as int);
            assert(rest.drop_first() =~= orig.subrange(files@.len() as int + 1, orig.len() as int));
            assert(rest[0] == orig[files@.len() as int]);
            assert(pre.last() == orig[pre.len() - 1]);
            assert(rest[0] == f);
            assert(acc@ == canon(rest));
        }
    }
    proof {
        assert(orig.subrange(0, orig.len() as int) =~= orig);
    }
    acc
}

/// Computes the digest of an already-canonicalized list of files.
pub fn digest_files(files: &Vec<FileInput>) -> (r: u64)
    ensures
        r == spec_digest(files@),
{
    let mut h: u64 = 0xcbf29ce484222325u64;
    let mut i: usize = 0;
    while i < files.len()
        invariant
            i <= files@.len(),
            h == spec_digest(files@.subrange(0, i as int)),
        decreases files@.len() - i,
    {
        let f = &files[i];
        let mut x = (h ^ (f.path.len() as u64)).wrapping_mul(0x100000001b3u64);
        x = hash_bytes_exec(x, &f.path);
        x = (x ^ (f.content.len() as u64)).wrapping_mul(0x100000001b3u64);
        x = hash_bytes_exec(x, &f.content);
        proof {
            assert(files@.subrange(0, i + 1).drop_last() =~= files@.subrange(0, i as int));
            assert(files@.subrange(0, i + 1).last() == files@[i as int]);
        }
        h = x;
        i = i + 1;
    }
    proof {
        assert(files@.subrange(0, files@.len() as int) =~= files@);
    }
    h
}

/// One persisted cache entry: the key, the canonical path list of the
/// recorded input-file set, and the digest over paths and content.
pub struct FpEntry {
    pub key: Vec<u8>,
    pub paths: Vec<Vec<u8>>,
    pub digest: u64,
}

/// The views of a stored path list.
pub open spec fn views_of(s: Seq<Vec<u8>>) -> Seq<Seq<u8>> {
    s.map_values(|p: Vec<u8>| p@)
}

/// The fingerprint store: a mapping, keyed by command/package key, from the
/// recorded input-file set to its digest.
pub struct Fingerprints {
    pub entries: Vec<FpEntry>,
}

impl Fingerprints {
    /// Keys are unique.
    pub open spec fn wf(self) -> bool {
        forall|i: int, j: int|
            0 <= i < self.entries@.len() && 0 <= j < self.entries@.len() && i != j ==> (
            #[trigger] self.entries@[i]).key@ != (#[trigger] self.entries@[j]).key@
    }

    /// The store holds, under this key, exactly the canonical paths and the
    /// digest of these files: a check of this key against these files
    /// succeeds.
    pub open spec fn spec_check(self, key: Seq<u8>, files: Seq<FileInput>) -> bool {
        exists|i: int|
            0 <= i < self.entries@.len() && (#[trigger] self.entries@[i]).key@ == key && views_of(
                self.entries@[i].paths@,
            ) == paths_of(canon(files)) && self.entries@[i].digest == spec_digest(canon(files))
    }

    /// A cold, empty store.
    pub fn new() -> (r: Fingerprints)
        ensures
            r.wf(),
            r.entries@.len() == 0,
    {
        Fingerprints { entries: Vec::new() }
    }

    /// Rebuilds a store from persisted entries. Duplicate keys mean the
    /// file was corrupt: a cache error, returned exactly then, which callers
    /// recover from by starting cold.
    pub fn from_entries(entries: Vec<FpEntry>) -> (r: Result<Fingerprints, Error>)
        ensures
            match r {
                Ok(st) => st.wf() && st.entries@ == entries@,
                Err(e) => e is CacheError,
            },
            r is Err <==> exists|i: int, j: int|
                0 <= i < j < entries@.len() && (#[trigger] entries@[i]).key@ == (
                #[trigger] entries@[j]).key@,
    {
        let mut i: usize = 0;
        while i < entries.len()
            invariant
                i <= entries@.len(),
                forall|a: int, b: int|
                    0 <= a < i && 0 <= b < i && a != b ==> (#[trigger] entries@[a]).key@ != (
                    #[trigger] entries@[b]).key@,
            decreases entries@.len() - i,
        {
            let mut j: usize = 0;
            while j < i
                invariant
                    j <= i,
                    i < entries@.len(),
                    forall|b: int| 0 <= b < j ==> (#[trigger] entries@[b]).key@ != entries@[i as int].key@,
                decreases i - j,
            {
                if bytes_eq(&entries[j].key, &entries[i].key) {
                    return Err(
                        Error::CacheError { message: String::new() },
                    );
                }
                j = j + 1;
            }
            i = i + 1;
        }
        Ok(Fingerprints { entries })
    }

    /// The position of the entry with this key, if one exists.
    fn find_entry(&self, key: &Vec<u8>) -> (r: Option<usize>)
        ensures
            match r {
                Some(i) => i < self.entries@.len() && self.entries@[i as int].key@ == key@,
                None => forall|i: int|
                    0 <= i < self.entries@.len() ==> (#[trigger] self.entries@[i]).key@ != key@,
            },
    {
        let mut i: usize = 0;
        while i < self.entries.len()
            invariant
                i <= self.entries@.len(),
                forall|t: int| 0 <= t < i ==> (#[trigger] self.entries@[t]).key@ != key@,
            decreases self.entries@.len() - i,
        {
            if bytes_eq(&self.entries[i].key, key) {
                return Some(i);
            }
            i = i + 1;
        }
        None
    }

    /// Whether the work under `key` may be skipped: true exactly when the
    /// stored entry matches the current files' canonical path list and
    /// digest — any added, removed or renamed file, and any content change
    /// the digest reflects, makes this false.
    pub fn check(&self, key: &Vec<u8>, files: Vec<FileInput>) -> (r: bool)
        requires
            self.wf(),
        ensures
            r == self.spec_check(key@, files@),
    {
        let sorted = sort_files(files);
        let dg = digest_files(&sorted);
        match self.find_entry(key) {
            None => false,
            Some(i) => {
                let entry = &self.entries[i];
                if entry.digest != dg {
                    proof {
                        assert forall|j: int|
                            0 <= j < self.entries@.len() && (#[trigger] self.entries@[j]).key@
                                == key@ implies j == i as int by {};
                    }
                    return false;
                }
                if entry.paths.len() != sorted.len() {
                    proof {
                        assert forall|j: int|
                            0 <= j < self.entries@.len() && (#[trigger] self.entries@[j]).key@
                                == key@ implies j == i as int by {};
                        assert(views_of(self.entries@[i as int].paths@).len() == self.entries@[
                            i as int
                        ].paths@.len());
                    }
                    return false;
                }
                let mut t: usize = 0;
                let n = sorted.len();
                while t < n
                    invariant
                        self.wf(),
                        i < self.entries@.len(),
                        self.entries@[i as int].key@ == key@,
                        sorted@ == canon(files@),
                        n == sorted@.len(),
                        self.entries@[i as int].paths@.len() == n,
                        t <= n,
                        forall|u: int|
                            0 <= u < t ==> (#[trigger] self.entries@[i as int].paths@[u])@
                                == sorted@[u].path@,
                    decreases n - t,
                {
                    if !bytes_eq(&self.entries[i].paths[t], &sorted[t].path) {
                        proof {
                            assert(views_of(self.entries@[i as int].paths@)[t as int] != paths_of(
                                sorted@,
                            )[t as int]);
                            assert forall|j: int|
                                0 <= j < self.entries@.len() && (#[trigger] self.entries@[j]).key@
                                    == key@ implies j == i as int by {};
                        }
                        return false;
                    }
                    t = t + 1;
                }
                proof {
                    assert(views_of(self.entries@[i as int].paths@) =~= paths_of(sorted@));
                }
                true
            },
        }
    }

    /// Records the current digest and canonical path list of `files` under
    /// `key`, after a successful run. A check of the same key against
    /// unchanged files then succeeds, and entries under other keys are
    /// untouched.
    pub fn record(&mut self, key: Vec<u8>, files: Vec<FileInput>)
        requires
            old(self).wf(),
        ensures
            final(self).wf(),
            final(self).spec_check(key@, files@),
            forall|i: int|
                0 <= i < old(self).entries@.len() && (#[trigger] old(self).entries@[i]).key@ != key@
                    ==> i < final(self).entries@.len() && final(self).entries@[i] == old(
                    self,
                ).entries@[i],
    {
        let sorted = sort_files(files);
        let dg = digest_files(&sorted);
        let mut paths: Vec<Vec<u8>> = Vec::new();
        let mut t: usize = 0;
        while t < sorted.len()
            invariant
                t <= sorted@.len(),
                paths@.len() == t,
                forall|u: int| 0 <= u < t ==> (#[trigger] paths@[u])@ == sorted@[u].path@,
            decreases sorted@.len() - t,
        {
            paths.push(clone_bytes(&sorted[t].path));
            t = t + 1;
        }
        proof {
            assert(views_of(paths@) =~= paths_of(sorted@));
        }
        let entry = FpEntry { key, paths, digest: dg };
        let ghost e = entry;
        match self.find_entry(&entry.key) {
            Some(i) => {
                self.entries.set(i, entry);
                proof {
                    assert(self.entries@[i as int] == e);
                    assert(views_of(e.paths@) == paths_of(canon(files@)));
                    assert(self.spec_check(e.key@, files@));
                }
            },
            None => {
                let ghost w = self.entries@.len() as int;
                self.entries.push(entry);
                proof {
                    assert(self.entries@[w] == e);
                    assert(views_of(e.paths@) == paths_of(canon(files@)));
                    assert(self.spec_check(e.key@, files@));
                }
            },
        }
    }
}

/// Adding or removing a file invalidates the cache: if the recorded key
/// matches one input-file set, it cannot also match one whose multiset of
/// paths differs.
pub proof fn law_changed_file_set_invalidates(
    st: Fingerprints,
    key: Seq<u8>,
    files1: Seq<FileInput>,
    files2: Seq<FileInput>,
)
    requires
        st.wf(),
        paths_of(files1).to_multiset() != paths_of(files2).to_multiset(),
        st.spec_check(key, files1),
    ensures
        !st.spec_check(key, files2),
{
    if st.spec_check(key, files2) {
        let i1 = choose|i: int|
            0 <= i < st.entries@.len() && (#[trigger] st.entries@[i]).key@ == key && views_of(
                st.entries@[i].paths@,
            ) == paths_of(canon(files1)) && st.entries@[i].digest == spec_digest(canon(files1));
        let i2 = choose|i: int|
            0 <= i < st.entries@.len() && (#[trigger] st.entries@[i]).key@ == key && views_of(
                st.entries@[i].paths@,
            ) == paths_of(canon(files2)) && st.entries@[i].digest == spec_digest(canon(files2));
        assert(i1 == i2);
        assert(paths_of(canon(files1)) == paths_of(canon(files2)));
        lemma_canon_paths_multiset(files1);
        lemma_canon_paths_multiset(files2);
        assert(paths_of(files1).to_multiset() =~= paths_of(canon(files1)).to_multiset());
        assert(false);
    }
}

} // verus!
