use vstd::prelude::*;
use vstd::seq_lib::lemma_sorted_unique;

use crate::algorithm::HashAlg;
use crate::bytes::push_all;
use crate::content_id::{ContentId, blob_hex_of, blob_line, id_of};
use crate::manifest::{Manifest, ManifestView, SealedManifest, doc_of, manifest_wf};
use crate::order::{digest_order, lemma_digest_order_total, lemma_is_sorted_by};
use crate::store::{ObjectStore, ObjectWrite, put_of};

verus! {

broadcast use vstd::seq_lib::group_to_multiset_ensures, vstd::multiset::group_multiset_axioms;

/// The digests of `contents` under `alg`, in the same order.
pub open spec fn digests_of(alg: HashAlg, contents: Seq<Seq<u8>>) -> Seq<Seq<u8>> {
    contents.map_values(|c: Seq<u8>| blob_hex_of(alg, c))
}

/// The manifest document of a run under `alg` over files with `contents`:
/// the header, then a line per file, sorted by digest.
pub open spec fn manifest_doc_of(alg: HashAlg, contents: Seq<Seq<u8>>) -> Seq<u8> {
    doc_of(alg, digests_of(alg, contents).sort_by(digest_order()))
}

/// A regular file of the tree, as reported: its path and its identifier
/// under each algorithm of the run, in the run's order.
#[derive(Debug)]
pub struct FileEntry {
    pub path: String,
    pub ids: Vec<ContentId>,
}

/// A file that could not be read, and why; the run went on without it.
#[derive(Debug)]
pub struct Skip {
    pub path: String,
    pub reason: String,
}

/// What the caller found at one path of the tree.
#[derive(Debug)]
pub enum FileOutcome {
    Read { path: String, content: Vec<u8> },
    Failed { path: String, reason: String },
}

/// The contents of the files that could be read, in order.
pub open spec fn read_contents(os: Seq<FileOutcome>) -> Seq<Seq<u8>>
    decreases os.len(),
{
    if os.len() == 0 {
        Seq::empty()
    } else {
        match os.last() {
            FileOutcome::Read { content, .. } => read_contents(os.drop_last()).push(content@),
            FileOutcome::Failed { .. } => read_contents(os.drop_last()),
        }
    }
}

/// The number of files that could not be read.
pub open spec fn failed_count(os: Seq<FileOutcome>) -> nat
    decreases os.len(),
{
    if os.len() == 0 {
        0
    } else {
        match os.last() {
            FileOutcome::Read { .. } => failed_count(os.drop_last()),
            FileOutcome::Failed { .. } => failed_count(os.drop_last()) + 1,
        }
    }
}

/// The outcome of a run: the files processed, the files skipped, one
/// sealed manifest per algorithm, and the writes that store those
/// manifests.
#[derive(Debug)]
pub struct RunReport {
    pub files: Vec<FileEntry>,
    pub skipped: Vec<Skip>,
    pub manifests: Vec<SealedManifest>,
    pub writes: Vec<ObjectWrite>,
}

/// One run over a tree, under one or more algorithms. The caller walks the
/// tree, reads each regular file and hands over its bytes, or the reason it
/// could not be read; the run says which objects to store, and keeps one
/// manifest per algorithm.
pub struct TreeRun {
    store: ObjectStore,
    algs: Vec<HashAlg>,
    manifests: Vec<Manifest>,
    files: Vec<FileEntry>,
    skipped: Vec<Skip>,
    contents: Ghost<Seq<Seq<u8>>>,
}

impl TreeRun {
    /// The root of the object store.
    pub closed spec fn root(&self) -> Seq<u8> {
        self.store@
    }

    /// The algorithms of the run.
    pub closed spec fn algs(&self) -> Seq<HashAlg> {
        self.algs@
    }

    /// The manifests, one per algorithm, in the same order.
    pub closed spec fn manifests(&self) -> Seq<ManifestView> {
        self.manifests@.map_values(|m: Manifest| m@)
    }

    /// The contents of the files processed so far, in the order given.
    pub closed spec fn contents(&self) -> Seq<Seq<u8>> {
        self.contents@
    }

    /// The report entries of the files processed so far.
    pub closed spec fn files(&self) -> Seq<FileEntry> {
        self.files@
    }

    /// The files skipped so far, with their reasons.
    pub closed spec fn skipped(&self) -> Seq<Skip> {
        self.skipped@
    }

    /// The number of files skipped so far.
    pub open spec fn skipped_count(&self) -> nat {
        self.skipped().len()
    }

    /// Each manifest is well formed and lists, for its algorithm, the
    /// digest of every file processed, once per file; each processed file
    /// is reported with its identifiers.
    pub closed spec fn wf(&self) -> bool {
        &&& self.manifests@.len() == self.algs@.len()
        &&& forall|k: int| 0 <= k < self.algs@.len() ==> {
            &&& (#[trigger] self.manifests@[k])@.alg == self.algs@[k]
            &&& manifest_wf(self.manifests@[k]@)
            &&& self.manifests@[k]@.entries.to_multiset()
                == digests_of(self.algs@[k], self.contents@).to_multiset()
        }
        &&& self.files@.len() == self.contents@.len()
        &&& forall|i: int| 0 <= i < self.files@.len() ==> {
            &&& (#[trigger] self.files@[i]).ids@.len() == self.algs@.len()
            &&& forall|k: int| 0 <= k < self.algs@.len() ==> {
                &&& (#[trigger] self.files@[i].ids@[k])@ == id_of(self.algs@[k], self.contents@[i])
                &&& self.files@[i].ids@[k].wf()
            }
        }
    }

    /// Starts a run that stores objects under `store_root` and keeps one
    /// manifest for each of `algs`.
    pub fn new(store_root: &[u8], algs: Vec<HashAlg>) -> (r: TreeRun)
        ensures
            r.wf(),
            r.root() == store_root@,
            r.algs() == algs@,
            r.contents() == Seq::<Seq<u8>>::empty(),
            r.skipped_count() == 0,
    {
        let mut manifests: Vec<Manifest> = Vec::new();
        let mut k: usize = 0;
        while k < algs.len()
            invariant
                0 <= k <= algs@.len(),
                manifests@.len() == k,
                forall|j: int| 0 <= j < k ==> {
                    &&& (#[trigger] manifests@[j])@.alg == algs@[j]
                    &&& manifests@[j]@.entries == Seq::<Seq<u8>>::empty()
                    &&& manifest_wf(manifests@[j]@)
                },
            decreases algs@.len() - k,
        {
            manifests.push(Manifest::open(algs[k]));
            k = k + 1;
        }
        let r = TreeRun {
            store: ObjectStore::new(store_root),
            algs,
            manifests,
            files: Vec::new(),
            skipped: Vec::new(),
            contents: Ghost(Seq::empty()),
        };
        assert forall|k: int| 0 <= k < r.algs@.len() implies
            (#[trigger] r.manifests@[k])@.entries.to_multiset()
                == digests_of(r.algs@[k], r.contents@).to_multiset() by {
            assert(digests_of(r.algs@[k], r.contents@) =~= Seq::<Seq<u8>>::empty());
        }
        r
    }

    /// The object store of the run.
    pub fn store(&self) -> (r: &ObjectStore)
        ensures
            r@ == self.root(),
    {
        &self.store
    }

    /// Number of files processed so far.
    pub fn files_processed(&self) -> (r: usize)
        requires
            self.wf(),
        ensures
            r == self.contents().len(),
    {
        self.files.len()
    }

    /// The report entry of the `i`-th file processed.
    pub fn file(&self, i: usize) -> (r: &FileEntry)
        requires
            i < self.files().len(),
        ensures
            *r == self.files()[i as int],
    {
        &self.files[i]
    }

    /// Number of files skipped so far.
    pub fn files_skipped(&self) -> (r: usize)
        ensures
            r == self.skipped_count(),
    {
        self.skipped.len()
    }

    /// Processes a regular file at `path` with bytes `content`: computes
    /// its identifier under each algorithm, adds each to that algorithm's
    /// manifest, and returns, in the order of the algorithms, the writes
    /// that store each identifier's record `"blob " + hex + "\n"`.
    pub fn add_file(&mut self, path: String, content: &[u8]) -> (writes: Vec<ObjectWrite>)
        requires
            old(self).wf(),
        ensures
            final(self).wf(),
            final(self).root() == old(self).root(),
            final(self).algs() == old(self).algs(),
            final(self).contents() == old(self).contents().push(content@),
            final(self).skipped() == old(self).skipped(),
            final(self).files().last().path == path,
            writes@.len() == old(self).algs().len(),
            forall|k: int| 0 <= k < writes@.len() ==> (#[trigger] writes@[k])@ == put_of(
                old(self).root(),
                blob_hex_of(old(self).algs()[k], content@),
                blob_line(blob_hex_of(old(self).algs()[k], content@)),
            ),
    {
        let ghost c = content@;
        let ghost new_contents = self.contents@.push(c);
        let mut writes: Vec<ObjectWrite> = Vec::new();
        let mut ids: Vec<ContentId> = Vec::new();
        let mut k: usize = 0;
        while k < self.algs.len()
            invariant
                self.store == old(self).store,
                self.algs == old(self).algs,
                self.files == old(self).files,
                self.skipped == old(self).skipped,
                self.contents == old(self).contents,
                old(self).wf(),
                c == content@,
                new_contents == old(self).contents@.push(c),
                0 <= k <= self.algs@.len(),
                self.manifests@.len() == self.algs@.len(),
                forall|j: int| 0 <= j < k ==> {
                    &&& (#[trigger] self.manifests@[j])@.alg == self.algs@[j]
                    &&& manifest_wf(self.manifests@[j]@)
                    &&& self.manifests@[j]@.entries.to_multiset()
                        == digests_of(self.algs@[j], new_contents).to_multiset()
                },
                forall|j: int| k <= j < self.algs@.len() ==> #[trigger] self.manifests@[j] == old(self).manifests@[j],
                ids@.len() == k,
                forall|j: int| 0 <= j < k ==> {
                    &&& (#[trigger] ids@[j])@ == id_of(self.algs@[j], c)
                    &&& ids@[j].wf()
                },
                writes@.len() == k,
                forall|j: int| 0 <= j < k ==> (#[trigger] writes@[j])@ == put_of(
                    self.store@,
                    blob_hex_of(self.algs@[j], c),
                    blob_line(blob_hex_of(self.algs@[j], c)),
                ),
            decreases self.algs@.len() - k,
        {
            let alg = self.algs[k];
            let id = ContentId::of_blob(alg, content);
            writes.push(self.store.put_blob_record(&id));
            let ghost prev = self.manifests@;
            let ghost prev_ids = ids@;
            let mut m = self.manifests.remove(k);
            let ghost m0 = m@;
            proof {
                assert(old(self).manifests@[k as int] == m);
                assert(m0.entries.to_multiset() == digests_of(alg, old(self).contents@).to_multiset());
            }
            m.append(&id);
            self.manifests.insert(k, m);
            proof {
                assert(self.manifests@ =~= prev.update(k as int, m));
                let ds = digests_of(alg, old(self).contents@);
                assert(digests_of(alg, new_contents) =~= ds.push(blob_hex_of(alg, c)));
                assert(ds.push(blob_hex_of(alg, c)).to_multiset() == ds.to_multiset().insert(blob_hex_of(alg, c)));
                assert(m@.entries.to_multiset() == digests_of(alg, new_contents).to_multiset());
            }
            ids.push(id);
            proof {
                assert forall|j: int| 0 <= j <= k implies {
                    &&& (#[trigger] ids@[j])@ == id_of(self.algs@[j], c)
                    &&& ids@[j].wf()
                } by {
                    if j < k {
                        assert(ids@[j] == prev_ids[j]);
                    }
                }
                assert forall|j: int| 0 <= j <= k implies {
                    &&& (#[trigger] self.manifests@[j])@.alg == self.algs@[j]
                    &&& manifest_wf(self.manifests@[j]@)
                    &&& self.manifests@[j]@.entries.to_multiset()
                        == digests_of(self.algs@[j], new_contents).to_multiset()
                } by {
                    if j < k {
                        assert(self.manifests@[j] == prev[j]);
                    }
                }
            }
            k = k + 1;
        }
        self.files.push(FileEntry { path, ids });
        self.contents = Ghost(new_contents);
        proof {
            assert forall|i: int| 0 <= i < self.files@.len() implies {
                &&& (#[trigger] self.files@[i]).ids@.len() == self.algs@.len()
                &&& forall|k: int| 0 <= k < self.algs@.len() ==> {
                    &&& (#[trigger] self.files@[i].ids@[k])@ == id_of(self.algs@[k], self.contents@[i])
                    &&& self.files@[i].ids@[k].wf()
                }
            } by {
                if i < old(self).files@.len() {
                    assert(self.files@[i] == old(self).files@[i]);
                    assert(self.contents@[i] == old(self).contents@[i]);
                }
            }
        }
        writes
    }

    /// Records that the file at `path` could not be read, and why. The run
    /// goes on: the manifests are unchanged.
    pub fn skip_file(&mut self, path: String, reason: String)
        requires
            old(self).wf(),
        ensures
            final(self).wf(),
            final(self).root() == old(self).root(),
            final(self).algs() == old(self).algs(),
            final(self).manifests() == old(self).manifests(),
            final(self).contents() == old(self).contents(),
            final(self).files() == old(self).files(),
            final(self).skipped() == old(self).skipped().push((Skip { path, reason })),
    {
        self.skipped.push(Skip { path, reason });
    }

    /// Ends the run: seals each manifest and returns the report, with the
    /// write that stores each manifest document under its own identifier.
    /// Manifest `k` lists the digests under algorithm `k` of every file
    /// processed, sorted.
    pub fn finish(self) -> (r: RunReport)
        requires
            self.wf(),
        ensures
            r.files@ == self.files(),
            r.skipped@ == self.skipped(),
            r.manifests@.len() == self.algs().len(),
            r.writes@.len() == self.algs().len(),
            forall|k: int| 0 <= k < self.algs().len() ==> {
                &&& (#[trigger] r.manifests@[k]).doc@ == manifest_doc_of(self.algs()[k], self.contents())
                &&& r.manifests@[k].id@ == id_of(self.algs()[k], r.manifests@[k].doc@)
                &&& r.manifests@[k].id.wf()
                &&& r.writes@[k]@ == put_of(self.root(), r.manifests@[k].id@.hex, r.manifests@[k].doc@)
            },
    {
        let ghost run = self;
        let TreeRun { store, algs, manifests, files, skipped, contents } = self;
        let ghost all = manifests@;
        let mut rest = manifests;
        let mut sealed: Vec<SealedManifest> = Vec::new();
        let mut writes: Vec<ObjectWrite> = Vec::new();
        let mut k: usize = 0;
        proof {
            lemma_digest_order_total();
        }
        while k < algs.len()
            invariant
                run.wf(),
                all == run.manifests@,
                algs@ == run.algs@,
                store@ == run.store@,
                contents@ == run.contents@,
                0 <= k <= algs@.len(),
                rest@ == all.subrange(k as int, all.len() as int),
                sealed@.len() == k,
                writes@.len() == k,
                vstd::relations::total_ordering(digest_order()),
                forall|j: int| 0 <= j < k ==> {
                    &&& (#[trigger] sealed@[j]).doc@ == manifest_doc_of(algs@[j], contents@)
                    &&& sealed@[j].id@ == id_of(algs@[j], sealed@[j].doc@)
                    &&& sealed@[j].id.wf()
                    &&& writes@[j]@ == put_of(store@, sealed@[j].id@.hex, sealed@[j].doc@)
                },
            decreases algs@.len() - k,
        {
            let m = rest.remove(0);
            proof {
                assert(m == all[k as int]);
                let ds = digests_of(algs@[k as int], contents@);
                let sorted = ds.sort_by(digest_order());
                ds.lemma_sort_by_ensures(digest_order());
                lemma_is_sorted_by(m@.entries);
                lemma_sorted_unique(m@.entries, sorted, digest_order());
                assert(rest@ =~= all.subrange(k + 1, all.len() as int));
            }
            let s = m.seal();
            let mut doc: Vec<u8> = Vec::new();
            push_all(&mut doc, s.doc.as_slice());
            writes.push(store.put(&s.id, doc));
            let ghost prev = sealed@;
            sealed.push(s);
            proof {
                assert forall|j: int| 0 <= j < k implies #[trigger] sealed@[j] == prev[j] by {}
            }
            k = k + 1;
        }
        RunReport { files, skipped, manifests: sealed, writes }
    }
}

/// Runs the whole pipeline over the outcomes of a walk of a tree, in the
/// order walked: each file read is processed, each failure is recorded and
/// skipped. Returns the writes of each processed file's records (one per
/// algorithm, in the order of `algs`) and the report with the sealed
/// manifests.
pub fn run_tree(store_root: &[u8], algs: Vec<HashAlg>, outcomes: &[FileOutcome]) -> (r: (
    Vec<Vec<ObjectWrite>>,
    RunReport,
))
    ensures
        ({
            let (file_writes, report) = r;
            let contents = read_contents(outcomes@);
            &&& report.files@.len() == contents.len()
            &&& report.skipped@.len() == failed_count(outcomes@)
            &&& file_writes@.len() == contents.len()
            &&& forall|i: int, k: int| 0 <= i < contents.len() && 0 <= k < algs@.len() ==> {
                &&& (#[trigger] file_writes@[i]@[k])@ == put_of(
                    store_root@,
                    blob_hex_of(algs@[k], contents[i]),
                    blob_line(blob_hex_of(algs@[k], contents[i])),
                )
                &&& report.files@[i].ids@[k]@ == id_of(algs@[k], contents[i])
            }
            &&& forall|i: int| 0 <= i < contents.len() ==> (#[trigger] file_writes@[i])@.len() == algs@.len()
            &&& report.manifests@.len() == algs@.len()
            &&& report.writes@.len() == algs@.len()
            &&& forall|k: int| 0 <= k < algs@.len() ==> {
                &&& (#[trigger] report.manifests@[k]).doc@ == manifest_doc_of(algs@[k], contents)
                &&& report.manifests@[k].id@ == id_of(algs@[k], report.manifests@[k].doc@)
                &&& report.writes@[k]@ == put_of(store_root@, report.manifests@[k].id@.hex, report.manifests@[k].doc@)
            }
        }),
{
    let ghost alg_seq = algs@;
    let mut run = TreeRun::new(store_root, algs);
    let mut file_writes: Vec<Vec<ObjectWrite>> = Vec::new();
    let mut i: usize = 0;
    while i < outcomes.len()
        invariant
            0 <= i <= outcomes@.len(),
            run.wf(),
            run.root() == store_root@,
            run.algs() == alg_seq,
            run.contents() == read_contents(outcomes@.subrange(0, i as int)),
            run.skipped_count() == failed_count(outcomes@.subrange(0, i as int)),
            file_writes@.len() == run.contents().len(),
            forall|ii: int| 0 <= ii < file_writes@.len() ==> (#[trigger] file_writes@[ii])@.len() == alg_seq.len(),
            forall|ii: int, k: int| 0 <= ii < file_writes@.len() && 0 <= k < alg_seq.len() ==>
                (#[trigger] file_writes@[ii]@[k])@ == put_of(
                    store_root@,
                    blob_hex_of(alg_seq[k], run.contents()[ii]),
                    blob_line(blob_hex_of(alg_seq[k], run.contents()[ii])),
                ),
        decreases outcomes@.len() - i,
    {
        let ghost before = run.contents();
        let ghost prev = file_writes@;
        proof {
            assert(outcomes@.subrange(0, i + 1).drop_last() =~= outcomes@.subrange(0, i as int));
        }
        match &outcomes[i] {
            FileOutcome::Read { path, content } => {
                let w = run.add_file(path.clone(), content.as_slice());
                file_writes.push(w);
                proof {
                    assert forall|ii: int, k: int| 0 <= ii < file_writes@.len() && 0 <= k < alg_seq.len() implies
                        (#[trigger] file_writes@[ii]@[k])@ == put_of(
                            store_root@,
                            blob_hex_of(alg_seq[k], run.contents()[ii]),
                            blob_line(blob_hex_of(alg_seq[k], run.contents()[ii])),
                        ) by {
                        if ii < prev.len() {
                            assert(file_writes@[ii] == prev[ii]);
                            assert(run.contents()[ii] == before[ii]);
                        }
                    }
                    assert forall|ii: int| 0 <= ii < file_writes@.len() implies (#[trigger] file_writes@[ii])@.len() == alg_seq.len() by {
                        if ii < prev.len() {
                            assert(file_writes@[ii] == prev[ii]);
                        }
                    }
                }
            },
            FileOutcome::Failed { path, reason } => {
                run.skip_file(path.clone(), reason.clone());
            },
        }
        i = i + 1;
    }
    proof {
        assert(outcomes@.subrange(0, i as int) =~= outcomes@);
    }
    let ghost contents = run.contents();
    let ghost files = run.files();
    let report = run.finish();
    proof {
        assert forall|ii: int, k: int| 0 <= ii < contents.len() && 0 <= k < alg_seq.len() implies
            (#[trigger] report.files@[ii].ids@[k])@ == id_of(alg_seq[k], contents[ii]) by {
            assert(report.files@[ii] == files[ii]);
        }
    }
    (file_writes, report)
}

proof fn lemma_map_multiset(alg: HashAlg, a: Seq<Seq<u8>>, b: Seq<Seq<u8>>)
    requires
        a.to_multiset() == b.to_multiset(),
    ensures
        digests_of(alg, a).to_multiset() == digests_of(alg, b).to_multiset(),
    decreases a.len(),
{
    if a.len() == 0 {
        assert(a.len() == a.to_multiset().len());
        assert(b.len() == b.to_multiset().len());
        assert(digests_of(alg, a) =~= Seq::<Seq<u8>>::empty());
        assert(digests_of(alg, b) =~= Seq::<Seq<u8>>::empty());
    } else {
        let x = a.last();
        let a2 = a.drop_last();
        assert(a.contains(x)) by {
            assert(a[a.len() - 1] == x);
        }
        assert(b.to_multiset().count(x) > 0);
        assert(b.contains(x));
        let i = choose|i: int| 0 <= i < b.len() && b[i] == x;
        let b2 = b.remove(i);
        assert(a.remove(a.len() - 1) =~= a2);
        assert(a2.to_multiset() == a.to_multiset().remove(x));
        assert(b2.to_multiset() == b.to_multiset().remove(x));
        lemma_map_multiset(alg, a2, b2);
        let fx = blob_hex_of(alg, x);
        assert(digests_of(alg, a) =~= digests_of(alg, a2).push(fx));
        assert(digests_of(alg, b).remove(i) =~= digests_of(alg, b2));
        assert(digests_of(alg, b)[i] == fx);
        let mb = digests_of(alg, b).to_multiset();
        assert(digests_of(alg, b2).to_multiset() == mb.remove(fx));
        assert(mb.count(fx) > 0) by {
            assert(digests_of(alg, b).contains(fx));
        }
        assert(mb =~= mb.remove(fx).insert(fx));
    }
}

/// The manifest of a run depends on what the tree holds, not on the order
/// in which it was walked nor on when: two runs over files with the same
/// contents, as many times each, find the same identifiers and produce the
/// same manifest document, with the same identifier.
pub proof fn lemma_rerun_same_manifest(alg: HashAlg, a: Seq<Seq<u8>>, b: Seq<Seq<u8>>)
    requires
        a.to_multiset() == b.to_multiset(),
    ensures
        digests_of(alg, a).to_multiset() == digests_of(alg, b).to_multiset(),
        manifest_doc_of(alg, a) == manifest_doc_of(alg, b),
        id_of(alg, manifest_doc_of(alg, a)) == id_of(alg, manifest_doc_of(alg, b)),
{
    lemma_map_multiset(alg, a, b);
    lemma_digest_order_total();
    let da = digests_of(alg, a);
    let db = digests_of(alg, b);
    da.lemma_sort_by_ensures(digest_order());
    db.lemma_sort_by_ensures(digest_order());
    lemma_sorted_unique(da.sort_by(digest_order()), db.sort_by(digest_order()), digest_order());
}

/// A file that cannot be read costs only itself: every outcome is either
/// processed or skipped, and each manifest has exactly one entry per file
/// processed. With one unreadable file among `n + 1`, `n` are processed,
/// one is skipped, and each manifest lists `n` digests.
pub proof fn lemma_fault_isolation(alg: HashAlg, os: Seq<FileOutcome>)
    ensures
        read_contents(os).len() + failed_count(os) == os.len(),
        digests_of(alg, read_contents(os)).sort_by(digest_order()).len() == read_contents(os).len(),
    decreases os.len(),
{
    if os.len() > 0 {
        lemma_fault_isolation(alg, os.drop_last());
    }
    lemma_digest_order_total();
    let ds = digests_of(alg, read_contents(os));
    ds.lemma_sort_by_ensures(digest_order());
    assert(ds.to_multiset().len() == ds.sort_by(digest_order()).to_multiset().len());
}

} // verus!
