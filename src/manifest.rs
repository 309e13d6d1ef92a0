use vstd::prelude::*;
use vstd::seq_lib::lemma_sorted_unique;

use crate::algorithm::{HashAlg, alg_name, hex_len};
use crate::bytes::push_all;
use crate::content_id::{ContentId, blob_line, id_of, valid_hex};
use crate::order::{
    digest_order, is_sorted, lemma_digest_order_total, lemma_is_sorted_by, lemma_lex_total,
    lemma_lex_transitive, lex_le, lex_le_exec,
};

verus! {

broadcast use vstd::seq_lib::group_to_multiset_ensures, vstd::multiset::group_multiset_axioms;

/// The header line of a manifest: `"gitoid:blob:" + algorithm + "\n"`.
pub open spec fn header_of(alg: HashAlg) -> Seq<u8> {
    // "gitoid:blob:" in ASCII
    seq![103, 105, 116, 111, 105, 100, 58, 98, 108, 111, 98, 58] + alg_name(alg) + seq![10]
}

/// One `"blob " + hex + "\n"` line per entry, in order.
pub open spec fn lines_of(entries: Seq<Seq<u8>>) -> Seq<u8>
    decreases entries.len(),
{
    if entries.len() == 0 {
        Seq::empty()
    } else {
        lines_of(entries.drop_last()) + blob_line(entries.last())
    }
}

/// The serialized manifest: its header, then one line per entry.
pub open spec fn doc_of(alg: HashAlg, entries: Seq<Seq<u8>>) -> Seq<u8> {
    header_of(alg) + lines_of(entries)
}

/// A manifest in mathematical form: the algorithm and the digests listed.
pub struct ManifestView {
    pub alg: HashAlg,
    pub entries: Seq<Seq<u8>>,
}

/// A well-formed manifest lists digests of its own algorithm, in
/// lexicographic order.
pub open spec fn manifest_wf(m: ManifestView) -> bool {
    &&& is_sorted(m.entries)
    &&& forall|i: int| 0 <= i < m.entries.len() ==> #[trigger] valid_hex(m.alg, m.entries[i])
}

/// The manifest of one run under one algorithm (a GitBOM document), while
/// it accumulates entries. Entries are kept sorted by digest, so that the
/// document depends on the set of files and not on the order in which they
/// were visited.
#[derive(Debug)]
pub struct Manifest {
    alg: HashAlg,
    entries: Vec<Vec<u8>>,
}

impl View for Manifest {
    type V = ManifestView;

    closed spec fn view(&self) -> ManifestView {
        ManifestView { alg: self.alg, entries: self.entries@.map_values(|e: Vec<u8>| e@) }
    }
}

/// A sealed manifest: its serialized document and the identifier of that
/// document, under which it is stored.
#[derive(Debug)]
pub struct SealedManifest {
    pub doc: Vec<u8>,
    pub id: ContentId,
}

impl Manifest {
    /// The manifest is well formed (`manifest_wf`).
    pub open spec fn wf(&self) -> bool {
        manifest_wf(self@)
    }

    /// An empty manifest under `alg`.
    pub fn open(alg: HashAlg) -> (r: Manifest)
        ensures
            r@.alg == alg,
            r@.entries == Seq::<Seq<u8>>::empty(),
            r.wf(),
    {
        let r = Manifest { alg, entries: Vec::new() };
        assert(r@.entries =~= Seq::<Seq<u8>>::empty());
        r
    }

    /// The algorithm of the manifest.
    pub fn alg(&self) -> (r: HashAlg)
        ensures
            r == self@.alg,
    {
        self.alg
    }

    /// Number of entries.
    pub fn len(&self) -> (r: usize)
        ensures
            r == self@.entries.len(),
    {
        self.entries.len()
    }

    /// The digest of entry `i`.
    pub fn entry(&self, i: usize) -> (r: &[u8])
        requires
            i < self@.entries.len(),
        ensures
            r@ == self@.entries[i as int],
    {
        self.entries[i].as_slice()
    }

    /// Adds `id` to the manifest, at its place in digest order. Equal
    /// digests are all kept: a manifest has one entry per file.
    pub fn append(&mut self, id: &ContentId)
        requires
            old(self).wf(),
            id.wf(),
            id@.alg == old(self)@.alg,
        ensures
            final(self).wf(),
            final(self)@.alg == old(self)@.alg,
            final(self)@.entries.to_multiset() == old(self)@.entries.to_multiset().insert(id@.hex),
    {
        let ghost es = self@.entries;
        let hex = id.hex();
        let mut p: usize = 0;
        while p < self.entries.len() && lex_le_exec(self.entries[p].as_slice(), hex)
            invariant
                self@ == old(self)@,
                es == self@.entries,
                self.entries@.len() == es.len(),
                0 <= p <= es.len(),
                forall|j: int| 0 <= j < p ==> #[trigger] lex_le(es[j], hex@),
            decreases es.len() - p,
        {
            p = p + 1;
        }
        let ghost x = hex@;
        proof {
            if p < es.len() {
                lemma_lex_total(es[p as int], x);
            }
        }
        let mut v: Vec<u8> = Vec::new();
        push_all(&mut v, hex);
        self.entries.insert(p, v);
        let ghost t = es.insert(p as int, x);
        assert(self@.entries =~= t);
        proof {
            assert forall|i: int, j: int| 0 <= i < j < t.len() implies #[trigger] lex_le(t[i], t[j]) by {
                if j < p {
                } else if i < p && j == p {
                } else if i < p {
                    assert(lex_le(es[i], es[j - 1]));
                } else if i == p {
                    if j - 1 > p {
                        assert(lex_le(es[p as int], es[j - 1]));
                        lemma_lex_transitive(x, es[p as int], es[j - 1]);
                    }
                } else {
                    assert(lex_le(es[i - 1], es[j - 1]));
                }
            }
            assert forall|i: int| 0 <= i < t.len() implies #[trigger] valid_hex(self@.alg, t[i]) by {
                if i < p {
                    assert(valid_hex(self@.alg, es[i]));
                } else if i > p {
                    assert(valid_hex(self@.alg, es[i - 1]));
                }
            }
            assert(t.remove(p as int) =~= es);
            assert(t[p as int] == x);
            assert(t.to_multiset().count(x) > 0);
            assert(t.to_multiset() =~= es.to_multiset().insert(x));
        }
    }

    /// The header line: `"gitoid:blob:" + algorithm name + "\n"`.
    pub fn header(&self) -> (r: Vec<u8>)
        ensures
            r@ == header_of(self@.alg),
    {
        let mut r: Vec<u8> = vec![103, 105, 116, 111, 105, 100, 58, 98, 108, 111, 98, 58];
        let name = self.alg.name();
        push_all(&mut r, name.as_slice());
        r.push(10);
        r
    }

    /// The serialized document: the header, then `"blob " + hex + "\n"` for
    /// each entry in digest order.
    pub fn document(&self) -> (r: Vec<u8>)
        ensures
            r@ == doc_of(self@.alg, self@.entries),
    {
        let mut r = self.header();
        let mut i: usize = 0;
        while i < self.entries.len()
            invariant
                0 <= i <= self@.entries.len(),
                r@ == header_of(self@.alg) + lines_of(self@.entries.subrange(0, i as int)),
            decreases self@.entries.len() - i,
        {
            let ghost before = r@;
            r.extend_from_slice(&[98, 108, 111, 98, 32]);
            push_all(&mut r, self.entries[i].as_slice());
            r.push(10);
            proof {
                let es = self@.entries;
                assert(es.subrange(0, i + 1).drop_last() =~= es.subrange(0, i as int));
                assert(r@ =~= before + blob_line(es[i as int]));
            }
            i = i + 1;
        }
        assert(self@.entries.subrange(0, i as int) =~= self@.entries);
        r
    }

    /// Seals the manifest: no entry can be added after this. Returns the
    /// document and the identifier of the document itself, computed as for
    /// any other blob.
    pub fn seal(self) -> (r: SealedManifest)
        ensures
            r.doc@ == doc_of(self@.alg, self@.entries),
            r.id@ == id_of(self@.alg, r.doc@),
            r.id.wf(),
    {
        let doc = self.document();
        let id = ContentId::of_blob(self.alg, doc.as_slice());
        SealedManifest { doc, id }
    }
}

proof fn lemma_lines_layout(es: Seq<Seq<u8>>, l: int)
    requires
        l >= 0,
        forall|i: int| 0 <= i < es.len() ==> #[trigger] blob_line(es[i]).len() == l,
    ensures
        lines_of(es).len() == es.len() * l,
        forall|i: int| 0 <= i < es.len() ==> #[trigger] lines_of(es).subrange(i * l, i * l + l) == blob_line(es[i]),
    decreases es.len(),
{
    if es.len() > 0 {
        let p = es.drop_last();
        let n = p.len() as int;
        assert forall|i: int| 0 <= i < p.len() implies #[trigger] blob_line(p[i]).len() == l by {
            assert(p[i] == es[i]);
        }
        lemma_lines_layout(p, l);
        assert((n + 1) * l == n * l + l) by (nonlinear_arith);
        assert forall|i: int| 0 <= i < es.len() implies #[trigger] lines_of(es).subrange(i * l, i * l + l) == blob_line(es[i]) by {
            assert(0 <= i * l) by (nonlinear_arith) requires 0 <= i, 0 <= l;
            if i < n {
                assert(i * l + l <= n * l) by (nonlinear_arith) requires i < n, 0 <= l;
                assert(lines_of(p).subrange(i * l, i * l + l) == blob_line(p[i]));
                assert(lines_of(es).subrange(i * l, i * l + l) =~= lines_of(p).subrange(i * l, i * l + l));
            } else {
                assert(lines_of(es).subrange(n * l, n * l + l) =~= blob_line(es.last()));
            }
        }
    }
}

/// A sealed manifest is well formed: its first line is exactly the header
/// `gitoid:blob:<algorithm>\n`, and after it come exactly as many lines as
/// entries, line `i` being `blob <digest i>\n`, with nothing else.
pub proof fn lemma_manifest_layout(m: ManifestView)
    requires
        manifest_wf(m),
    ensures
        ({
            let doc = doc_of(m.alg, m.entries);
            let h = header_of(m.alg).len() as int;
            let l = (hex_len(m.alg) + 6) as int;
            &&& doc.subrange(0, h) == header_of(m.alg)
            &&& doc.len() == h + m.entries.len() * l
            &&& forall|i: int| 0 <= i < m.entries.len() ==>
                #[trigger] doc.subrange(h + i * l, h + i * l + l) == blob_line(m.entries[i])
        }),
{
    let doc = doc_of(m.alg, m.entries);
    let h = header_of(m.alg).len() as int;
    let l = (hex_len(m.alg) + 6) as int;
    assert forall|i: int| 0 <= i < m.entries.len() implies #[trigger] blob_line(m.entries[i]).len() == l by {
        assert(valid_hex(m.alg, m.entries[i]));
    }
    lemma_lines_layout(m.entries, l);
    assert(doc.subrange(0, h) =~= header_of(m.alg));
    assert forall|i: int| 0 <= i < m.entries.len() implies #[trigger] doc.subrange(h + i * l, h + i * l + l) == blob_line(m.entries[i]) by {
        assert(0 <= i * l) by (nonlinear_arith) requires 0 <= i, 0 <= l;
        assert(i * l + l <= m.entries.len() * l) by (nonlinear_arith) requires i < m.entries.len(), 0 <= l;
        assert(lines_of(m.entries).subrange(i * l, i * l + l) == blob_line(m.entries[i]));
        assert(doc.subrange(h + i * l, h + i * l + l) =~= lines_of(m.entries).subrange(i * l, i * l + l));
    }
}

/// The document depends on the collection of digests only: two well-formed
/// manifests under one algorithm that list the same digests, as many times
/// each, serialize to the same bytes and so have the same identifier.
pub proof fn lemma_document_order_free(a: ManifestView, b: ManifestView)
    requires
        manifest_wf(a),
        manifest_wf(b),
        a.alg == b.alg,
        a.entries.to_multiset() == b.entries.to_multiset(),
    ensures
        doc_of(a.alg, a.entries) == doc_of(b.alg, b.entries),
        id_of(a.alg, doc_of(a.alg, a.entries)) == id_of(b.alg, doc_of(b.alg, b.entries)),
{
    lemma_digest_order_total();
    lemma_is_sorted_by(a.entries);
    lemma_is_sorted_by(b.entries);
    lemma_sorted_unique(a.entries, b.entries, digest_order());
}

} // verus!
