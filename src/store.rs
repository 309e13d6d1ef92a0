use vstd::prelude::*;

use crate::bytes::push_all;
use crate::content_id::{ContentId, IdView, blob_line, rest_of, shard_of, valid_hex};

verus! {

/// `"/objects"` in ASCII: the directory under the store root that holds
/// the shards.
pub open spec fn objects_suffix() -> Seq<u8> {
    seq![47, 111, 98, 106, 101, 99, 116, 115]
}

/// `root + "/objects"`.
pub open spec fn objects_dir_of(root: Seq<u8>) -> Seq<u8> {
    root + objects_suffix()
}

/// `root + "/objects/" + shard`: the directory that holds an object.
pub open spec fn shard_dir_of(root: Seq<u8>, hex: Seq<u8>) -> Seq<u8> {
    objects_dir_of(root) + seq![47] + shard_of(hex)
}

/// `root + "/objects/" + shard + "/" + rest`: the leaf file of an object.
pub open spec fn object_path_of(root: Seq<u8>, hex: Seq<u8>) -> Seq<u8> {
    shard_dir_of(root, hex) + seq![47] + rest_of(hex)
}

/// One object to persist: create directory `dir` (and its parents) if it
/// is missing, then write `contents` to the file at `path` unless that file
/// exists already. The store is keyed by content, so an existing leaf
/// already holds these bytes.
#[derive(Debug)]
pub struct ObjectWrite {
    pub dir: Vec<u8>,
    pub path: Vec<u8>,
    pub contents: Vec<u8>,
}

/// What an `ObjectWrite` stands for.
pub struct WriteView {
    pub dir: Seq<u8>,
    pub path: Seq<u8>,
    pub contents: Seq<u8>,
}

impl View for ObjectWrite {
    type V = WriteView;

    open spec fn view(&self) -> WriteView {
        WriteView { dir: self.dir@, path: self.path@, contents: self.contents@ }
    }
}

/// The write that stores `contents` as the object named by `hex` under
/// `root`.
pub open spec fn put_of(root: Seq<u8>, hex: Seq<u8>, contents: Seq<u8>) -> WriteView {
    WriteView { dir: shard_dir_of(root, hex), path: object_path_of(root, hex), contents }
}

/// A sharded, content-addressed object store rooted at a directory path
/// (given as bytes; conventionally `.bom`).
#[derive(Debug)]
pub struct ObjectStore {
    root: Vec<u8>,
}

impl View for ObjectStore {
    type V = Seq<u8>;

    closed spec fn view(&self) -> Seq<u8> {
        self.root@
    }
}

impl ObjectStore {
    /// A store rooted at `root`.
    pub fn new(root: &[u8]) -> (r: ObjectStore)
        ensures
            r@ == root@,
    {
        let mut v: Vec<u8> = Vec::new();
        push_all(&mut v, root);
        ObjectStore { root: v }
    }

    /// The root directory of the store.
    pub fn root(&self) -> (r: &[u8])
        ensures
            r@ == self@,
    {
        self.root.as_slice()
    }

    /// The directory that holds every shard: `root + "/objects"`. It is
    /// created when a run starts.
    pub fn objects_dir(&self) -> (r: Vec<u8>)
        ensures
            r@ == objects_dir_of(self@),
    {
        let mut r: Vec<u8> = Vec::new();
        push_all(&mut r, self.root.as_slice());
        let suffix: Vec<u8> = vec![47, 111, 98, 106, 101, 99, 116, 115];
        push_all(&mut r, suffix.as_slice());
        r
    }

    /// The shard directory of `id`: `root + "/objects/" + first two digits`.
    pub fn shard_dir(&self, id: &ContentId) -> (r: Vec<u8>)
        requires
            id.wf(),
        ensures
            r@ == shard_dir_of(self@, id@.hex),
    {
        let mut r = self.objects_dir();
        r.push(47);
        let shard = id.shard();
        push_all(&mut r, shard.as_slice());
        r
    }

    /// The leaf file of `id`: its shard directory, then the digest's
    /// remaining digits.
    pub fn gitoid_file_path(&self, id: &ContentId) -> (r: Vec<u8>)
        requires
            id.wf(),
        ensures
            r@ == object_path_of(self@, id@.hex),
    {
        let mut r = self.shard_dir(id);
        r.push(47);
        let rest = id.rest();
        push_all(&mut r, rest.as_slice());
        r
    }

    /// The write that stores `contents` as the object named by `id`.
    pub fn put(&self, id: &ContentId, contents: Vec<u8>) -> (r: ObjectWrite)
        requires
            id.wf(),
        ensures
            r@ == put_of(self@, id@.hex, contents@),
    {
        ObjectWrite { dir: self.shard_dir(id), path: self.gitoid_file_path(id), contents }
    }

    /// The write that records `id` itself: its object holds
    /// `"blob " + hex + "\n"`.
    pub fn put_blob_record(&self, id: &ContentId) -> (r: ObjectWrite)
        requires
            id.wf(),
        ensures
            r@ == put_of(self@, id@.hex, blob_line(id@.hex)),
    {
        let line = id.blob_line();
        self.put(id, line)
    }
}

/// Objects are sharded: an object's leaf file is
/// `root/objects/<first two digits>/<remaining digits>`, and sits inside the
/// shard directory that its write creates.
pub proof fn lemma_sharded_layout(root: Seq<u8>, hex: Seq<u8>, contents: Seq<u8>)
    requires
        hex.len() >= 2,
    ensures
        put_of(root, hex, contents).path == root + objects_suffix() + seq![47]
            + hex.subrange(0, 2) + seq![47] + hex.subrange(2, hex.len() as int),
        put_of(root, hex, contents).path.subrange(0, put_of(root, hex, contents).dir.len() as int)
            == put_of(root, hex, contents).dir,
        put_of(root, hex, contents).dir.len() + 1 + hex.len() - 2
            == put_of(root, hex, contents).path.len(),
{
    let w = put_of(root, hex, contents);
    assert(w.path.subrange(0, w.dir.len() as int) =~= w.dir);
}

/// Distinct identifiers never share a leaf file: under one root, the leaf
/// path determines the digest.
pub proof fn lemma_object_path_injective(root: Seq<u8>, a: IdView, b: IdView)
    requires
        valid_hex(a.alg, a.hex),
        valid_hex(b.alg, b.hex),
        object_path_of(root, a.hex) == object_path_of(root, b.hex),
    ensures
        a.hex == b.hex,
{
    let pa = object_path_of(root, a.hex);
    let pb = object_path_of(root, b.hex);
    let n = root.len() + 8;
    assert(pa.len() == n + 2 + a.hex.len());
    assert(pb.len() == n + 2 + b.hex.len());
    assert forall|i: int| 0 <= i < a.hex.len() implies a.hex[i] == b.hex[i] by {
        if i < 2 {
            assert(pa[n + 1 + i] == a.hex[i]);
            assert(pb[n + 1 + i] == b.hex[i]);
        } else {
            assert(pa[n + 2 + i] == a.hex[i]);
            assert(pb[n + 2 + i] == b.hex[i]);
        }
    }
    assert(a.hex =~= b.hex);
}

} // verus!
