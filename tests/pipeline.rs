use gitbom_cli::algorithm::HashAlg;
use gitbom_cli::content_id::ContentId;
use gitbom_cli::manifest::Manifest;
use gitbom_cli::order::lex_le_exec;
use gitbom_cli::pipeline::{run_tree, FileOutcome, TreeRun};
use gitbom_cli::store::ObjectStore;

const HELLO_SHA1: &str = "ce013625030ba8dba906f756967f9e9ca394464a";
const HELLO_SHA256: &str = "2cf8d83d9ee29543b34a87727421fdecb7e3f3a183d337639025de576db9ebb4";
const WORLD_SHA1: &str = "cc628ccd10742baea8241c5924df992b5c019f71";
const WORLD_SHA256: &str = "e00c50e16a2df38f8d6bf809e181ad0248da6e6719f35f9f7e65d6f606199f7f";

fn text(b: &[u8]) -> String {
    String::from_utf8(b.to_vec()).unwrap()
}

fn read(path: &str, content: &[u8]) -> FileOutcome {
    FileOutcome::Read { path: path.to_string(), content: content.to_vec() }
}

fn failed(path: &str) -> FileOutcome {
    FileOutcome::Failed { path: path.to_string(), reason: "permission denied".to_string() }
}

#[test]
fn algorithm_names_and_lengths() {
    assert_eq!(text(&HashAlg::Sha1.name()), "sha1");
    assert_eq!(text(&HashAlg::Sha256.name()), "sha256");
    assert_eq!(HashAlg::Sha1.hex_len(), 40);
    assert_eq!(HashAlg::Sha256.hex_len(), 64);
}

#[test]
fn hello_sha256_gitoid_and_object() {
    let id = ContentId::of_blob(HashAlg::Sha256, b"hello\n");
    assert_eq!(text(id.hex()), HELLO_SHA256);
    assert_eq!(id.hex().len(), 64);
    assert_eq!(id.alg(), HashAlg::Sha256);
    let store = ObjectStore::new(b".bom");
    let w = store.put_blob_record(&id);
    assert_eq!(text(&w.dir), ".bom/objects/2c");
    assert_eq!(text(&w.path), format!(".bom/objects/2c/{}", &HELLO_SHA256[2..]));
    assert_eq!(text(&w.contents), format!("blob {}\n", HELLO_SHA256));
}

#[test]
fn hello_sha1_gitoid() {
    let id = ContentId::of_blob(HashAlg::Sha1, b"hello\n");
    assert_eq!(text(id.hex()), HELLO_SHA1);
    assert_eq!(id.hex().len(), 40);
}

#[test]
fn empty_blob_gitoids() {
    let a = ContentId::of_blob(HashAlg::Sha1, b"");
    assert_eq!(text(a.hex()), "e69de29bb2d1d6434b8b29ae775ad8c2e48c5391");
    let b = ContentId::of_blob(HashAlg::Sha256, b"");
    assert_eq!(text(b.hex()), "473a0f4c3be8a93681a267e3b1e9a7dcda1185436fe141f7749120a303721813");
}

#[test]
fn hashing_is_deterministic() {
    let a = ContentId::of_blob(HashAlg::Sha256, b"some bytes\n");
    let b = ContentId::of_blob(HashAlg::Sha256, b"some bytes\n");
    assert!(a == b);
    let c = ContentId::of_blob(HashAlg::Sha1, b"some bytes\n");
    assert!(a != c);
    let d = ContentId::of_blob(HashAlg::Sha256, b"other bytes\n");
    assert!(a != d);
}

#[test]
fn from_hex_accepts_only_well_formed_digests() {
    let ok = ContentId::from_hex(HashAlg::Sha1, HELLO_SHA1.as_bytes()).unwrap();
    assert_eq!(text(ok.hex()), HELLO_SHA1);
    assert!(ok == ContentId::of_blob(HashAlg::Sha1, b"hello\n"));
    // a SHA-1 digest is not a SHA-256 digest
    assert!(ContentId::from_hex(HashAlg::Sha256, HELLO_SHA1.as_bytes()).is_none());
    assert!(ContentId::from_hex(HashAlg::Sha1, &HELLO_SHA1.as_bytes()[..39]).is_none());
    assert!(ContentId::from_hex(HashAlg::Sha1, HELLO_SHA1.to_uppercase().as_bytes()).is_none());
    let mut bad = HELLO_SHA1.as_bytes().to_vec();
    bad[7] = b'g';
    assert!(ContentId::from_hex(HashAlg::Sha1, &bad).is_none());
    assert!(ContentId::from_hex(HashAlg::Sha1, b"").is_none());
}

#[test]
fn shard_and_rest_split_the_digest() {
    let id = ContentId::from_hex(HashAlg::Sha1, b"70c379b63ffa0795fdbfbc128e5a2818397b7ef8").unwrap();
    assert_eq!(text(&id.shard()), "70");
    assert_eq!(text(&id.rest()), "c379b63ffa0795fdbfbc128e5a2818397b7ef8");
    assert_eq!(text(&id.blob_line()), "blob 70c379b63ffa0795fdbfbc128e5a2818397b7ef8\n");
}

#[test]
fn object_store_layout() {
    let store = ObjectStore::new(b"temp/.bom");
    assert_eq!(text(store.root()), "temp/.bom");
    assert_eq!(text(&store.objects_dir()), "temp/.bom/objects");
    let id = ContentId::from_hex(
        HashAlg::Sha256,
        b"5b2f2d4e79e6387ca9dedad500ebf70e9fb3097773252cc5b9a6d5a35a987028",
    )
    .unwrap();
    assert_eq!(text(&store.shard_dir(&id)), "temp/.bom/objects/5b");
    assert_eq!(
        text(&store.gitoid_file_path(&id)),
        "temp/.bom/objects/5b/2f2d4e79e6387ca9dedad500ebf70e9fb3097773252cc5b9a6d5a35a987028"
    );
    let w = store.put(&id, b"payload".to_vec());
    assert_eq!(text(&w.dir), "temp/.bom/objects/5b");
    assert_eq!(w.path, store.gitoid_file_path(&id));
    assert_eq!(text(&w.contents), "payload");
}

#[test]
fn manifest_headers() {
    assert_eq!(text(&Manifest::open(HashAlg::Sha1).header()), "gitoid:blob:sha1\n");
    assert_eq!(text(&Manifest::open(HashAlg::Sha256).header()), "gitoid:blob:sha256\n");
    assert_eq!(text(&Manifest::open(HashAlg::Sha256).document()), "gitoid:blob:sha256\n");
}

#[test]
fn manifest_entries_sorted_and_kept_per_file() {
    let mut m = Manifest::open(HashAlg::Sha1);
    let hello = ContentId::from_hex(HashAlg::Sha1, HELLO_SHA1.as_bytes()).unwrap();
    let world = ContentId::from_hex(HashAlg::Sha1, WORLD_SHA1.as_bytes()).unwrap();
    m.append(&hello);
    m.append(&world);
    m.append(&hello);
    assert_eq!(m.len(), 3);
    assert_eq!(text(m.entry(0)), WORLD_SHA1);
    assert_eq!(text(m.entry(1)), HELLO_SHA1);
    assert_eq!(text(m.entry(2)), HELLO_SHA1);
    assert_eq!(
        text(&m.document()),
        format!("gitoid:blob:sha1\nblob {}\nblob {}\nblob {}\n", WORLD_SHA1, HELLO_SHA1, HELLO_SHA1)
    );
}

#[test]
fn manifest_document_ignores_append_order() {
    let hello = ContentId::from_hex(HashAlg::Sha256, HELLO_SHA256.as_bytes()).unwrap();
    let world = ContentId::from_hex(HashAlg::Sha256, WORLD_SHA256.as_bytes()).unwrap();
    let mut a = Manifest::open(HashAlg::Sha256);
    a.append(&hello);
    a.append(&world);
    let mut b = Manifest::open(HashAlg::Sha256);
    b.append(&world);
    b.append(&hello);
    assert_eq!(a.document(), b.document());
}

#[test]
fn sealed_manifest_is_named_by_its_own_hash() {
    let mut m = Manifest::open(HashAlg::Sha1);
    m.append(&ContentId::of_blob(HashAlg::Sha1, b"hello\n"));
    let sealed = m.seal();
    assert_eq!(text(&sealed.doc), format!("gitoid:blob:sha1\nblob {}\n", HELLO_SHA1));
    assert_eq!(text(sealed.id.hex()), "ceb824c23b3879f1a0b8e09254ffaca893c782a6");
    assert!(sealed.id == ContentId::of_blob(HashAlg::Sha1, &sealed.doc));
}

#[test]
fn single_file_run() {
    let outcomes = vec![read("hello.txt", b"hello\n")];
    let (file_writes, report) = run_tree(b".bom", vec![HashAlg::Sha1, HashAlg::Sha256], &outcomes);
    assert_eq!(report.files.len(), 1);
    assert_eq!(report.files[0].path, "hello.txt");
    assert_eq!(text(report.files[0].ids[0].hex()), HELLO_SHA1);
    assert_eq!(text(report.files[0].ids[1].hex()), HELLO_SHA256);
    assert_eq!(file_writes.len(), 1);
    assert_eq!(text(&file_writes[0][1].path), format!(".bom/objects/2c/{}", &HELLO_SHA256[2..]));
    assert_eq!(text(&file_writes[0][1].contents), format!("blob {}\n", HELLO_SHA256));
    assert_eq!(report.manifests.len(), 2);
    assert_eq!(text(&report.manifests[0].doc), format!("gitoid:blob:sha1\nblob {}\n", HELLO_SHA1));
    assert_eq!(text(report.manifests[0].id.hex()), "ceb824c23b3879f1a0b8e09254ffaca893c782a6");
    assert_eq!(text(report.manifests[1].id.hex()), "a2e06f3b362622c1b9a976f46aeb1c4a6e848aca7deb5055b2f5ec6b416bf6b3");
    assert_eq!(
        text(&report.writes[1].path),
        ".bom/objects/a2/e06f3b362622c1b9a976f46aeb1c4a6e848aca7deb5055b2f5ec6b416bf6b3"
    );
    assert_eq!(report.writes[1].contents, report.manifests[1].doc);
}

#[test]
fn directory_with_two_files() {
    let outcomes = vec![read("dir/a.txt", b"hello\n"), read("dir/sub/b.txt", b"world\n")];
    let (file_writes, report) = run_tree(b".bom", vec![HashAlg::Sha256], &outcomes);
    assert_eq!(report.files.len(), 2);
    assert_eq!(file_writes.len(), 2);
    assert!(report.skipped.is_empty());
    let doc = text(&report.manifests[0].doc);
    assert_eq!(doc.lines().count(), 3);
    assert_eq!(doc, format!("gitoid:blob:sha256\nblob {}\nblob {}\n", HELLO_SHA256, WORLD_SHA256));
    assert_eq!(
        text(report.manifests[0].id.hex()),
        "efa56bd05e4137069598ebe8a5ebeb1c2c7dbcc925468d9ce5adfeea9d224266"
    );
}

#[test]
fn rerun_in_other_order_gives_same_manifest() {
    let first = vec![read("a", b"hello\n"), read("b", b"world\n")];
    let second = vec![read("b", b"world\n"), read("a", b"hello\n")];
    let (_, r1) = run_tree(b".bom", vec![HashAlg::Sha1, HashAlg::Sha256], &first);
    let (_, r2) = run_tree(b".bom", vec![HashAlg::Sha1, HashAlg::Sha256], &second);
    for k in 0..2 {
        assert_eq!(r1.manifests[k].doc, r2.manifests[k].doc);
        assert!(r1.manifests[k].id == r2.manifests[k].id);
    }
    assert_eq!(text(r1.manifests[0].id.hex()), "dd97c33e1cafd2125b407454e6371bc8dc0ecc01");
}

#[test]
fn unreadable_file_is_skipped() {
    let outcomes = vec![
        read("a", b"one\n"),
        failed("locked"),
        read("b", b"two\n"),
        read("c", b"three\n"),
    ];
    let (file_writes, report) = run_tree(b".bom", vec![HashAlg::Sha1], &outcomes);
    assert_eq!(report.files.len(), 3);
    assert_eq!(file_writes.len(), 3);
    assert_eq!(report.skipped.len(), 1);
    assert_eq!(report.skipped[0].path, "locked");
    assert_eq!(report.skipped[0].reason, "permission denied");
    let doc = text(&report.manifests[0].doc);
    assert_eq!(doc.lines().count(), 4);
    assert!(doc.starts_with("gitoid:blob:sha1\n"));
    assert_eq!(doc.lines().filter(|l| l.starts_with("blob ")).count(), 3);
}

#[test]
fn empty_tree_has_header_only() {
    let (file_writes, report) = run_tree(b".bom", vec![HashAlg::Sha1, HashAlg::Sha256], &[]);
    assert!(file_writes.is_empty());
    assert!(report.files.is_empty());
    assert_eq!(text(&report.manifests[0].doc), "gitoid:blob:sha1\n");
    assert_eq!(text(report.manifests[0].id.hex()), "daa8845467f5d281d4d233a69af67b85dd50f9f0");
    assert_eq!(text(report.manifests[1].id.hex()), "5780f55500bd30463e4d9616559421fc512bd8debcdec4a23662763753f82895");
}

#[test]
fn incremental_run() {
    let mut run = TreeRun::new(b"out/.bom", vec![HashAlg::Sha256]);
    assert_eq!(text(&run.store().objects_dir()), "out/.bom/objects");
    let writes = run.add_file("x".to_string(), b"hello\n");
    assert_eq!(writes.len(), 1);
    assert_eq!(text(&writes[0].dir), "out/.bom/objects/2c");
    run.skip_file("y".to_string(), "gone".to_string());
    assert_eq!(run.files_processed(), 1);
    assert_eq!(run.file(0).path, "x");
    assert_eq!(text(run.file(0).ids[0].hex()), HELLO_SHA256);
    assert_eq!(run.files_skipped(), 1);
    let report = run.finish();
    assert_eq!(text(report.manifests[0].id.hex()), "a2e06f3b362622c1b9a976f46aeb1c4a6e848aca7deb5055b2f5ec6b416bf6b3");
}

#[test]
fn lexicographic_comparison() {
    assert!(lex_le_exec(b"ab", b"ac"));
    assert!(!lex_le_exec(b"ac", b"ab"));
    assert!(lex_le_exec(b"ab", b"ab"));
    assert!(lex_le_exec(b"a", b"ab"));
    assert!(!lex_le_exec(b"ab", b"a"));
    assert!(lex_le_exec(b"", b""));
}
