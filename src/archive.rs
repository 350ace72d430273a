use vstd::prelude::*;
use vstd::string::*;
use crate::error::PackError;
use crate::tree::{
    Node, Entry, EntryView, entries_view, nodes_entries, node_entries, nodes_files, entry_files,
    archive_entries, lemma_entries_keep_files, nodes_items, entry_set, lemma_entries_keep_items,
};

verus! {

#[verifier::external_type_specification]
#[verifier::external_body]
pub struct ExZipError(zip::result::ZipError);

#[verifier::external_type_specification]
#[verifier::external_body]
pub struct ExIoError(std::io::Error);

/// An archive being written into memory. The writer's own type carries trait
/// bounds that Verus cannot declare, so it is held here out of Verus's sight.
#[verifier::external_body]
pub struct MemZip {
    inner: zip::ZipWriter<std::io::Cursor<Vec<u8>>>,
}

/// The entries written so far: (name, is a directory, content).
pub uninterp spec fn zip_contents(w: MemZip) -> Seq<(Seq<char>, bool, Seq<u8>)>;

/// The permission bits recorded for each entry written so far.
pub uninterp spec fn zip_modes(w: MemZip) -> Seq<u32>;

/// Whether each entry written so far is stored without compression.
pub uninterp spec fn zip_stored(w: MemZip) -> Seq<bool>;

/// The bytes of the finished archive of the given entries, permission bits and
/// storage methods (the entries carry a fixed timestamp).
pub uninterp spec fn zip_archive_bytes(
    contents: Seq<(Seq<char>, bool, Seq<u8>)>,
    modes: Seq<u32>,
    stored: Seq<bool>,
) -> Seq<u8>;

/// Permission bits that every archive entry carries, whatever the source's own.
pub const ENTRY_MODE: u32 = 0o755;

/// The largest content an entry may have without the 64-bit extension.
pub const MAX_ENTRY_SIZE: u64 = 0xFFFF_FFFF;

/// Every entry's content fits the archive's 32-bit size fields.
pub open spec fn sizes_fit(s: Seq<(Seq<char>, bool, Seq<u8>)>) -> bool {
    forall|i: int| 0 <= i < s.len() ==> #[trigger] s[i].2.len() <= MAX_ENTRY_SIZE
}

/// Relies on zip::ZipWriter::new: a new writer holds no entry.
#[verifier::external_body]
fn zip_new() -> (r: MemZip)
    ensures
        zip_contents(r) == Seq::<(Seq<char>, bool, Seq<u8>)>::empty(),
        zip_modes(r) == Seq::<u32>::empty(),
        zip_stored(r) == Seq::<bool>::empty(),
{
    MemZip { inner: zip::ZipWriter::new(std::io::Cursor::new(Vec::new())) }
}

/// Relies on zip::ZipWriter::add_directory: with a name that already ends in a
/// slash, it appends a stored directory entry of that name with the given
/// permission bits. Writing into memory fails only when the entry before it
/// outgrew the 32-bit size fields; a failure adds no entry.
#[verifier::external_body]
fn zip_add_directory(w: &mut MemZip, name: &str, mode: u32) -> (r: Result<(), zip::result::ZipError>)
    requires
        name@.len() > 0,
        name@.last() == '/',
        mode <= 0o777,
    ensures
        sizes_fit(zip_contents(*old(w))) ==> r.is_ok(),
        r.is_ok() ==> zip_contents(*final(w)) == zip_contents(*old(w)).push((name@, true, Seq::<u8>::empty())),
        r.is_ok() ==> zip_modes(*final(w)) == zip_modes(*old(w)).push(mode),
        r.is_ok() ==> zip_stored(*final(w)) == zip_stored(*old(w)).push(true),
        r.is_err() ==> zip_contents(*final(w)) == zip_contents(*old(w)),
{
    let options = zip::write::FileOptions::default()
        .compression_method(zip::CompressionMethod::Stored)
        .unix_permissions(mode);
    w.inner.add_directory(name, options)
}

/// Relies on zip::ZipWriter::start_file: appends an empty file entry of that
/// name, stored without compression, with the given permission bits, which
/// later writes fill. Writing into memory fails only when the entry before it
/// outgrew the 32-bit size fields; a failure adds no entry.
#[verifier::external_body]
fn zip_start_file(w: &mut MemZip, name: &str, mode: u32) -> (r: Result<(), zip::result::ZipError>)
    requires
        mode <= 0o777,
    ensures
        sizes_fit(zip_contents(*old(w))) ==> r.is_ok(),
        r.is_ok() ==> zip_contents(*final(w)) == zip_contents(*old(w)).push((name@, false, Seq::<u8>::empty())),
        r.is_ok() ==> zip_modes(*final(w)) == zip_modes(*old(w)).push(mode),
        r.is_ok() ==> zip_stored(*final(w)) == zip_stored(*old(w)).push(true),
        r.is_err() ==> zip_contents(*final(w)) == zip_contents(*old(w)),
{
    let options = zip::write::FileOptions::default()
        .compression_method(zip::CompressionMethod::Stored)
        .unix_permissions(mode);
    w.inner.start_file(name, options)
}

/// Relies on ZipWriter's std::io::Write::write_all: the bytes extend the file
/// entry that was started last. It fails only when that entry would outgrow
/// the 32-bit size fields; the entries before it stay as they were.
#[verifier::external_body]
fn zip_write_all(w: &mut MemZip, data: &[u8]) -> (r: Result<(), std::io::Error>)
    requires
        zip_contents(*old(w)).len() > 0,
        !zip_contents(*old(w)).last().1,
    ensures
        zip_contents(*old(w)).last().2.len() + data@.len() <= MAX_ENTRY_SIZE ==> r.is_ok(),
        r.is_ok() ==> zip_contents(*final(w)) == zip_contents(*old(w)).update(
            zip_contents(*old(w)).len() - 1,
            (zip_contents(*old(w)).last().0, false, zip_contents(*old(w)).last().2 + data@),
        ),
        r.is_ok() ==> zip_modes(*final(w)) == zip_modes(*old(w)),
        r.is_ok() ==> zip_stored(*final(w)) == zip_stored(*old(w)),
        r.is_err() ==> zip_contents(*final(w)).len() == zip_contents(*old(w)).len(),
        r.is_err() ==> zip_contents(*final(w)).drop_last() == zip_contents(*old(w)).drop_last(),
{
    std::io::Write::write_all(&mut w.inner, data)
}

/// Relies on zip::ZipWriter::finish: writes the central directory and hands
/// back the archive's bytes, which follow from the entries alone. Writing into
/// memory fails only when an entry outgrew the 32-bit size fields. The writer
/// is consumed, so nothing is added after.
#[verifier::external_body]
fn zip_finish(w: MemZip) -> (r: Result<Vec<u8>, zip::result::ZipError>)
    ensures
        sizes_fit(zip_contents(w)) ==> r.is_ok(),
        r.is_ok() ==> r->Ok_0@ == zip_archive_bytes(zip_contents(w), zip_modes(w), zip_stored(w)),
{
    let mut inner = w.inner;
    inner.finish().map(|c| c.into_inner())
}

/// Every directory entry's name ends with a slash, and it has no content.
pub open spec fn dirs_marked(s: Seq<EntryView>) -> bool {
    forall|i: int| 0 <= i < s.len() && #[trigger] s[i].1 ==> s[i].0.len() > 0 && s[i].0.last() == '/' && s[i].2.len() == 0
}

proof fn lemma_dirs_marked_append(a: Seq<EntryView>, b: Seq<EntryView>)
    requires
        dirs_marked(a),
        dirs_marked(b),
    ensures
        dirs_marked(a + b),
{
    assert forall|i: int| 0 <= i < (a + b).len() && #[trigger] (a + b)[i].1 implies (a + b)[i].0.len() > 0 && (a + b)[i].0.last() == '/' && (a + b)[i].2.len() == 0 by {
        if i < a.len() {
            assert((a + b)[i] == a[i]);
        } else {
            assert((a + b)[i] == b[i - a.len()]);
        }
    }
}

proof fn lemma_node_dirs_marked(prefix: Seq<char>, n: Node)
    ensures
        dirs_marked(node_entries(prefix, n)),
    decreases n,
{
    match n {
        Node::File { .. } => {},
        Node::Dir { name, children } => {
            let p = crate::tree::join_path(prefix, name@);
            let head = seq![(p + seq!['/'], true, Seq::<u8>::empty())];
            assert((p + seq!['/']).last() == '/');
            lemma_nodes_dirs_marked(p, children@);
            lemma_dirs_marked_append(head, nodes_entries(p, children@));
        },
    }
}

proof fn lemma_nodes_dirs_marked(prefix: Seq<char>, ns: Seq<Node>)
    ensures
        dirs_marked(nodes_entries(prefix, ns)),
    decreases ns,
{
    if ns.len() > 0 {
        lemma_node_dirs_marked(prefix, ns[0]);
        lemma_nodes_dirs_marked(prefix, ns.drop_first());
        lemma_dirs_marked_append(node_entries(prefix, ns[0]), nodes_entries(prefix, ns.drop_first()));
    }
}

/// Writes `entries` in order into an empty archive, each stored without
/// compression and with `ENTRY_MODE`. It succeeds whenever every content fits
/// the 32-bit size fields, and then the archive holds exactly those entries. A
/// failure is `ArchiveWrite`, and the entries written before it stay in place.
fn fill_archive(w: &mut MemZip, entries: &Vec<Entry>) -> (r: Result<(), PackError>)
    requires
        zip_contents(*old(w)).len() == 0,
        zip_modes(*old(w)).len() == 0,
        zip_stored(*old(w)).len() == 0,
        dirs_marked(entries_view(entries@)),
    ensures
        sizes_fit(entries_view(entries@)) ==> r.is_ok(),
        r.is_ok() ==> zip_contents(*final(w)) == entries_view(entries@),
        r.is_ok() ==> zip_modes(*final(w)) == Seq::new(entries@.len(), |i: int| ENTRY_MODE),
        r.is_ok() ==> zip_stored(*final(w)) == Seq::new(entries@.len(), |i: int| true),
        r.is_err() ==> r == Err::<(), PackError>(PackError::ArchiveWrite),
        r.is_err() ==> zip_contents(*final(w)).len() <= entries@.len(),
        r.is_err() ==> forall|k: int| 0 <= k < zip_contents(*final(w)).len() - 1
            ==> #[trigger] zip_contents(*final(w))[k] == entries_view(entries@)[k],
{
    let mut i: usize = 0;
    while i < entries.len()
        invariant
            0 <= i <= entries@.len(),
            dirs_marked(entries_view(entries@)),
            zip_contents(*w) == entries_view(entries@).subrange(0, i as int),
            zip_modes(*w) == Seq::new(i as nat, |k: int| ENTRY_MODE),
            zip_stored(*w) == Seq::new(i as nat, |k: int| true),
            sizes_fit(entries_view(entries@)) ==> sizes_fit(zip_contents(*w)),
        decreases entries@.len() - i,
    {
        let e = &entries[i];
        let ghost ev = entries_view(entries@)[i as int];
        let ghost before = zip_contents(*w);
        assert(ev == e.view());
        assert(entries_view(entries@).subrange(0, i + 1) =~= before.push(ev));
        if e.is_dir {
            assert(entries_view(entries@)[i as int].1);
            assert(ev.2 =~= Seq::<u8>::empty());
            match zip_add_directory(w, e.path.as_str(), ENTRY_MODE) {
                Ok(()) => {},
                Err(_) => { return Err(PackError::ArchiveWrite); },
            }
        } else {
            match zip_start_file(w, e.path.as_str(), ENTRY_MODE) {
                Ok(()) => {},
                Err(_) => { return Err(PackError::ArchiveWrite); },
            }
            let ghost mid = zip_contents(*w);
            assert(mid == before.push((e.path@, false, Seq::<u8>::empty())));
            proof {
                if sizes_fit(entries_view(entries@)) {
                    assert(entries_view(entries@)[i as int].2.len() <= MAX_ENTRY_SIZE);
                }
            }
            match zip_write_all(w, e.data.as_slice()) {
                Ok(()) => {},
                Err(_) => {
                    assert(zip_contents(*w).drop_last() == before);
                    assert forall|k: int| 0 <= k < zip_contents(*w).len() - 1
                        implies #[trigger] zip_contents(*w)[k] == entries_view(entries@)[k] by {
                        assert(zip_contents(*w)[k] == zip_contents(*w).drop_last()[k]);
                    }
                    return Err(PackError::ArchiveWrite);
                },
            }
            assert(Seq::<u8>::empty() + e.data@ =~= e.data@);
            assert(zip_contents(*w) =~= before.push(ev));
        }
        i = i + 1;
        assert(zip_contents(*w) =~= entries_view(entries@).subrange(0, i as int));
        assert(zip_modes(*w) =~= Seq::new(i as nat, |k: int| ENTRY_MODE));
        assert(zip_stored(*w) =~= Seq::new(i as nat, |k: int| true));
        proof {
            if sizes_fit(entries_view(entries@)) {
                assert forall|k: int| 0 <= k < zip_contents(*w).len() implies #[trigger] zip_contents(*w)[k].2.len() <= MAX_ENTRY_SIZE by {
                    assert(zip_contents(*w)[k] == entries_view(entries@)[k]);
                }
            }
        }
    }
    assert(entries_view(entries@).subrange(0, i as int) =~= entries_view(entries@));
    Ok(())
}

/// The archive's model of a staged tree: its entries, one `ENTRY_MODE` and one
/// stored method per entry.
pub open spec fn tree_archive_bytes(root: Seq<Node>) -> Seq<u8> {
    zip_archive_bytes(
        nodes_entries(Seq::empty(), root),
        Seq::new(nodes_entries(Seq::empty(), root).len(), |i: int| ENTRY_MODE),
        Seq::new(nodes_entries(Seq::empty(), root).len(), |i: int| true),
    )
}

/// Writes a staged tree into a new archive: every file and directory under the
/// root, depth-first, directories before their contents, each stored without
/// compression and with `ENTRY_MODE`. It succeeds whenever every file fits the
/// 32-bit size fields; any failure of the writer is `ArchiveWrite`.
pub fn build_archive(root: &Vec<Node>) -> (r: Result<MemZip, PackError>)
    ensures
        sizes_fit(nodes_entries(Seq::empty(), root@)) ==> r.is_ok(),
        r.is_ok() ==> zip_contents(r->Ok_0) == nodes_entries(Seq::empty(), root@),
        r.is_ok() ==> zip_modes(r->Ok_0) == Seq::new(zip_contents(r->Ok_0).len(), |i: int| ENTRY_MODE),
        r.is_ok() ==> zip_stored(r->Ok_0) == Seq::new(zip_contents(r->Ok_0).len(), |i: int| true),
        r.is_err() ==> r == Err::<MemZip, PackError>(PackError::ArchiveWrite),
{
    let entries = archive_entries(root);
    proof {
        lemma_nodes_dirs_marked(Seq::empty(), root@);
    }
    let mut w = zip_new();
    match fill_archive(&mut w, &entries) {
        Ok(()) => Ok(w),
        Err(e) => Err(e),
    }
}

/// Serialises a staged tree into the bytes of a stored archive of the entries
/// that `build_archive` writes. It succeeds whenever every file fits the
/// 32-bit size fields; any failure of the writer is `ArchiveWrite`.
pub fn serialize_tree(root: &Vec<Node>) -> (r: Result<Vec<u8>, PackError>)
    ensures
        sizes_fit(nodes_entries(Seq::empty(), root@)) ==> r.is_ok(),
        r.is_ok() ==> r->Ok_0@ == tree_archive_bytes(root@),
        r.is_err() ==> r == Err::<Vec<u8>, PackError>(PackError::ArchiveWrite),
{
    let w = build_archive(root)?;
    match zip_finish(w) {
        Ok(bytes) => Ok(bytes),
        Err(_) => Err(PackError::ArchiveWrite),
    }
}

/// The archive of a staged tree holds exactly the tree's directories and its
/// files with their contents: the bytes `serialize_tree` returns are those of
/// `nodes_entries(root)`, whose files this states. Every entry carries
/// `ENTRY_MODE`, not the source's own permission bits.
pub proof fn lemma_archive_round_trip(root: Seq<Node>)
    ensures
        tree_archive_bytes(root) == zip_archive_bytes(
            nodes_entries(Seq::empty(), root),
            Seq::new(nodes_entries(Seq::empty(), root).len(), |i: int| 0o755u32),
            Seq::new(nodes_entries(Seq::empty(), root).len(), |i: int| true),
        ),
        entry_files(nodes_entries(Seq::empty(), root)) == nodes_files(Seq::empty(), root),
        entry_set(nodes_entries(Seq::empty(), root)) == nodes_items(Seq::empty(), root),
{
    lemma_entries_keep_files(root);
    lemma_entries_keep_items(root);
    assert(Seq::new(nodes_entries(Seq::empty(), root).len(), |i: int| ENTRY_MODE)
        =~= Seq::new(nodes_entries(Seq::empty(), root).len(), |i: int| 0o755u32));
}

/// Two archives of listings of the same tree, in whatever order the host
/// listed it, hold the same entries, directories and files with their
/// contents alike; only their order may differ.
pub proof fn lemma_archive_repeatable(root1: Seq<Node>, root2: Seq<Node>)
    requires
        nodes_items(Seq::empty(), root1) == nodes_items(Seq::empty(), root2),
    ensures
        entry_set(nodes_entries(Seq::empty(), root1)) == entry_set(nodes_entries(Seq::empty(), root2)),
{
    lemma_entries_keep_items(root1);
    lemma_entries_keep_items(root2);
}

/// The archive's file name: `<release>-v<version>.kpz`.
pub open spec fn archive_name(release: Seq<char>, version: Seq<char>) -> Seq<char> {
    release + seq!['-', 'v'] + version + seq!['.', 'k', 'p', 'z']
}

/// Builds the archive of the staged tree and names it after the release and
/// the package's version. It succeeds whenever every file fits the 32-bit
/// size fields.
pub fn create_zip(release: &str, version: &str, root: &Vec<Node>) -> (r: Result<(String, Vec<u8>), PackError>)
    ensures
        sizes_fit(nodes_entries(Seq::empty(), root@)) ==> r.is_ok(),
        r.is_ok() ==> r->Ok_0.0@ == archive_name(release@, version@),
        r.is_ok() ==> r->Ok_0.1@ == tree_archive_bytes(root@),
        r.is_err() ==> r == Err::<(String, Vec<u8>), PackError>(PackError::ArchiveWrite),
{
    let bytes = serialize_tree(root)?;
    let mut name = String::from_str(release);
    name.append("-v");
    name.append(version);
    name.append(".kpz");
    proof {
        reveal_strlit("-v");
        reveal_strlit(".kpz");
        assert(name@ =~= archive_name(release@, version@));
    }
    Ok((name, bytes))
}

} // verus!
