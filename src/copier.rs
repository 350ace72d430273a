use vstd::prelude::*;
use vstd::string::*;
use crate::error::PackError;
use crate::tree::{
    Node, EntryView, entries_view, join_path, join_path_exec, nodes_entries, nodes_files,
    entry_files, archive_entries, lemma_entries_keep_files,
};

verus! {

/// The source directory that is staged.
pub const SOURCE_DIR: &'static str = "Koha";

/// The staging root.
pub const STAGING_DIR: &'static str = "dist";

/// One filesystem step of a copy: create a directory (idempotently), or copy a
/// regular file's bytes.
pub enum CopyOp {
    CreateDir { path: String },
    CopyFile { from: String, to: String },
}

/// (is a directory, source path, destination path); a directory has no source.
pub type CopyOpView = (bool, Seq<char>, Seq<char>);

impl CopyOp {
    pub open spec fn view(&self) -> CopyOpView {
        match self {
            CopyOp::CreateDir { path } => (true, Seq::empty(), path@),
            CopyOp::CopyFile { from, to } => (false, from@, to@),
        }
    }
}

pub open spec fn ops_view(s: Seq<CopyOp>) -> Seq<CopyOpView> {
    s.map_values(|o: CopyOp| o.view())
}

/// The step that mirrors one entry of the source tree under the destination root.
pub open spec fn op_for_entry(src: Seq<char>, dest: Seq<char>, e: EntryView) -> CopyOpView {
    if e.1 {
        (true, Seq::empty(), join_path(dest, e.0))
    } else {
        (false, join_path(src, e.0), join_path(dest, e.0))
    }
}

/// The whole copy: the destination root first, then one step per entry of the
/// source tree in depth-first order, so each directory exists before its contents.
pub open spec fn copy_plan(src: Seq<char>, dest: Seq<char>, tree: Seq<Node>) -> Seq<CopyOpView> {
    seq![(true, Seq::<char>::empty(), dest)]
        + nodes_entries(Seq::empty(), tree).map_values(|e: EntryView| op_for_entry(src, dest, e))
}

/// Mirrors the tree listed under `src_root` into `dest_root`. `source` is `None`
/// when `src_root` is missing or is not a directory: that fails with
/// `InvalidInput` and plans no step at all.
pub fn copy_dir_recursive(src_root: &str, dest_root: &str, source: &Option<Vec<Node>>) -> (r: Result<Vec<CopyOp>, PackError>)
    ensures
        source.is_none() <==> r == Err::<Vec<CopyOp>, PackError>(PackError::InvalidInput),
        source.is_some() ==> r.is_ok() && ops_view(r->Ok_0@) == copy_plan(src_root@, dest_root@, source->Some_0@),
{
    match source {
        None => Err(PackError::InvalidInput),
        Some(tree) => {
            let entries = archive_entries(tree);
            let mut ops: Vec<CopyOp> = Vec::new();
            ops.push(CopyOp::CreateDir { path: String::from_str(dest_root) });
            let ghost expected = nodes_entries(Seq::empty(), tree@);
            let mut i: usize = 0;
            while i < entries.len()
                invariant
                    0 <= i <= entries@.len(),
                    entries_view(entries@) == expected,
                    ops_view(ops@) == seq![(true, Seq::<char>::empty(), dest_root@)]
                        + expected.subrange(0, i as int).map_values(|e: EntryView| op_for_entry(src_root@, dest_root@, e)),
                decreases entries@.len() - i,
            {
                let e = &entries[i];
                proof {
                    assert(expected[i as int] == e.view());
                }
                let ghost before = ops@;
                let ghost op = op_for_entry(src_root@, dest_root@, e.view());
                let to = join_path_exec(dest_root, e.path.as_str());
                if e.is_dir {
                    ops.push(CopyOp::CreateDir { path: to });
                } else {
                    let from = join_path_exec(src_root, e.path.as_str());
                    ops.push(CopyOp::CopyFile { from, to });
                }
                i = i + 1;
                proof {
                    assert(ops@ == before.push(ops@.last()));
                    assert(ops@.last().view() == op);
                    assert(ops_view(ops@) =~= ops_view(before).push(op));
                    assert(expected.subrange(0, i as int) =~= expected.subrange(0, i - 1).push(expected[i - 1]));
                    assert(ops_view(ops@) =~= seq![(true, Seq::<char>::empty(), dest_root@)]
                        + expected.subrange(0, i as int).map_values(|e: EntryView| op_for_entry(src_root@, dest_root@, e)));
                }
            }
            proof {
                assert(expected.subrange(0, entries@.len() as int) =~= expected);
            }
            Ok(ops)
        },
    }
}

/// Stages the source directory: mirrors `Koha` into `dist/Koha`.
pub fn copy_files(source: &Option<Vec<Node>>) -> (r: Result<Vec<CopyOp>, PackError>)
    ensures
        source.is_none() <==> r == Err::<Vec<CopyOp>, PackError>(PackError::InvalidInput),
        source.is_some() ==> r.is_ok() && ops_view(r->Ok_0@) == copy_plan(
            SOURCE_DIR@,
            join_path(STAGING_DIR@, SOURCE_DIR@),
            source->Some_0@,
        ),
{
    let dest = join_path_exec(STAGING_DIR, SOURCE_DIR);
    copy_dir_recursive(SOURCE_DIR, dest.as_str(), source)
}

/// The file copies that a plan makes, as (source path, destination path).
pub open spec fn planned_copies(plan: Seq<CopyOpView>) -> Set<(Seq<char>, Seq<char>)> {
    Set::new(|c: (Seq<char>, Seq<char>)| exists|i: int| 0 <= i < plan.len() && plan[i] == (false, c.0, c.1))
}

/// A copy of a tree copies each of its files, and nothing else, from its relative
/// path under the source root to the same relative path under the destination root.
pub proof fn lemma_copy_mirrors_files(src: Seq<char>, dest: Seq<char>, tree: Seq<Node>)
    ensures
        planned_copies(copy_plan(src, dest, tree)) == nodes_files(Seq::empty(), tree).map(
            |f: (Seq<char>, Seq<u8>)| (join_path(src, f.0), join_path(dest, f.0)),
        ),
{
    let es = nodes_entries(Seq::empty(), tree);
    let plan = copy_plan(src, dest, tree);
    let files = nodes_files(Seq::empty(), tree);
    let g = |f: (Seq<char>, Seq<u8>)| (join_path(src, f.0), join_path(dest, f.0));
    lemma_entries_keep_files(tree);
    assert forall|c: (Seq<char>, Seq<char>)| planned_copies(plan).contains(c) implies files.map(g).contains(c) by {
        let i = choose|i: int| 0 <= i < plan.len() && plan[i] == (false, c.0, c.1);
        let e = es[i - 1];
        assert(plan[i] == op_for_entry(src, dest, e));
        assert(entry_files(es).contains((e.0, e.2)));
        assert(g((e.0, e.2)) == c);
    }
    assert forall|c: (Seq<char>, Seq<char>)| files.map(g).contains(c) implies planned_copies(plan).contains(c) by {
        let f = choose|f: (Seq<char>, Seq<u8>)| files.contains(f) && g(f) == c;
        assert(entry_files(es).contains(f));
        let i = choose|i: int| 0 <= i < es.len() && es[i] == (f.0, false, f.1);
        assert(plan[i + 1] == op_for_entry(src, dest, es[i]));
    }
    assert(planned_copies(plan) =~= files.map(g));
}

} // verus!
