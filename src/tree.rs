use vstd::prelude::*;
use vstd::string::*;

verus! {

/// One node of a directory tree as listed from disk, children in listing order.
pub enum Node {
    File { name: String, data: Vec<u8> },
    Dir { name: String, children: Vec<Node> },
}

/// One archive entry: its slash-separated path, whether it is a directory,
/// and the bytes of a file (empty for a directory).
pub struct Entry {
    pub path: String,
    pub is_dir: bool,
    pub data: Vec<u8>,
}

pub type EntryView = (Seq<char>, bool, Seq<u8>);

impl Entry {
    pub open spec fn view(&self) -> EntryView {
        (self.path@, self.is_dir, self.data@)
    }
}

pub open spec fn entries_view(s: Seq<Entry>) -> Seq<EntryView> {
    s.map_values(|e: Entry| e.view())
}

/// `name` placed under `prefix`, with a forward slash between them.
pub open spec fn join_path(prefix: Seq<char>, name: Seq<char>) -> Seq<char> {
    if prefix.len() == 0 {
        name
    } else {
        prefix + seq!['/'] + name
    }
}

/// The entries of one node in depth-first order: a directory comes before its
/// descendants, and its own path ends with a slash.
pub open spec fn node_entries(prefix: Seq<char>, n: Node) -> Seq<EntryView>
    decreases n,
{
    match n {
        Node::File { name, data } => seq![(join_path(prefix, name@), false, data@)],
        Node::Dir { name, children } => seq![(join_path(prefix, name@) + seq!['/'], true, Seq::<u8>::empty())]
            + nodes_entries(join_path(prefix, name@), children@),
    }
}

/// The entries of a list of sibling nodes, in listing order.
pub open spec fn nodes_entries(prefix: Seq<char>, ns: Seq<Node>) -> Seq<EntryView>
    decreases ns,
{
    if ns.len() == 0 {
        Seq::empty()
    } else {
        node_entries(prefix, ns[0]) + nodes_entries(prefix, ns.drop_first())
    }
}


/// Places `name` under `prefix` with a forward slash, whatever the host's separator.
pub fn join_path_exec(prefix: &str, name: &str) -> (r: String)
    ensures
        r@ == join_path(prefix@, name@),
{
    if prefix.unicode_len() == 0 {
        String::from_str(name)
    } else {
        let mut s = String::from_str(prefix);
        s.append("/");
        s.append(name);
        proof {
            assert("/"@ == seq!['/']) by { reveal_strlit("/"); }
        }
        s
    }
}

/// Appends the entries of `node` under `prefix` to `out`.
pub fn push_node_entries(prefix: &str, node: &Node, out: &mut Vec<Entry>)
    ensures
        entries_view(final(out)@) == entries_view(old(out)@) + node_entries(prefix@, *node),
    decreases node,
{
    match node {
        Node::File { name, data } => {
            let path = join_path_exec(prefix, name.as_str());
            out.push(Entry { path, is_dir: false, data: data.clone() });
            proof {
                assert(entries_view(final(out)@) =~= entries_view(old(out)@) + node_entries(prefix@, *node));
            }
        },
        Node::Dir { name, children } => {
            let path = join_path_exec(prefix, name.as_str());
            let mut marker = path.clone();
            marker.append("/");
            proof {
                assert("/"@ == seq!['/']) by { reveal_strlit("/"); }
            }
            out.push(Entry { path: marker, is_dir: true, data: Vec::new() });
            proof {
                assert(entries_view(out@) =~= entries_view(old(out)@) + seq![(join_path(prefix@, name@) + seq!['/'], true, Seq::<u8>::empty())]);
            }
            push_nodes_entries(path.as_str(), children, out);
            proof {
                assert(entries_view(final(out)@) =~= entries_view(old(out)@) + node_entries(prefix@, *node));
            }
        },
    }
}

/// Appends the entries of the sibling list `nodes` under `prefix` to `out`.
pub fn push_nodes_entries(prefix: &str, nodes: &Vec<Node>, out: &mut Vec<Entry>)
    ensures
        entries_view(final(out)@) == entries_view(old(out)@) + nodes_entries(prefix@, nodes@),
    decreases nodes,
{
    let ghost start = entries_view(out@);
    let mut i: usize = 0;
    proof {
        assert(nodes@.subrange(0, nodes@.len() as int) =~= nodes@);
    }
    while i < nodes.len()
        invariant
            0 <= i <= nodes@.len(),
            entries_view(out@) + nodes_entries(prefix@, nodes@.subrange(i as int, nodes@.len() as int))
                == start + nodes_entries(prefix@, nodes@),
        decreases nodes@.len() - i,
    {
        let ghost rest = nodes@.subrange(i as int, nodes@.len() as int);
        proof {
            assert(rest.drop_first() =~= nodes@.subrange(i + 1, nodes@.len() as int));
            assert(rest[0] == nodes@[i as int]);
        }
        push_node_entries(prefix, &nodes[i], out);
        i = i + 1;
        proof {
            assert(nodes_entries(prefix@, rest) == node_entries(prefix@, nodes@[i - 1]) + nodes_entries(prefix@, rest.drop_first()));
        }
    }
    proof {
        assert(nodes@.subrange(nodes@.len() as int, nodes@.len() as int) =~= Seq::<Node>::empty());
        assert(entries_view(out@) =~= entries_view(out@) + Seq::<EntryView>::empty());
    }
}

/// The entries of a whole staged tree, in the order they go into the archive.
pub fn archive_entries(root: &Vec<Node>) -> (r: Vec<Entry>)
    ensures
        entries_view(r@) == nodes_entries(Seq::empty(), root@),
{
    let mut out: Vec<Entry> = Vec::new();
    push_nodes_entries("", root, &mut out);
    proof {
        assert(""@ =~= Seq::<char>::empty()) by { reveal_strlit(""); }
        assert(entries_view(out@) =~= nodes_entries(Seq::empty(), root@));
    }
    out
}


/// The files of one node as (path, content) pairs.
pub open spec fn node_files(prefix: Seq<char>, n: Node) -> Set<(Seq<char>, Seq<u8>)>
    decreases n,
{
    match n {
        Node::File { name, data } => set![(join_path(prefix, name@), data@)],
        Node::Dir { name, children } => nodes_files(join_path(prefix, name@), children@),
    }
}

/// The files of a list of sibling nodes as (path, content) pairs: a set, so the
/// order in which they were listed does not matter.
pub open spec fn nodes_files(prefix: Seq<char>, ns: Seq<Node>) -> Set<(Seq<char>, Seq<u8>)>
    decreases ns,
{
    if ns.len() == 0 {
        Set::empty()
    } else {
        node_files(prefix, ns[0]).union(nodes_files(prefix, ns.drop_first()))
    }
}

/// The (path, content) pairs of the file entries of an entry list.
pub open spec fn entry_files(s: Seq<EntryView>) -> Set<(Seq<char>, Seq<u8>)> {
    Set::new(|f: (Seq<char>, Seq<u8>)| exists|i: int| 0 <= i < s.len() && s[i] == (f.0, false, f.1))
}

proof fn lemma_entry_files_append(a: Seq<EntryView>, b: Seq<EntryView>)
    ensures
        entry_files(a + b) == entry_files(a).union(entry_files(b)),
{
    assert forall|f: (Seq<char>, Seq<u8>)| entry_files(a + b).contains(f) implies entry_files(a).union(entry_files(b)).contains(f) by {
        let i = choose|i: int| 0 <= i < (a + b).len() && (a + b)[i] == (f.0, false, f.1);
        if i < a.len() {
            assert(a[i] == (f.0, false, f.1));
        } else {
            assert(b[i - a.len()] == (f.0, false, f.1));
        }
    }
    assert forall|f: (Seq<char>, Seq<u8>)| entry_files(a).union(entry_files(b)).contains(f) implies entry_files(a + b).contains(f) by {
        if entry_files(a).contains(f) {
            let i = choose|i: int| 0 <= i < a.len() && a[i] == (f.0, false, f.1);
            assert((a + b)[i] == (f.0, false, f.1));
        } else {
            let i = choose|i: int| 0 <= i < b.len() && b[i] == (f.0, false, f.1);
            assert((a + b)[a.len() + i] == (f.0, false, f.1));
        }
    }
    assert(entry_files(a + b) =~= entry_files(a).union(entry_files(b)));
}

proof fn lemma_node_entry_files(prefix: Seq<char>, n: Node)
    ensures
        entry_files(node_entries(prefix, n)) == node_files(prefix, n),
    decreases n,
{
    match n {
        Node::File { name, data } => {
            let s = node_entries(prefix, n);
            assert(s[0] == (join_path(prefix, name@), false, data@));
            assert(entry_files(s) =~= node_files(prefix, n));
        },
        Node::Dir { name, children } => {
            let head = seq![(join_path(prefix, name@) + seq!['/'], true, Seq::<u8>::empty())];
            lemma_entry_files_append(head, nodes_entries(join_path(prefix, name@), children@));
            assert(entry_files(head) =~= Set::empty());
            lemma_nodes_entry_files(join_path(prefix, name@), children@);
            assert(entry_files(node_entries(prefix, n)) =~= node_files(prefix, n));
        },
    }
}

proof fn lemma_nodes_entry_files(prefix: Seq<char>, ns: Seq<Node>)
    ensures
        entry_files(nodes_entries(prefix, ns)) == nodes_files(prefix, ns),
    decreases ns,
{
    if ns.len() == 0 {
        assert(entry_files(Seq::empty()) =~= Set::empty());
    } else {
        lemma_entry_files_append(node_entries(prefix, ns[0]), nodes_entries(prefix, ns.drop_first()));
        lemma_node_entry_files(prefix, ns[0]);
        lemma_nodes_entry_files(prefix, ns.drop_first());
    }
}

/// The file entries of a staged tree's entry list are exactly the tree's files,
/// path and content alike: walking the tree neither adds, drops nor alters a file.
pub proof fn lemma_entries_keep_files(root: Seq<Node>)
    ensures
        entry_files(nodes_entries(Seq::empty(), root)) == nodes_files(Seq::empty(), root),
{
    lemma_nodes_entry_files(Seq::empty(), root);
}

/// Every entry of one node, files and directories alike, as a set.
pub open spec fn node_items(prefix: Seq<char>, n: Node) -> Set<EntryView>
    decreases n,
{
    match n {
        Node::File { name, data } => set![(join_path(prefix, name@), false, data@)],
        Node::Dir { name, children } => set![(join_path(prefix, name@) + seq!['/'], true, Seq::<u8>::empty())]
            .union(nodes_items(join_path(prefix, name@), children@)),
    }
}

/// Every entry of a list of sibling nodes as a set: the order in which they
/// were listed does not matter.
pub open spec fn nodes_items(prefix: Seq<char>, ns: Seq<Node>) -> Set<EntryView>
    decreases ns,
{
    if ns.len() == 0 {
        Set::empty()
    } else {
        node_items(prefix, ns[0]).union(nodes_items(prefix, ns.drop_first()))
    }
}

/// The entries of an entry list, as a set.
pub open spec fn entry_set(s: Seq<EntryView>) -> Set<EntryView> {
    Set::new(|x: EntryView| exists|i: int| 0 <= i < s.len() && s[i] == x)
}

proof fn lemma_entry_set_append(a: Seq<EntryView>, b: Seq<EntryView>)
    ensures
        entry_set(a + b) == entry_set(a).union(entry_set(b)),
{
    assert forall|x: EntryView| entry_set(a + b).contains(x) implies entry_set(a).union(entry_set(b)).contains(x) by {
        let i = choose|i: int| 0 <= i < (a + b).len() && (a + b)[i] == x;
        if i < a.len() {
            assert(a[i] == x);
        } else {
            assert(b[i - a.len()] == x);
        }
    }
    assert forall|x: EntryView| entry_set(a).union(entry_set(b)).contains(x) implies entry_set(a + b).contains(x) by {
        if entry_set(a).contains(x) {
            let i = choose|i: int| 0 <= i < a.len() && a[i] == x;
            assert((a + b)[i] == x);
        } else {
            let i = choose|i: int| 0 <= i < b.len() && b[i] == x;
            assert((a + b)[a.len() + i] == x);
        }
    }
    assert(entry_set(a + b) =~= entry_set(a).union(entry_set(b)));
}

proof fn lemma_node_entry_set(prefix: Seq<char>, n: Node)
    ensures
        entry_set(node_entries(prefix, n)) == node_items(prefix, n),
    decreases n,
{
    match n {
        Node::File { name, data } => {
            let s = node_entries(prefix, n);
            assert(s[0] == (join_path(prefix, name@), false, data@));
            assert(entry_set(s) =~= node_items(prefix, n));
        },
        Node::Dir { name, children } => {
            let head = seq![(join_path(prefix, name@) + seq!['/'], true, Seq::<u8>::empty())];
            lemma_entry_set_append(head, nodes_entries(join_path(prefix, name@), children@));
            assert(head[0] == (join_path(prefix, name@) + seq!['/'], true, Seq::<u8>::empty()));
            assert(entry_set(head) =~= set![(join_path(prefix, name@) + seq!['/'], true, Seq::<u8>::empty())]);
            lemma_nodes_entry_set(join_path(prefix, name@), children@);
        },
    }
}

proof fn lemma_nodes_entry_set(prefix: Seq<char>, ns: Seq<Node>)
    ensures
        entry_set(nodes_entries(prefix, ns)) == nodes_items(prefix, ns),
    decreases ns,
{
    if ns.len() == 0 {
        assert(entry_set(Seq::empty()) =~= Set::empty());
    } else {
        lemma_entry_set_append(node_entries(prefix, ns[0]), nodes_entries(prefix, ns.drop_first()));
        lemma_node_entry_set(prefix, ns[0]);
        lemma_nodes_entry_set(prefix, ns.drop_first());
    }
}

/// The entries of a staged tree's entry list are exactly the tree's files and
/// directories: the walk neither adds, drops nor alters an entry.
pub proof fn lemma_entries_keep_items(root: Seq<Node>)
    ensures
        entry_set(nodes_entries(Seq::empty(), root)) == nodes_items(Seq::empty(), root),
{
    lemma_nodes_entry_set(Seq::empty(), root);
}

} // verus!
