//! Depth-bounded traversal of an in-memory directory snapshot: a pre-order
//! walk that visits file entries and skips every subtree lying deeper than
//! the configured ceiling.

use vstd::prelude::*;

verus! {

/// A file discovered during traversal: the path under which it was found,
/// its resolved canonical path, and its contents.
pub struct FileEntry {
    pub path: String,
    pub canonical: String,
    pub bytes: Vec<u8>,
}

/// The mathematical content of a `FileEntry`.
pub struct FileEntryView {
    pub path: Seq<char>,
    pub canonical: Seq<char>,
    pub bytes: Seq<u8>,
}

impl View for FileEntry {
    type V = FileEntryView;

    open spec fn view(&self) -> FileEntryView {
        FileEntryView { path: self.path@, canonical: self.canonical@, bytes: self.bytes@ }
    }
}

/// A snapshot of one node of the directory tree: a file with its contents,
/// or a directory with its entries in listing order.
pub enum FsNode {
    File(FileEntry),
    Dir(Vec<FsNode>),
}

/// The mathematical content of an `FsNode`.
pub enum FsNodeView {
    File(FileEntryView),
    Dir(Seq<FsNodeView>),
}

/// The view of one node.
pub open spec fn node_view(n: FsNode) -> FsNodeView
    decreases n, 1int,
{
    match n {
        FsNode::File(f) => FsNodeView::File(f@),
        FsNode::Dir(entries) => {
            proof {
                assert(decreases_to!(n => entries));
                assert(decreases_to!(entries => entries@));
            }
            FsNodeView::Dir(nodes_view(entries@))
        },
    }
}

/// The views of a sequence of nodes, in order.
pub open spec fn nodes_view(s: Seq<FsNode>) -> Seq<FsNodeView>
    decreases s, 0int,
{
    if s.len() == 0 {
        Seq::empty()
    } else {
        proof {
            assert(decreases_to!(s => s[0]));
            assert(decreases_to!(s => s.subrange(1, s.len() as int)));
        }
        seq![node_view(s[0])] + nodes_view(s.drop_first())
    }
}

impl View for FsNode {
    type V = FsNodeView;

    open spec fn view(&self) -> FsNodeView {
        node_view(*self)
    }
}

/// `nodes_view` maps the sequence pointwise.
pub proof fn lemma_nodes_view_index(s: Seq<FsNode>)
    ensures
        nodes_view(s).len() == s.len(),
        forall|k: int| 0 <= k < s.len() ==> nodes_view(s)[k] == (#[trigger] s[k])@,
    decreases s.len(),
{
    if s.len() > 0 {
        lemma_nodes_view_index(s.drop_first());
        assert forall|k: int| 0 <= k < s.len() implies nodes_view(s)[k] == (#[trigger] s[k])@ by {
            if k > 0 {
                assert(s.drop_first()[k - 1] == s[k]);
                assert(nodes_view(s)[k] == nodes_view(s.drop_first())[k - 1]);
            }
        }
    }
}

/// The files visited when `n` is treated as a directory at depth `depth`:
/// none when the node lies beyond the ceiling or is not a directory, else
/// the files its entries yield, in order.
pub open spec fn spec_visit_dir(n: FsNodeView, depth: nat, max_depth: nat) -> Seq<FileEntryView>
    decreases n, 0int,
{
    if depth > max_depth {
        Seq::empty()
    } else {
        match n {
            FsNodeView::File(_) => Seq::empty(),
            FsNodeView::Dir(entries) => spec_visit_entries(entries, depth, max_depth),
        }
    }
}

/// The files the entries of a directory at depth `depth` yield: a file entry
/// is visited, a directory entry is recursed into one level deeper.
pub open spec fn spec_visit_entries(
    entries: Seq<FsNodeView>,
    depth: nat,
    max_depth: nat,
) -> Seq<FileEntryView>
    decreases entries, 2int,
{
    if entries.len() == 0 {
        Seq::empty()
    } else {
        spec_visit_entry(entries[0], depth, max_depth) + spec_visit_entries(
            entries.drop_first(),
            depth,
            max_depth,
        )
    }
}

/// One entry's contribution: a file is visited, a directory yields its own
/// walk one level deeper.
pub open spec fn spec_visit_entry(n: FsNodeView, depth: nat, max_depth: nat) -> Seq<FileEntryView>
    decreases n, 1int,
{
    match n {
        FsNodeView::File(f) => seq![f],
        FsNodeView::Dir(_) => spec_visit_dir(n, depth + 1, max_depth),
    }
}

/// The views of a collected entry list.
pub open spec fn entries_view(s: Seq<&FileEntry>) -> Seq<FileEntryView> {
    s.map_values(|e: &FileEntry| e@)
}

/// Visiting one more entry extends the yielded files by that entry's
/// contribution.
pub proof fn lemma_visit_entries_push(
    entries: Seq<FsNodeView>,
    x: FsNodeView,
    depth: nat,
    max_depth: nat,
)
    ensures
        spec_visit_entries(entries.push(x), depth, max_depth) == spec_visit_entries(
            entries,
            depth,
            max_depth,
        ) + spec_visit_entry(x, depth, max_depth),
    decreases entries.len(),
{
    assert(entries.push(x)[0] == if entries.len() == 0 {
        x
    } else {
        entries[0]
    });
    if entries.len() == 0 {
        assert(entries.push(x).drop_first() =~= Seq::<FsNodeView>::empty());
        assert(spec_visit_entries(Seq::<FsNodeView>::empty(), depth, max_depth)
            == Seq::<FileEntryView>::empty());
        assert(spec_visit_entries(entries.push(x), depth, max_depth) =~= spec_visit_entry(
            x,
            depth,
            max_depth,
        ));
        assert(spec_visit_entries(entries, depth, max_depth) + spec_visit_entry(
            x,
            depth,
            max_depth,
        ) =~= spec_visit_entry(x, depth, max_depth));
    } else {
        assert(entries.push(x).drop_first() =~= entries.drop_first().push(x));
        lemma_visit_entries_push(entries.drop_first(), x, depth, max_depth);
        assert(spec_visit_entry(entries[0], depth, max_depth) + (spec_visit_entries(
            entries.drop_first(),
            depth,
            max_depth,
        ) + spec_visit_entry(x, depth, max_depth)) =~= (spec_visit_entry(
            entries[0],
            depth,
            max_depth,
        ) + spec_visit_entries(entries.drop_first(), depth, max_depth)) + spec_visit_entry(
            x,
            depth,
            max_depth,
        ));
    }
}

/// Walks the snapshot `dir` as a directory at depth `depth`, appending every
/// visited file entry to `out` in pre-order. A subtree lying deeper than
/// `max_depth` is skipped entirely; directory entries themselves are never
/// collected.
pub fn walk<'a>(dir: &'a FsNode, max_depth: usize, depth: usize, out: &mut Vec<&'a FileEntry>)
    ensures
        entries_view(final(out)@) == entries_view(old(out)@) + spec_visit_dir(
            dir@,
            depth as nat,
            max_depth as nat,
        ),
    decreases dir@,
{
    if depth > max_depth {
        proof {
            assert(entries_view(out@) =~= entries_view(out@) + spec_visit_dir(
                dir@,
                depth as nat,
                max_depth as nat,
            ));
        }
        return ;
    }
    match dir {
        FsNode::File(_) => {
            proof {
                assert(entries_view(out@) =~= entries_view(out@) + spec_visit_dir(
                    dir@,
                    depth as nat,
                    max_depth as nat,
                ));
            }
        },
        FsNode::Dir(entries) => {
            let ghost dv = nodes_view(entries@);
            proof {
                lemma_nodes_view_index(entries@);
                assert(dir@ == FsNodeView::Dir(dv));
            }
            let n = entries.len();
            let mut i: usize = 0;
            while i < n
                invariant
                    i <= n,
                    n == entries@.len(),
                    depth <= max_depth,
                    dir@ == FsNodeView::Dir(dv),
                    dv.len() == entries@.len(),
                    forall|k: int| 0 <= k < entries@.len() ==> dv[k] == (#[trigger] entries@[k])@,
                    entries_view(out@) == entries_view(old(out)@) + spec_visit_entries(
                        dv.take(i as int),
                        depth as nat,
                        max_depth as nat,
                    ),
                decreases n - i,
            {
                proof {
                    assert(dv.take(i + 1) =~= dv.take(i as int).push(dv[i as int]));
                    lemma_visit_entries_push(
                        dv.take(i as int),
                        dv[i as int],
                        depth as nat,
                        max_depth as nat,
                    );
                }
                let entry = &entries[i];
                match entry {
                    FsNode::File(f) => {
                        proof {
                            assert(entries@[i as int] == FsNode::File(*f));
                            assert(spec_visit_entry(dv[i as int], depth as nat, max_depth as nat)
                                =~= seq![f@]);
                        }
                        let ghost prev = out@;
                        out.push(f);
                        proof {
                            assert(entries_view(prev.push(f)) =~= entries_view(prev) + seq![f@]);
                            assert(entries_view(old(out)@) + spec_visit_entries(
                                dv.take(i as int),
                                depth as nat,
                                max_depth as nat,
                            ) + seq![f@] =~= entries_view(old(out)@) + spec_visit_entries(
                                dv.take(i + 1),
                                depth as nat,
                                max_depth as nat,
                            ));
                        }
                    },
                    FsNode::Dir(_) => {
                        if depth < max_depth {
                            proof {
                                assert(entry@ == dv[i as int]);
                                assert(decreases_to!(dir@ => dir@->Dir_0));
                                assert(decreases_to!(dir@->Dir_0 => dir@->Dir_0[i as int]));
                            }
                            let ghost prev = out@;
                            walk(entry, max_depth, depth + 1, out);
                            proof {
                                assert(spec_visit_entry(
                                    dv[i as int],
                                    depth as nat,
                                    max_depth as nat,
                                ) == spec_visit_dir(entry@, (depth + 1) as nat, max_depth as nat));
                                assert(entries_view(prev) + spec_visit_dir(
                                    entry@,
                                    (depth + 1) as nat,
                                    max_depth as nat,
                                ) =~= entries_view(old(out)@) + spec_visit_entries(
                                    dv.take(i + 1),
                                    depth as nat,
                                    max_depth as nat,
                                ));
                            }
                        } else {
                            proof {
                                assert(spec_visit_entry(
                                    dv[i as int],
                                    depth as nat,
                                    max_depth as nat,
                                ) =~= Seq::<FileEntryView>::empty());
                                assert(entries_view(out@) =~= entries_view(old(out)@)
                                    + spec_visit_entries(
                                    dv.take(i + 1),
                                    depth as nat,
                                    max_depth as nat,
                                ));
                            }
                        }
                    },
                }
                i = i + 1;
            }
            proof {
                assert(dv.take(n as int) =~= dv);
            }
        },
    }
}


/// `f` lies, as a file entry, in a directory `d` levels below `n` (a file
/// directly in `n` is at depth 0).
pub open spec fn file_at_depth(n: FsNodeView, f: FileEntryView, d: nat) -> bool
    decreases n, 0int,
{
    match n {
        FsNodeView::File(_) => false,
        FsNodeView::Dir(entries) => entries_have_file(entries, f, d),
    }
}

/// Some entry of the list holds `f` at depth `d` below the list's own
/// directory.
pub open spec fn entries_have_file(entries: Seq<FsNodeView>, f: FileEntryView, d: nat) -> bool
    decreases entries, 1int,
{
    if entries.len() == 0 {
        false
    } else {
        (if d == 0 {
            entries[0] == FsNodeView::File(f)
        } else {
            file_at_depth(entries[0], f, (d - 1) as nat)
        }) || entries_have_file(entries.drop_first(), f, d)
    }
}

/// Law, one half of the depth bound: the walk visits no file lying deeper
/// than the ceiling — every visited file sits at some depth within it.
pub proof fn lemma_walk_depth_bounded(n: FsNodeView, depth: nat, max_depth: nat, f: FileEntryView)
    requires
        spec_visit_dir(n, depth, max_depth).contains(f),
    ensures
        exists|d: nat| #[trigger] file_at_depth(n, f, d) && depth + d <= max_depth,
    decreases n, 0int,
{
    assert(depth <= max_depth);
    match n {
        FsNodeView::File(_) => {
            assert(false);
        },
        FsNodeView::Dir(entries) => {
            lemma_entries_depth_bounded(entries, depth, max_depth, f);
            let d = choose|d: nat|
                #[trigger] entries_have_file(entries, f, d) && depth + d <= max_depth;
            assert(file_at_depth(n, f, d) && depth + d <= max_depth);
        },
    }
}

/// The entries half of the depth bound.
pub proof fn lemma_entries_depth_bounded(
    entries: Seq<FsNodeView>,
    depth: nat,
    max_depth: nat,
    f: FileEntryView,
)
    requires
        depth <= max_depth,
        spec_visit_entries(entries, depth, max_depth).contains(f),
    ensures
        exists|d: nat| #[trigger] entries_have_file(entries, f, d) && depth + d <= max_depth,
    decreases entries, 1int,
{
    assert(entries.len() > 0);
    let s1 = spec_visit_entry(entries[0], depth, max_depth);
    let s2 = spec_visit_entries(entries.drop_first(), depth, max_depth);
    let idx = choose|idx: int| 0 <= idx < (s1 + s2).len() && (s1 + s2)[idx] == f;
    if idx < s1.len() {
        assert(s1[idx] == f);
        match entries[0] {
            FsNodeView::File(g) => {
                assert(f == g);
                assert(entries_have_file(entries, f, 0) && depth + 0 <= max_depth);
            },
            FsNodeView::Dir(_) => {
                assert(s1.contains(f));
                lemma_walk_depth_bounded(entries[0], (depth + 1) as nat, max_depth, f);
                let d = choose|d: nat|
                    #[trigger] file_at_depth(entries[0], f, d) && depth + 1 + d <= max_depth;
                assert(entries_have_file(entries, f, (d + 1) as nat) && depth + (d + 1)
                    <= max_depth);
            },
        }
    } else {
        assert(s2[idx - s1.len()] == f);
        assert(s2.contains(f));
        lemma_entries_depth_bounded(entries.drop_first(), depth, max_depth, f);
        let d = choose|d: nat|
            #[trigger] entries_have_file(entries.drop_first(), f, d) && depth + d <= max_depth;
        assert(entries_have_file(entries, f, d) && depth + d <= max_depth);
    }
}

/// Law, the other half of the depth bound: every file lying at a depth
/// within the ceiling is visited by the walk.
pub proof fn lemma_walk_depth_complete(
    n: FsNodeView,
    depth: nat,
    max_depth: nat,
    f: FileEntryView,
    d: nat,
)
    requires
        file_at_depth(n, f, d),
        depth + d <= max_depth,
    ensures
        spec_visit_dir(n, depth, max_depth).contains(f),
    decreases n, 0int,
{
    match n {
        FsNodeView::File(_) => {
            assert(false);
        },
        FsNodeView::Dir(entries) => {
            lemma_entries_depth_complete(entries, depth, max_depth, f, d);
        },
    }
}

/// The entries half of depth completeness.
pub proof fn lemma_entries_depth_complete(
    entries: Seq<FsNodeView>,
    depth: nat,
    max_depth: nat,
    f: FileEntryView,
    d: nat,
)
    requires
        entries_have_file(entries, f, d),
        depth + d <= max_depth,
    ensures
        spec_visit_entries(entries, depth, max_depth).contains(f),
    decreases entries, 1int,
{
    assert(entries.len() > 0);
    let s1 = spec_visit_entry(entries[0], depth, max_depth);
    let s2 = spec_visit_entries(entries.drop_first(), depth, max_depth);
    if d == 0 && entries[0] == FsNodeView::File(f) {
        assert(s1 == seq![f]);
        assert((s1 + s2)[0] == f);
        assert(spec_visit_entries(entries, depth, max_depth).contains(f));
    } else if d > 0 && file_at_depth(entries[0], f, (d - 1) as nat) {
        lemma_walk_depth_complete(entries[0], (depth + 1) as nat, max_depth, f, (d - 1) as nat);
        assert(s1.contains(f));
        let idx = choose|idx: int| 0 <= idx < s1.len() && s1[idx] == f;
        assert((s1 + s2)[idx] == f);
        assert(spec_visit_entries(entries, depth, max_depth).contains(f));
    } else {
        assert(entries_have_file(entries.drop_first(), f, d));
        lemma_entries_depth_complete(entries.drop_first(), depth, max_depth, f, d);
        let idx = choose|idx: int| 0 <= idx < s2.len() && s2[idx] == f;
        assert((s1 + s2)[s1.len() + idx] == f);
        assert(spec_visit_entries(entries, depth, max_depth).contains(f));
    }
}

} // verus!
