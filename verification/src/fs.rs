use vstd::prelude::*;
use crate::text::str_eq;

verus! {

/// A node of the RAM file system: a file with its bytes, or a directory with its children.
pub enum FsNode {
    File { name: String, content: Vec<u8> },
    Directory { name: String, children: Vec<FsNode> },
}

/// The abstract value of a node.
pub enum NodeView {
    File { name: Seq<char>, content: Seq<u8> },
    Directory { name: Seq<char>, children: Seq<NodeView> },
}

impl FsNode {
    /// The abstract value of the node.
    pub open spec fn node_view(self) -> NodeView
        decreases self,
    {
        match self {
            FsNode::File { name, content } => NodeView::File { name: name@, content: content@ },
            FsNode::Directory { name, children } => NodeView::Directory {
                name: name@,
                children: nodes_view(children@),
            },
        }
    }
}

/// The abstract values of a sequence of nodes.
pub open spec fn nodes_view(s: Seq<FsNode>) -> Seq<NodeView>
    decreases s,
{
    if s.len() == 0 {
        Seq::empty()
    } else {
        seq![s[0].node_view()] + nodes_view(s.subrange(1, s.len() as int))
    }
}

/// `nodes_view` maps each node to its abstract value.
pub proof fn lemma_nodes_view(s: Seq<FsNode>)
    ensures
        nodes_view(s).len() == s.len(),
        forall|i: int| 0 <= i < s.len() ==> #[trigger] nodes_view(s)[i] == s[i].node_view(),
    decreases s.len(),
{
    if s.len() > 0 {
        let t = s.subrange(1, s.len() as int);
        lemma_nodes_view(t);
        assert forall|i: int| 0 <= i < s.len() implies #[trigger] nodes_view(s)[i]
            == s[i].node_view() by {
            if i > 0 {
                assert(nodes_view(s)[i] == nodes_view(t)[i - 1]);
                assert(t[i - 1] == s[i]);
            }
        }
    }
}

/// Whether a node is a directory with this name.
pub open spec fn is_dir_named(n: NodeView, name: Seq<char>) -> bool {
    n matches NodeView::Directory { name: dn, .. } && dn == name
}

/// Whether a node is a file with this name.
pub open spec fn is_file_named(n: NodeView, name: Seq<char>) -> bool {
    n matches NodeView::File { name: fname, .. } && fname == name
}

/// The index of the first directory named `name` at or after `k`, or -1.
pub open spec fn first_dir_from(nodes: Seq<NodeView>, name: Seq<char>, k: int) -> int
    decreases nodes.len() - k,
{
    if k < 0 || k >= nodes.len() {
        -1
    } else if is_dir_named(nodes[k], name) {
        k
    } else {
        first_dir_from(nodes, name, k + 1)
    }
}

/// The index of the first directory named `name`, or -1.
pub open spec fn first_dir(nodes: Seq<NodeView>, name: Seq<char>) -> int {
    first_dir_from(nodes, name, 0)
}

/// The content of the first file named `name` at or after `k`.
pub open spec fn find_in_dir_from(nodes: Seq<NodeView>, name: Seq<char>, k: int) -> Option<
    Seq<u8>,
>
    decreases nodes.len() - k,
{
    if k < 0 || k >= nodes.len() {
        None
    } else if is_file_named(nodes[k], name) {
        Some(nodes[k]->File_content)
    } else {
        find_in_dir_from(nodes, name, k + 1)
    }
}

/// The content of the first file named `file` in a directory named `dir` at or after `k`,
/// looking through the directories in order.
pub open spec fn find_file_from(nodes: Seq<NodeView>, dir: Seq<char>, file: Seq<char>, k: int) -> Option<
    Seq<u8>,
>
    decreases nodes.len() - k,
{
    if k < 0 || k >= nodes.len() {
        None
    } else if is_dir_named(nodes[k], dir) && find_in_dir_from(
        nodes[k]->Directory_children,
        file,
        0,
    ) is Some {
        find_in_dir_from(nodes[k]->children, file, 0)
    } else {
        find_file_from(nodes, dir, file, k + 1)
    }
}

/// The names of the files among the nodes, in order.
pub open spec fn file_names(nodes: Seq<NodeView>) -> Seq<Seq<char>>
    decreases nodes.len(),
{
    if nodes.len() == 0 {
        Seq::empty()
    } else {
        file_names(nodes.drop_last()) + match nodes.last() {
            NodeView::File { name, .. } => seq![name],
            NodeView::Directory { .. } => Seq::empty(),
        }
    }
}

/// The top-level nodes of the file system (none when the root is a file).
pub open spec fn top_level(root: NodeView) -> Seq<NodeView> {
    match root {
        NodeView::Directory { children, .. } => children,
        NodeView::File { .. } => Seq::empty(),
    }
}

/// The result of adding a file to the directory at index `i` of the root.
pub open spec fn with_file_added(
    root: NodeView,
    i: int,
    file_name: Seq<char>,
    content: Seq<u8>,
) -> NodeView {
    match root {
        NodeView::Directory { name, children } => NodeView::Directory {
            name,
            children: children.update(
                i,
                NodeView::Directory {
                    name: children[i]->Directory_name,
                    children: children[i]->Directory_children.push(
                        NodeView::File { name: file_name, content },
                    ),
                },
            ),
        },
        NodeView::File { .. } => root,
    }
}

/// A file system in memory: a root directory holding directories that hold files.
pub struct RamFs {
    root: FsNode,
}

impl View for RamFs {
    type V = NodeView;

    closed spec fn view(&self) -> NodeView {
        self.root.node_view()
    }
}

impl RamFs {
    /// A file system whose root `/` holds the empty directories `Documents` and `Home`.
    pub fn new() -> (fs: Self)
        ensures
            fs@ == (NodeView::Directory {
                name: "/"@,
                children: seq![
                    NodeView::Directory { name: "Documents"@, children: Seq::empty() },
                    NodeView::Directory { name: "Home"@, children: Seq::empty() },
                ],
            }),
    {
        let mut children: Vec<FsNode> = Vec::new();
        children.push(FsNode::Directory { name: "Documents".to_owned(), children: Vec::new() });
        children.push(FsNode::Directory { name: "Home".to_owned(), children: Vec::new() });
        let fs = RamFs { root: FsNode::Directory { name: "/".to_owned(), children } };
        proof {
            lemma_nodes_view(children@);
            lemma_nodes_view(Seq::<FsNode>::empty());
            assert(nodes_view(children@) =~= seq![
                NodeView::Directory { name: "Documents"@, children: Seq::empty() },
                NodeView::Directory { name: "Home"@, children: Seq::empty() },
            ]);
        }
        fs
    }

    /// Adds a file to the first top-level directory named `dir_name`; returns whether there
    /// was one.
    pub fn create_file_in_dir(&mut self, dir_name: &str, file_name: &str, content: &[u8]) -> (r:
        bool)
        ensures
            r == (first_dir(top_level(old(self)@), dir_name@) >= 0),
            r ==> final(self)@ == with_file_added(
                old(self)@,
                first_dir(top_level(old(self)@), dir_name@),
                file_name@,
                content@,
            ),
            !r ==> final(self)@ == old(self)@,
    {
        let mut root = FsNode::File { name: String::new(), content: Vec::new() };
        core::mem::swap(&mut root, &mut self.root);
        match root {
            FsNode::Directory { name, mut children } => {
                proof {
                    lemma_nodes_view(children@);
                }
                let ghost tops = nodes_view(children@);
                assert(old(self)@ == (NodeView::Directory { name: name@, children: tops }));
                let mut i: usize = 0;
                while i < children.len()
                    invariant
                        i <= children@.len(),
                        tops == nodes_view(children@),
                        tops.len() == children@.len(),
                        forall|j: int| 0 <= j < children@.len() ==> #[trigger] tops[j]
                            == children@[j].node_view(),
                        old(self)@ == (NodeView::Directory { name: name@, children: tops }),
                        first_dir(tops, dir_name@) == first_dir_from(tops, dir_name@, i as int),
                    decreases children@.len() - i,
                {
                    let is_match = match &children[i] {
                        FsNode::Directory { name, .. } => str_eq(name.as_str(), dir_name),
                        FsNode::File { .. } => false,
                    };
                    if is_match {
                        let ghost old_children = children@;
                        proof {
                            assert(is_dir_named(tops[i as int], dir_name@));
                            assert(first_dir_from(tops, dir_name@, i as int) == i);
                        }
                        let mut child = children.remove(i);
                        let ghost old_child = child;
                        match &mut child {
                            FsNode::Directory { children: sub, .. } => {
                                let ghost old_sub = sub@;
                                sub.push(
                                    FsNode::File {
                                        name: file_name.to_owned(),
                                        content: vstd::slice::slice_to_vec(content),
                                    },
                                );
                                proof {
                                    lemma_nodes_view(old_sub);
                                    lemma_nodes_view(sub@);
                                    assert(nodes_view(sub@) =~= nodes_view(old_sub).push(
                                        NodeView::File { name: file_name@, content: content@ },
                                    ));
                                }
                            },
                            FsNode::File { .. } => {},
                        }
                        children.insert(i, child);
                        proof {
                            lemma_nodes_view(children@);
                            assert(children@ =~= old_children.update(i as int, child));
                            assert(old_child == old_children[i as int]);
                            assert(old_child.node_view() == tops[i as int]);
                            assert(child.node_view() == (NodeView::Directory {
                                name: old_child.node_view()->Directory_name,
                                children: old_child.node_view()->Directory_children.push(
                                    NodeView::File { name: file_name@, content: content@ },
                                ),
                            }));
                            assert(nodes_view(children@) =~= tops.update(
                                i as int,
                                child.node_view(),
                            ));
                        }
                        self.root = FsNode::Directory { name, children };
                        return true;
                    }
                    i = i + 1;
                }
                self.root = FsNode::Directory { name, children };
                false
            },
            FsNode::File { name, content } => {
                self.root = FsNode::File { name, content };
                false
            },
        }
    }

    /// The content of the first file named `file_name` in a top-level directory named
    /// `dir_name` (directories of that name are searched in order); `None` when there is none.
    pub fn read_file(&self, dir_name: &str, file_name: &str) -> (r: Option<Vec<u8>>)
        ensures
            match r {
                Some(v) => find_file_from(top_level(self@), dir_name@, file_name@, 0) == Some(v@),
                None => find_file_from(top_level(self@), dir_name@, file_name@, 0) is None,
            },
    {
        match &self.root {
            FsNode::Directory { children, .. } => {
                proof {
                    lemma_nodes_view(children@);
                }
                let ghost tops = nodes_view(children@);
                assert(top_level(self@) == tops);
                let mut i: usize = 0;
                while i < children.len()
                    invariant
                        i <= children@.len(),
                        tops == nodes_view(children@),
                        top_level(self@) == tops,
                        tops.len() == children@.len(),
                        forall|j: int| 0 <= j < children@.len() ==> #[trigger] tops[j]
                            == children@[j].node_view(),
                        find_file_from(tops, dir_name@, file_name@, 0) == find_file_from(
                            tops,
                            dir_name@,
                            file_name@,
                            i as int,
                        ),
                    decreases children@.len() - i,
                {
                    assert(tops[i as int] == children@[i as int].node_view());
                    match &children[i] {
                        FsNode::Directory { name, children: dir_children } => {
                            if str_eq(name.as_str(), dir_name) {
                                proof {
                                    lemma_nodes_view(dir_children@);
                                    assert(is_dir_named(tops[i as int], dir_name@));
                                    assert(tops[i as int]->Directory_children == nodes_view(dir_children@));
                                }
                                let ghost entries = nodes_view(dir_children@);
                                let mut k: usize = 0;
                                while k < dir_children.len()
                                    invariant
                                        k <= dir_children@.len(),
                                        entries == nodes_view(dir_children@),
                                        top_level(self@) == tops,
                                        tops.len() == children@.len(),
                                        i < tops.len(),
                                        is_dir_named(tops[i as int], dir_name@),
                                        tops[i as int]->Directory_children == entries,
                                        find_file_from(tops, dir_name@, file_name@, 0)
                                            == find_file_from(tops, dir_name@, file_name@, i as int),
                                        entries.len() == dir_children@.len(),
                                        forall|j: int| 0 <= j < dir_children@.len() ==> #[trigger] entries[j]
                                            == dir_children@[j].node_view(),
                                        find_in_dir_from(entries, file_name@, 0)
                                            == find_in_dir_from(entries, file_name@, k as int),
                                    decreases dir_children@.len() - k,
                                {
                                    assert(entries[k as int] == dir_children@[k as int].node_view());
                                    match &dir_children[k] {
                                        FsNode::File { name: f_name, content } => {
                                            if str_eq(f_name.as_str(), file_name) {
                                                assert(is_file_named(entries[k as int], file_name@));
                                                return Some(vstd::slice::slice_to_vec(content.as_slice()));
                                            }
                                        },
                                        FsNode::Directory { .. } => {},
                                    }
                                    k = k + 1;
                                }
                            }
                        },
                        FsNode::File { .. } => {},
                    }
                    i = i + 1;
                }
                None
            },
            FsNode::File { .. } => None,
        }
    }

    /// The names of the files in the first top-level directory named `dir_name`, in order;
    /// `None` when there is no such directory.
    pub fn list_dir(&self, dir_name: &str) -> (r: Option<Vec<String>>)
        ensures
            first_dir(top_level(self@), dir_name@) < 0 ==> r is None,
            first_dir(top_level(self@), dir_name@) >= 0 ==> (r matches Some(names)
                && names@.map_values(|s: String| s@) == file_names(
                top_level(self@)[first_dir(top_level(self@), dir_name@)]->Directory_children,
            )),
    {
        match &self.root {
            FsNode::Directory { children, .. } => {
                proof {
                    lemma_nodes_view(children@);
                }
                let ghost tops = nodes_view(children@);
                assert(top_level(self@) == tops);
                let mut i: usize = 0;
                while i < children.len()
                    invariant
                        i <= children@.len(),
                        tops == nodes_view(children@),
                        top_level(self@) == tops,
                        tops.len() == children@.len(),
                        forall|j: int| 0 <= j < children@.len() ==> #[trigger] tops[j]
                            == children@[j].node_view(),
                        first_dir(tops, dir_name@) == first_dir_from(tops, dir_name@, i as int),
                    decreases children@.len() - i,
                {
                    assert(tops[i as int] == children@[i as int].node_view());
                    match &children[i] {
                        FsNode::Directory { name, children: dir_children } => {
                            if str_eq(name.as_str(), dir_name) {
                                proof {
                                    lemma_nodes_view(dir_children@);
                                }
                                let ghost entries = nodes_view(dir_children@);
                                let mut names: Vec<String> = Vec::new();
                                let mut k: usize = 0;
                                while k < dir_children.len()
                                    invariant
                                        k <= dir_children@.len(),
                                        entries == nodes_view(dir_children@),
                                        top_level(self@) == tops,
                                        tops.len() == children@.len(),
                                        i < tops.len(),
                                        is_dir_named(tops[i as int], dir_name@),
                                        tops[i as int]->Directory_children == entries,
                                        entries.len() == dir_children@.len(),
                                        forall|j: int| 0 <= j < dir_children@.len() ==> #[trigger] entries[j]
                                            == dir_children@[j].node_view(),
                                        names@.map_values(|s: String| s@) == file_names(
                                            entries.subrange(0, k as int),
                                        ),
                                    decreases dir_children@.len() - k,
                                {
                                    assert(entries[k as int] == dir_children@[k as int].node_view());
                                    let ghost before = names@;
                                    match &dir_children[k] {
                                        FsNode::File { name: f_name, .. } => {
                                            names.push(f_name.clone());
                                        },
                                        FsNode::Directory { .. } => {},
                                    }
                                    proof {
                                        let p = entries.subrange(0, k as int + 1);
                                        assert(p.drop_last() =~= entries.subrange(0, k as int));
                                        assert(names@.map_values(|s: String| s@) =~= file_names(p));
                                    }
                                    k = k + 1;
                                }
                                assert(entries.subrange(0, entries.len() as int) =~= entries);
                                assert(first_dir_from(tops, dir_name@, i as int) == i);
                                return Some(names);
                            }
                        },
                        FsNode::File { .. } => {},
                    }
                    i = i + 1;
                }
                None
            },
            FsNode::File { .. } => None,
        }
    }
}

/// Before the first directory named `name`, no node is a directory of that name.
proof fn lemma_first_dir_from(nodes: Seq<NodeView>, name: Seq<char>, k: int)
    requires
        0 <= k,
    ensures
        first_dir_from(nodes, name, k) == -1 || (k <= first_dir_from(nodes, name, k) < nodes.len()
            && is_dir_named(nodes[first_dir_from(nodes, name, k)], name)),
        forall|j: int|
            k <= j < nodes.len() && (first_dir_from(nodes, name, k) == -1 || j < first_dir_from(
                nodes,
                name,
                k,
            )) ==> !is_dir_named(#[trigger] nodes[j], name),
    decreases nodes.len() - k,
{
    if k < nodes.len() && !is_dir_named(nodes[k], name) {
        lemma_first_dir_from(nodes, name, k + 1);
    }
}

/// Searching files from index `k` on after appending a file: the first match among the old
/// nodes, else the new file when it has the name.
proof fn lemma_find_in_dir_push(nodes: Seq<NodeView>, name: Seq<char>, content: Seq<u8>, k: int)
    requires
        0 <= k <= nodes.len(),
        find_in_dir_from(nodes, name, k) is None,
    ensures
        find_in_dir_from(nodes.push(NodeView::File { name, content }), name, k) == Some(content),
    decreases nodes.len() - k,
{
    let pushed = nodes.push(NodeView::File { name, content });
    if k < nodes.len() {
        assert(pushed[k] == nodes[k]);
        lemma_find_in_dir_push(nodes, name, content, k + 1);
    } else {
        assert(pushed[k] == NodeView::File { name, content });
    }
}

/// Directories before index `i` that are not named `dir` are skipped by the file search.
proof fn lemma_find_file_skip(
    nodes: Seq<NodeView>,
    dir: Seq<char>,
    file: Seq<char>,
    k: int,
    i: int,
)
    requires
        0 <= k <= i < nodes.len(),
        forall|j: int| k <= j < i ==> !is_dir_named(#[trigger] nodes[j], dir),
    ensures
        find_file_from(nodes, dir, file, k) == find_file_from(nodes, dir, file, i),
    decreases i - k,
{
    if k < i {
        lemma_find_file_skip(nodes, dir, file, k + 1, i);
    }
}

/// What is written is read back: after a file is added to the first directory named `dir`,
/// which held no file of that name, reading that file gives the content written.
pub proof fn lemma_read_after_create(root: NodeView, dir: Seq<char>, file: Seq<char>, content: Seq<
    u8,
>)
    requires
        root is Directory,
        first_dir(top_level(root), dir) >= 0,
        find_in_dir_from(
            top_level(root)[first_dir(top_level(root), dir)]->Directory_children,
            file,
            0,
        ) is None,
    ensures
        find_file_from(
            top_level(with_file_added(root, first_dir(top_level(root), dir), file, content)),
            dir,
            file,
            0,
        ) == Some(content),
{
    let tops = top_level(root);
    let i = first_dir(tops, dir);
    lemma_first_dir_from(tops, dir, 0);
    let new_root = with_file_added(root, i, file, content);
    let new_tops = top_level(new_root);
    let sub = tops[i]->Directory_children;
    assert(new_tops == tops.update(
        i,
        NodeView::Directory {
            name: tops[i]->Directory_name,
            children: sub.push(NodeView::File { name: file, content }),
        },
    ));
    assert forall|j: int| 0 <= j < i implies !is_dir_named(#[trigger] new_tops[j], dir) by {
        assert(new_tops[j] == tops[j]);
    }
    lemma_find_file_skip(new_tops, dir, file, 0, i);
    lemma_find_in_dir_push(sub, file, content, 0);
}

/// A listing names every file, whatever its content: appending a file to a directory appends
/// its name to the directory's listing, and appending a directory leaves the listing as it was.
pub proof fn lemma_listing_appends_file(nodes: Seq<NodeView>, name: Seq<char>, content: Seq<u8>)
    ensures
        file_names(nodes.push(NodeView::File { name, content })) == file_names(nodes).push(name),
{
    assert(nodes.push(NodeView::File { name, content }).drop_last() =~= nodes);
}

/// Every file among the nodes is named in their listing.
pub proof fn lemma_listing_names_every_file(nodes: Seq<NodeView>)
    ensures
        forall|i: int|
            0 <= i < nodes.len() && (nodes[i] is File) ==> file_names(nodes).contains(
                nodes[i]->File_name,
            ),
    decreases nodes.len(),
{
    if nodes.len() > 0 {
        let init = nodes.drop_last();
        lemma_listing_names_every_file(init);
        let l = file_names(nodes);
        let li = file_names(init);
        if nodes.last() is File {
            assert(l =~= li.push(nodes.last()->File_name));
        } else {
            assert(l =~= li);
        }
        assert forall|i: int|
            0 <= i < nodes.len() && (nodes[i] is File) implies l.contains(nodes[i]->File_name) by {
            if i < nodes.len() - 1 {
                assert(init[i] == nodes[i]);
                let k = choose|k: int| 0 <= k < li.len() && li[k] == init[i]->File_name;
                assert(l[k] == li[k]);
            } else {
                assert(l[l.len() - 1] == nodes[i]->File_name);
            }
        }
    }
}

/// The listing names nothing but files: each entry is the name of a file among the nodes.
pub proof fn lemma_listing_names_only_files(nodes: Seq<NodeView>, j: int)
    requires
        0 <= j < file_names(nodes).len(),
    ensures
        exists|i: int|
            #![trigger nodes[i]]
            0 <= i < nodes.len() && (nodes[i] is File) && nodes[i]->File_name == file_names(
                nodes,
            )[j],
    decreases nodes.len(),
{
    let init = nodes.drop_last();
    let l = file_names(nodes);
    let li = file_names(init);
    if nodes.last() is File {
        assert(l =~= li.push(nodes.last()->File_name));
    } else {
        assert(l =~= li);
    }
    if j < li.len() {
        lemma_listing_names_only_files(init, j);
        let i = choose|i: int|
            #![trigger init[i]]
            0 <= i < init.len() && (init[i] is File) && init[i]->File_name == li[j];
        assert(nodes[i] == init[i]);
    } else {
        let i = nodes.len() - 1;
        assert(nodes[i] is File);
        assert(l[j] == nodes[i]->File_name);
    }
}

/// After a file is added to a directory, listing that directory gives its former listing
/// followed by the new file's name, whatever the file holds.
pub proof fn lemma_list_after_create(root: NodeView, dir: Seq<char>, file: Seq<char>, content: Seq<
    u8,
>)
    requires
        root is Directory,
        first_dir(top_level(root), dir) >= 0,
    ensures
        ({
            let i = first_dir(top_level(root), dir);
            let new_root = with_file_added(root, i, file, content);
            &&& first_dir(top_level(new_root), dir) == i
            &&& file_names(top_level(new_root)[i]->Directory_children) == file_names(
                top_level(root)[i]->Directory_children,
            ).push(file)
        }),
{
    let tops = top_level(root);
    let i = first_dir(tops, dir);
    lemma_first_dir_from(tops, dir, 0);
    let new_root = with_file_added(root, i, file, content);
    let new_tops = top_level(new_root);
    assert forall|j: int| 0 <= j < i implies !is_dir_named(#[trigger] new_tops[j], dir) by {
        assert(new_tops[j] == tops[j]);
    }
    lemma_first_dir_prefix(new_tops, dir, 0, i);
    lemma_listing_appends_file(tops[i]->Directory_children, file, content);
}

/// The first directory of a name is found at `i` when the nodes from `k` to `i` are not
/// directories of that name and the node at `i` is.
proof fn lemma_first_dir_prefix(nodes: Seq<NodeView>, name: Seq<char>, k: int, i: int)
    requires
        0 <= k <= i < nodes.len(),
        is_dir_named(nodes[i], name),
        forall|j: int| k <= j < i ==> !is_dir_named(#[trigger] nodes[j], name),
    ensures
        first_dir_from(nodes, name, k) == i,
    decreases i - k,
{
    if k < i {
        lemma_first_dir_prefix(nodes, name, k + 1, i);
    }
}

} // verus!
