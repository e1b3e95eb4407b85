//! Nodes of the file browser's tree.
//!
//! A node names a filesystem path; directories carry lazily loaded
//! children. Reading the filesystem and rendering the tree live with the
//! presentation layer; the node structure and its search are plain data.

use vstd::prelude::*;

use crate::send::last_real_component;
use crate::text::{chars_of, split_at_seps, split_char, string_from_chars};

verus! {

/// Identifies a tree node by its path.
#[derive(Debug, Clone, Default, PartialEq, Eq, Hash)]
pub struct NodeId(pub String);

impl NodeId {
    /// The path the id shows.
    pub fn display_text(&self) -> (r: String)
        ensures
            r@ == self.0@,
    {
        self.0.clone()
    }
}

/// A node in the file tree.
#[derive(Debug)]
pub struct FileNode {
    /// The node's filesystem path.
    pub path: String,
    /// Whether the path is a directory.
    pub is_dir: bool,
    /// The display name: the path's file name, or the path itself when it
    /// has none.
    pub name: String,
    /// Loaded children, directories first.
    pub children: Vec<FileNode>,
    /// Whether the node is shown expanded.
    pub expanded: bool,
}

/// Whether the subtree rooted at `n` holds a node for `path`.
pub open spec fn has_node(n: FileNode, path: Seq<char>) -> bool
    decreases n,
{
    n.path@ == path || exists|i: int|
        0 <= i < n.children@.len() && has_node(#[trigger] n.children@[i], path)
}

/// Index of the first child whose subtree holds `path`, or `-1`.
pub open spec fn first_child_with(children: Seq<FileNode>, path: Seq<char>) -> int
    decreases children.len(),
{
    if children.len() == 0 {
        -1
    } else if has_node(children[0], path) {
        0
    } else {
        let r = first_child_with(children.drop_first(), path);
        if r == -1 {
            -1
        } else {
            r + 1
        }
    }
}

/// The first node bearing `path` in pre-order: the root itself, else the
/// match inside the first child subtree that holds one.
pub open spec fn preorder_first(n: FileNode, path: Seq<char>) -> FileNode
    decreases n,
{
    if n.path@ == path {
        n
    } else {
        let i = first_child_with(n.children@, path);
        if 0 <= i < n.children@.len() {
            preorder_first(n.children@[i], path)
        } else {
            n
        }
    }
}

/// `first_child_with` finds exactly the first holding child.
proof fn lemma_first_child_with(children: Seq<FileNode>, path: Seq<char>, i: int)
    requires
        0 <= i < children.len(),
        has_node(children[i], path),
        forall|j: int| 0 <= j < i ==> !has_node(#[trigger] children[j], path),
    ensures
        first_child_with(children, path) == i,
    decreases children.len(),
{
    if i > 0 {
        assert(forall|k: int|
            0 <= k < children.drop_first().len() ==> children.drop_first()[k] == children[k + 1]);
        lemma_first_child_with(children.drop_first(), path, i - 1);
    }
}

impl FileNode {
    /// A fresh node for a path: named by the path's last nonempty
    /// component (or the whole path when it has none), with no children
    /// loaded yet.
    pub fn new(path: String, is_dir: bool) -> (r: FileNode)
        ensures
            r.path == path,
            r.is_dir == is_dir,
            r.children@ == Seq::<FileNode>::empty(),
            r.expanded == false,
            r.name@ == match last_real_component(split_at_seps(path@, '/')) {
                Some(n) => n,
                None => path@,
            },
    {
        let chars = chars_of(path.as_str());
        let parts = split_char(&chars, '/');
        let ghost allp = crate::text::views_of(parts@);
        let mut j: usize = parts.len();
        let mut name: Option<String> = None;
        proof {
            assert(allp.take(j as int) =~= allp);
            assert(last_real_component(allp) == last_real_component(allp.take(j as int)));
        }
        let mut stopped = false;
        while j > 0 && name.is_none() && !stopped
            invariant
                0 <= j <= parts@.len(),
                allp == crate::text::views_of(parts@),
                allp == split_at_seps(path@, '/'),
                name is None && !stopped ==> last_real_component(allp) == last_real_component(
                    allp.take(j as int),
                ),
                name matches Some(s) ==> last_real_component(allp) == Some(s@),
                stopped ==> last_real_component(allp) is None,
            decreases j + (if name is None && !stopped {
                1int
            } else {
                0int
            }),
        {
            let p = &parts[j - 1];
            proof {
                assert(allp.take(j as int).last() == allp[j as int - 1]);
                assert(allp[j as int - 1] == p@);
                assert(allp.take(j as int).drop_last() =~= allp.take(j as int - 1));
            }
            if p.len() == 0 || (p.len() == 1 && p[0] == '.') {
                proof {
                    if p@.len() == 1 && p@[0] == '.' {
                        assert(p@ =~= seq!['.']);
                    }
                }
                j = j - 1;
            } else if p.len() == 2 && p[0] == '.' && p[1] == '.' {
                proof {
                    assert(p@ =~= seq!['.', '.']);
                }
                stopped = true;
            } else {
                proof {
                    if p@ == seq!['.'] {
                        assert(p@.len() == 1 && p@[0] == '.');
                    }
                    if p@ == seq!['.', '.'] {
                        assert(p@.len() == 2 && p@[0] == '.' && p@[1] == '.');
                    }
                }
                name = Some(string_from_chars(p));
            }
        }
        proof {
            if name is None && !stopped {
                assert(allp.take(0) =~= Seq::<Seq<char>>::empty());
            }
        }
        let name_str = match name {
            Some(s) => s,
            None => path.clone(),
        };
        FileNode { path, is_dir, name: name_str, children: Vec::new(), expanded: false }
    }

    /// The node for `path` in this subtree, when there is one: the first
    /// such node in pre-order, the root before its children, children left
    /// to right.
    pub fn find(&self, path: &String) -> (r: Option<&FileNode>)
        ensures
            r is Some <==> has_node(*self, path@),
            r matches Some(f) ==> f.path@ == path@ && *f == preorder_first(*self, path@),
        decreases *self,
    {
        if self.path == *path {
            proof {
                assert(has_node(*self, path@));
            }
            return Some(self);
        }
        let mut i: usize = 0;
        while i < self.children.len()
            invariant
                self.path@ != path@,
                0 <= i <= self.children@.len(),
                forall|j: int| 0 <= j < i ==> !has_node(#[trigger] self.children@[j], path@),
            decreases self.children@.len() - i,
        {
            let found = self.children[i].find(path);
            if found.is_some() {
                proof {
                    lemma_first_child_with(self.children@, path@, i as int);
                    assert(preorder_first(*self, path@) == preorder_first(
                        self.children@[i as int],
                        path@,
                    ));
                }
                return found;
            }
            i = i + 1;
        }
        proof {
            assert(self.path@ != path@);
            if has_node(*self, path@) {
                let w = choose|w: int|
                    0 <= w < self.children@.len() && has_node(#[trigger] self.children@[w], path@);
                assert(!has_node(self.children@[w], path@));
            }
        }
        None
    }

    /// The mutable counterpart of `find`: a borrow of the first node in
    /// pre-order bearing `path`, so a caller can load its children or
    /// toggle its expansion in place.
    pub fn find_mut(&mut self, path: &String) -> (r: Option<&mut FileNode>)
        ensures
            r is Some <==> has_node(*old(self), path@),
            r matches Some(f) ==> f.path@ == path@ && *f == preorder_first(*old(self), path@),
        decreases *old(self),
    {
        if self.path == *path {
            proof {
                assert(has_node(*self, path@));
            }
            return Some(self);
        }
        let mut i: usize = 0;
        while i < self.children.len()
            invariant
                *self == *old(self),
                self.path@ != path@,
                0 <= i <= self.children@.len(),
                forall|j: int| 0 <= j < i ==> !has_node(#[trigger] self.children@[j], path@),
            decreases self.children@.len() - i,
        {
            if self.children[i].find(path).is_some() {
                proof {
                    lemma_first_child_with(self.children@, path@, i as int);
                    assert(preorder_first(*self, path@) == preorder_first(
                        self.children@[i as int],
                        path@,
                    ));
                }
                return self.children[i].find_mut(path);
            }
            i = i + 1;
        }
        proof {
            assert(self.path@ != path@);
            if has_node(*self, path@) {
                let w = choose|w: int|
                    0 <= w < self.children@.len() && has_node(#[trigger] self.children@[w], path@);
                assert(!has_node(self.children@[w], path@));
            }
        }
        None
    }
}

} // verus!
