//! Call-graph snapshot over named regions.
//!
//! A `Tree` only grows during one build cycle and is then discarded
//! wholesale; there is no node removal. Its ghost image is a finite map from
//! region name to node, plus an optional root.

use vstd::prelude::*;

use crate::str_eq;
use crate::StatString;

verus! {

/// View of an optional region name as an optional character sequence.
pub open spec fn opt_name_view(o: Option<StatString>) -> Option<Seq<char>> {
    match o {
        Some(n) => Some(n@),
        None => None,
    }
}

/// One region in a call-graph snapshot: the region's name, the parent it was
/// first attached under, and its children in temporal call order.
#[derive(Debug)]
pub struct TreeNode {
    pub name: StatString,
    pub parent: Option<StatString>,
    pub children: Vec<StatString>,
}

/// Ghost image of one `TreeNode`.
#[verifier::ext_equal]
pub struct NodeModel {
    pub parent: Option<Seq<char>>,
    pub children: Seq<Seq<char>>,
}

/// The ghost image of a node.
pub open spec fn node_model(n: TreeNode) -> NodeModel {
    NodeModel {
        parent: opt_name_view(n.parent),
        children: n.children@.map_values(|c: StatString| c@),
    }
}

/// Ghost image of a `Tree`: the name-to-node mapping and the root.
#[verifier::ext_equal]
pub struct TreeModel {
    pub nodes: Map<Seq<char>, NodeModel>,
    pub root: Option<Seq<char>>,
}

/// The empty ghost tree.
pub open spec fn empty_tree_model() -> TreeModel {
    TreeModel { nodes: Map::empty(), root: None }
}

/// The name-to-node map described by a node sequence. Later entries win,
/// though under `Tree::wf` names are unique and the order is immaterial.
pub open spec fn nodes_map(s: Seq<TreeNode>) -> Map<Seq<char>, NodeModel>
    decreases s.len(),
{
    if s.len() == 0 {
        Map::empty()
    } else {
        nodes_map(s.drop_last()).insert(s.last().name@, node_model(s.last()))
    }
}

/// Whether some node in `s` is named `name`.
pub open spec fn has_node(s: Seq<TreeNode>, name: Seq<char>) -> bool {
    exists|i: int| 0 <= i < s.len() && s[i].name@ == name
}

/// Node names are pairwise distinct.
pub open spec fn unique_names(s: Seq<TreeNode>) -> bool {
    forall|i: int, j: int| 0 <= i < j < s.len() ==> s[i].name@ != s[j].name@
}

/// `set_root` on the ghost image: create the node if absent, mark it root.
pub open spec fn spec_set_root(t: TreeModel, name: Seq<char>) -> TreeModel {
    TreeModel {
        nodes: if t.nodes.contains_key(name) {
            t.nodes
        } else {
            t.nodes.insert(name, NodeModel { parent: None, children: Seq::empty() })
        },
        root: Some(name),
    }
}

/// `add_child` on the ghost image: create parent and child if absent, then
/// append the child to the parent's ordered children.
pub open spec fn spec_add_child(t: TreeModel, parent: Seq<char>, child: Seq<char>) -> TreeModel {
    let with_parent = if t.nodes.contains_key(parent) {
        t.nodes
    } else {
        t.nodes.insert(parent, NodeModel { parent: None, children: Seq::empty() })
    };
    let with_child = if with_parent.contains_key(child) {
        with_parent
    } else {
        with_parent.insert(child, NodeModel { parent: Some(parent), children: Seq::empty() })
    };
    TreeModel {
        nodes: with_child.insert(
            parent,
            NodeModel {
                parent: with_child[parent].parent,
                children: with_child[parent].children.push(child),
            },
        ),
        root: t.root,
    }
}

proof fn lemma_nodes_map_contains(s: Seq<TreeNode>, name: Seq<char>)
    ensures
        nodes_map(s).contains_key(name) <==> has_node(s, name),
    decreases s.len(),
{
    if s.len() == 0 {
    } else {
        let dl = s.drop_last();
        lemma_nodes_map_contains(dl, name);
        if has_node(s, name) {
            let i = choose|i: int| 0 <= i < s.len() && s[i].name@ == name;
            if i < s.len() - 1 {
                assert(dl[i].name@ == name);
                assert(has_node(dl, name));
            }
            assert(nodes_map(s).contains_key(name));
        }
        if nodes_map(s).contains_key(name) {
            if name != s.last().name@ {
                let i = choose|i: int| 0 <= i < dl.len() && dl[i].name@ == name;
                assert(s[i].name@ == name);
            } else {
                assert(s[s.len() - 1].name@ == name);
            }
            assert(has_node(s, name));
        }
    }
}

proof fn lemma_nodes_map_get(s: Seq<TreeNode>, i: int)
    requires
        unique_names(s),
        0 <= i < s.len(),
    ensures
        nodes_map(s).contains_key(s[i].name@),
        nodes_map(s)[s[i].name@] == node_model(s[i]),
    decreases s.len(),
{
    let dl = s.drop_last();
    if i == s.len() - 1 {
    } else {
        assert(unique_names(dl));
        lemma_nodes_map_get(dl, i);
        assert(dl[i] == s[i]);
        assert(s[i].name@ != s.last().name@);
    }
}

proof fn lemma_nodes_map_update(s: Seq<TreeNode>, i: int, n: TreeNode)
    requires
        unique_names(s),
        0 <= i < s.len(),
        n.name@ == s[i].name@,
    ensures
        nodes_map(s.update(i, n)) == nodes_map(s).insert(s[i].name@, node_model(n)),
    decreases s.len(),
{
    let s2 = s.update(i, n);
    let dl = s.drop_last();
    if i == s.len() - 1 {
        assert(s2.drop_last() =~= dl);
        assert(s2.last() == n);
        assert(nodes_map(s2) == nodes_map(dl).insert(n.name@, node_model(n)));
        assert(nodes_map(dl).insert(n.name@, node_model(n)) =~= nodes_map(s).insert(
            s[i].name@,
            node_model(n),
        ));
    } else {
        assert(unique_names(dl));
        assert(dl[i] == s[i]);
        lemma_nodes_map_update(dl, i, n);
        assert(s2.drop_last() =~= dl.update(i, n));
        assert(s2.last() == s.last());
        assert(nodes_map(s2) == nodes_map(dl.update(i, n)).insert(
            s.last().name@,
            node_model(s.last()),
        ));
        assert(s[i].name@ != s.last().name@);
        assert(nodes_map(dl).insert(s[i].name@, node_model(n)).insert(
            s.last().name@,
            node_model(s.last()),
        ) =~= nodes_map(s).insert(s[i].name@, node_model(n)));
    }
}

/// The model's domain is exactly the stored node names.
pub proof fn lemma_model_domain(t: &Tree)
    ensures
        forall|n: Seq<char>| #[trigger] t@.nodes.contains_key(n) <==> has_node(t.nodes@, n),
{
    assert forall|n: Seq<char>| #[trigger]
        t@.nodes.contains_key(n) <==> has_node(t.nodes@, n) by {
        lemma_nodes_map_contains(t.nodes@, n);
    }
}

/// A well-formed tree is closed at the model level too: every child named
/// in a node's children list is a key of the node map, and so is the root.
pub proof fn lemma_wf_model_closed(t: &Tree)
    requires
        t.wf(),
    ensures
        forall|n: Seq<char>, k: int|
            #![trigger t@.nodes[n].children[k]]
            t@.nodes.contains_key(n) && 0 <= k < t@.nodes[n].children.len()
                ==> t@.nodes.contains_key(t@.nodes[n].children[k]),
        match t@.root {
            Some(r) => t@.nodes.contains_key(r),
            None => true,
        },
{
    let s = t.nodes@;
    assert forall|n: Seq<char>, k: int|
        t@.nodes.contains_key(n) && 0 <= k < t@.nodes[n].children.len() implies t@.nodes.contains_key(
        #[trigger] t@.nodes[n].children[k],
    ) by {
        lemma_nodes_map_contains(s, n);
        let i = choose|i: int| 0 <= i < s.len() && s[i].name@ == n;
        lemma_nodes_map_get(s, i);
        assert(t@.nodes[n] == node_model(s[i]));
        assert(t@.nodes[n].children[k] == s[i].children@[k]@);
        assert(has_node(s, s[i].children@[k]@));
        lemma_nodes_map_contains(s, s[i].children@[k]@);
    }
    match t.root {
        Some(r) => {
            lemma_nodes_map_contains(s, r@);
        },
        None => {},
    }
}

impl TreeNode {
    /// A fresh node named `id`, with no parent and no children.
    pub fn new(id: StatString) -> (node: TreeNode)
        ensures
            node.name == id,
            node.parent.is_none(),
            node.children@.len() == 0,
    {
        TreeNode { name: id, parent: None, children: Vec::new() }
    }
}

/// Call-graph snapshot: nodes keyed by region name, with an optional root.
#[derive(Debug)]
pub struct Tree {
    pub nodes: Vec<TreeNode>,
    pub root: Option<StatString>,
}

impl View for Tree {
    type V = TreeModel;

    open spec fn view(&self) -> TreeModel {
        TreeModel { nodes: nodes_map(self.nodes@), root: opt_name_view(self.root) }
    }
}

impl Tree {
    /// Well-formed: node names are unique, every listed child is itself a
    /// node, and the root, when set, is a node.
    pub open spec fn wf(&self) -> bool {
        &&& unique_names(self.nodes@)
        &&& forall|i: int, k: int|
            0 <= i < self.nodes@.len() && 0 <= k < self.nodes@[i].children@.len() ==> has_node(
                self.nodes@,
                (#[trigger] self.nodes@[i].children@[k])@,
            )
        &&& match self.root {
            Some(r) => has_node(self.nodes@, r@),
            None => true,
        }
    }

    /// An empty tree.
    pub fn new() -> (t: Tree)
        ensures
            t.wf(),
            t@ == empty_tree_model(),
            t.nodes@.len() == 0,
    {
        let t = Tree { nodes: Vec::new(), root: None };
        proof {
            assert(t@ =~~= empty_tree_model());
        }
        t
    }

    /// Index of the node named `name`, if present.
    fn find_node(&self, name: StatString) -> (r: Option<usize>)
        ensures
            match r {
                Some(i) => i < self.nodes@.len() && self.nodes@[i as int].name@ == name@,
                None => !has_node(self.nodes@, name@),
            },
    {
        let n = self.nodes.len();
        for i in 0..n
            invariant
                n == self.nodes@.len(),
                forall|j: int| 0 <= j < i ==> self.nodes@[j].name@ != name@,
        {
            if str_eq(self.nodes[i].name, name) {
                return Some(i);
            }
        }
        None
    }

    /// The node named `name`, if present; queries for unknown names return
    /// absent, never an error.
    pub fn get_node(&self, name: StatString) -> (r: Option<&TreeNode>)
        requires
            self.wf(),
        ensures
            match r {
                Some(node) => self@.nodes.contains_key(name@) && node_model(*node)
                    == self@.nodes[name@] && node.name@ == name@,
                None => !self@.nodes.contains_key(name@),
            },
    {
        proof {
            lemma_nodes_map_contains(self.nodes@, name@);
        }
        match self.find_node(name) {
            Some(i) => {
                proof {
                    lemma_nodes_map_get(self.nodes@, i as int);
                }
                Some(&self.nodes[i])
            },
            None => None,
        }
    }

    /// Mark `id` as the root, creating its node first if absent. Calling it
    /// again with the same name never duplicates the node.
    pub fn set_root(&mut self, id: StatString)
        requires
            old(self).wf(),
        ensures
            final(self).wf(),
            final(self)@ == spec_set_root(old(self)@, id@),
            final(self).nodes@.len() == old(self).nodes@.len() + (if old(
                self,
            )@.nodes.contains_key(id@) {
                0int
            } else {
                1int
            }),
    {
        proof {
            lemma_nodes_map_contains(self.nodes@, id@);
        }
        match self.find_node(id) {
            Some(_) => {},
            None => {
                let node = TreeNode::new(id);
                self.nodes.push(node);
                proof {
                    let s = old(self).nodes@;
                    let s2 = self.nodes@;
                    assert(s2.drop_last() =~= s);
                    assert(nodes_map(s2) == nodes_map(s).insert(id@, node_model(node)));
                    assert(node_model(node) =~= NodeModel {
                        parent: None,
                        children: Seq::empty(),
                    });
                    assert forall|i: int, k: int|
                        0 <= i < s2.len() && 0 <= k < s2[i].children@.len() implies has_node(
                        s2,
                        (#[trigger] s2[i].children@[k])@,
                    ) by {
                        assert(i < s.len());
                        assert(has_node(s, s[i].children@[k]@));
                        let w = choose|w: int| 0 <= w < s.len() && s[w].name@ == s[i].children@[k]@;
                        assert(s2[w].name@ == s2[i].children@[k]@);
                    }
                }
            },
        }
        self.root = Some(id);
        proof {
            if old(self)@.nodes.contains_key(id@) {
                let w = choose|w: int|
                    0 <= w < old(self).nodes@.len() && old(self).nodes@[w].name@ == id@;
                assert(has_node(self.nodes@, id@));
            } else {
                assert(self.nodes@[self.nodes@.len() - 1].name@ == id@);
                assert(has_node(self.nodes@, id@));
            }
            assert(self@ =~~= spec_set_root(old(self)@, id@));
        }
    }

    /// Append `child_id` under `parent_id`, creating either node if absent.
    /// The parent's children keep temporal (insertion) order.
    pub fn add_child(&mut self, parent_id: StatString, child_id: StatString)
        requires
            old(self).wf(),
        ensures
            final(self).wf(),
            final(self)@ == spec_add_child(old(self)@, parent_id@, child_id@),
            final(self).nodes@.len() == old(self).nodes@.len() + (if old(
                self,
            )@.nodes.contains_key(parent_id@) {
                0int
            } else {
                1int
            }) + (if old(self)@.nodes.contains_key(child_id@) || child_id@ == parent_id@ {
                0int
            } else {
                1int
            }),
    {
        proof {
            lemma_nodes_map_contains(self.nodes@, parent_id@);
            lemma_nodes_map_contains(self.nodes@, child_id@);
        }
        let ghost s0 = self.nodes@;
        // Ensure the parent node exists.
        let pi: usize = match self.find_node(parent_id) {
            Some(i) => i,
            None => {
                let node = TreeNode::new(parent_id);
                self.nodes.push(node);
                proof {
                    assert(self.nodes@.drop_last() =~= s0);
                    assert(nodes_map(self.nodes@) == nodes_map(s0).insert(
                        parent_id@,
                        node_model(node),
                    ));
                    assert(node_model(node) =~= NodeModel {
                        parent: None,
                        children: Seq::empty(),
                    });
                }
                self.nodes.len() - 1
            },
        };
        let ghost s1 = self.nodes@;
        let ghost m1 = if old(self)@.nodes.contains_key(parent_id@) {
            old(self)@.nodes
        } else {
            old(self)@.nodes.insert(parent_id@, NodeModel { parent: None, children: Seq::empty() })
        };
        proof {
            assert(nodes_map(s1) == m1);
            assert(unique_names(s1)) by {
                if !old(self)@.nodes.contains_key(parent_id@) {
                    assert(forall|j: int| 0 <= j < s0.len() ==> s0[j].name@ != parent_id@);
                    assert(forall|j: int| 0 <= j < s1.len() - 1 ==> s1[j] == s0[j]);
                }
            }
            assert(s1[pi as int].name@ == parent_id@);
            lemma_nodes_map_contains(s1, child_id@);
        }
        // Ensure the child node exists.
        match self.find_node(child_id) {
            Some(_) => {},
            None => {
                let node = TreeNode { name: child_id, parent: Some(parent_id), children: Vec::new() };
                self.nodes.push(node);
                proof {
                    assert(self.nodes@.drop_last() =~= s1);
                    assert(nodes_map(self.nodes@) == nodes_map(s1).insert(
                        child_id@,
                        node_model(node),
                    ));
                    assert(node_model(node) =~= NodeModel {
                        parent: Some(parent_id@),
                        children: Seq::empty(),
                    });
                }
            },
        }
        let ghost s2 = self.nodes@;
        let ghost m2 = if m1.contains_key(child_id@) {
            m1
        } else {
            m1.insert(child_id@, NodeModel { parent: Some(parent_id@), children: Seq::empty() })
        };
        proof {
            assert(nodes_map(s2) == m2);
            assert(unique_names(s2)) by {
                if !m1.contains_key(child_id@) {
                    lemma_nodes_map_contains(s1, child_id@);
                    assert(forall|j: int| 0 <= j < s1.len() ==> s1[j].name@ != child_id@);
                    assert(forall|j: int| 0 <= j < s2.len() - 1 ==> s2[j] == s1[j]);
                }
            }
            assert(s2[pi as int].name@ == parent_id@);
            lemma_nodes_map_get(s2, pi as int);
        }
        // Append the child to the parent's ordered children.
        let mut tmp = TreeNode::new(parent_id);
        self.nodes.set_and_swap(pi, &mut tmp);
        tmp.children.push(child_id);
        let ghost updated = tmp;
        self.nodes.set(pi, tmp);
        proof {
            assert(self.nodes@ =~= s2.update(pi as int, updated));
            assert(updated.name@ == parent_id@);
            lemma_nodes_map_update(s2, pi as int, updated);
            assert(node_model(updated) =~= NodeModel {
                parent: m2[parent_id@].parent,
                children: m2[parent_id@].children.push(child_id@),
            }) by {
                assert(updated.children@ == s2[pi as int].children@.push(child_id));
                let pn = s2[pi as int];
                assert(updated.children@.map_values(|c: StatString| c@)
                    =~= pn.children@.map_values(|c: StatString| c@).push(child_id@));
                assert(node_model(s2[pi as int]) == m2[parent_id@]);
            }
            assert(self@ =~~= spec_add_child(old(self)@, parent_id@, child_id@));
            // Well-formedness of the result.
            let sf = self.nodes@;
            assert(unique_names(sf)) by {
                assert(forall|j: int| 0 <= j < sf.len() ==> sf[j].name@ == s2[j].name@);
            }
            assert forall|i: int, k: int|
                0 <= i < sf.len() && 0 <= k < sf[i].children@.len() implies has_node(
                sf,
                (#[trigger] sf[i].children@[k])@,
            ) by {
                let c = sf[i].children@[k]@;
                if i == pi as int && k == sf[i].children@.len() - 1 {
                    assert(c == child_id@);
                    lemma_nodes_map_contains(s2, child_id@);
                    let w = choose|w: int| 0 <= w < s2.len() && s2[w].name@ == child_id@;
                    assert(sf[w].name@ == child_id@);
                } else {
                    // Every other children entry already stood in the
                    // pre-state: the two pushes add nodes with empty children
                    // and the update only appends to the parent's list.
                    assert(s2[i].children@[k] == sf[i].children@[k]);
                    let c2 = s2[i].children@[k]@;
                    assert(c2 == c);
                    assert(has_node(s2, c)) by {
                        if i < s0.len() {
                            assert(s2[i].children@ == s0[i].children@);
                            assert(has_node(s0, c));
                            let w0 = choose|w0: int| 0 <= w0 < s0.len() && s0[w0].name@ == c;
                            assert(s2[w0].name@ == c);
                        } else {
                            // A node pushed by this call: its children list was
                            // empty, so the only entry is the appended child.
                            assert(s2[i].children@.len() == 0);
                        }
                    }
                    let w = choose|w: int| 0 <= w < s2.len() && s2[w].name@ == c;
                    assert(sf[w].name@ == c);
                }
            }
            match self.root {
                Some(r) => {
                    let w = choose|w: int| 0 <= w < s0.len() && s0[w].name@ == r@;
                    assert(sf[w].name@ == r@);
                },
                None => {},
            }
        }
    }

    /// Remove every node and unset the root.
    pub fn clear(&mut self)
        ensures
            final(self).wf(),
            final(self)@ == empty_tree_model(),
            final(self).nodes@.len() == 0,
    {
        self.nodes.clear();
        self.root = None;
        proof {
            assert(self@ =~~= empty_tree_model());
        }
    }
}

} // verus!
