//! The executable trie nodes.
//!
//! A [`StaticTreeNode`] owns its static children as a vector of
//! (label, child) pairs and at most one dynamic (capturing) child.  The
//! contracts of every operation speak about the ghost mirror
//! [`NodeModel`](crate::model::NodeModel), reached through the view `@`.
use vstd::prelude::*;

use crate::model::DynModel;
use crate::model::NodeModel;
use crate::model::find_static_idx;
use crate::model::fresh_model;
use crate::model::lemma_find_static_idx;
use crate::model::lemma_find_static_idx_at;
use crate::parse::str_eq;

verus! {

/// One matching position of the tree.
///
/// `handler` is bound when a pattern terminates exactly here;
/// `wildcard_handler`, when one terminates here matching everything below
/// (its presence stops any further descent during lookup).  The two slots
/// are independent.
pub struct StaticTreeNode<H> {
    pub handler: Option<H>,
    pub wildcard_handler: Option<H>,
    pub static_children: Vec<(String, StaticTreeNode<H>)>,
    pub dynamic_child: Option<Box<DynamicTreeNode<H>>>,
}

/// A capturing child: any single segment value matches it and is bound to
/// `param_name`.
pub struct DynamicTreeNode<H> {
    pub node: StaticTreeNode<H>,
    pub param_name: String,
}

/// The ghost mirror of a sequence of (label, child) pairs.
pub open spec fn children_model<H>(s: Seq<(String, StaticTreeNode<H>)>) -> Seq<
    (Seq<char>, NodeModel<H>),
>
    decreases s,
{
    if s.len() == 0 {
        Seq::empty()
    } else {
        children_model(s.subrange(0, s.len() - 1)).push(
            (s[s.len() - 1].0@, node_model(s[s.len() - 1].1)),
        )
    }
}

/// The ghost mirror of a node.
pub open spec fn node_model<H>(n: StaticTreeNode<H>) -> NodeModel<H>
    decreases n,
{
    NodeModel {
        handler: n.handler,
        wildcard_handler: n.wildcard_handler,
        static_children: children_model(n.static_children@),
        dynamic_child: match n.dynamic_child {
            Option::None => Seq::empty(),
            Option::Some(d) => seq![
                DynModel { param_name: d.param_name@, node: node_model(d.node) },
            ],
        },
    }
}

impl<H> View for StaticTreeNode<H> {
    type V = NodeModel<H>;

    open spec fn view(&self) -> NodeModel<H> {
        node_model(*self)
    }
}

impl<H> View for DynamicTreeNode<H> {
    type V = DynModel<H>;

    open spec fn view(&self) -> DynModel<H> {
        DynModel { param_name: self.param_name@, node: node_model(self.node) }
    }
}

/// `children_model` keeps the length and maps each pair to its mirror.
pub proof fn lemma_children_model<H>(s: Seq<(String, StaticTreeNode<H>)>)
    ensures
        children_model(s).len() == s.len(),
        forall|i: int|
            0 <= i < s.len() ==> #[trigger] children_model(s)[i] == (
                s[i].0@,
                node_model(s[i].1),
            ),
    decreases s.len(),
{
    if s.len() == 0 {
    } else {
        lemma_children_model(s.subrange(0, s.len() - 1));
        assert(forall|i: int|
            0 <= i < s.len() - 1 ==> s.subrange(0, s.len() - 1)[i] == s[i]);
    }
}

pub(crate) proof fn lemma_children_model_update<H>(
    s: Seq<(String, StaticTreeNode<H>)>,
    j: int,
    p: (String, StaticTreeNode<H>),
)
    requires
        0 <= j < s.len(),
    ensures
        children_model(s.update(j, p)) =~= children_model(s).update(
            j,
            (p.0@, node_model(p.1)),
        ),
{
    lemma_children_model(s);
    lemma_children_model(s.update(j, p));
}

pub(crate) proof fn lemma_children_model_push<H>(
    s: Seq<(String, StaticTreeNode<H>)>,
    p: (String, StaticTreeNode<H>),
)
    ensures
        children_model(s.push(p)) =~= children_model(s).push((p.0@, node_model(p.1))),
{
    lemma_children_model(s);
    lemma_children_model(s.push(p));
}

pub(crate) proof fn lemma_children_model_remove<H>(s: Seq<(String, StaticTreeNode<H>)>, j: int)
    requires
        0 <= j < s.len(),
    ensures
        children_model(s.remove(j)) =~= children_model(s).remove(j),
{
    lemma_children_model(s);
    lemma_children_model(s.remove(j));
}

/// Position of the first static child of `children` labelled `segment`.
pub(crate) fn find_child_index<H>(children: &Vec<(String, StaticTreeNode<H>)>, segment: &str) -> (r: Option<
    usize,
>)
    ensures
        match r {
            Some(j) => j < children@.len() && find_static_idx(
                children_model(children@),
                segment@,
            ) == j as int,
            None => find_static_idx(children_model(children@), segment@) == -1,
        },
{
    proof {
        lemma_children_model(children@);
    }
    let n = children.len();
    let mut i: usize = 0;
    while i < n
        invariant
            n == children@.len(),
            i <= n,
            forall|k: int| 0 <= k < i ==> children@[k].0@ != segment@,
        decreases n - i,
    {
        let key: &String = &children[i].0;
        if str_eq(key.as_str(), segment) {
            proof {
                lemma_children_model(children@);
                lemma_find_static_idx_at(children_model(children@), segment@, i as int);
            }
            return Some(i);
        }
        i = i + 1;
    }
    proof {
        lemma_children_model(children@);
        lemma_find_static_idx(children_model(children@), segment@);
        let f = find_static_idx(children_model(children@), segment@);
        if f != -1 {
            assert(children_model(children@)[f] == (children@[f].0@, node_model(children@[f].1)));
            assert(false);
        }
    }
    None
}

/// `m` with its static children replaced by `s`.
pub open spec fn with_children<H>(
    m: NodeModel<H>,
    s: Seq<(Seq<char>, NodeModel<H>)>,
) -> NodeModel<H> {
    NodeModel {
        handler: m.handler,
        wildcard_handler: m.wildcard_handler,
        static_children: s,
        dynamic_child: m.dynamic_child,
    }
}

/// The model after the node `child` is bound under the static label `seg`:
/// an existing child with that label is replaced together with its subtree,
/// otherwise the pair is appended.
pub open spec fn with_static_child<H>(
    m: NodeModel<H>,
    seg: Seq<char>,
    child: NodeModel<H>,
) -> NodeModel<H> {
    let j = find_static_idx(m.static_children, seg);
    with_children(
        m,
        if j != -1 {
            m.static_children.update(j, (seg, child))
        } else {
            m.static_children.push((seg, child))
        },
    )
}

/// The model after the dynamic child is replaced by one named `name`
/// holding the node `child`: whatever subtree the previous dynamic child
/// carried is discarded.
pub open spec fn with_dynamic_child<H>(
    m: NodeModel<H>,
    name: Seq<char>,
    child: NodeModel<H>,
) -> NodeModel<H> {
    NodeModel {
        handler: m.handler,
        wildcard_handler: m.wildcard_handler,
        static_children: m.static_children,
        dynamic_child: seq![DynModel { param_name: name, node: child }],
    }
}

/// The model after the wildcard handler slot is overwritten by `h`.
pub open spec fn with_wildcard<H>(m: NodeModel<H>, h: Option<H>) -> NodeModel<H> {
    NodeModel {
        handler: m.handler,
        wildcard_handler: h,
        static_children: m.static_children,
        dynamic_child: m.dynamic_child,
    }
}

/// The model after the dynamic child, and its whole subtree, is removed.
pub open spec fn without_dynamic_child<H>(m: NodeModel<H>) -> NodeModel<H> {
    NodeModel {
        handler: m.handler,
        wildcard_handler: m.wildcard_handler,
        static_children: m.static_children,
        dynamic_child: Seq::empty(),
    }
}

impl<H> DynamicTreeNode<H> {
    /// A fresh capturing child: a fresh node carrying `handler`, bound to
    /// the parameter name `param_name`.
    pub fn new(handler: Option<H>, param_name: &str) -> (r: Self)
        ensures
            r@ == (DynModel { param_name: param_name@, node: fresh_model(handler) }),
    {
        let r = DynamicTreeNode {
            node: StaticTreeNode::new(handler),
            param_name: param_name.to_owned(),
        };
        proof {
            assert(r@ =~~= DynModel { param_name: param_name@, node: fresh_model(handler) });
        }
        r
    }
}

impl<H> StaticTreeNode<H> {
    /// A fresh node carrying `handler` and no children.
    pub fn new(handler: Option<H>) -> (r: Self)
        ensures
            r@ == fresh_model::<H>(handler),
    {
        let r = StaticTreeNode {
            handler,
            wildcard_handler: None,
            static_children: Vec::new(),
            dynamic_child: None,
        };
        proof {
            assert(r.static_children@ =~= Seq::<(String, StaticTreeNode<H>)>::empty());
            assert(children_model(r.static_children@) == Seq::<(Seq<char>, NodeModel<H>)>::empty());
            assert(r@ =~~= fresh_model::<H>(handler));
        }
        r
    }

    /// Binds a fresh node carrying `handler` under the static label
    /// `segment`, replacing any existing child with that label together
    /// with its subtree.
    pub fn add_static_child(&mut self, segment: &str, handler: Option<H>)
        ensures
            final(self)@ == with_static_child(old(self)@, segment@, fresh_model(handler)),
    {
        let found = find_child_index(&self.static_children, segment);
        let key = segment.to_owned();
        let child = StaticTreeNode::new(handler);
        let ghost before = self.static_children@;
        match found {
            Some(j) => {
                let _replaced = self.static_children.remove(j);
                self.static_children.insert(j, (key, child));
                proof {
                    assert(self.static_children@ =~= before.update(j as int, (key, child)));
                    lemma_children_model_update(before, j as int, (key, child));
                    assert(self@ =~~= with_static_child(
                        old(self)@,
                        segment@,
                        fresh_model(handler),
                    ));
                }
            },
            None => {
                self.static_children.push((key, child));
                proof {
                    lemma_children_model_push(before, (key, child));
                    assert(self@ =~~= with_static_child(
                        old(self)@,
                        segment@,
                        fresh_model(handler),
                    ));
                }
            },
        }
    }

    /// Removes the static child labelled `segment`, handing it back; the
    /// node is unchanged when no child carries that label.
    pub fn delete_static_child(&mut self, segment: &str) -> (r: Option<StaticTreeNode<H>>)
        ensures
            ({
                let j = find_static_idx(old(self)@.static_children, segment@);
                if j == -1 {
                    final(self)@ == old(self)@ && r is None
                } else {
                    &&& final(self)@ == with_children(
                        old(self)@,
                        old(self)@.static_children.remove(j),
                    )
                    &&& r matches Some(n) && n@ == old(self)@.static_children[j].1
                }
            }),
    {
        let found = find_child_index(&self.static_children, segment);
        let ghost before = self.static_children@;
        match found {
            Some(j) => {
                let pair = self.static_children.remove(j);
                proof {
                    lemma_children_model_remove(before, j as int);
                    lemma_children_model(before);
                    assert(self@ =~~= with_children(
                        old(self)@,
                        old(self)@.static_children.remove(j as int),
                    ));
                }
                Some(pair.1)
            },
            None => None,
        }
    }

    /// Replaces the dynamic child by a fresh one named `param_name` and
    /// carrying `handler`; the previous dynamic child's entire subtree is
    /// discarded, not merged.
    pub fn set_dynamic_child(&mut self, param_name: &str, handler: Option<H>)
        ensures
            final(self)@ == with_dynamic_child(old(self)@, param_name@, fresh_model(handler)),
    {
        let child = DynamicTreeNode::new(handler, param_name);
        self.dynamic_child = Some(Box::new(child));
        proof {
            assert(self@ =~~= with_dynamic_child(old(self)@, param_name@, fresh_model(handler)));
        }
    }

    /// Removes the dynamic child together with its subtree.
    pub fn delete_dynamic_child(&mut self)
        ensures
            final(self)@ == without_dynamic_child(old(self)@),
    {
        self.dynamic_child = None;
        proof {
            assert(self@ =~~= without_dynamic_child(old(self)@));
        }
    }

    /// Overwrites the wildcard handler slot.
    pub fn set_wildcard_handler(&mut self, handler: Option<H>)
        ensures
            final(self)@ == with_wildcard(old(self)@, handler),
    {
        self.wildcard_handler = handler;
        proof {
            assert(self@ =~~= with_wildcard(old(self)@, handler));
        }
    }

    /// Clears the wildcard handler slot.
    pub fn delete_wildcard_handler(&mut self)
        ensures
            final(self)@ == with_wildcard(old(self)@, None),
    {
        self.wildcard_handler = None;
        proof {
            assert(self@ =~~= with_wildcard(old(self)@, None));
        }
    }

    /// The static child labelled `segment`, if one exists.
    pub fn get_static_child<'a>(&'a self, segment: &str) -> (r: Option<&'a StaticTreeNode<H>>)
        ensures
            ({
                let j = find_static_idx(self@.static_children, segment@);
                match r {
                    Some(n) => j != -1 && n@ == self@.static_children[j].1,
                    None => j == -1,
                }
            }),
    {
        match find_child_index(&self.static_children, segment) {
            Some(j) => {
                proof {
                    lemma_children_model(self.static_children@);
                }
                Some(&self.static_children[j].1)
            },
            None => None,
        }
    }

    /// Whether a static child carries the exact label `segment`.
    pub fn has_static_child(&self, segment: &str) -> (r: bool)
        ensures
            r == (find_static_idx(self@.static_children, segment@) != -1),
    {
        match find_child_index(&self.static_children, segment) {
            Some(_) => true,
            None => false,
        }
    }

    /// The dynamic child, if one exists.
    pub fn get_dynamic_child<'a>(&'a self) -> (r: Option<&'a DynamicTreeNode<H>>)
        ensures
            match r {
                Some(d) => self@.dynamic_child.len() == 1 && d@ == self@.dynamic_child[0],
                None => self@.dynamic_child.len() == 0,
            },
    {
        match &self.dynamic_child {
            Some(d) => Some(&*d),
            None => None,
        }
    }

    /// Whether the node has a dynamic child.
    pub fn has_dynamic_child(&self) -> (r: bool)
        ensures
            r == (self@.dynamic_child.len() == 1),
    {
        match &self.dynamic_child {
            Some(_) => true,
            None => false,
        }
    }

    /// The child that the segment `segment` descends into: the static
    /// child with that exact label when it exists, else the dynamic child,
    /// else none.
    pub fn get_child<'a>(&'a self, segment: &str) -> (r: Option<TreeNode<'a, H>>)
        ensures
            ({
                let j = find_static_idx(self@.static_children, segment@);
                match r {
                    Some(TreeNode::Static(n)) => j != -1 && n@ == self@.static_children[j].1,
                    Some(TreeNode::Dynamic(d)) => j == -1 && self@.dynamic_child.len() == 1
                        && d@ == self@.dynamic_child[0],
                    None => j == -1 && self@.dynamic_child.len() == 0,
                }
            }),
    {
        match self.get_static_child(segment) {
            Some(n) => Some(TreeNode::Static(n)),
            None => match self.get_dynamic_child() {
                Some(d) => Some(TreeNode::Dynamic(d)),
                None => None,
            },
        }
    }
}

impl<H> StaticTreeNode<H> {
    /// The static child labelled `segment`, borrowed for mutation.
    pub fn get_static_child_mut<'a>(&'a mut self, segment: &str) -> (r: Option<
        &'a mut StaticTreeNode<H>,
    >)
        ensures
            ({
                let j = find_static_idx(old(self)@.static_children, segment@);
                match r {
                    Some(n) => j != -1 && (*n)@ == old(self)@.static_children[j].1
                        && final(self)@ =~~= with_children(
                        old(self)@,
                        old(self)@.static_children.update(j, (segment@, final(n)@)),
                    ),
                    None => j == -1 && *final(self) == *old(self),
                }
            }),
    {
        match find_child_index(&self.static_children, segment) {
            Some(j) => {
                proof {
                    lemma_children_model(self.static_children@);
                    lemma_find_static_idx(children_model(self.static_children@), segment@);
                }
                let ghost before = self.static_children@;
                let pair_ref = &mut self.static_children[j];
                let n = &mut pair_ref.1;
                proof {
                    lemma_children_model_update(
                        before,
                        j as int,
                        (before[j as int].0, *final(n)),
                    );
                }
                Some(n)
            },
            None => None,
        }
    }

    /// The dynamic child, borrowed for mutation.
    pub fn get_dynamic_child_mut<'a>(&'a mut self) -> (r: Option<&'a mut DynamicTreeNode<H>>)
        ensures
            match r {
                Some(d) => old(self)@.dynamic_child.len() == 1 && (*d)@ == old(
                    self,
                )@.dynamic_child[0] && final(self)@ == NodeModel {
                    handler: old(self)@.handler,
                    wildcard_handler: old(self)@.wildcard_handler,
                    static_children: old(self)@.static_children,
                    dynamic_child: seq![final(d)@],
                },
                None => old(self)@.dynamic_child.len() == 0 && *final(self) == *old(self),
            },
    {
        match &mut self.dynamic_child {
            Some(b) => Some(&mut **b),
            None => None,
        }
    }
}

/// A mutably borrowed child node: either a plain static node, or a
/// dynamic node together with its parameter name.
pub enum TreeNodeMut<'a, H> {
    Static(&'a mut StaticTreeNode<H>),
    Dynamic(&'a mut DynamicTreeNode<H>),
}

impl<H> StaticTreeNode<H> {
    /// The child that `segment` descends into, borrowed for mutation: the
    /// static child with that exact label when it exists, else the
    /// dynamic child, else none.
    pub fn get_child_mut<'a>(&'a mut self, segment: &str) -> (r: Option<TreeNodeMut<'a, H>>)
        ensures
            ({
                let j = find_static_idx(old(self)@.static_children, segment@);
                match r {
                    Some(TreeNodeMut::Static(n)) => j != -1 && (*n)@ == old(
                        self,
                    )@.static_children[j].1 && final(self)@ =~~= with_children(
                        old(self)@,
                        old(self)@.static_children.update(j, (segment@, final(n)@)),
                    ),
                    Some(TreeNodeMut::Dynamic(d)) => j == -1 && old(
                        self,
                    )@.dynamic_child.len() == 1 && (*d)@ == old(self)@.dynamic_child[0]
                        && final(self)@ =~~= NodeModel {
                        handler: old(self)@.handler,
                        wildcard_handler: old(self)@.wildcard_handler,
                        static_children: old(self)@.static_children,
                        dynamic_child: seq![final(d)@],
                    },
                    None => j == -1 && old(self)@.dynamic_child.len() == 0 && *final(self)
                        == *old(self),
                }
            }),
    {
        let stat = match find_child_index(&self.static_children, segment) {
            Some(j) => {
                proof {
                    lemma_children_model(self.static_children@);
                    lemma_find_static_idx(children_model(self.static_children@), segment@);
                }
                let ghost before = self.static_children@;
                let pair_ref = &mut self.static_children[j];
                let n = &mut pair_ref.1;
                proof {
                    lemma_children_model_update(
                        before,
                        j as int,
                        (before[j as int].0, *final(n)),
                    );
                }
                Some(n)
            },
            None => None,
        };
        match stat {
            Some(n) => Some(TreeNodeMut::Static(n)),
            None => match &mut self.dynamic_child {
                Some(b) => Some(TreeNodeMut::Dynamic(&mut **b)),
                None => None,
            },
        }
    }
}

impl<'a, H> TreeNodeMut<'a, H> {
    /// The plain node inside either variant, borrowed for mutation.
    pub fn extract_static_node(self) -> (r: &'a mut StaticTreeNode<H>)
        ensures
            (*r)@ == match self {
                TreeNodeMut::Static(n) => (*n)@,
                TreeNodeMut::Dynamic(d) => (*d)@.node,
            },
            match self {
                TreeNodeMut::Static(n) => *final(n) == *final(r),
                TreeNodeMut::Dynamic(d) => final(d)@ == (DynModel {
                    param_name: (*d).param_name@,
                    node: final(r)@,
                }),
            },
    {
        match self {
            TreeNodeMut::Static(n) => n,
            TreeNodeMut::Dynamic(d) => &mut d.node,
        }
    }
}

/// A borrowed child node: either a plain static node, or a dynamic node
/// together with its parameter name.
pub enum TreeNode<'a, H> {
    Static(&'a StaticTreeNode<H>),
    Dynamic(&'a DynamicTreeNode<H>),
}

impl<'a, H> TreeNode<'a, H> {
    /// The plain node inside either variant.
    pub fn extract_static_node(&self) -> (r: &'a StaticTreeNode<H>)
        ensures
            r@ == match *self {
                TreeNode::Static(n) => n@,
                TreeNode::Dynamic(d) => d@.node,
            },
    {
        match self {
            TreeNode::Static(n) => n,
            TreeNode::Dynamic(d) => &d.node,
        }
    }
}

} // verus!
