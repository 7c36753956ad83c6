//! The routing tree and its two operations.
//!
//! [`RouterTree::add`] registers a pattern for an opaque handler value;
//! [`RouterTree::get`] resolves a concrete path to the handler of the
//! matching pattern together with the captured parameter values.  Both
//! promise to behave exactly as [`add_model`] and [`lookup_model`] say on
//! the ghost mirror of the tree.
use vstd::prelude::*;

use crate::model::DynModel;
use crate::model::add_model;
use crate::model::find_static_idx;
use crate::model::fresh_model;
use crate::model::is_dynamic_seg;
use crate::model::lookup_model;
use crate::model::param_name_of;
use crate::model::traverse_model;
use crate::node::DynamicTreeNode;
use crate::node::StaticTreeNode;
use crate::node::TreeNode;
use crate::node::children_model;
use crate::node::find_child_index;
use crate::node::lemma_children_model;
use crate::node::lemma_children_model_update;
use crate::node::node_model;
use crate::params::Params;
use crate::parse::parse_model;
use crate::parse::seq_views;
use crate::parse::split_path;
use crate::parse::str_starts_with;

verus! {

/// Where a traversal stopped: the node reached and the parameter values
/// captured on the way there.
pub struct TraversePathReturn<'a, H> {
    pub node: &'a StaticTreeNode<H>,
    pub params: Params,
}

/// A successful lookup: the handler bound to the matched pattern and the
/// captured parameter values.
pub struct HandlerAndParams<'a, H> {
    pub handler: &'a H,
    pub params: Params,
}

impl<'a, H> TraversePathReturn<'a, H> {
    /// The handler bound at the node reached, with a fresh copy of the
    /// captured parameters, or nothing when no pattern terminates there.
    pub fn extract_handler(&self) -> (r: Option<HandlerAndParams<'a, H>>)
        ensures
            match r {
                Some(hp) => self.node@.handler matches Some(h) && *hp.handler == h
                    && hp.params@ == self.params@,
                None => self.node@.handler is None,
            },
    {
        match &self.node.handler {
            Some(h) => Some(HandlerAndParams { handler: h, params: self.params.duplicate() }),
            None => None,
        }
    }
}

impl<'a, H> HandlerAndParams<'a, H> {
    /// The matched handler.
    pub fn handler(&self) -> (r: &'a H)
        ensures
            r == self.handler,
    {
        self.handler
    }

    /// The captured parameter values.
    pub fn params(&self) -> (r: &Params)
        ensures
            r@ == self.params@,
    {
        &self.params
    }
}

/// The segment trie, together with its configuration: the segment
/// separator, the marker that starts a capturing segment of a pattern,
/// and the (stored, currently inert) wildcard marker.
pub struct RouterTree<H> {
    pub root: StaticTreeNode<H>,
    pub path_separator: String,
    pub param_prefix: String,
    pub wildcard_symbol: String,
}

/// Registers the remaining segments `segments[i..]` below `node`.
fn add_segments<H>(
    node: &mut StaticTreeNode<H>,
    segments: &Vec<String>,
    i: usize,
    param_prefix: &String,
    handler: Option<H>,
)
    requires
        i <= segments@.len(),
    ensures
        final(node)@ == add_model(
            old(node)@,
            seq_views(segments@).skip(i as int),
            param_prefix@,
            handler,
        ),
    decreases segments@.len() - i,
{
    let ghost segs_g = seq_views(segments@).skip(i as int);
    if i == segments.len() {
        node.handler = handler;
        proof {
            assert(segs_g.len() == 0);
            assert(node@ =~~= add_model(old(node)@, segs_g, param_prefix@, handler));
        }
        return;
    }
    let seg: &String = &segments[i];
    proof {
        assert(segs_g[0] == segments@[i as int]@);
        assert(segs_g.subrange(1, segs_g.len() as int) =~= seq_views(segments@).skip(
            i + 1,
        ));
    }
    let ghost rest = seq_views(segments@).skip(i + 1);
    if RouterTree::<H>::is_dynamic_segment(seg.as_str(), param_prefix.as_str()) {
        let param_name = RouterTree::<H>::strip_param_prefix(seg.as_str(), param_prefix.as_str());
        if !node.has_dynamic_child() {
            node.set_dynamic_child(param_name, None);
        }
        let ghost child0: crate::model::DynModel<H> = if old(node)@.dynamic_child.len() > 0 {
            old(node)@.dynamic_child[0]
        } else {
            crate::model::DynModel {
                param_name: param_name_of(segs_g[0], param_prefix@),
                node: fresh_model(None),
            }
        };
        proof {
            assert(node@.dynamic_child =~= seq![child0]);
        }
        let ghost mid = *node;
        let taken = node.dynamic_child.take();
        match taken {
            Some(mut boxed) => {
                proof {
                    assert(mid.dynamic_child == Some(boxed));
                    assert(mid@.dynamic_child[0] == DynModel {
                        param_name: boxed.param_name@,
                        node: node_model(boxed.node),
                    });
                    assert(boxed.param_name@ == child0.param_name);
                    assert(node_model(boxed.node) == child0.node);
                }
                add_segments(&mut boxed.node, segments, i + 1, param_prefix, handler);
                node.dynamic_child = Some(boxed);
                proof {
                    assert(node@ =~~= add_model(old(node)@, segs_g, param_prefix@, handler));
                }
            },
            None => {
                proof {
                    assert(false);
                }
            },
        }
    } else {
        let ghost j0 = find_static_idx(old(node)@.static_children, segs_g[0]);
        let j: usize = match find_child_index(&node.static_children, seg.as_str()) {
            Some(j) => j,
            None => {
                node.add_static_child(seg.as_str(), None);
                proof {
                    lemma_children_model(node.static_children@);
                }
                node.static_children.len() - 1
            },
        };
        let ghost mid_model = node@;
        proof {
            lemma_children_model(node.static_children@);
            crate::model::lemma_find_static_idx(mid_model.static_children, segs_g[0]);
            if j0 != -1 {
                assert(mid_model == old(node)@);
                assert(j as int == j0);
                assert(mid_model.static_children[j as int].0 == segs_g[0]);
            } else {
                assert(mid_model.static_children =~= old(node)@.static_children.push(
                    (segs_g[0], fresh_model(None)),
                ));
                assert(j as int == old(node)@.static_children.len());
                assert(mid_model.static_children[j as int].0 == segs_g[0]);
            }
            assert(j < node.static_children@.len());
        }
        let ghost mid_children = node.static_children@;
        let pair = node.static_children.remove(j);
        let (key, mut child) = pair;
        proof {
            lemma_children_model(mid_children);
            assert(node_model(child) == mid_model.static_children[j as int].1);
            assert(key@ == segs_g[0]);
        }
        let ghost child_before = node_model(child);
        add_segments(&mut child, segments, i + 1, param_prefix, handler);
        node.static_children.insert(j, (key, child));
        proof {
            assert(node.static_children@ =~= mid_children.update(
                j as int,
                (key, child),
            ));
            lemma_children_model_update(mid_children, j as int, (key, child));
            assert(children_model(node.static_children@) =~= mid_model.static_children.update(
                j as int,
                (segs_g[0], add_model(child_before, rest, param_prefix@, handler)),
            ));
            if j0 == -1 {
                assert(mid_model.static_children.update(
                    j as int,
                    (segs_g[0], add_model(child_before, rest, param_prefix@, handler)),
                ) =~= old(node)@.static_children.push(
                    (segs_g[0], add_model(fresh_model(None), rest, param_prefix@, handler)),
                ));
            }
            assert(node@ =~~= add_model(old(node)@, segs_g, param_prefix@, handler));
        }
    }
}

/// Walks the remaining segments `segments[i..]` from `node`, appending
/// each captured binding to `params`.
fn traverse_segments<'a, H>(
    node: &'a StaticTreeNode<H>,
    segments: &Vec<String>,
    i: usize,
    params: &mut Params,
) -> (r: Option<&'a StaticTreeNode<H>>)
    requires
        i <= segments@.len(),
    ensures
        ({
            let t = traverse_model(node@, seq_views(segments@).skip(i as int));
            match r {
                Some(n) => t matches Some(p) && p.0 == n@ && final(params)@ == old(params)@
                    + p.1,
                None => t is None,
            }
        }),
    decreases segments@.len() - i,
{
    let ghost segs_g = seq_views(segments@).skip(i as int);
    if i == segments.len() {
        proof {
            assert(segs_g.len() == 0);
            assert(params@ =~= params@ + Seq::<(Seq<char>, Seq<char>)>::empty());
        }
        return Some(node);
    }
    match &node.wildcard_handler {
        Some(_) => {
            proof {
                assert(node@.wildcard_handler is Some);
                assert(params@ =~= params@ + Seq::<(Seq<char>, Seq<char>)>::empty());
            }
            return Some(node);
        },
        None => {},
    }
    let seg: &String = &segments[i];
    proof {
        assert(segs_g[0] == segments@[i as int]@);
        assert(segs_g.subrange(1, segs_g.len() as int) =~= seq_views(segments@).skip(
            i + 1,
        ));
    }
    match node.get_child(seg.as_str()) {
        Some(TreeNode::Static(n)) => traverse_segments(n, segments, i + 1, params),
        Some(TreeNode::Dynamic(d)) => {
            let ghost before = params@;
            params.push(d.param_name.clone(), seg.clone());
            let res = traverse_segments(&d.node, segments, i + 1, params);
            match res {
                Some(n) => {
                    proof {
                        let t = traverse_model(node@, segs_g);
                        let sub = traverse_model(
                            d@.node,
                            seq_views(segments@).skip(i + 1),
                        );
                        assert(sub matches Some(p));
                        assert(params@ =~= before + (seq![
                            (d.param_name@, segments@[i as int]@),
                        ] + sub->Some_0.1));
                    }
                    Some(n)
                },
                None => None,
            }
        },
        None => None,
    }
}

impl<H> RouterTree<H> {
    /// A tree with one root node carrying `handler` and the given
    /// configuration; every omitted configuration string takes its
    /// default.
    pub fn new(
        handler: Option<H>,
        param_prefix: Option<String>,
        path_separator: Option<String>,
        wildcard_symbol: Option<String>,
    ) -> (r: Self)
        ensures
            r.root@ == fresh_model::<H>(handler),
            r.param_prefix@ == match param_prefix {
                Some(s) => s@,
                None => ":"@,
            },
            r.path_separator@ == match path_separator {
                Some(s) => s@,
                None => "/"@,
            },
            r.wildcard_symbol@ == match wildcard_symbol {
                Some(s) => s@,
                None => "*"@,
            },
    {
        let root = StaticTreeNode::new(handler);
        RouterTree {
            root,
            path_separator: match path_separator {
                Some(s) => s,
                None => "/".to_owned(),
            },
            param_prefix: match param_prefix {
                Some(s) => s,
                None => ":".to_owned(),
            },
            wildcard_symbol: match wildcard_symbol {
                Some(s) => s,
                None => "*".to_owned(),
            },
        }
    }

    /// Registers `path` as a pattern for `handler`: the tree grows the
    /// missing edges and the handler slot at the end of the walked path is
    /// overwritten — passing no handler clears it.  Insertion never
    /// fails.
    ///
    /// The wildcard marker gets no special treatment here: a segment of
    /// wildcard text is an ordinary literal (or capturing) segment, and
    /// the wildcard handler slot of a node is set only through
    /// [`StaticTreeNode::set_wildcard_handler`].
    pub fn add(&mut self, path: String, handler: Option<H>)
        ensures
            final(self).root@ == add_model(
                old(self).root@,
                parse_model(path@, old(self).path_separator@),
                old(self).param_prefix@,
                handler,
            ),
            final(self).path_separator == old(self).path_separator,
            final(self).param_prefix == old(self).param_prefix,
            final(self).wildcard_symbol == old(self).wildcard_symbol,
    {
        let segments = self.parse_path(&path);
        add_segments(&mut self.root, &segments, 0, &self.param_prefix, handler);
        proof {
            assert(seq_views(segments@).skip(0) =~= seq_views(segments@));
        }
    }

    /// Resolves `path`: the handler of the matching pattern together with
    /// the captured parameter values, or nothing when no pattern matches.
    pub fn get<'a>(&'a self, path: String) -> (r: Option<HandlerAndParams<'a, H>>)
        ensures
            ({
                let l = lookup_model(self.root@, parse_model(path@, self.path_separator@));
                match r {
                    Some(hp) => l == Some((*hp.handler, hp.params@)),
                    None => l is None,
                }
            }),
    {
        match self.traverse_path(&path) {
            Some(t) => t.extract_handler(),
            None => None,
        }
    }

    /// Walks `path` from the root, collecting parameter bindings, and
    /// hands back the node reached, or nothing when a required edge is
    /// missing.
    pub fn traverse_path<'a>(&'a self, path: &String) -> (r: Option<TraversePathReturn<'a, H>>)
        ensures
            ({
                let t = traverse_model(self.root@, parse_model(path@, self.path_separator@));
                match r {
                    Some(tr) => t matches Some(p) && p.0 == tr.node@ && tr.params@ == p.1,
                    None => t is None,
                }
            }),
    {
        let segments = self.parse_path(path);
        let mut params = Params::new();
        let res = traverse_segments(&self.root, &segments, 0, &mut params);
        proof {
            assert(seq_views(segments@).skip(0) =~= seq_views(segments@));
            if res is Some {
                let t = traverse_model(self.root@, parse_model(path@, self.path_separator@));
                assert(Seq::<(Seq<char>, Seq<char>)>::empty() + t->Some_0.1 =~= t->Some_0.1);
            }
        }
        match res {
            Some(n) => Some(TraversePathReturn { node: n, params }),
            None => None,
        }
    }

    /// The segments of `path` under this tree's separator.
    pub fn parse_path(&self, path: &String) -> (r: Vec<String>)
        ensures
            seq_views(r@) == parse_model(path@, self.path_separator@),
    {
        split_path(path.as_str(), self.path_separator.as_str())
    }

    /// The root node, as a child-node value.
    pub fn get_root_node<'a>(&'a self) -> (r: TreeNode<'a, H>)
        ensures
            r matches TreeNode::Static(n) && n@ == self.root@,
    {
        TreeNode::Static(&self.root)
    }

    /// Whether a pattern segment is a capturing one: it starts with the
    /// parameter prefix.
    pub fn is_dynamic_segment(segment: &str, param_prefix: &str) -> (r: bool)
        ensures
            r == is_dynamic_seg(segment@, param_prefix@),
    {
        str_starts_with(segment, param_prefix)
    }

    /// The parameter name of a capturing segment: what follows the
    /// prefix, or the empty name when the prefix is not actually there.
    pub fn strip_param_prefix<'a>(segment: &'a str, param_prefix: &str) -> (r: &'a str)
        ensures
            r@ == param_name_of(segment@, param_prefix@),
    {
        if str_starts_with(segment, param_prefix) {
            let m = param_prefix.unicode_len();
            let n = segment.unicode_len();
            segment.substring_char(m, n)
        } else {
            let r = "";
            proof {
                reveal_strlit("");
                assert(r@ =~= Seq::<char>::empty());
            }
            r
        }
    }
}

} // verus!
