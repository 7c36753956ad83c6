//! Mathematical model of the segment trie.
//!
//! The executable tree of [`crate::node::StaticTreeNode`] is mirrored by the
//! ghost type [`NodeModel`]: strings become sequences of characters, the
//! vector of static children becomes a sequence of (label, child) pairs in the
//! same order, and the optional dynamic child becomes a sequence of length at
//! most one.  Insertion and lookup are defined here as recursive spec
//! functions over that mirror; the executable operations promise to agree
//! with them.
use vstd::prelude::*;

verus! {

/// Model of a dynamic child: a capturing node together with the parameter
/// name that a matched segment is bound to.
pub ghost struct DynModel<H> {
    pub param_name: Seq<char>,
    pub node: NodeModel<H>,
}

/// Model of one tree node.
///
/// `dynamic_child` holds zero or one entries; the executable representation
/// keeps at most one dynamic child, and the model mirrors that as a sequence
/// of length at most one.
#[verifier::ext_equal]
pub ghost struct NodeModel<H> {
    pub handler: Option<H>,
    pub wildcard_handler: Option<H>,
    pub static_children: Seq<(Seq<char>, NodeModel<H>)>,
    pub dynamic_child: Seq<DynModel<H>>,
}

/// A freshly created node carrying `handler` and no children.
pub open spec fn fresh_model<H>(handler: Option<H>) -> NodeModel<H> {
    NodeModel {
        handler: handler,
        wildcard_handler: None,
        static_children: Seq::empty(),
        dynamic_child: Seq::empty(),
    }
}

/// Index of the first pair in `s` whose label equals `seg`, or -1 if no
/// label equals it.
pub open spec fn find_static_idx<H>(s: Seq<(Seq<char>, NodeModel<H>)>, seg: Seq<char>) -> int
    decreases s.len(),
{
    if s.len() == 0 {
        -1
    } else if s[0].0 == seg {
        0
    } else {
        let r = find_static_idx(s.subrange(1, s.len() as int), seg);
        if r == -1 {
            -1
        } else {
            r + 1
        }
    }
}

/// What `find_static_idx` returns: either -1 and no label matches, or the
/// position of the first matching label.
pub proof fn lemma_find_static_idx<H>(s: Seq<(Seq<char>, NodeModel<H>)>, seg: Seq<char>)
    ensures
        find_static_idx(s, seg) == -1 ==> forall|i: int| 0 <= i < s.len() ==> s[i].0 != seg,
        find_static_idx(s, seg) != -1 ==> {
            let r = find_static_idx(s, seg);
            &&& 0 <= r < s.len()
            &&& s[r].0 == seg
            &&& forall|i: int| 0 <= i < r ==> s[i].0 != seg
        },
    decreases s.len(),
{
    if s.len() == 0 {
    } else if s[0].0 == seg {
    } else {
        lemma_find_static_idx(s.subrange(1, s.len() as int), seg);
        assert(forall|i: int| 1 <= i < s.len() ==> s.subrange(1, s.len() as int)[i - 1] == s[i]);
    }
}

/// The first matching position determines `find_static_idx`.
pub proof fn lemma_find_static_idx_at<H>(s: Seq<(Seq<char>, NodeModel<H>)>, seg: Seq<char>, i: int)
    requires
        0 <= i < s.len(),
        s[i].0 == seg,
        forall|k: int| 0 <= k < i ==> s[k].0 != seg,
    ensures
        find_static_idx(s, seg) == i,
{
    lemma_find_static_idx(s, seg);
    let r = find_static_idx(s, seg);
    if r == -1 {
        assert(s[i].0 != seg);
    } else if r < i {
        assert(s[r].0 != seg);
    } else if r > i {
        assert(s[i].0 != seg);
    }
}

/// A segment of a pattern is dynamic when it starts with the parameter
/// prefix.
pub open spec fn is_dynamic_seg(seg: Seq<char>, prefix: Seq<char>) -> bool {
    prefix.is_prefix_of(seg)
}

/// The parameter name of a dynamic segment: what remains after the prefix,
/// or the empty name when the prefix does not actually occur.
pub open spec fn param_name_of(seg: Seq<char>, prefix: Seq<char>) -> Seq<char> {
    if prefix.is_prefix_of(seg) {
        seg.subrange(prefix.len() as int, seg.len() as int)
    } else {
        Seq::empty()
    }
}

/// Insertion of a pattern, one segment at a time, from the node modelled by
/// `m`:
///  - with no segments left, the handler slot of the node is overwritten;
///  - a dynamic segment reuses the existing dynamic child (which keeps
///    the parameter name it was created with) or creates a fresh one
///    named after the segment;
///  - any other segment descends into the static child with that exact
///    label, creating a fresh one if absent.
pub open spec fn add_model<H>(
    m: NodeModel<H>,
    segs: Seq<Seq<char>>,
    prefix: Seq<char>,
    handler: Option<H>,
) -> NodeModel<H>
    decreases segs.len(),
{
    if segs.len() == 0 {
        NodeModel {
            handler: handler,
            wildcard_handler: m.wildcard_handler,
            static_children: m.static_children,
            dynamic_child: m.dynamic_child,
        }
    } else {
        let seg = segs[0];
        let rest = segs.subrange(1, segs.len() as int);
        if is_dynamic_seg(seg, prefix) {
            let child = if m.dynamic_child.len() > 0 {
                m.dynamic_child[0]
            } else {
                DynModel { param_name: param_name_of(seg, prefix), node: fresh_model(None) }
            };
            NodeModel {
                handler: m.handler,
                wildcard_handler: m.wildcard_handler,
                static_children: m.static_children,
                dynamic_child: seq![
                    DynModel {
                        param_name: child.param_name,
                        node: add_model(child.node, rest, prefix, handler),
                    },
                ],
            }
        } else {
            let j = find_static_idx(m.static_children, seg);
            if j != -1 {
                NodeModel {
                    handler: m.handler,
                    wildcard_handler: m.wildcard_handler,
                    static_children: m.static_children.update(
                        j,
                        (seg, add_model(m.static_children[j].1, rest, prefix, handler)),
                    ),
                    dynamic_child: m.dynamic_child,
                }
            } else {
                NodeModel {
                    handler: m.handler,
                    wildcard_handler: m.wildcard_handler,
                    static_children: m.static_children.push(
                        (seg, add_model(fresh_model(None), rest, prefix, handler)),
                    ),
                    dynamic_child: m.dynamic_child,
                }
            }
        }
    }
}

/// Traversal of a concrete path from the node modelled by `m`.  The result is
/// the node the walk stops at together with the parameter bindings collected
/// on the way, in root-to-leaf order, or `None` when a required edge is
/// missing.
///
/// Before each segment is consumed, a set wildcard handler stops the descent
/// at the current node.  Otherwise the static child with the exact label is
/// preferred; failing that, the dynamic child captures the segment; failing
/// both, the walk fails.  No backtracking takes place.
pub open spec fn traverse_model<H>(m: NodeModel<H>, segs: Seq<Seq<char>>) -> Option<
    (NodeModel<H>, Seq<(Seq<char>, Seq<char>)>),
>
    decreases segs.len(),
{
    if segs.len() == 0 {
        Some((m, Seq::empty()))
    } else if m.wildcard_handler is Some {
        Some((m, Seq::empty()))
    } else {
        let seg = segs[0];
        let rest = segs.subrange(1, segs.len() as int);
        let j = find_static_idx(m.static_children, seg);
        if j != -1 {
            traverse_model(m.static_children[j].1, rest)
        } else if m.dynamic_child.len() > 0 {
            match traverse_model(m.dynamic_child[0].node, rest) {
                Some(r) => Some(
                    (r.0, seq![(m.dynamic_child[0].param_name, seg)] + r.1),
                ),
                None => None,
            }
        } else {
            None
        }
    }
}

/// Lookup: traverse, then read the handler slot of the node reached.  A node
/// reached without a handler bound to it is no match.
pub open spec fn lookup_model<H>(m: NodeModel<H>, segs: Seq<Seq<char>>) -> Option<
    (H, Seq<(Seq<char>, Seq<char>)>),
> {
    match traverse_model(m, segs) {
        Some(r) => match r.0.handler {
            Some(h) => Some((h, r.1)),
            None => None,
        },
        None => None,
    }
}

/// Interpretation of collected bindings as a mapping: a later (deeper)
/// binding of a name overrides an earlier one.
pub open spec fn params_map(ps: Seq<(Seq<char>, Seq<char>)>) -> Map<Seq<char>, Seq<char>>
    decreases ps.len(),
{
    if ps.len() == 0 {
        Map::empty()
    } else {
        params_map(ps.subrange(0, ps.len() - 1)).insert(
            ps[ps.len() - 1].0,
            ps[ps.len() - 1].1,
        )
    }
}

/// Overwrite semantics: registering the same pattern again replaces the
/// earlier registration entirely.  Inserting a handler for a pattern and
/// then inserting another for the same pattern leaves the tree exactly as
/// if only the second insertion had happened — the first handler is no
/// longer anywhere in the tree.
pub proof fn lemma_add_model_overwrites<H>(
    m: NodeModel<H>,
    segs: Seq<Seq<char>>,
    prefix: Seq<char>,
    h1: Option<H>,
    h2: Option<H>,
)
    ensures
        add_model(add_model(m, segs, prefix, h1), segs, prefix, h2) == add_model(
            m,
            segs,
            prefix,
            h2,
        ),
    decreases segs.len(),
{
    let m1 = add_model(m, segs, prefix, h1);
    if segs.len() == 0 {
        assert(add_model(m1, segs, prefix, h2) =~~= add_model(m, segs, prefix, h2));
    } else {
        let seg = segs[0];
        let rest = segs.subrange(1, segs.len() as int);
        if is_dynamic_seg(seg, prefix) {
            let child = if m.dynamic_child.len() > 0 {
                m.dynamic_child[0]
            } else {
                DynModel { param_name: param_name_of(seg, prefix), node: fresh_model(None) }
            };
            lemma_add_model_overwrites(child.node, rest, prefix, h1, h2);
            assert(m1.dynamic_child[0] == DynModel {
                param_name: child.param_name,
                node: add_model(child.node, rest, prefix, h1),
            });
            assert(add_model(m1, segs, prefix, h2) =~~= add_model(m, segs, prefix, h2));
        } else {
            let j = find_static_idx(m.static_children, seg);
            lemma_find_static_idx(m.static_children, seg);
            if j != -1 {
                let child = m.static_children[j].1;
                assert(m1.static_children == m.static_children.update(
                    j,
                    (seg, add_model(child, rest, prefix, h1)),
                ));
                lemma_find_static_idx_at(m1.static_children, seg, j);
                lemma_add_model_overwrites(child, rest, prefix, h1, h2);
                assert(m1.static_children.update(
                    j,
                    (seg, add_model(add_model(child, rest, prefix, h1), rest, prefix, h2)),
                ) =~= m.static_children.update(j, (seg, add_model(child, rest, prefix, h2))));
                assert(add_model(m1, segs, prefix, h2) =~~= add_model(m, segs, prefix, h2));
            } else {
                let n = m.static_children.len() as int;
                assert(m1.static_children == m.static_children.push(
                    (seg, add_model(fresh_model(None), rest, prefix, h1)),
                ));
                assert(forall|k: int| 0 <= k < n ==> m1.static_children[k] == m.static_children[k]);
                lemma_find_static_idx_at(m1.static_children, seg, n);
                lemma_add_model_overwrites(fresh_model(None), rest, prefix, h1, h2);
                assert(m1.static_children.update(
                    n,
                    (seg, add_model(add_model(fresh_model(None), rest, prefix, h1), rest, prefix, h2)),
                ) =~= m.static_children.push(
                    (seg, add_model(fresh_model(None), rest, prefix, h2)),
                ));
                assert(add_model(m1, segs, prefix, h2) =~~= add_model(m, segs, prefix, h2));
            }
        }
    }
}

/// Static precedence: when the walk is not stopped by a wildcard and a
/// static child carries the next segment's exact text, the walk descends
/// into that child — the dynamic sibling is never consulted at that level,
/// and no binding is collected for the segment.
pub proof fn lemma_static_precedence<H>(m: NodeModel<H>, segs: Seq<Seq<char>>)
    requires
        segs.len() > 0,
        m.wildcard_handler is None,
        find_static_idx(m.static_children, segs[0]) != -1,
    ensures
        traverse_model(m, segs) == traverse_model(
            m.static_children[find_static_idx(m.static_children, segs[0])].1,
            segs.subrange(1, segs.len() as int),
        ),
{
}

/// The binding of a name in `params_map` is its last collected value.
pub proof fn lemma_params_map_at(ps: Seq<(Seq<char>, Seq<char>)>, k: int)
    requires
        0 <= k < ps.len(),
        forall|j: int| k < j < ps.len() ==> (#[trigger] ps[j]).0 != ps[k].0,
    ensures
        params_map(ps).dom().contains(ps[k].0),
        params_map(ps)[ps[k].0] == ps[k].1,
    decreases ps.len(),
{
    if k == ps.len() - 1 {
    } else {
        let prefix = ps.subrange(0, ps.len() - 1);
        assert(forall|j: int| 0 <= j < prefix.len() ==> prefix[j] == ps[j]);
        lemma_params_map_at(prefix, k);
    }
}

/// A name never collected is absent from `params_map`.
pub proof fn lemma_params_map_absent(ps: Seq<(Seq<char>, Seq<char>)>, name: Seq<char>)
    requires
        forall|j: int| 0 <= j < ps.len() ==> (#[trigger] ps[j]).0 != name,
    ensures
        !params_map(ps).dom().contains(name),
    decreases ps.len(),
{
    if ps.len() == 0 {
    } else {
        let prefix = ps.subrange(0, ps.len() - 1);
        assert(forall|j: int| 0 <= j < prefix.len() ==> prefix[j] == ps[j]);
        lemma_params_map_absent(prefix, name);
    }
}

} // verus!
