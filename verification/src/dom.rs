//! The DOM tree produced by the HTML parser.
//!
//! A [`Node`] is either an element, with a tag name, an attribute map and
//! owned children, or a text node.  Its mathematical model is [`NodeV`]: tag
//! names and text as `Seq<char>`, attributes as a `Map` from name to value,
//! children as a `Seq` of models.  Trees are built bottom-up by the parser
//! and never mutated afterwards.

use vstd::prelude::*;

verus! {

broadcast use vstd::std_specs::vec::group_vec_axioms;

/// The model of an element: its tag name and its attribute map.
#[verifier::ext_equal]
pub ghost struct ElementDataV {
    pub tag_name: Seq<char>,
    pub attributes: Map<Seq<char>, Seq<char>>,
}

/// The model of the variant-specific data of a node.
#[verifier::ext_equal]
pub ghost enum NodeTypeV {
    Element(ElementDataV),
    Text(Seq<char>),
}

/// The model of a DOM node: the models of its children, in order, and of
/// its variant-specific data.
#[verifier::ext_equal]
pub ghost struct NodeV {
    pub children: Seq<NodeV>,
    pub node_type: NodeTypeV,
}

/// An attribute map from names to values.  Its model is a `Map` in which a
/// later insertion of the same name wins; the order of distinct names does
/// not matter.
#[derive(Debug)]
pub struct AttrMap {
    /// The insertions, in order; a later pair shadows an earlier one with
    /// the same name.
    pub pairs: Vec<(String, String)>,
}

/// The map described by a sequence of insertions: every pair is entered in
/// order, so the last value written for a name wins.
pub open spec fn pairs_map(ps: Seq<(String, String)>) -> Map<Seq<char>, Seq<char>>
    decreases ps.len(),
{
    if ps.len() == 0 {
        Map::empty()
    } else {
        pairs_map(ps.drop_last()).insert(ps.last().0@, ps.last().1@)
    }
}

/// The value that a right-to-left scan of the insertions finds for `k`.
pub open spec fn pairs_lookup(ps: Seq<(String, String)>, k: Seq<char>) -> Option<Seq<char>>
    decreases ps.len(),
{
    if ps.len() == 0 {
        None
    } else if ps.last().0@ == k {
        Some(ps.last().1@)
    } else {
        pairs_lookup(ps.drop_last(), k)
    }
}

/// Scanning the insertions from the right finds exactly the map's entry.
pub proof fn lemma_pairs_lookup(ps: Seq<(String, String)>, k: Seq<char>)
    ensures
        pairs_lookup(ps, k) is Some <==> pairs_map(ps).contains_key(k),
        pairs_lookup(ps, k) is Some ==> pairs_map(ps)[k] == pairs_lookup(ps, k)->Some_0,
    decreases ps.len(),
{
    if ps.len() > 0 && ps.last().0@ != k {
        lemma_pairs_lookup(ps.drop_last(), k);
    }
}

impl View for AttrMap {
    type V = Map<Seq<char>, Seq<char>>;

    open spec fn view(&self) -> Map<Seq<char>, Seq<char>> {
        pairs_map(self.pairs@)
    }
}

impl AttrMap {
    /// Make an empty attribute map.
    pub fn new() -> (m: AttrMap)
        ensures
            m@ == Map::<Seq<char>, Seq<char>>::empty(),
            m.pairs@.len() == 0,
    {
        AttrMap { pairs: Vec::new() }
    }

    /// Enter `value` under `name`; an earlier value for the same name is
    /// shadowed (last write wins).
    pub fn insert(&mut self, name: String, value: String)
        ensures
            final(self)@ == old(self)@.insert(name@, value@),
    {
        proof {
            assert(old(self).pairs@.push((name, value)).drop_last() =~= old(self).pairs@);
        }
        self.pairs.push((name, value));
    }

    /// Look up the value entered last under `name`, if any.
    #[verifier::loop_isolation(false)]
    pub fn get(&self, name: &String) -> (r: Option<&String>)
        ensures
            match r {
                Some(v) => self@.contains_key(name@) && v@ == self@[name@],
                None => !self@.contains_key(name@),
            },
    {
        let mut i: usize = self.pairs.len();
        proof {
            assert(self.pairs@.take(i as int) =~= self.pairs@);
        }
        while i > 0
            invariant
                i <= self.pairs@.len(),
                pairs_lookup(self.pairs@, name@) == pairs_lookup(
                    self.pairs@.take(i as int),
                    name@,
                ),
            decreases i,
        {
            proof {
                assert(self.pairs@.take(i as int).last() == self.pairs@[i - 1]);
                assert(self.pairs@.take(i as int).drop_last() =~= self.pairs@.take(i - 1));
            }
            if self.pairs[i - 1].0.eq(name) {
                proof {
                    lemma_pairs_lookup(self.pairs@, name@);
                }
                return Some(&self.pairs[i - 1].1);
            }
            i = i - 1;
        }
        proof {
            assert(self.pairs@.take(0) =~= Seq::<(String, String)>::empty());
            lemma_pairs_lookup(self.pairs@, name@);
        }
        None
    }
}

/// The variant-specific data of an element node.
#[derive(Debug)]
pub struct ElementData {
    pub tag_name: String,
    pub attributes: AttrMap,
}

/// What kind of node a [`Node`] is, with the data specific to that kind.
#[derive(Debug)]
pub enum NodeType {
    Element(ElementData),
    Text(String),
}

/// A DOM tree node: an ordered sequence of owned children and the data
/// specific to the node's kind.
#[derive(Debug)]
pub struct Node {
    pub children: Vec<Node>,
    pub node_type: NodeType,
}

/// The model of a node.
pub open spec fn node_view(n: Node) -> NodeV
    decreases n,
{
    NodeV {
        children: nodes_view(n.children@),
        node_type: match n.node_type {
            NodeType::Element(ed) => NodeTypeV::Element(
                ElementDataV { tag_name: ed.tag_name@, attributes: ed.attributes@ },
            ),
            NodeType::Text(s) => NodeTypeV::Text(s@),
        },
    }
}

/// The models of a sequence of nodes, in order.
pub open spec fn nodes_view(v: Seq<Node>) -> Seq<NodeV>
    decreases v,
{
    if v.len() == 0 {
        Seq::empty()
    } else {
        nodes_view(v.drop_last()).push(node_view(v.last()))
    }
}

/// A model sequence has one model per node, in the same order.
pub proof fn lemma_nodes_view_props(v: Seq<Node>)
    ensures
        nodes_view(v).len() == v.len(),
        forall|i: int| 0 <= i < v.len() ==> nodes_view(v)[i] == node_view(v[i]),
    decreases v.len(),
{
    if v.len() > 0 {
        lemma_nodes_view_props(v.drop_last());
    }
}

/// Pushing a node onto a vector pushes its model onto the model sequence.
pub proof fn lemma_nodes_view_push(v: Seq<Node>, n: Node)
    ensures
        nodes_view(v.push(n)) == nodes_view(v).push(node_view(n)),
{
    assert(v.push(n).drop_last() =~= v);
    assert(v.push(n).last() == n);
}

/// Make a new text node.
pub fn text(data: String) -> (n: Node)
    ensures
        node_view(n) == (NodeV {
            children: Seq::<NodeV>::empty(),
            node_type: NodeTypeV::Text(data@),
        }),
{
    Node { children: Vec::new(), node_type: NodeType::Text(data) }
}

/// Make a new element node with the given tag name, attributes and children.
pub fn elem(name: String, attrs: AttrMap, children: Vec<Node>) -> (n: Node)
    ensures
        node_view(n) == (NodeV {
            children: nodes_view(children@),
            node_type: NodeTypeV::Element(
                ElementDataV { tag_name: name@, attributes: attrs@ },
            ),
        }),
{
    Node {
        children,
        node_type: NodeType::Element(ElementData { tag_name: name, attributes: attrs }),
    }
}

} // verus!
