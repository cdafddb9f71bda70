//! Helpers for going through the nodes of a devicetree.

use vstd::prelude::*;
use vstd::string::StringSliceAdditionalSpecFns;
use crate::devicetree::cells::same_bytes;
use crate::devicetree::node::{node_models, NodeModel, NodeRef};

verus! {

/// The nodes of `nodes` that are called `wanted`, in their order.
pub open spec fn named_nodes(nodes: Seq<NodeModel>, wanted: Seq<u8>) -> Seq<NodeModel>
    decreases nodes.len(),
{
    if nodes.len() == 0 {
        nodes
    } else if nodes.last().name == wanted {
        named_nodes(nodes.drop_last(), wanted).push(nodes.last())
    } else {
        named_nodes(nodes.drop_last(), wanted)
    }
}

/// The nodes of `nodes` that are called `name`, in their order.
pub fn named<'dt>(nodes: &Vec<NodeRef<'dt>>, name: &str) -> (r: Vec<NodeRef<'dt>>)
    requires
        forall|k: int| 0 <= k < nodes@.len() ==> (#[trigger] nodes@[k]).wf(),
    ensures
        node_models(r@) == named_nodes(node_models(nodes@), name.spec_bytes()),
        forall|k: int| 0 <= k < r@.len() ==> (#[trigger] r@[k]).wf(),
{
    let mut kept: Vec<NodeRef<'dt>> = Vec::new();
    let mut i: usize = 0;
    assert(node_models(kept@) =~= Seq::<NodeModel>::empty());
    assert(node_models(nodes@.take(0)) =~= Seq::<NodeModel>::empty());
    while i < nodes.len()
        invariant
            i <= nodes@.len(),
            forall|k: int| 0 <= k < nodes@.len() ==> (#[trigger] nodes@[k]).wf(),
            forall|k: int| 0 <= k < kept@.len() ==> (#[trigger] kept@[k]).wf(),
            node_models(kept@) == named_nodes(
                node_models(nodes@.take(i as int)),
                name.spec_bytes(),
            ),
        decreases nodes@.len() - i,
    {
        let node = nodes[i];
        let ghost before = kept@;
        proof {
            assert(node_models(nodes@.take(i + 1)).drop_last() =~= node_models(
                nodes@.take(i as int),
            ));
            assert(node_models(nodes@.take(i + 1)).last() == node@);
        }
        if same_bytes(node.name().as_bytes(), name.as_bytes()) {
            kept.push(node);
            proof {
                assert(node_models(kept@) =~= node_models(before).push(node@));
            }
        }
        i += 1;
    }
    assert(nodes@.take(i as int) =~= nodes@);
    kept
}

} // verus!
