//! Editing the graph: adding and deleting nodes and links, editing a node,
//! choosing the ends of a link, and where links are drawn.
use vstd::prelude::*;
use crate::model::{
    find_first, first_index_of, has_id, has_name, ids_unique, link_views, node_views, Link,
    LinkView, Node, NodeView, Point,
};

verus! {

/// Whether the link joins the two ids, in either direction.
pub open spec fn connects(l: LinkView, a: Seq<char>, b: Seq<char>) -> bool {
    (l.node1_id == a && l.node2_id == b) || (l.node1_id == b && l.node2_id == a)
}

/// Whether the link has the id at one of its ends.
pub open spec fn touches(l: LinkView, id: Seq<char>) -> bool {
    l.node1_id == id || l.node2_id == id
}

/// The links, in order, without those that join the two ids.
pub open spec fn links_apart(links: Seq<LinkView>, a: Seq<char>, b: Seq<char>) -> Seq<LinkView> {
    links.filter(|l: LinkView| !connects(l, a, b))
}

/// The links, in order, without those that have the id at an end.
pub open spec fn links_without_node(links: Seq<LinkView>, id: Seq<char>) -> Seq<LinkView> {
    links.filter(|l: LinkView| !touches(l, id))
}

/// Index of the first link that joins the two ids.
pub open spec fn first_link_between(links: Seq<LinkView>, a: Seq<char>, b: Seq<char>) -> Option<
    int,
> {
    if exists|i: int| 0 <= i < links.len() && connects(links[i], a, b) {
        Some(
            choose|i: int|
                0 <= i < links.len() && connects(links[i], a, b) && forall|j: int|
                    0 <= j < i ==> !connects(links[j], a, b),
        )
    } else {
        None
    }
}

/// Adds a link between the two chosen nodes, where both are chosen.
pub fn add_selected_link(links: &mut Vec<Link>, first: &Option<Node>, second: &Option<Node>) -> (added: bool)
    ensures
        added == (first is Some && second is Some),
        added ==> link_views(final(links)@) == link_views(old(links)@).push(
            LinkView { node1_id: first->0.id@, node2_id: second->0.id@ },
        ),
        !added ==> final(links)@ == old(links)@,
{
    match (first, second) {
        (Some(a), Some(b)) => {
            let ghost before = link_views(links@);
            links.push(Link { node1_id: a.id.clone(), node2_id: b.id.clone() });
            assert(link_views(links@) =~= before.push(
                LinkView { node1_id: a.id@, node2_id: b.id@ },
            ));
            true
        },
        _ => false,
    }
}

/// The first link between the nodes with the two ids, in either direction.
pub fn find_link_between(links: &Vec<Link>, a: &String, b: &String) -> (r: Option<Link>)
    ensures
        match first_link_between(link_views(links@), a@, b@) {
            Some(i) => r matches Some(l) && l@ == link_views(links@)[i],
            None => r is None,
        },
{
    let ghost lv = link_views(links@);
    let mut i: usize = 0;
    while i < links.len()
        invariant
            i <= links.len(),
            lv == link_views(links@),
            forall|j: int| 0 <= j < i ==> !connects(lv[j], a@, b@),
        decreases links.len() - i,
    {
        let l = &links[i];
        if (l.node1_id == *a && l.node2_id == *b) || (l.node1_id == *b && l.node2_id == *a) {
            proof {
                assert(connects(lv[i as int], a@, b@));
                let k = choose|k: int|
                    0 <= k < lv.len() && connects(lv[k], a@, b@) && forall|j: int|
                        0 <= j < k ==> !connects(lv[j], a@, b@);
                if k < i {
                    assert(!connects(lv[k], a@, b@));
                } else if k > i {
                    assert(!connects(lv[i as int], a@, b@));
                }
            }
            return Some(l.duplicate());
        }
        assert(!connects(lv[i as int], a@, b@));
        i = i + 1;
    }
    None
}

/// Deletes every link between the nodes with the two ids, in either
/// direction; the other links keep their order.
pub fn delete_links_between(links: &mut Vec<Link>, a: &String, b: &String)
    ensures
        link_views(final(links)@) == links_apart(link_views(old(links)@), a@, b@),
{
    let ghost lv = link_views(links@);
    let mut kept: Vec<Link> = Vec::new();
    let mut i: usize = 0;
    proof {
        assert(lv.take(0) =~= Seq::<LinkView>::empty());
        assert(link_views(kept@) =~= Seq::<LinkView>::empty());
    }
    while i < links.len()
        invariant
            i <= links.len(),
            lv == link_views(links@),
            link_views(kept@) == links_apart(lv.take(i as int), a@, b@),
        decreases links.len() - i,
    {
        let ghost before = link_views(kept@);
        proof {
            assert(lv.take(i + 1).drop_last() =~= lv.take(i as int));
            assert(lv.take(i + 1).last() == links@[i as int]@);
        }
        proof {
            let t = lv.take(i + 1);
            reveal_with_fuel(Seq::filter, 1);
            assert(links_apart(t, a@, b@) == if !connects(t.last(), a@, b@) {
                links_apart(t.drop_last(), a@, b@).push(t.last())
            } else {
                links_apart(t.drop_last(), a@, b@)
            });
        }
        let l = &links[i];
        if !((l.node1_id == *a && l.node2_id == *b) || (l.node1_id == *b && l.node2_id == *a)) {
            kept.push(l.duplicate());
            assert(link_views(kept@) =~= before.push(l@));
        }
        i = i + 1;
    }
    proof {
        assert(lv.take(i as int) =~= lv);
    }
    *links = kept;
}

/// The links without those that have the id at an end, in order.
fn links_off(links: &Vec<Link>, id: &String) -> (kept: Vec<Link>)
    ensures
        link_views(kept@) == links_without_node(link_views(links@), id@),
        forall|k: int| 0 <= k < kept@.len() ==> !touches(#[trigger] kept@[k]@, id@),
{
    let ghost lv = link_views(links@);
    let mut kept: Vec<Link> = Vec::new();
    let mut i: usize = 0;
    proof {
        assert(lv.take(0) =~= Seq::<LinkView>::empty());
        assert(link_views(kept@) =~= Seq::<LinkView>::empty());
    }
    while i < links.len()
        invariant
            i <= links.len(),
            lv == link_views(links@),
            link_views(kept@) == links_without_node(lv.take(i as int), id@),
            forall|k: int| 0 <= k < kept@.len() ==> !touches(#[trigger] kept@[k]@, id@),
        decreases links.len() - i,
    {
        let ghost before = link_views(kept@);
        proof {
            assert(lv.take(i + 1).drop_last() =~= lv.take(i as int));
            assert(lv.take(i + 1).last() == links@[i as int]@);
        }
        proof {
            let t = lv.take(i + 1);
            reveal_with_fuel(Seq::filter, 1);
            assert(links_without_node(t, id@) == if !touches(t.last(), id@) {
                links_without_node(t.drop_last(), id@).push(t.last())
            } else {
                links_without_node(t.drop_last(), id@)
            });
        }
        let l = &links[i];
        if !(l.node1_id == *id || l.node2_id == *id) {
            kept.push(l.duplicate());
            assert(link_views(kept@) =~= before.push(l@));
        }
        i = i + 1;
    }
    proof {
        assert(lv.take(i as int) =~= lv);
    }
    kept
}

fn remove_node_at(nodes: &mut Vec<Node>, i: usize)
    requires
        i < old(nodes).len(),
    ensures
        node_views(final(nodes)@) == node_views(old(nodes)@).remove(i as int),
{
    let ghost before = node_views(nodes@);
    nodes.remove(i);
    assert(node_views(nodes@) =~= before.remove(i as int));
}

proof fn lemma_remove_keeps_unique(nodes: Seq<NodeView>, i: int)
    requires
        ids_unique(nodes),
        0 <= i < nodes.len(),
    ensures
        ids_unique(nodes.remove(i)),
{
    let r = nodes.remove(i);
    assert forall|p: int, q: int| 0 <= p < q < r.len() implies r[p].id != r[q].id by {
        let p2 = if p < i {
            p
        } else {
            p + 1
        };
        let q2 = if q < i {
            q
        } else {
            q + 1
        };
        assert(r[p] == nodes[p2]);
        assert(r[q] == nodes[q2]);
    }
}

/// Deletes the first node with the id and every link that has the id at an
/// end; where no node has the id, nothing changes.
pub fn delete_node(nodes: &mut Vec<Node>, links: &mut Vec<Link>, id: &String) -> (deleted: bool)
    ensures
        match first_index_of(node_views(old(nodes)@), id@) {
            Some(i) => deleted && node_views(final(nodes)@) == node_views(old(nodes)@).remove(i)
                && link_views(final(links)@) == links_without_node(link_views(old(links)@), id@),
            None => !deleted && final(nodes)@ == old(nodes)@ && final(links)@ == old(links)@,
        },
        deleted ==> forall|k: int|
            0 <= k < final(links)@.len() ==> !touches(#[trigger] final(links)@[k]@, id@),
        ids_unique(node_views(old(nodes)@)) ==> ids_unique(node_views(final(nodes)@)),
{
    match find_first(nodes, id) {
        Some(i) => {
            let ghost before = node_views(nodes@);
            remove_node_at(nodes, i);
            let kept = links_off(links, id);
            *links = kept;
            proof {
                if ids_unique(before) {
                    lemma_remove_keeps_unique(before, i as int);
                }
            }
            true
        },
        None => false,
    }
}

} // verus!

verus! {

/// What a node's id and name are worth before it is stored.
#[derive(Debug, PartialEq, Eq, Structural)]
pub enum NodeCheck {
    /// Another node has the id: the node cannot be stored.
    IdTaken,
    /// Another node has the name: the node can be stored, with a warning.
    NameTaken,
    /// Neither.
    Fine,
}

/// Whether some node has the name.
fn name_used(nodes: &Vec<Node>, name: &String) -> (r: bool)
    ensures
        r == has_name(node_views(nodes@), name@),
{
    let ghost views = node_views(nodes@);
    let mut i: usize = 0;
    while i < nodes.len()
        invariant
            i <= nodes.len(),
            views == node_views(nodes@),
            forall|j: int| 0 <= j < i ==> views[j].name != name@,
        decreases nodes.len() - i,
    {
        if nodes[i].name == *name {
            assert(views[i as int].name == name@);
            return true;
        }
        assert(views[i as int].name != name@);
        i = i + 1;
    }
    false
}

/// Checks the id and name of a node to be added.
pub fn check_new_node(nodes: &Vec<Node>, id: &String, name: &String) -> (r: NodeCheck)
    ensures
        r == if has_id(node_views(nodes@), id@) {
            NodeCheck::IdTaken
        } else if has_name(node_views(nodes@), name@) {
            NodeCheck::NameTaken
        } else {
            NodeCheck::Fine
        },
{
    if find_first(nodes, id).is_some() {
        NodeCheck::IdTaken
    } else if name_used(nodes, name) {
        NodeCheck::NameTaken
    } else {
        NodeCheck::Fine
    }
}

/// Whether a new node may be added: it has an id and a name, and no node
/// has its id.
pub open spec fn may_add(nodes: Seq<NodeView>, node: NodeView) -> bool {
    node.id.len() > 0 && node.name.len() > 0 && !has_id(nodes, node.id)
}

/// Adds the node, at `pos` and with `radius`, where it may be added.
pub fn add_new_node(nodes: &mut Vec<Node>, node: Node, pos: Point, radius: i64) -> (added: bool)
    ensures
        added == may_add(node_views(old(nodes)@), node@),
        added ==> node_views(final(nodes)@) == node_views(old(nodes)@).push(
            NodeView { x: pos.x as int, y: pos.y as int, radius: radius as int, ..node@ },
        ),
        !added ==> final(nodes)@ == old(nodes)@,
        ids_unique(node_views(old(nodes)@)) ==> ids_unique(node_views(final(nodes)@)),
{
    if node.id.unicode_len() == 0 || node.name.unicode_len() == 0 || find_first(
        nodes,
        &node.id,
    ).is_some() {
        return false;
    }
    let ghost before = node_views(nodes@);
    let mut node = node;
    node.set_pos(pos).set_radius(radius);
    nodes.push(node);
    proof {
        let after = node_views(nodes@);
        assert(after =~= before.push(node@));
        if ids_unique(before) {
            assert forall|p: int, q: int| 0 <= p < q < after.len() implies after[p].id
                != after[q].id by {
                assert(after[p] == before[p]);
                if q == before.len() {
                    assert(after[q] == node@);
                    assert(!has_id(before, node@.id));
                    assert(before[p].id != node@.id);
                } else {
                    assert(after[q] == before[q]);
                }
            }
        }
    }
    true
}

/// Checks the id and name of a node being edited, which had
/// `previous_id` and `previous_name`.
pub fn check_edited_node(
    nodes: &Vec<Node>,
    previous_id: &String,
    previous_name: &String,
    edited: &Node,
) -> (r: NodeCheck)
    ensures
        r == if edited.id@ != previous_id@ && has_id(node_views(nodes@), edited.id@) {
            NodeCheck::IdTaken
        } else if edited.name@ != previous_name@ && has_name(node_views(nodes@), edited.name@) {
            NodeCheck::NameTaken
        } else {
            NodeCheck::Fine
        },
{
    if edited.id != *previous_id && find_first(nodes, &edited.id).is_some() {
        NodeCheck::IdTaken
    } else if edited.name != *previous_name && name_used(nodes, &edited.name) {
        NodeCheck::NameTaken
    } else {
        NodeCheck::Fine
    }
}

/// The link with each end that was `from` renamed `to`.
pub open spec fn renamed_link(l: LinkView, from: Seq<char>, to: Seq<char>) -> LinkView {
    LinkView {
        node1_id: if l.node1_id == from {
            to
        } else {
            l.node1_id
        },
        node2_id: if l.node2_id == from {
            to
        } else {
            l.node2_id
        },
    }
}

/// The links with each end that was `from` renamed `to`.
pub open spec fn renamed_links(links: Seq<LinkView>, from: Seq<char>, to: Seq<char>) -> Seq<
    LinkView,
> {
    links.map_values(|l: LinkView| renamed_link(l, from, to))
}

/// Whether an edit would give the node an id another node has.
pub open spec fn edit_takes_id(nodes: Seq<NodeView>, previous_id: Seq<char>, edited: NodeView) -> bool {
    edited.id != previous_id && has_id(nodes, edited.id)
}

/// Stores an edited node in place of the first node with `previous_id`, and
/// renames the links' ends where the id changed; where the new id is
/// another node's, nothing changes.
pub fn apply_node_edit(
    nodes: &mut Vec<Node>,
    links: &mut Vec<Link>,
    previous_id: &String,
    edited: Node,
) -> (applied: bool)
    ensures
        applied == !edit_takes_id(node_views(old(nodes)@), previous_id@, edited@),
        !applied ==> final(nodes)@ == old(nodes)@ && final(links)@ == old(links)@,
        applied ==> node_views(final(nodes)@) == match first_index_of(
            node_views(old(nodes)@),
            previous_id@,
        ) {
            Some(i) => node_views(old(nodes)@).update(i, edited@),
            None => node_views(old(nodes)@),
        },
        applied ==> link_views(final(links)@) == if edited.id@ != previous_id@ {
            renamed_links(link_views(old(links)@), previous_id@, edited.id@)
        } else {
            link_views(old(links)@)
        },
        ids_unique(node_views(old(nodes)@)) ==> ids_unique(node_views(final(nodes)@)),
{
    if edited.id != *previous_id && find_first(nodes, &edited.id).is_some() {
        return false;
    }
    let ghost nv = node_views(nodes@);
    let id_changed = edited.id != *previous_id;
    if id_changed {
        rename_ends(links, previous_id, &edited.id);
    }
    match find_first(nodes, previous_id) {
        Some(i) => {
            nodes.set(i, edited);
            proof {
                let after = node_views(nodes@);
                assert(after =~= nv.update(i as int, edited@));
                if ids_unique(nv) {
                    assert forall|p: int, q: int| 0 <= p < q < after.len() implies after[p].id
                        != after[q].id by {
                        if p == i {
                            if id_changed {
                                assert(after[q] == nv[q]);
                            } else {
                                assert(after[q] == nv[q]);
                                assert(nv[i as int].id == previous_id@);
                            }
                        } else if q == i {
                            if id_changed {
                                assert(after[p] == nv[p]);
                            } else {
                                assert(after[p] == nv[p]);
                                assert(nv[i as int].id == previous_id@);
                            }
                        } else {
                            assert(after[p] == nv[p]);
                            assert(after[q] == nv[q]);
                        }
                    }
                }
            }
        },
        None => {},
    }
    true
}

/// Renames each end of a link that is `from` to `to`.
fn rename_ends(links: &mut Vec<Link>, from: &String, to: &String)
    ensures
        link_views(final(links)@) == renamed_links(link_views(old(links)@), from@, to@),
{
    let ghost lv = link_views(links@);
    let mut i: usize = 0;
    while i < links.len()
        invariant
            i <= links.len(),
            links.len() == lv.len(),
            forall|k: int|
                0 <= k < i ==> (#[trigger] links@[k])@ == renamed_link(lv[k], from@, to@),
            forall|k: int| i <= k < links.len() ==> (#[trigger] links@[k])@ == lv[k],
        decreases links.len() - i,
    {
        let mut l = links[i].duplicate();
        if l.node1_id == *from {
            l.node1_id = to.clone();
        }
        if l.node2_id == *from {
            l.node2_id = to.clone();
        }
        assert(l@ == renamed_link(lv[i as int], from@, to@));
        links.set(i, l);
        i = i + 1;
    }
    assert(link_views(links@) =~= renamed_links(lv, from@, to@));
}

} // verus!

verus! {

/// Whether the node is at one of the link's ends.
pub open spec fn at_link_end(n: NodeView, l: LinkView) -> bool {
    n.id == l.node1_id || n.id == l.node2_id
}

/// The indices, in order, of the nodes at the link's ends.
pub open spec fn end_indices(nodes: Seq<NodeView>, l: LinkView) -> Seq<int>
    decreases nodes.len(),
{
    if nodes.len() == 0 {
        Seq::empty()
    } else if at_link_end(nodes.last(), l) {
        end_indices(nodes.drop_last(), l).push(nodes.len() - 1)
    } else {
        end_indices(nodes.drop_last(), l)
    }
}

/// For each link, in order, the first two nodes at its ends, between which
/// it is drawn; a link with fewer than two such nodes is not drawn.
pub open spec fn segments(nodes: Seq<NodeView>, links: Seq<LinkView>) -> Seq<(int, int)>
    decreases links.len(),
{
    if links.len() == 0 {
        Seq::empty()
    } else {
        let m = end_indices(nodes, links.last());
        if m.len() >= 2 {
            segments(nodes, links.drop_last()).push((m[0], m[1]))
        } else {
            segments(nodes, links.drop_last())
        }
    }
}

proof fn lemma_end_indices_bound(nodes: Seq<NodeView>, l: LinkView)
    ensures
        forall|k: int|
            0 <= k < end_indices(nodes, l).len() ==> 0 <= #[trigger] end_indices(nodes, l)[k]
                < nodes.len(),
    decreases nodes.len(),
{
    if nodes.len() > 0 {
        lemma_end_indices_bound(nodes.drop_last(), l);
        let prev = end_indices(nodes.drop_last(), l);
        if at_link_end(nodes.last(), l) {
            assert forall|k: int|
                0 <= k < end_indices(nodes, l).len() implies 0 <= #[trigger] end_indices(
                nodes,
                l,
            )[k] < nodes.len() by {
                if k < prev.len() {
                    assert(end_indices(nodes, l)[k] == prev[k]);
                }
            }
        }
    }
}

/// The first two nodes at the link's ends, where there are two.
fn link_ends(nodes: &Vec<Node>, link: &Link) -> (r: Option<(usize, usize)>)
    ensures
        end_indices(node_views(nodes@), link@).len() >= 2 ==> r == Some(
            (
                end_indices(node_views(nodes@), link@)[0] as usize,
                end_indices(node_views(nodes@), link@)[1] as usize,
            ),
        ),
        end_indices(node_views(nodes@), link@).len() < 2 ==> r is None,
{
    let ghost nv = node_views(nodes@);
    let mut first: usize = 0;
    let mut second: usize = 0;
    let mut found: usize = 0;
    let mut k: usize = 0;
    proof {
        assert(nv.take(0) =~= Seq::<NodeView>::empty());
    }
    while k < nodes.len()
        invariant
            k <= nodes.len(),
            nv == node_views(nodes@),
            found == if end_indices(nv.take(k as int), link@).len() < 2 {
                end_indices(nv.take(k as int), link@).len()
            } else {
                2
            },
            found >= 1 ==> first == end_indices(nv.take(k as int), link@)[0],
            found >= 2 ==> second == end_indices(nv.take(k as int), link@)[1],
        decreases nodes.len() - k,
    {
        let ghost before = end_indices(nv.take(k as int), link@);
        proof {
            assert(nv.take(k + 1).drop_last() =~= nv.take(k as int));
            assert(nv.take(k + 1).last() == nodes@[k as int]@);
        }
        let n = &nodes[k];
        if n.id == link.node1_id || n.id == link.node2_id {
            if found == 0 {
                first = k;
                found = 1;
            } else if found == 1 {
                second = k;
                found = 2;
            }
            assert(end_indices(nv.take(k + 1), link@) == before.push(k as int));
        }
        k = k + 1;
    }
    proof {
        assert(nv.take(k as int) =~= nv);
    }
    if found == 2 {
        Some((first, second))
    } else {
        None
    }
}

pub open spec fn pair_views(pairs: Seq<(usize, usize)>) -> Seq<(int, int)> {
    pairs.map_values(|p: (usize, usize)| (p.0 as int, p.1 as int))
}

/// The pairs of nodes, as indices, between which the links are drawn, as
/// `segments` says.
pub fn link_segments(nodes: &Vec<Node>, links: &Vec<Link>) -> (r: Vec<(usize, usize)>)
    ensures
        pair_views(r@) == segments(
            node_views(nodes@),
            link_views(links@),
        ),
        forall|k: int| 0 <= k < r@.len() ==> (#[trigger] r@[k]).0 < nodes.len() && r@[k].1 < nodes.len(),
{
    let ghost nv = node_views(nodes@);
    let ghost lv = link_views(links@);
    let mut r: Vec<(usize, usize)> = Vec::new();
    let mut j: usize = 0;
    proof {
        assert(lv.take(0) =~= Seq::<LinkView>::empty());
        assert(pair_views(r@) =~= Seq::<(int, int)>::empty());
    }
    while j < links.len()
        invariant
            j <= links.len(),
            nv == node_views(nodes@),
            lv == link_views(links@),
            pair_views(r@) == segments(
                nv,
                lv.take(j as int),
            ),
            forall|k: int| 0 <= k < r@.len() ==> (#[trigger] r@[k]).0 < nodes.len() && r@[k].1 < nodes.len(),
        decreases links.len() - j,
    {
        let ghost before = pair_views(r@);
        proof {
            assert(lv.take(j + 1).drop_last() =~= lv.take(j as int));
            assert(lv.take(j + 1).last() == links@[j as int]@);
            lemma_end_indices_bound(nv, links@[j as int]@);
        }
        let ghost m = end_indices(nv, links@[j as int]@);
        let count = nodes.len();
        assert(nv.len() == count);
        assert(segments(nv, lv.take(j + 1)) == if m.len() >= 2 {
            segments(nv, lv.take(j as int)).push((m[0], m[1]))
        } else {
            segments(nv, lv.take(j as int))
        });
        match link_ends(nodes, &links[j]) {
            Some(p) => {
                assert(m.len() >= 2);
                assert(0 <= m[0] < nv.len());
                assert(0 <= m[1] < nv.len());
                assert(p.0 as int == m[0]);
                assert(p.1 as int == m[1]);
                r.push(p);
                assert(pair_views(r@) =~= before.push(
                    (p.0 as int, p.1 as int),
                ));
            },
            None => {
                assert(m.len() < 2);
            },
        }
        j = j + 1;
    }
    proof {
        assert(lv.take(j as int) =~= lv);
    }
    r
}

/// Chooses a node as an end of a link: the first end where none is chosen
/// yet, else the second.
pub fn select_link_end(first: &mut Option<Node>, second: &mut Option<Node>, node: Node)
    ensures
        *old(first) is None ==> *final(first) == Some(node) && *final(second) == *old(second),
        *old(first) is Some ==> *final(first) == *old(first) && *final(second) == Some(node),
{
    if first.is_none() {
        *first = Some(node);
    } else {
        *second = Some(node);
    }
}

/// What the pointer does to a node under it while a node is being chosen
/// for deletion: the node is marked where the last click was released; a
/// click chooses it and opens the dialog; a release ends the choosing.
pub fn choose_node_to_delete(
    node: &Node,
    clicked: bool,
    released: bool,
    click_released: &mut bool,
    deleting: &mut bool,
    show_dialog: &mut bool,
    to_delete: &mut Option<Node>,
) -> (marked: bool)
    ensures
        marked == *old(click_released),
        clicked ==> (*final(to_delete) matches Some(n) && n@ == node@) && *final(show_dialog),
        !clicked ==> *final(to_delete) == *old(to_delete) && *final(show_dialog) == *old(
            show_dialog,
        ),
        *final(click_released) == if released {
            true
        } else if clicked {
            false
        } else {
            *old(click_released)
        },
        *final(deleting) == if released {
            false
        } else {
            *old(deleting)
        },
{
    let marked = *click_released;
    if clicked {
        *to_delete = Some(node.duplicate());
        *click_released = false;
        *show_dialog = true;
    }
    if released {
        *click_released = true;
        *deleting = false;
    }
    marked
}

/// Whether some node lies left of `x`.
pub open spec fn some_left_of(nodes: Seq<NodeView>, x: int) -> bool {
    exists|j: int| 0 <= j < nodes.len() && nodes[j].x < x
}

/// The nodes moved right by `dx`.
pub open spec fn moved_right(nodes: Seq<NodeView>, dx: int) -> Seq<NodeView> {
    nodes.map_values(|n: NodeView| NodeView { x: n.x + dx, ..n })
}

/// Where some node lies left of the side panel's edge, moves every node
/// right by the panel's width; else leaves them.
pub fn shift_past_side_panel(nodes: &mut Vec<Node>, panel_width: i64) -> (shifted: bool)
    requires
        forall|j: int|
            0 <= j < old(nodes)@.len() ==> i64::MIN <= #[trigger] old(nodes)@[j].center.x
                + panel_width <= i64::MAX,
    ensures
        shifted == some_left_of(node_views(old(nodes)@), panel_width as int),
        shifted ==> node_views(final(nodes)@) == moved_right(
            node_views(old(nodes)@),
            panel_width as int,
        ),
        !shifted ==> final(nodes)@ == old(nodes)@,
{
    let ghost nv = node_views(nodes@);
    let mut any = false;
    let mut i: usize = 0;
    while i < nodes.len()
        invariant
            i <= nodes.len(),
            nv == node_views(nodes@),
            any == exists|j: int| 0 <= j < i && nv[j].x < panel_width,
        decreases nodes.len() - i,
    {
        if nodes[i].center.x < panel_width {
            any = true;
        }
        assert(nv[i as int].x == nodes@[i as int].center.x);
        i = i + 1;
    }
    if !any {
        return false;
    }
    let mut k: usize = 0;
    while k < nodes.len()
        invariant
            k <= nodes.len(),
            nodes.len() == nv.len(),
            forall|j: int|
                0 <= j < k ==> (#[trigger] nodes@[j])@ == (NodeView {
                    x: nv[j].x + panel_width,
                    ..nv[j]
                }),
            forall|j: int| k <= j < nodes.len() ==> (#[trigger] nodes@[j])@ == nv[j],
            forall|j: int|
                0 <= j < nv.len() ==> i64::MIN <= #[trigger] nv[j].x + panel_width <= i64::MAX,
        decreases nodes.len() - k,
    {
        let mut n = nodes[k].duplicate();
        assert(nv[k as int].x == n.center.x);
        n.center.x = n.center.x + panel_width;
        nodes.set(k, n);
        k = k + 1;
    }
    assert(node_views(nodes@) =~= moved_right(nv, panel_width as int));
    true
}

/// Once the links between two nodes are deleted, no link between them is
/// found.
pub proof fn lemma_deleted_link_not_found(links: Seq<LinkView>, a: Seq<char>, b: Seq<char>)
    ensures
        first_link_between(links_apart(links, a, b), a, b) is None,
{
    let kept = links_apart(links, a, b);
    assert forall|i: int| 0 <= i < kept.len() implies !connects(kept[i], a, b) by {
        links.lemma_filter_pred(|l: LinkView| !connects(l, a, b), i);
    }
}

/// Adding a link and then deleting the links between its two nodes leaves
/// the links as deleting alone does.
pub proof fn lemma_add_then_delete_link(links: Seq<LinkView>, a: Seq<char>, b: Seq<char>)
    ensures
        links_apart(links.push(LinkView { node1_id: a, node2_id: b }), a, b) == links_apart(
            links,
            a,
            b,
        ),
{
    reveal_with_fuel(Seq::filter, 1);
    let added = links.push(LinkView { node1_id: a, node2_id: b });
    assert(added.drop_last() =~= links);
    assert(connects(added.last(), a, b));
}

/// Deleting the links between two nodes twice deletes no more than once.
pub proof fn lemma_delete_links_idempotent(links: Seq<LinkView>, a: Seq<char>, b: Seq<char>)
    ensures
        links_apart(links_apart(links, a, b), a, b) == links_apart(links, a, b),
    decreases links.len(),
{
    reveal_with_fuel(Seq::filter, 1);
    if links.len() > 0 {
        lemma_delete_links_idempotent(links.drop_last(), a, b);
        let kept = links_apart(links.drop_last(), a, b);
        if !connects(links.last(), a, b) {
            assert(kept.push(links.last()).drop_last() =~= kept);
        }
    }
}

/// Once a node's id is changed, no link has the old id at an end.
pub proof fn lemma_rename_leaves_no_old_id(links: Seq<LinkView>, from: Seq<char>, to: Seq<char>)
    requires
        from != to,
    ensures
        forall|k: int|
            0 <= k < renamed_links(links, from, to).len() ==> !touches(
                #[trigger] renamed_links(links, from, to)[k],
                from,
            ),
{
}

} // verus!

verus! {

/// Every link's two ends are ids of nodes.
pub open spec fn links_refer_to_nodes(nodes: Seq<NodeView>, links: Seq<LinkView>) -> bool {
    forall|k: int|
        0 <= k < links.len() ==> has_id(nodes, #[trigger] links[k].node1_id) && has_id(
            nodes,
            links[k].node2_id,
        )
}

proof fn lemma_first_exists(nodes: Seq<NodeView>, id: Seq<char>, w: int)
    requires
        0 <= w < nodes.len(),
        nodes[w].id == id,
    ensures
        exists|k: int|
            0 <= k < nodes.len() && nodes[k].id == id && forall|j: int|
                0 <= j < k ==> nodes[j].id != id,
    decreases w,
{
    if exists|j: int| 0 <= j < w && nodes[j].id == id {
        let j = choose|j: int| 0 <= j < w && nodes[j].id == id;
        lemma_first_exists(nodes, id, j);
    } else {
        assert(forall|j: int| 0 <= j < w ==> nodes[j].id != id);
    }
}

proof fn lemma_first_index(nodes: Seq<NodeView>, id: Seq<char>)
    ensures
        first_index_of(nodes, id) matches Some(i) ==> 0 <= i < nodes.len() && nodes[i].id == id,
        first_index_of(nodes, id) is None ==> !has_id(nodes, id),
{
    if has_id(nodes, id) {
        let w = choose|w: int| 0 <= w < nodes.len() && nodes[w].id == id;
        lemma_first_exists(nodes, id, w);
    }
}

proof fn lemma_filter_within(links: Seq<LinkView>, pred: spec_fn(LinkView) -> bool)
    ensures
        forall|k: int|
            0 <= k < links.filter(pred).len() ==> links.contains(#[trigger] links.filter(pred)[k]),
    decreases links.len(),
{
    reveal_with_fuel(Seq::filter, 1);
    if links.len() > 0 {
        let rest = links.drop_last();
        lemma_filter_within(rest, pred);
        let kept = links.filter(pred);
        assert forall|k: int| 0 <= k < kept.len() implies links.contains(#[trigger] kept[k]) by {
            if k < rest.filter(pred).len() {
                assert(kept[k] == rest.filter(pred)[k]);
                let j = choose|j: int| 0 <= j < rest.len() && rest[j] == kept[k];
                assert(links[j] == rest[j]);
            } else {
                assert(kept[k] == links.last());
                assert(links[links.len() - 1] == links.last());
            }
        }
    }
}

/// Deleting a node, with its links, leaves every link between nodes.
pub proof fn lemma_delete_node_keeps_links_valid(
    nodes: Seq<NodeView>,
    links: Seq<LinkView>,
    id: Seq<char>,
)
    requires
        links_refer_to_nodes(nodes, links),
    ensures
        first_index_of(nodes, id) matches Some(i) ==> links_refer_to_nodes(
            nodes.remove(i),
            links_without_node(links, id),
        ),
{
    lemma_first_index(nodes, id);
    if let Some(i) = first_index_of(nodes, id) {
        let after = nodes.remove(i);
        let pred = |l: LinkView| !touches(l, id);
        let kept = links.filter(pred);
        lemma_filter_within(links, pred);
        assert forall|k: int| 0 <= k < kept.len() implies has_id(
            after,
            #[trigger] kept[k].node1_id,
        ) && has_id(after, kept[k].node2_id) by {
            links.lemma_filter_pred(pred, k);
            let m = choose|m: int| 0 <= m < links.len() && links[m] == kept[k];
            assert(has_id(nodes, links[m].node1_id) && has_id(nodes, links[m].node2_id));
            lemma_other_id_kept(nodes, i, kept[k].node1_id);
            lemma_other_id_kept(nodes, i, kept[k].node2_id);
        }
    }
}

proof fn lemma_other_id_kept(nodes: Seq<NodeView>, i: int, other: Seq<char>)
    requires
        0 <= i < nodes.len(),
        nodes[i].id != other,
        has_id(nodes, other),
    ensures
        has_id(nodes.remove(i), other),
{
    let j = choose|j: int| 0 <= j < nodes.len() && nodes[j].id == other;
    let a = if j < i {
        j
    } else {
        j - 1
    };
    assert(nodes.remove(i)[a] == nodes[j]);
}

/// Editing a node, renaming its links' ends with it, leaves every link
/// between nodes.
pub proof fn lemma_edit_keeps_links_valid(
    nodes: Seq<NodeView>,
    links: Seq<LinkView>,
    previous_id: Seq<char>,
    edited: NodeView,
)
    requires
        links_refer_to_nodes(nodes, links),
        !edit_takes_id(nodes, previous_id, edited),
    ensures
        links_refer_to_nodes(
            match first_index_of(nodes, previous_id) {
                Some(i) => nodes.update(i, edited),
                None => nodes,
            },
            if edited.id != previous_id {
                renamed_links(links, previous_id, edited.id)
            } else {
                links
            },
        ),
{
    lemma_first_index(nodes, previous_id);
    let after_nodes = match first_index_of(nodes, previous_id) {
        Some(i) => nodes.update(i, edited),
        None => nodes,
    };
    let after_links = if edited.id != previous_id {
        renamed_links(links, previous_id, edited.id)
    } else {
        links
    };
    assert forall|k: int| 0 <= k < after_links.len() implies has_id(
        after_nodes,
        #[trigger] after_links[k].node1_id,
    ) && has_id(after_nodes, after_links[k].node2_id) by {
        assert(after_links.len() == links.len());
        assert(0 <= k < links.len());
        let l = links[k];
        assert(has_id(nodes, l.node1_id) && has_id(nodes, l.node2_id)) by {
            assert(has_id(nodes, links[k].node1_id));
        }
        if edited.id != previous_id {
            assert(after_links[k] == renamed_link(l, previous_id, edited.id));
        }
        lemma_end_still_named(nodes, previous_id, edited, l.node1_id);
        lemma_end_still_named(nodes, previous_id, edited, l.node2_id);
    }
}

proof fn lemma_end_still_named(
    nodes: Seq<NodeView>,
    previous_id: Seq<char>,
    edited: NodeView,
    end: Seq<char>,
)
    requires
        has_id(nodes, end),
    ensures
        has_id(
            match first_index_of(nodes, previous_id) {
                Some(i) => nodes.update(i, edited),
                None => nodes,
            },
            if edited.id != previous_id && end == previous_id {
                edited.id
            } else {
                end
            },
        ),
{
    lemma_first_index(nodes, previous_id);
    let j = choose|j: int| 0 <= j < nodes.len() && nodes[j].id == end;
    match first_index_of(nodes, previous_id) {
        Some(i) => {
            let after = nodes.update(i, edited);
            if end == previous_id {
                assert(after[i].id == edited.id);
                if edited.id == previous_id {
                    assert(after[i].id == end);
                }
            } else {
                assert(j != i);
                assert(after[j].id == end);
            }
        },
        None => {},
    }
}

/// Adding a node leaves every link between nodes.
pub proof fn lemma_add_node_keeps_links_valid(
    nodes: Seq<NodeView>,
    links: Seq<LinkView>,
    node: NodeView,
)
    requires
        links_refer_to_nodes(nodes, links),
    ensures
        links_refer_to_nodes(nodes.push(node), links),
{
    let after = nodes.push(node);
    assert forall|k: int| 0 <= k < links.len() implies has_id(
        after,
        #[trigger] links[k].node1_id,
    ) && has_id(after, links[k].node2_id) by {
        let j1 = choose|j: int| 0 <= j < nodes.len() && nodes[j].id == links[k].node1_id;
        let j2 = choose|j: int| 0 <= j < nodes.len() && nodes[j].id == links[k].node2_id;
        assert(after[j1] == nodes[j1]);
        assert(after[j2] == nodes[j2]);
    }
}

/// Adding a link between two nodes leaves every link between nodes.
pub proof fn lemma_add_link_keeps_links_valid(
    nodes: Seq<NodeView>,
    links: Seq<LinkView>,
    a: Seq<char>,
    b: Seq<char>,
)
    requires
        links_refer_to_nodes(nodes, links),
        has_id(nodes, a),
        has_id(nodes, b),
    ensures
        links_refer_to_nodes(nodes, links.push(LinkView { node1_id: a, node2_id: b })),
{
    let after = links.push(LinkView { node1_id: a, node2_id: b });
    assert forall|k: int| 0 <= k < after.len() implies has_id(
        nodes,
        #[trigger] after[k].node1_id,
    ) && has_id(nodes, after[k].node2_id) by {
        if k < links.len() {
            assert(after[k] == links[k]);
        }
    }
}

/// Deleting the links between two nodes leaves every link between nodes.
pub proof fn lemma_delete_links_keeps_links_valid(
    nodes: Seq<NodeView>,
    links: Seq<LinkView>,
    a: Seq<char>,
    b: Seq<char>,
)
    requires
        links_refer_to_nodes(nodes, links),
    ensures
        links_refer_to_nodes(nodes, links_apart(links, a, b)),
{
    let pred = |l: LinkView| !connects(l, a, b);
    let kept = links.filter(pred);
    lemma_filter_within(links, pred);
    assert forall|k: int| 0 <= k < kept.len() implies has_id(
        nodes,
        #[trigger] kept[k].node1_id,
    ) && has_id(nodes, kept[k].node2_id) by {
        let m = choose|m: int| 0 <= m < links.len() && links[m] == kept[k];
        assert(has_id(nodes, links[m].node1_id));
    }
}


/// An edit is refused exactly when it gives the node a new id that some
/// node already has; an edit that keeps the node's id is never refused,
/// whatever its name.
pub proof fn lemma_edit_refused_only_for_a_taken_id(
    nodes: Seq<NodeView>,
    previous_id: Seq<char>,
    edited: NodeView,
)
    ensures
        edit_takes_id(nodes, previous_id, edited) <==> (edited.id != previous_id && exists|j: int|
            0 <= j < nodes.len() && nodes[j].id == edited.id),
        edited.id == previous_id ==> !edit_takes_id(nodes, previous_id, edited),
{
}

} // verus!
