//! Reading a graph from a GraphML document: nodes with their attributes,
//! the links between them, and a position for each node that has none.
use vstd::prelude::*;
use crate::coordinate::{decimal_milli, parse_coordinate, COORDINATE_LIMIT};
use crate::model::{
    blank_node_view, ids_unique, link_views, node_views, Link, LinkView, Node, NodeView, Point,
};
use crate::text::text_is;
use crate::xml_source::{
    attribute_views, item_views, read_xml_items, xml_items, Attribute, XmlItem, XmlItemView,
};

verus! {

/// What the reader has gathered after some items of the document.
pub struct GraphmlState {
    /// The node being read (the last one begun).
    pub node: NodeView,
    /// The key of the last `data` element.
    pub key: Seq<char>,
    /// The source and target of the last `edge` element.
    pub source: Seq<char>,
    pub target: Seq<char>,
    pub nodes: Seq<NodeView>,
    pub links: Seq<LinkView>,
    /// Ids of the nodes read without a position, in order.
    pub unplaced: Seq<Seq<char>>,
    /// Positions of the nodes read with one, in order.
    pub occupied: Seq<(int, int)>,
}

pub open spec fn initial_state() -> GraphmlState {
    GraphmlState {
        node: blank_node_view(),
        key: Seq::empty(),
        source: Seq::empty(),
        target: Seq::empty(),
        nodes: Seq::empty(),
        links: Seq::empty(),
        unplaced: Seq::empty(),
        occupied: Seq::empty(),
    }
}

/// The value of the last attribute called `name`, or `default` where there
/// is none.
pub open spec fn last_attribute(
    attributes: Seq<(Seq<char>, Seq<char>)>,
    name: Seq<char>,
    default: Seq<char>,
) -> Seq<char>
    decreases attributes.len(),
{
    if attributes.len() == 0 {
        default
    } else if attributes.last().0 == name {
        attributes.last().1
    } else {
        last_attribute(attributes.drop_last(), name, default)
    }
}

/// The node with character data `text` stored under `key`; `None` where
/// the key is a coordinate and the text is not one.
pub open spec fn with_data(node: NodeView, key: Seq<char>, text: Seq<char>) -> Option<NodeView> {
    if key == "name"@ {
        Some(NodeView { name: text, ..node })
    } else if key == "pos_x"@ {
        match decimal_milli(text) {
            Some(v) => Some(NodeView { x: v, ..node }),
            None => None,
        }
    } else if key == "pos_y"@ {
        match decimal_milli(text) {
            Some(v) => Some(NodeView { y: v, ..node }),
            None => None,
        }
    } else if key == "ip_addr"@ {
        Some(NodeView { ip_addr: text, ..node })
    } else if key == "cpu"@ {
        Some(NodeView { cpu: text, ..node })
    } else if key == "ram"@ {
        Some(NodeView { ram: text, ..node })
    } else if key == "rom"@ {
        Some(NodeView { rom: text, ..node })
    } else if key == "os"@ {
        Some(NodeView { os: text, ..node })
    } else if key == "network_bw"@ {
        Some(NodeView { network_bw: text, ..node })
    } else if key == "software"@ {
        Some(NodeView { software: text, ..node })
    } else {
        Some(node)
    }
}

/// What one item of the document does to the state; `None` where it holds
/// a coordinate that is not a number.
pub open spec fn graphml_step(s: GraphmlState, item: XmlItemView, radius: int) -> Option<
    GraphmlState,
> {
    match item {
        XmlItemView::Start { name, attributes } => {
            if name == "node"@ {
                Some(
                    GraphmlState {
                        node: NodeView {
                            id: last_attribute(attributes, "id"@, Seq::empty()),
                            ..blank_node_view()
                        },
                        ..s
                    },
                )
            } else if name == "data"@ {
                Some(GraphmlState { key: last_attribute(attributes, "key"@, s.key), ..s })
            } else if name == "edge"@ {
                let source = last_attribute(attributes, "source"@, s.source);
                let target = last_attribute(attributes, "target"@, s.target);
                Some(
                    GraphmlState {
                        source: source,
                        target: target,
                        links: s.links.push(LinkView { node1_id: source, node2_id: target }),
                        ..s
                    },
                )
            } else {
                Some(s)
            }
        },
        XmlItemView::Text { text } => match with_data(s.node, s.key, text) {
            Some(node) => Some(GraphmlState { node: node, ..s }),
            None => None,
        },
        XmlItemView::End { name } => {
            if name == "node"@ {
                let node = NodeView { radius: radius, ..s.node };
                let unplaced = node.x == 0 && node.y == 0;
                Some(
                    GraphmlState {
                        node: node,
                        nodes: s.nodes.push(node),
                        unplaced: if unplaced {
                            s.unplaced.push(node.id)
                        } else {
                            s.unplaced
                        },
                        occupied: if unplaced {
                            s.occupied
                        } else {
                            s.occupied.push((node.x, node.y))
                        },
                        ..s
                    },
                )
            } else {
                Some(s)
            }
        },
        XmlItemView::Other => Some(s),
    }
}

/// The state after all the items, in order; `None` where one of them holds
/// a coordinate that is not a number.
pub open spec fn graphml_run(items: Seq<XmlItemView>, radius: int) -> Option<GraphmlState>
    decreases items.len(),
{
    if items.len() == 0 {
        Some(initial_state())
    } else {
        match graphml_run(items.drop_last(), radius) {
            Some(s) => graphml_step(s, items.last(), radius),
            None => None,
        }
    }
}

/// Coordinates within the limit, and no more of anything than items read.
pub open spec fn state_bounded(s: GraphmlState, n: int) -> bool {
    &&& -COORDINATE_LIMIT <= s.node.x <= COORDINATE_LIMIT
    &&& -COORDINATE_LIMIT <= s.node.y <= COORDINATE_LIMIT
    &&& forall|j: int|
        0 <= j < s.nodes.len() ==> -COORDINATE_LIMIT <= #[trigger] s.nodes[j].x <= COORDINATE_LIMIT
            && -COORDINATE_LIMIT <= s.nodes[j].y <= COORDINATE_LIMIT
    &&& forall|j: int|
        0 <= j < s.occupied.len() ==> -COORDINATE_LIMIT <= #[trigger] s.occupied[j].0
            <= COORDINATE_LIMIT && -COORDINATE_LIMIT <= s.occupied[j].1 <= COORDINATE_LIMIT
    &&& s.nodes.len() <= n
    &&& s.links.len() <= n
    &&& s.unplaced.len() <= n
    &&& s.occupied.len() <= n
}

pub open spec fn occupied_views(occupied: Seq<(i64, i64)>) -> Seq<(int, int)> {
    occupied.map_values(|p: (i64, i64)| (p.0 as int, p.1 as int))
}

pub open spec fn id_views(ids: Seq<String>) -> Seq<Seq<char>> {
    ids.map_values(|s: String| s@)
}

/// The value of the last attribute called `name`, or `default`.
fn last_attribute_value(attributes: &Vec<Attribute>, name: &str, default: &String) -> (r: String)
    ensures
        r@ == last_attribute(attribute_views(attributes@), name@, default@),
{
    let ghost views = attribute_views(attributes@);
    let mut value = default.clone();
    let mut j: usize = 0;
    proof {
        assert(views.take(0) =~= Seq::<(Seq<char>, Seq<char>)>::empty());
    }
    while j < attributes.len()
        invariant
            j <= attributes.len(),
            views == attribute_views(attributes@),
            value@ == last_attribute(views.take(j as int), name@, default@),
        decreases attributes.len() - j,
    {
        proof {
            assert(views.take(j + 1).drop_last() =~= views.take(j as int));
            assert(views.take(j + 1).last() == attributes@[j as int]@);
        }
        if text_is(&attributes[j].name, name) {
            value = attributes[j].value.clone();
        }
        j = j + 1;
    }
    proof {
        assert(views.take(j as int) =~= views);
    }
    value
}

} // verus!

verus! {

/// The most items a document may have: the most for which every node
/// placed past the others still lies within what a coordinate, in
/// thousandths of a pixel, can hold.
pub const ITEM_LIMIT: u64 = 3_000_000_000_000;

/// Stores character data `text` in the node under `key`; false, with the
/// node unchanged, where the key is a coordinate and the text is not one.
fn store_data(node: &mut Node, key: &String, text: &String) -> (stored: bool)
    ensures
        match with_data(old(node)@, key@, text@) {
            Some(n) => stored && final(node)@ == n,
            None => !stored && final(node)@ == old(node)@,
        },
        -COORDINATE_LIMIT <= old(node).center.x <= COORDINATE_LIMIT ==> -COORDINATE_LIMIT
            <= final(node).center.x <= COORDINATE_LIMIT,
        -COORDINATE_LIMIT <= old(node).center.y <= COORDINATE_LIMIT ==> -COORDINATE_LIMIT
            <= final(node).center.y <= COORDINATE_LIMIT,
{
    if text_is(key, "name") {
        node.name = text.clone();
    } else if text_is(key, "pos_x") {
        match parse_coordinate(text.as_str()) {
            Some(v) => {
                node.center.x = v;
            },
            None => {
                return false;
            },
        }
    } else if text_is(key, "pos_y") {
        match parse_coordinate(text.as_str()) {
            Some(v) => {
                node.center.y = v;
            },
            None => {
                return false;
            },
        }
    } else if text_is(key, "ip_addr") {
        node.ip_addr = text.clone();
    } else if text_is(key, "cpu") {
        node.cpu = text.clone();
    } else if text_is(key, "ram") {
        node.ram = text.clone();
    } else if text_is(key, "rom") {
        node.rom = text.clone();
    } else if text_is(key, "os") {
        node.os = text.clone();
    } else if text_is(key, "network_bw") {
        node.network_bw = text.clone();
    } else if text_is(key, "software") {
        node.software = text.clone();
    }
    true
}

/// What the reader has gathered, held in executable values.
struct Gathered {
    nodes: Vec<Node>,
    links: Vec<Link>,
    unplaced: Vec<String>,
    occupied: Vec<(i64, i64)>,
}

/// Reads the items in order, as `graphml_run` says; `None` where a
/// coordinate is not a number.
fn gather(items: &Vec<XmlItem>, radius: i64) -> (r: Option<Gathered>)
    requires
        items.len() <= ITEM_LIMIT,
    ensures
        match graphml_run(item_views(items@), radius as int) {
            Some(s) => r matches Some(g) && node_views(g.nodes@) == s.nodes && link_views(
                g.links@,
            ) == s.links && id_views(g.unplaced@) == s.unplaced && occupied_views(g.occupied@)
                == s.occupied && state_bounded(s, items.len() as int),
            None => r is None,
        },
{
    let ghost views = item_views(items@);
    let mut node = Node::new();
    let mut key = String::new();
    let mut source = String::new();
    let mut target = String::new();
    let mut nodes: Vec<Node> = Vec::new();
    let mut links: Vec<Link> = Vec::new();
    let mut unplaced: Vec<String> = Vec::new();
    let mut occupied: Vec<(i64, i64)> = Vec::new();
    let mut i: usize = 0;
    proof {
        assert(views.take(0) =~= Seq::<XmlItemView>::empty());
        assert(node_views(nodes@) =~= Seq::<NodeView>::empty());
        assert(link_views(links@) =~= Seq::<LinkView>::empty());
        assert(id_views(unplaced@) =~= Seq::<Seq<char>>::empty());
        assert(occupied_views(occupied@) =~= Seq::<(int, int)>::empty());
    }
    while i < items.len()
        invariant
            i <= items.len(),
            items.len() <= ITEM_LIMIT,
            views == item_views(items@),
            graphml_run(views.take(i as int), radius as int) == Some(
                GraphmlState {
                    node: node@,
                    key: key@,
                    source: source@,
                    target: target@,
                    nodes: node_views(nodes@),
                    links: link_views(links@),
                    unplaced: id_views(unplaced@),
                    occupied: occupied_views(occupied@),
                },
            ),
            state_bounded(
                GraphmlState {
                    node: node@,
                    key: key@,
                    source: source@,
                    target: target@,
                    nodes: node_views(nodes@),
                    links: link_views(links@),
                    unplaced: id_views(unplaced@),
                    occupied: occupied_views(occupied@),
                },
                i as int,
            ),
        decreases items.len() - i,
    {
        let ghost before = GraphmlState {
            node: node@,
            key: key@,
            source: source@,
            target: target@,
            nodes: node_views(nodes@),
            links: link_views(links@),
            unplaced: id_views(unplaced@),
            occupied: occupied_views(occupied@),
        };
        proof {
            assert(views.take(i + 1).drop_last() =~= views.take(i as int));
            assert(views.take(i + 1).last() == items@[i as int]@);
        }
        let item = &items[i];
        match item {
            XmlItem::Start { name, attributes } => {
                if text_is(name, "node") {
                    let empty = String::new();
                    let id = last_attribute_value(attributes, "id", &empty);
                    node = Node::new();
                    node.id = id;
                } else if text_is(name, "data") {
                    key = last_attribute_value(attributes, "key", &key);
                } else if text_is(name, "edge") {
                    source = last_attribute_value(attributes, "source", &source);
                    target = last_attribute_value(attributes, "target", &target);
                    links.push(Link { node1_id: source.clone(), node2_id: target.clone() });
                    proof {
                        assert(link_views(links@) =~= before.links.push(
                            LinkView { node1_id: source@, node2_id: target@ },
                        ));
                    }
                }
            },
            XmlItem::Text { text } => {
                if !store_data(&mut node, &key, text) {
                    proof {
                        assert(graphml_run(views.take(i + 1), radius as int) is None);
                        assert(forall|t: int|
                            i + 1 <= t <= views.len() ==> #[trigger] graphml_run(
                                views.take(t),
                                radius as int,
                            ) is None) by {
                            assert forall|t: int|
                                i + 1 <= t <= views.len() implies #[trigger] graphml_run(
                                views.take(t),
                                radius as int,
                            ) is None by {
                                lemma_run_stays_failed(views, i + 1, t, radius as int);
                            }
                        }
                        assert(views.take(views.len() as int) =~= views);
                    }
                    return None;
                }
            },
            XmlItem::End { name } => {
                if text_is(name, "node") {
                    node.radius = radius;
                    if node.center.x == 0 && node.center.y == 0 {
                        unplaced.push(node.id.clone());
                        proof {
                            assert(id_views(unplaced@) =~= before.unplaced.push(node.id@));
                        }
                    } else {
                        occupied.push((node.center.x, node.center.y));
                        proof {
                            assert(occupied_views(occupied@) =~= before.occupied.push(
                                (node.center.x as int, node.center.y as int),
                            ));
                        }
                    }
                    nodes.push(node.duplicate());
                    proof {
                        assert(node_views(nodes@) =~= before.nodes.push(node@));
                    }
                }
            },
            XmlItem::Other => {},
        }
        i = i + 1;
    }
    proof {
        assert(views.take(i as int) =~= views);
    }
    Some(Gathered { nodes, links, unplaced, occupied })
}

proof fn lemma_run_stays_failed(views: Seq<XmlItemView>, j: int, t: int, radius: int)
    requires
        0 <= j <= t <= views.len(),
        graphml_run(views.take(j), radius) is None,
    ensures
        graphml_run(views.take(t), radius) is None,
    decreases t - j,
{
    if t > j {
        lemma_run_stays_failed(views, j, t - 1, radius);
        assert(views.take(t).drop_last() =~= views.take(t - 1));
    }
}

} // verus!

verus! {

/// How far right a placed node moves from a position already taken, in
/// thousandths of a pixel.
pub const SHIFT_STEP: i64 = 35_000;

/// Where a node goes that has no placed neighbour.
pub const DEFAULT_X: i64 = 400_000;

pub const DEFAULT_Y: i64 = 200_000;

/// Index of the last node with the id.
pub open spec fn last_index_of(nodes: Seq<NodeView>, id: Seq<char>) -> Option<int>
    decreases nodes.len(),
{
    if nodes.len() == 0 {
        None
    } else if nodes.last().id == id {
        Some(nodes.len() - 1)
    } else {
        last_index_of(nodes.drop_last(), id)
    }
}

/// The other end of a link that has the id at one end.
pub open spec fn neighbour(link: LinkView, id: Seq<char>) -> Option<Seq<char>> {
    if link.node1_id == id {
        Some(link.node2_id)
    } else if link.node2_id == id {
        Some(link.node1_id)
    } else {
        None
    }
}

/// The sums of the coordinates of the node's neighbours that have a
/// position, over the links in order, and how many they are.
pub open spec fn neighbour_sum(nodes: Seq<NodeView>, links: Seq<LinkView>, id: Seq<char>) -> (
    int,
    int,
    int,
)
    decreases links.len(),
{
    if links.len() == 0 {
        (0, 0, 0)
    } else {
        let (sx, sy, c) = neighbour_sum(nodes, links.drop_last(), id);
        match neighbour(links.last(), id) {
            Some(other) => match last_index_of(nodes, other) {
                Some(j) => if nodes[j].x != 0 || nodes[j].y != 0 {
                    (sx + nodes[j].x, sy + nodes[j].y, c + 1)
                } else {
                    (sx, sy, c)
                },
                None => (sx, sy, c),
            },
            None => (sx, sy, c),
        }
    }
}

/// `a / b` rounded to the nearest integer, halves away from zero (`b > 0`).
pub open spec fn round_div(a: int, b: int) -> int {
    if a >= 0 {
        (2 * a + b) / (2 * b)
    } else {
        -((2 * (-a) + b) / (2 * b))
    }
}

/// Where a node without a position wants to go: the mean of its placed
/// neighbours, or the default spot where it has none.
pub open spec fn wanted_position(nodes: Seq<NodeView>, links: Seq<LinkView>, id: Seq<char>) -> (
    int,
    int,
) {
    let (sx, sy, c) = neighbour_sum(nodes, links, id);
    if c > 0 {
        (round_div(sx, c), round_div(sy, c))
    } else {
        (DEFAULT_X as int, DEFAULT_Y as int)
    }
}

/// How many taken positions are on row `y`, at `x` or to its right.
pub open spec fn count_at_or_right(occupied: Seq<(int, int)>, x: int, y: int) -> nat
    decreases occupied.len(),
{
    if occupied.len() == 0 {
        0
    } else {
        count_at_or_right(occupied.drop_last(), x, y) + if occupied.last().1 == y
            && occupied.last().0 >= x {
            1nat
        } else {
            0nat
        }
    }
}

/// The first free position on row `y`, from `x` rightwards in steps.
pub open spec fn free_x(x: int, y: int, occupied: Seq<(int, int)>) -> int
    decreases count_at_or_right(occupied, x, y),
    via free_x_decreases
{
    if occupied.contains((x, y)) {
        free_x(x + SHIFT_STEP, y, occupied)
    } else {
        x
    }
}

#[via_fn]
proof fn free_x_decreases(x: int, y: int, occupied: Seq<(int, int)>) {
    if occupied.contains((x, y)) {
        lemma_count_strict(occupied, x, y);
    }
}

proof fn lemma_count_monotone(occupied: Seq<(int, int)>, x1: int, x2: int, y: int)
    requires
        x1 <= x2,
    ensures
        count_at_or_right(occupied, x2, y) <= count_at_or_right(occupied, x1, y),
    decreases occupied.len(),
{
    if occupied.len() > 0 {
        lemma_count_monotone(occupied.drop_last(), x1, x2, y);
    }
}

proof fn lemma_count_strict(occupied: Seq<(int, int)>, x: int, y: int)
    requires
        occupied.contains((x, y)),
    ensures
        count_at_or_right(occupied, x + SHIFT_STEP, y) < count_at_or_right(occupied, x, y),
    decreases occupied.len(),
{
    let rest = occupied.drop_last();
    lemma_count_monotone(rest, x, x + SHIFT_STEP, y);
    if occupied.last() != (x, y) {
        let i = choose|i: int| 0 <= i < occupied.len() && occupied[i] == (x, y);
        assert(rest[i] == (x, y));
        lemma_count_strict(rest, x, y);
    }
}

/// Where each node without a position goes, in order (index, x, y), and
/// the positions taken once they are placed.
pub open spec fn placements(
    nodes: Seq<NodeView>,
    links: Seq<LinkView>,
    unplaced: Seq<Seq<char>>,
    occupied: Seq<(int, int)>,
) -> (Seq<(int, int, int)>, Seq<(int, int)>)
    decreases unplaced.len(),
{
    if unplaced.len() == 0 {
        (Seq::empty(), occupied)
    } else {
        let (done, taken) = placements(nodes, links, unplaced.drop_last(), occupied);
        let id = unplaced.last();
        match last_index_of(nodes, id) {
            Some(j) => {
                let (wx, wy) = wanted_position(nodes, links, id);
                let x = free_x(wx, wy, taken);
                (done.push((j, x, wy)), taken.push((x, wy)))
            },
            None => (done, taken),
        }
    }
}

/// The nodes with the placements made, in order.
pub open spec fn apply_placements(nodes: Seq<NodeView>, placed: Seq<(int, int, int)>) -> Seq<
    NodeView,
>
    decreases placed.len(),
{
    if placed.len() == 0 {
        nodes
    } else {
        let before = apply_placements(nodes, placed.drop_last());
        let (j, x, y) = placed.last();
        if 0 <= j < before.len() {
            before.update(j, NodeView { x: x, y: y, ..before[j] })
        } else {
            before
        }
    }
}

/// The graph that a GraphML document's items describe: its nodes, each
/// node without a position placed, and its links; `None` where a
/// coordinate is not a number.
pub open spec fn graphml_graph(items: Seq<XmlItemView>, radius: int) -> Option<
    (Seq<NodeView>, Seq<LinkView>),
> {
    match graphml_run(items, radius) {
        Some(s) => {
            let (placed, _) = placements(s.nodes, s.links, s.unplaced, s.occupied);
            Some((apply_placements(s.nodes, placed), s.links))
        },
        None => None,
    }
}

} // verus!

verus! {

/// Index of the last node with the id.
fn find_last(nodes: &Vec<Node>, id: &String) -> (r: Option<usize>)
    ensures
        match last_index_of(node_views(nodes@), id@) {
            Some(j) => r == Some(j as usize) && 0 <= j < nodes.len(),
            None => r is None,
        },
{
    let ghost views = node_views(nodes@);
    let mut k = nodes.len();
    proof {
        assert(views.take(k as int) =~= views);
    }
    while k > 0
        invariant
            k <= nodes.len(),
            views == node_views(nodes@),
            last_index_of(views, id@) == last_index_of(views.take(k as int), id@),
        decreases k,
    {
        k = k - 1;
        proof {
            assert(views.take(k + 1).drop_last() =~= views.take(k as int));
            assert(views.take(k + 1).last() == nodes@[k as int]@);
        }
        if nodes[k].id == *id {
            return Some(k);
        }
    }
    proof {
        assert(views.take(0) =~= Seq::<NodeView>::empty());
    }
    None
}

/// Every node's coordinates are within the limit.
pub open spec fn nodes_bounded(nodes: Seq<NodeView>) -> bool {
    forall|j: int|
        0 <= j < nodes.len() ==> -COORDINATE_LIMIT <= #[trigger] nodes[j].x <= COORDINATE_LIMIT
            && -COORDINATE_LIMIT <= nodes[j].y <= COORDINATE_LIMIT
}

/// The sums of the coordinates of the placed neighbours, and their count.
fn neighbour_total(nodes: &Vec<Node>, links: &Vec<Link>, id: &String) -> (r: (i128, i128, i128))
    requires
        nodes_bounded(node_views(nodes@)),
        links.len() <= ITEM_LIMIT,
    ensures
        (r.0 as int, r.1 as int, r.2 as int) == neighbour_sum(
            node_views(nodes@),
            link_views(links@),
            id@,
        ),
        0 <= r.2 <= links.len(),
        -r.2 * COORDINATE_LIMIT <= r.0 <= r.2 * COORDINATE_LIMIT,
        -r.2 * COORDINATE_LIMIT <= r.1 <= r.2 * COORDINATE_LIMIT,
{
    let ghost nv = node_views(nodes@);
    let ghost lv = link_views(links@);
    let mut sx: i128 = 0;
    let mut sy: i128 = 0;
    let mut c: i128 = 0;
    let mut j: usize = 0;
    proof {
        assert(lv.take(0) =~= Seq::<LinkView>::empty());
    }
    while j < links.len()
        invariant
            j <= links.len(),
            links.len() <= ITEM_LIMIT,
            nv == node_views(nodes@),
            lv == link_views(links@),
            nodes_bounded(nv),
            (sx as int, sy as int, c as int) == neighbour_sum(nv, lv.take(j as int), id@),
            0 <= c <= j,
            -c * COORDINATE_LIMIT <= sx <= c * COORDINATE_LIMIT,
            -c * COORDINATE_LIMIT <= sy <= c * COORDINATE_LIMIT,
        decreases links.len() - j,
    {
        proof {
            assert(lv.take(j + 1).drop_last() =~= lv.take(j as int));
            assert(lv.take(j + 1).last() == links@[j as int]@);
        }
        let link = &links[j];
        let other = if link.node1_id == *id {
            Some(&link.node2_id)
        } else if link.node2_id == *id {
            Some(&link.node1_id)
        } else {
            None
        };
        match other {
            Some(o) => match find_last(nodes, o) {
                Some(k) => {
                    let p = nodes[k].center;
                    assert(nv[k as int] == nodes@[k as int]@);
                    assert(-COORDINATE_LIMIT <= nv[k as int].x <= COORDINATE_LIMIT);
                    assert(-COORDINATE_LIMIT <= nv[k as int].y <= COORDINATE_LIMIT);
                    assert((c + 1) * COORDINATE_LIMIT == c * COORDINATE_LIMIT + COORDINATE_LIMIT)
                        by (nonlinear_arith);
                    if p.x != 0 || p.y != 0 {
                        sx = sx + p.x as i128;
                        sy = sy + p.y as i128;
                        c = c + 1;
                    }
                },
                None => {},
            },
            None => {},
        }
        j = j + 1;
    }
    proof {
        assert(lv.take(j as int) =~= lv);
    }
    (sx, sy, c)
}

proof fn lemma_mean_bound(a: int, b: int)
    by (nonlinear_arith)
    requires
        0 <= a <= b * 9_000_000_000_000_000_000,
        b > 0,
    ensures
        0 <= (2 * a + b) / (2 * b) <= 9_000_000_000_000_000_000,
{
}

/// `sum / count`, rounded to the nearest integer, halves away from zero.
fn rounded_mean(sum: i128, count: i128) -> (r: i64)
    requires
        0 < count <= ITEM_LIMIT,
        -count * COORDINATE_LIMIT <= sum <= count * COORDINATE_LIMIT,
    ensures
        r == round_div(sum as int, count as int),
        -COORDINATE_LIMIT <= r <= COORDINATE_LIMIT,
{
    if sum >= 0 {
        proof {
            lemma_mean_bound(sum as int, count as int);
        }
        ((2 * sum + count) / (2 * count)) as i64
    } else {
        proof {
            lemma_mean_bound(-sum as int, count as int);
        }
        -(((2 * (-sum) + count) / (2 * count)) as i64)
    }
}

/// Whether the position is taken.
fn is_occupied(occupied: &Vec<(i64, i64)>, x: i64, y: i64) -> (r: bool)
    ensures
        r == occupied_views(occupied@).contains((x as int, y as int)),
{
    let ghost ov = occupied_views(occupied@);
    let mut j: usize = 0;
    while j < occupied.len()
        invariant
            j <= occupied.len(),
            ov == occupied_views(occupied@),
            forall|t: int| 0 <= t < j ==> ov[t] != (x as int, y as int),
        decreases occupied.len() - j,
    {
        if occupied[j].0 == x && occupied[j].1 == y {
            assert(ov[j as int] == (x as int, y as int));
            return true;
        }
        j = j + 1;
    }
    false
}

/// The positions taken lie on rows within the limit, and no further right
/// than one step past the limit for each position taken.
pub open spec fn occupied_bounded(occupied: Seq<(int, int)>) -> bool {
    forall|j: int|
        0 <= j < occupied.len() ==> -COORDINATE_LIMIT <= #[trigger] occupied[j].0
            <= COORDINATE_LIMIT + SHIFT_STEP * occupied.len() && -COORDINATE_LIMIT
            <= occupied[j].1 <= COORDINATE_LIMIT
}

/// The first free position on row `y`, from `x` rightwards.
fn first_free_x(occupied: &Vec<(i64, i64)>, x: i64, y: i64) -> (r: i64)
    requires
        occupied_bounded(occupied_views(occupied@)),
        occupied.len() <= 2 * ITEM_LIMIT,
        -COORDINATE_LIMIT <= x <= COORDINATE_LIMIT,
    ensures
        r == free_x(x as int, y as int, occupied_views(occupied@)),
        -COORDINATE_LIMIT <= r <= COORDINATE_LIMIT + SHIFT_STEP * (occupied.len() + 1),
{
    let ghost ov = occupied_views(occupied@);
    let mut cur = x;
    while is_occupied(occupied, cur, y)
        invariant
            ov == occupied_views(occupied@),
            occupied_bounded(ov),
            occupied.len() <= 2 * ITEM_LIMIT,
            free_x(cur as int, y as int, ov) == free_x(x as int, y as int, ov),
            -COORDINATE_LIMIT <= cur <= COORDINATE_LIMIT + SHIFT_STEP * (occupied.len() + 1),
        decreases count_at_or_right(ov, cur as int, y as int),
    {
        proof {
            let i = choose|i: int| 0 <= i < ov.len() && ov[i] == (cur as int, y as int);
            assert(ov[i].0 <= COORDINATE_LIMIT + SHIFT_STEP * ov.len());
            lemma_count_strict(ov, cur as int, y as int);
        }
        cur = cur + SHIFT_STEP;
    }
    cur
}

} // verus!

verus! {

pub open spec fn placed_views(placed: Seq<(usize, i64, i64)>) -> Seq<(int, int, int)> {
    placed.map_values(|p: (usize, i64, i64)| (p.0 as int, p.1 as int, p.2 as int))
}

proof fn lemma_apply_len(nodes: Seq<NodeView>, placed: Seq<(int, int, int)>)
    ensures
        apply_placements(nodes, placed).len() == nodes.len(),
    decreases placed.len(),
{
    if placed.len() > 0 {
        lemma_apply_len(nodes, placed.drop_last());
    }
}

/// Places each node that has no position, as `placements` says, then moves
/// the nodes there, as `apply_placements` says.
fn place_nodes(
    nodes: &mut Vec<Node>,
    links: &Vec<Link>,
    unplaced: &Vec<String>,
    occupied: Vec<(i64, i64)>,
)
    requires
        nodes_bounded(node_views(old(nodes)@)),
        forall|j: int|
            0 <= j < occupied@.len() ==> -COORDINATE_LIMIT <= #[trigger] occupied@[j].0
                <= COORDINATE_LIMIT && -COORDINATE_LIMIT <= occupied@[j].1 <= COORDINATE_LIMIT,
        occupied.len() <= ITEM_LIMIT,
        unplaced.len() <= ITEM_LIMIT,
        links.len() <= ITEM_LIMIT,
    ensures
        node_views(final(nodes)@) == apply_placements(
            node_views(old(nodes)@),
            placements(
                node_views(old(nodes)@),
                link_views(links@),
                id_views(unplaced@),
                occupied_views(occupied@),
            ).0,
        ),
{
    let ghost nv = node_views(nodes@);
    let ghost lv = link_views(links@);
    let ghost ids = id_views(unplaced@);
    let ghost ov = occupied_views(occupied@);
    let mut taken = occupied;
    let mut placed: Vec<(usize, i64, i64)> = Vec::new();
    let mut k: usize = 0;
    proof {
        assert(ids.take(0) =~= Seq::<Seq<char>>::empty());
        assert(placed_views(placed@) =~= Seq::<(int, int, int)>::empty());
        assert forall|j: int| 0 <= j < ov.len() implies -COORDINATE_LIMIT <= #[trigger] ov[j].0
            <= COORDINATE_LIMIT + SHIFT_STEP * ov.len() && -COORDINATE_LIMIT <= ov[j].1
            <= COORDINATE_LIMIT by {
            assert(ov[j] == (occupied@[j].0 as int, occupied@[j].1 as int));
        }
    }
    while k < unplaced.len()
        invariant
            k <= unplaced.len(),
            unplaced.len() <= ITEM_LIMIT,
            links.len() <= ITEM_LIMIT,
            nv == node_views(nodes@),
            lv == link_views(links@),
            ids == id_views(unplaced@),
            nodes_bounded(nv),
            placements(nv, lv, ids.take(k as int), ov) == (
                placed_views(placed@),
                occupied_views(taken@),
            ),
            occupied_bounded(occupied_views(taken@)),
            taken.len() <= ITEM_LIMIT + k,
            forall|t: int| 0 <= t < placed@.len() ==> #[trigger] placed@[t].0 < nodes.len(),
        decreases unplaced.len() - k,
    {
        let ghost taken_before = occupied_views(taken@);
        let ghost placed_before = placed_views(placed@);
        proof {
            assert(ids.take(k + 1).drop_last() =~= ids.take(k as int));
            assert(ids.take(k + 1).last() == unplaced@[k as int]@);
        }
        let id = &unplaced[k];
        match find_last(nodes, id) {
            Some(j) => {
                let (sx, sy, c) = neighbour_total(nodes, links, id);
                let (wx, wy) = if c > 0 {
                    (rounded_mean(sx, c), rounded_mean(sy, c))
                } else {
                    (DEFAULT_X, DEFAULT_Y)
                };
                let x = first_free_x(&taken, wx, wy);
                placed.push((j, x, wy));
                taken.push((x, wy));
                proof {
                    assert(placed_views(placed@) =~= placed_before.push(
                        (j as int, x as int, wy as int),
                    ));
                    assert(occupied_views(taken@) =~= taken_before.push((x as int, wy as int)));
                    let tv = occupied_views(taken@);
                    assert forall|t: int| 0 <= t < tv.len() implies -COORDINATE_LIMIT
                        <= #[trigger] tv[t].0 <= COORDINATE_LIMIT + SHIFT_STEP * tv.len()
                        && -COORDINATE_LIMIT <= tv[t].1 <= COORDINATE_LIMIT by {
                        if t < taken_before.len() {
                            assert(tv[t] == taken_before[t]);
                        }
                    }
                }
            },
            None => {},
        }
        k = k + 1;
    }
    proof {
        assert(ids.take(k as int) =~= ids);
    }
    let ghost all_placed = placed_views(placed@);
    let mut p: usize = 0;
    proof {
        assert(all_placed.take(0) =~= Seq::<(int, int, int)>::empty());
    }
    while p < placed.len()
        invariant
            p <= placed.len(),
            all_placed == placed_views(placed@),
            nodes.len() == nv.len(),
            node_views(nodes@) == apply_placements(nv, all_placed.take(p as int)),
            forall|t: int| 0 <= t < placed@.len() ==> #[trigger] placed@[t].0 < nv.len(),
        decreases placed.len() - p,
    {
        let (j, x, y) = placed[p];
        let ghost before = node_views(nodes@);
        proof {
            assert(all_placed.take(p + 1).drop_last() =~= all_placed.take(p as int));
            assert(all_placed.take(p + 1).last() == (j as int, x as int, y as int));
            lemma_apply_len(nv, all_placed.take(p as int));
        }
        let mut moved = nodes[j].duplicate();
        moved.center = Point { x: x, y: y };
        nodes.set(j, moved);
        proof {
            assert(node_views(nodes@) =~= before.update(
                j as int,
                NodeView { x: x as int, y: y as int, ..before[j as int] },
            ));
        }
        p = p + 1;
    }
    proof {
        assert(all_placed.take(p as int) =~= all_placed);
    }
}

/// Why a document could not be read.
#[derive(Debug)]
pub enum GraphmlError {
    /// A coordinate is not a number within the coordinate limit.
    InvalidCoordinate,
    /// The document has more than `ITEM_LIMIT` items.
    TooManyItems,
}

/// The graph that the items of a GraphML document describe, as
/// `graphml_graph` says. Items with a coordinate that is not a number are
/// left out: there is no graph to give for them.
pub fn build_graph(items: &Vec<XmlItem>, default_radius: i64) -> (r: (Vec<Node>, Vec<Link>))
    requires
        items.len() <= ITEM_LIMIT,
        graphml_run(item_views(items@), default_radius as int) is Some,
    ensures
        graphml_graph(item_views(items@), default_radius as int) == Some(
            (node_views(r.0@), link_views(r.1@)),
        ),
{
    match gather(items, default_radius) {
        None => vstd::pervasive::unreached(),
        Some(g) => {
            let Gathered { mut nodes, links, unplaced, occupied } = g;
            proof {
                let ov = occupied_views(occupied@);
                assert forall|j: int| 0 <= j < occupied@.len() implies -COORDINATE_LIMIT
                    <= #[trigger] occupied@[j].0 <= COORDINATE_LIMIT && -COORDINATE_LIMIT
                    <= occupied@[j].1 <= COORDINATE_LIMIT by {
                    assert(ov[j] == (occupied@[j].0 as int, occupied@[j].1 as int));
                }
            }
            place_nodes(&mut nodes, &links, &unplaced, occupied);
            (nodes, links)
        },
    }
}

/// Whether every coordinate of the GraphML document is a number, so that
/// it can be read; true of a document with more than `ITEM_LIMIT` items,
/// which is not read at all.
pub fn graphml_readable(default_radius: i64, document: &[u8]) -> (r: bool)
    ensures
        r == (xml_items(document@).len() <= ITEM_LIMIT ==> graphml_run(
            xml_items(document@),
            default_radius as int,
        ) is Some),
{
    let items = read_xml_items(document);
    if items.len() as u64 > ITEM_LIMIT {
        return true;
    }
    gather(&items, default_radius).is_some()
}

/// Reads a graph from the bytes of a GraphML document: the nodes with their
/// attributes (each with the default radius), the links, and a position for
/// each node that has none; the nodes and links are replaced by what the
/// document describes. A document with a coordinate that is not a number
/// is left out. One with more than `ITEM_LIMIT` items is refused, the nodes
/// and links unchanged.
pub fn parse_graphml(
    default_radius: i64,
    nodes: &mut Vec<Node>,
    links: &mut Vec<Link>,
    document: &[u8],
) -> (r: Result<(), GraphmlError>)
    requires
        xml_items(document@).len() <= ITEM_LIMIT ==> graphml_run(
            xml_items(document@),
            default_radius as int,
        ) is Some,
    ensures
        xml_items(document@).len() > ITEM_LIMIT ==> (r matches Err(GraphmlError::TooManyItems))
            && final(nodes)@ == old(nodes)@ && final(links)@ == old(links)@,
        xml_items(document@).len() <= ITEM_LIMIT ==> r is Ok && graphml_graph(
            xml_items(document@),
            default_radius as int,
        ) == Some((node_views(final(nodes)@), link_views(final(links)@))),
{
    let items = read_xml_items(document);
    if items.len() as u64 > ITEM_LIMIT {
        return Err(GraphmlError::TooManyItems);
    }
    let (n, l) = build_graph(&items, default_radius);
    *nodes = n;
    *links = l;
    Ok(())
}

} // verus!

verus! {

proof fn lemma_free_x_is_free(x: int, y: int, occupied: Seq<(int, int)>)
    ensures
        !occupied.contains((free_x(x, y, occupied), y)),
        free_x(x, y, occupied) >= x,
    decreases count_at_or_right(occupied, x, y),
{
    if occupied.contains((x, y)) {
        lemma_count_strict(occupied, x, y);
        lemma_free_x_is_free(x + SHIFT_STEP, y, occupied);
    }
}

/// A node read without a position is placed where no node is yet: the
/// positions taken after placing are those taken before, then one for each
/// placed node, each not among those taken before it.
pub proof fn lemma_placements_fresh(
    nodes: Seq<NodeView>,
    links: Seq<LinkView>,
    unplaced: Seq<Seq<char>>,
    occupied: Seq<(int, int)>,
)
    ensures
        ({
            let (placed, taken) = placements(nodes, links, unplaced, occupied);
            &&& taken.len() == occupied.len() + placed.len()
            &&& taken.take(occupied.len() as int) == occupied
            &&& forall|t: int|
                0 <= t < placed.len() ==> taken[occupied.len() + t] == (
                    #[trigger] placed[t].1,
                    placed[t].2,
                ) && !taken.take(occupied.len() + t).contains((placed[t].1, placed[t].2))
        }),
    decreases unplaced.len(),
{
    if unplaced.len() == 0 {
        assert(occupied.take(occupied.len() as int) =~= occupied);
    } else {
        lemma_placements_fresh(nodes, links, unplaced.drop_last(), occupied);
        let (done, taken) = placements(nodes, links, unplaced.drop_last(), occupied);
        let id = unplaced.last();
        match last_index_of(nodes, id) {
            Some(j) => {
                let (wx, wy) = wanted_position(nodes, links, id);
                let x = free_x(wx, wy, taken);
                lemma_free_x_is_free(wx, wy, taken);
                let placed = done.push((j, x, wy));
                let now = taken.push((x, wy));
                assert(now.take(occupied.len() as int) =~= taken.take(occupied.len() as int));
                assert forall|t: int| 0 <= t < placed.len() implies now[occupied.len() + t] == (
                    #[trigger] placed[t].1,
                    placed[t].2,
                ) && !now.take(occupied.len() + t).contains((placed[t].1, placed[t].2)) by {
                    if t < done.len() {
                        assert(placed[t] == done[t]);
                        assert(now.take(occupied.len() + t) =~= taken.take(occupied.len() + t));
                    } else {
                        assert(now.take(occupied.len() + t) =~= taken);
                    }
                }
            },
            None => {},
        }
    }
}

} // verus!

verus! {

/// Whether the node lies at the origin, as a node read without a position
/// does.
pub open spec fn at_origin(n: NodeView) -> bool {
    n.x == 0 && n.y == 0
}

/// Some node at the origin has the id.
pub open spec fn origin_node_with(nodes: Seq<NodeView>, id: Seq<char>) -> bool {
    exists|j: int| 0 <= j < nodes.len() && nodes[j].id == id && at_origin(nodes[j])
}

/// Each id waiting for a position is that of a node at the origin.
pub open spec fn ids_at_origin(nodes: Seq<NodeView>, unplaced: Seq<Seq<char>>) -> bool {
    forall|k: int| 0 <= k < unplaced.len() ==> origin_node_with(nodes, #[trigger] unplaced[k])
}

proof fn lemma_step_keeps_ids_at_origin(s: GraphmlState, item: XmlItemView, radius: int)
    requires
        ids_at_origin(s.nodes, s.unplaced),
    ensures
        graphml_step(s, item, radius) matches Some(t) ==> ids_at_origin(t.nodes, t.unplaced),
{
    if let Some(t) = graphml_step(s, item, radius) {
        assert forall|k: int| 0 <= k < t.unplaced.len() implies origin_node_with(
            t.nodes,
            #[trigger] t.unplaced[k],
        ) by {
            if k < s.unplaced.len() {
                assert(t.unplaced[k] == s.unplaced[k]);
                assert(origin_node_with(s.nodes, s.unplaced[k]));
                let j = choose|j: int|
                    0 <= j < s.nodes.len() && s.nodes[j].id == s.unplaced[k] && at_origin(
                        s.nodes[j],
                    );
                assert(t.nodes[j] == s.nodes[j]);
            } else {
                assert(t.nodes[s.nodes.len() as int] == t.node);
            }
        }
    }
}

proof fn lemma_run_keeps_ids_at_origin(items: Seq<XmlItemView>, radius: int)
    ensures
        graphml_run(items, radius) matches Some(s) ==> ids_at_origin(s.nodes, s.unplaced),
    decreases items.len(),
{
    if items.len() > 0 {
        lemma_run_keeps_ids_at_origin(items.drop_last(), radius);
        if let Some(s) = graphml_run(items.drop_last(), radius) {
            lemma_step_keeps_ids_at_origin(s, items.last(), radius);
        }
    }
}

proof fn lemma_last_index_unique(nodes: Seq<NodeView>, id: Seq<char>, j: int)
    requires
        ids_unique(nodes),
        0 <= j < nodes.len(),
        nodes[j].id == id,
    ensures
        last_index_of(nodes, id) == Some(j),
    decreases nodes.len(),
{
    if j < nodes.len() - 1 {
        assert(nodes.last().id != id) by {
            assert(nodes[nodes.len() - 1] == nodes.last());
        }
        let rest = nodes.drop_last();
        assert(rest[j] == nodes[j]);
        lemma_last_index_unique(rest, id, j);
    }
}

/// Every placement goes to a node at the origin.
proof fn lemma_placements_at_origin(
    nodes: Seq<NodeView>,
    links: Seq<LinkView>,
    unplaced: Seq<Seq<char>>,
    occupied: Seq<(int, int)>,
)
    requires
        ids_unique(nodes),
        ids_at_origin(nodes, unplaced),
    ensures
        forall|t: int|
            0 <= t < placements(nodes, links, unplaced, occupied).0.len() ==> {
                let i = (#[trigger] placements(nodes, links, unplaced, occupied).0[t]).0;
                0 <= i < nodes.len() && at_origin(nodes[i])
            },
    decreases unplaced.len(),
{
    if unplaced.len() > 0 {
        let rest = unplaced.drop_last();
        assert forall|k: int| 0 <= k < rest.len() implies origin_node_with(
            nodes,
            #[trigger] rest[k],
        ) by {
            assert(rest[k] == unplaced[k]);
        }
        lemma_placements_at_origin(nodes, links, rest, occupied);
        let id = unplaced.last();
        assert(unplaced[unplaced.len() - 1] == id);
        assert(origin_node_with(nodes, id));
        let j = choose|j: int| 0 <= j < nodes.len() && nodes[j].id == id && at_origin(nodes[j]);
        lemma_last_index_unique(nodes, id, j);
        let (done, taken) = placements(nodes, links, rest, occupied);
        let placed = placements(nodes, links, unplaced, occupied).0;
        assert forall|t: int| 0 <= t < placed.len() implies {
            let i = (#[trigger] placed[t]).0;
            0 <= i < nodes.len() && at_origin(nodes[i])
        } by {
            if t < done.len() {
                assert(placed[t] == done[t]);
            }
        }
    }
}

proof fn lemma_apply_keeps_others(nodes: Seq<NodeView>, placed: Seq<(int, int, int)>, j: int)
    requires
        0 <= j < nodes.len(),
        forall|t: int| 0 <= t < placed.len() ==> (#[trigger] placed[t]).0 != j,
    ensures
        apply_placements(nodes, placed).len() == nodes.len(),
        apply_placements(nodes, placed)[j] == nodes[j],
    decreases placed.len(),
{
    lemma_apply_len(nodes, placed);
    if placed.len() > 0 {
        let rest = placed.drop_last();
        assert forall|t: int| 0 <= t < rest.len() implies (#[trigger] rest[t]).0 != j by {
            assert(rest[t] == placed[t]);
        }
        lemma_apply_keeps_others(nodes, rest, j);
        assert(placed[placed.len() - 1] == placed.last());
    }
}

/// When no two nodes of a document share an id, a node read with a
/// position keeps it, and all it was read with.
pub proof fn lemma_positioned_nodes_stay(items: Seq<XmlItemView>, radius: int, j: int)
    requires
        graphml_run(items, radius) is Some,
        ids_unique(graphml_run(items, radius)->0.nodes),
        0 <= j < graphml_run(items, radius)->0.nodes.len(),
        !at_origin(graphml_run(items, radius)->0.nodes[j]),
    ensures
        graphml_graph(items, radius) matches Some((ns, ls)) && ns[j] == graphml_run(
            items,
            radius,
        )->0.nodes[j],
{
    let s = graphml_run(items, radius)->0;
    lemma_run_keeps_ids_at_origin(items, radius);
    lemma_placements_at_origin(s.nodes, s.links, s.unplaced, s.occupied);
    let placed = placements(s.nodes, s.links, s.unplaced, s.occupied).0;
    assert forall|t: int| 0 <= t < placed.len() implies (#[trigger] placed[t]).0 != j by {
        let i = placed[t].0;
        assert(at_origin(s.nodes[i]));
    }
    lemma_apply_keeps_others(s.nodes, placed, j);
}


/// The position of the node that `id` names (the last node with it), where
/// it was read with one: not at the origin.
pub open spec fn position_of(nodes: Seq<NodeView>, id: Seq<char>) -> Option<(int, int)> {
    match last_index_of(nodes, id) {
        Some(j) => if nodes[j].x == 0 && nodes[j].y == 0 {
            None
        } else {
            Some((nodes[j].x, nodes[j].y))
        },
        None => None,
    }
}

/// The position of the node at the far end of a link from `id`; `None`
/// where the link does not touch `id` or the far end has no position.
pub open spec fn far_position(link: LinkView, id: Seq<char>, nodes: Seq<NodeView>) -> Option<
    (int, int),
> {
    if link.node1_id == id {
        position_of(nodes, link.node2_id)
    } else if link.node2_id == id {
        position_of(nodes, link.node1_id)
    } else {
        None
    }
}

proof fn lemma_neighbour_sum_step(nodes: Seq<NodeView>, links: Seq<LinkView>, id: Seq<char>)
    requires
        links.len() > 0,
    ensures
        neighbour_sum(nodes, links, id) == match far_position(links.last(), id, nodes) {
            Some((x, y)) => (
                neighbour_sum(nodes, links.drop_last(), id).0 + x,
                neighbour_sum(nodes, links.drop_last(), id).1 + y,
                neighbour_sum(nodes, links.drop_last(), id).2 + 1,
            ),
            None => neighbour_sum(nodes, links.drop_last(), id),
        },
{
}

proof fn lemma_no_far_positions(nodes: Seq<NodeView>, links: Seq<LinkView>, id: Seq<char>)
    requires
        forall|k: int| 0 <= k < links.len() ==> far_position(#[trigger] links[k], id, nodes) is None,
    ensures
        neighbour_sum(nodes, links, id) == (0int, 0int, 0int),
    decreases links.len(),
{
    if links.len() > 0 {
        let front = links.drop_last();
        assert forall|k: int| 0 <= k < front.len() implies far_position(
            #[trigger] front[k],
            id,
            nodes,
        ) is None by {
            assert(front[k] == links[k]);
        }
        lemma_no_far_positions(nodes, front, id);
        lemma_neighbour_sum_step(nodes, links, id);
        assert(far_position(links[links.len() - 1], id, nodes) is None);
    }
}

/// A node none of whose links leads to a node read with a position wants
/// the default spot: neighbours without a position count for nothing.
pub proof fn lemma_no_placed_neighbour_wants_default(
    nodes: Seq<NodeView>,
    links: Seq<LinkView>,
    id: Seq<char>,
)
    requires
        forall|k: int| 0 <= k < links.len() ==> far_position(#[trigger] links[k], id, nodes) is None,
    ensures
        wanted_position(nodes, links, id) == (DEFAULT_X as int, DEFAULT_Y as int),
{
    lemma_no_far_positions(nodes, links, id);
}

/// A link that does not lead from the node to a node read with a position
/// leaves where the node wants to go as it was.
pub proof fn lemma_unplaced_neighbour_ignored(
    nodes: Seq<NodeView>,
    links: Seq<LinkView>,
    id: Seq<char>,
    link: LinkView,
)
    requires
        far_position(link, id, nodes) is None,
    ensures
        wanted_position(nodes, links.push(link), id) == wanted_position(nodes, links, id),
{
    let pushed = links.push(link);
    assert(pushed.drop_last() =~= links);
    lemma_neighbour_sum_step(nodes, pushed, id);
}

proof fn lemma_same_far_positions(
    nodes: Seq<NodeView>,
    links: Seq<LinkView>,
    id: Seq<char>,
    px: int,
    py: int,
)
    requires
        forall|k: int|
            0 <= k < links.len() ==> far_position(#[trigger] links[k], id, nodes) is None
                || far_position(links[k], id, nodes) == Some((px, py)),
    ensures
        neighbour_sum(nodes, links, id).0 == neighbour_sum(nodes, links, id).2 * px,
        neighbour_sum(nodes, links, id).1 == neighbour_sum(nodes, links, id).2 * py,
        neighbour_sum(nodes, links, id).2 >= 0,
        (exists|k: int|
            0 <= k < links.len() && far_position(#[trigger] links[k], id, nodes) == Some((px, py)))
            ==> neighbour_sum(nodes, links, id).2 > 0,
    decreases links.len(),
{
    if links.len() > 0 {
        let front = links.drop_last();
        assert forall|k: int| 0 <= k < front.len() implies far_position(
            #[trigger] front[k],
            id,
            nodes,
        ) is None || far_position(front[k], id, nodes) == Some((px, py)) by {
            assert(front[k] == links[k]);
        }
        lemma_same_far_positions(nodes, front, id, px, py);
        lemma_neighbour_sum_step(nodes, links, id);
        let r = neighbour_sum(nodes, front, id);
        assert((r.2 + 1) * px == r.2 * px + px) by (nonlinear_arith);
        assert((r.2 + 1) * py == r.2 * py + py) by (nonlinear_arith);
        if exists|k: int|
            0 <= k < links.len() && far_position(#[trigger] links[k], id, nodes) == Some(
                (px, py),
            ) {
            let k = choose|k: int|
                0 <= k < links.len() && far_position(#[trigger] links[k], id, nodes) == Some(
                    (px, py),
                );
            if k < front.len() {
                assert(front[k] == links[k]);
            }
        }
    }
}

proof fn lemma_round_div_multiple(c: int, p: int)
    requires
        c > 0,
    ensures
        round_div(c * p, c) == p,
{
    if p >= 0 {
        assert(c * p >= 0) by (nonlinear_arith)
            requires
                c > 0,
                p >= 0,
        ;
        assert((2 * (c * p) + c) / (2 * c) == p) by (nonlinear_arith)
            requires
                c > 0,
        ;
    } else {
        assert(c * p < 0) by (nonlinear_arith)
            requires
                c > 0,
                p < 0,
        ;
        assert((2 * (-(c * p)) + c) / (2 * c) == -p) by (nonlinear_arith)
            requires
                c > 0,
                p < 0,
        ;
    }
}

/// Where every neighbour of a node that was read with a position stands at
/// the same spot, and there is at least one, the node wants that spot:
/// the mean counts only neighbours read with a position.
pub proof fn lemma_placed_neighbours_at_one_spot(
    nodes: Seq<NodeView>,
    links: Seq<LinkView>,
    id: Seq<char>,
    px: int,
    py: int,
)
    requires
        forall|k: int|
            0 <= k < links.len() ==> far_position(#[trigger] links[k], id, nodes) is None
                || far_position(links[k], id, nodes) == Some((px, py)),
        exists|k: int|
            0 <= k < links.len() && far_position(#[trigger] links[k], id, nodes) == Some((px, py)),
    ensures
        wanted_position(nodes, links, id) == (px, py),
{
    lemma_same_far_positions(nodes, links, id, px, py);
    let c = neighbour_sum(nodes, links, id).2;
    lemma_round_div_multiple(c, px);
    lemma_round_div_multiple(c, py);
}


/// Half of `s`, rounded to the nearest integer, halves away from zero.
pub open spec fn rounded_half(s: int) -> int {
    if s % 2 == 0 {
        s / 2
    } else if s > 0 {
        (s + 1) / 2
    } else {
        (s - 1) / 2
    }
}

/// A node with two links, each to a node read with a position, wants the
/// point midway between them, rounded to thousandths halves away from zero.
pub proof fn lemma_two_placed_neighbours_midway(
    nodes: Seq<NodeView>,
    links: Seq<LinkView>,
    id: Seq<char>,
    x1: int,
    y1: int,
    x2: int,
    y2: int,
)
    requires
        links.len() == 2,
        far_position(links[0], id, nodes) == Some((x1, y1)),
        far_position(links[1], id, nodes) == Some((x2, y2)),
    ensures
        wanted_position(nodes, links, id) == (rounded_half(x1 + x2), rounded_half(y1 + y2)),
{
    let first = links.drop_last();
    assert(first.drop_last() =~= Seq::<LinkView>::empty());
    assert(first.last() == links[0]);
    lemma_neighbour_sum_step(nodes, first, id);
    lemma_neighbour_sum_step(nodes, links, id);
    assert(neighbour_sum(nodes, links, id) == (x1 + x2, y1 + y2, 2int));
}

} // verus!
