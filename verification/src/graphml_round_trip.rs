//! What a reader reports for a saved GraphML document, and that reading
//! those items gives the saved graph back.
use vstd::prelude::*;
use crate::coordinate::{coordinate_text, lemma_coordinate_round_trip, COORDINATE_LIMIT};
use crate::graphml_parser::{
    apply_placements, at_origin, graphml_graph, graphml_run, graphml_step, initial_state,
    last_attribute, placements, with_data, GraphmlState,
};
use crate::model::{blank_node_view, LinkView, NodeView};
use crate::xml_source::XmlItemView;

verus! {

/// The state after the items, read in order from `s`.
#[verifier::opaque]
pub open spec fn run_from(s: Option<GraphmlState>, items: Seq<XmlItemView>, radius: int) -> Option<
    GraphmlState,
>
    decreases items.len(),
{
    if items.len() == 0 {
        s
    } else {
        match s {
            Some(t) => run_from(graphml_step(t, items[0], radius), items.drop_first(), radius),
            None => None,
        }
    }
}

proof fn lemma_run_from_none(items: Seq<XmlItemView>, radius: int)
    ensures
        run_from(None, items, radius) is None,
{
    reveal(run_from);
}

/// Reading two runs of items one after the other.
proof fn lemma_run_concat(s: Option<GraphmlState>, a: Seq<XmlItemView>, b: Seq<XmlItemView>, radius: int)
    ensures
        run_from(s, a + b, radius) == run_from(run_from(s, a, radius), b, radius),
    decreases a.len(),
{
    reveal(run_from);
    if a.len() == 0 {
        assert(a + b =~= b);
    } else {
        match s {
            Some(t) => {
                assert((a + b)[0] == a[0]);
                assert((a + b).drop_first() =~= a.drop_first() + b);
                lemma_run_concat(graphml_step(t, a[0], radius), a.drop_first(), b, radius);
            },
            None => {
                lemma_run_from_none(b, radius);
            },
        }
    }
}

proof fn lemma_run_single(s: GraphmlState, item: XmlItemView, radius: int)
    ensures
        run_from(Some(s), seq![item], radius) == graphml_step(s, item, radius),
{
    reveal(run_from);
    assert(seq![item].drop_first() =~= Seq::<XmlItemView>::empty());
    assert(seq![item][0] == item);
    assert(run_from(graphml_step(s, item, radius), Seq::<XmlItemView>::empty(), radius)
        == graphml_step(s, item, radius));
}

/// Reading a document's items is reading them from the initial state.
proof fn lemma_run_is_run_from(items: Seq<XmlItemView>, radius: int)
    ensures
        graphml_run(items, radius) == run_from(Some(initial_state()), items, radius),
    decreases items.len(),
{
    reveal(run_from);
    if items.len() > 0 {
        let front = items.drop_last();
        lemma_run_is_run_from(front, radius);
        assert(items =~= front + seq![items.last()]);
        lemma_run_concat(Some(initial_state()), front, seq![items.last()], radius);
        match graphml_run(front, radius) {
            Some(t) => {
                lemma_run_single(t, items.last(), radius);
            },
            None => {},
        }
    }
}

/// An item that changes nothing in what is read.
pub open spec fn passive(item: XmlItemView) -> bool {
    match item {
        XmlItemView::Start { name, attributes } => name != "node"@ && name != "data"@ && name
            != "edge"@,
        XmlItemView::End { name } => name != "node"@,
        XmlItemView::Text { text } => false,
        XmlItemView::Other => true,
    }
}

proof fn lemma_passive_run(s: GraphmlState, items: Seq<XmlItemView>, radius: int)
    requires
        forall|i: int| 0 <= i < items.len() ==> passive(#[trigger] items[i]),
    ensures
        run_from(Some(s), items, radius) == Some(s),
    decreases items.len(),
{
    reveal(run_from);
    if items.len() > 0 {
        assert(passive(items[0]));
        assert forall|i: int| 0 <= i < items.drop_first().len() implies passive(
            #[trigger] items.drop_first()[i],
        ) by {
            assert(items.drop_first()[i] == items[i + 1]);
        }
        lemma_passive_run(s, items.drop_first(), radius);
    }
}

proof fn lemma_keep_concat(s: GraphmlState, a: Seq<XmlItemView>, b: Seq<XmlItemView>, radius: int)
    requires
        run_from(Some(s), a, radius) == Some(s),
        run_from(Some(s), b, radius) == Some(s),
    ensures
        run_from(Some(s), a + b, radius) == Some(s),
{
    lemma_run_concat(Some(s), a, b, radius);
}

/// The names that the reading tells apart differ.
proof fn lemma_names_differ()
    ensures
        "key"@ != "node"@ && "key"@ != "data"@ && "key"@ != "edge"@,
        "graph"@ != "node"@ && "graph"@ != "data"@ && "graph"@ != "edge"@,
        "graphml"@ != "node"@ && "graphml"@ != "data"@ && "graphml"@ != "edge"@,
        "data"@ != "node"@ && "edge"@ != "node"@ && "edge"@ != "data"@,
        "target"@ != "source"@,
        "pos_x"@ != "name"@,
        "pos_y"@ != "name"@ && "pos_y"@ != "pos_x"@,
        "ip_addr"@ != "name"@ && "ip_addr"@ != "pos_x"@ && "ip_addr"@ != "pos_y"@,
        "cpu"@ != "name"@ && "cpu"@ != "pos_x"@ && "cpu"@ != "pos_y"@ && "cpu"@ != "ip_addr"@,
        "ram"@ != "name"@ && "ram"@ != "pos_x"@ && "ram"@ != "pos_y"@ && "ram"@ != "ip_addr"@
            && "ram"@ != "cpu"@,
        "rom"@ != "name"@ && "rom"@ != "pos_x"@ && "rom"@ != "pos_y"@ && "rom"@ != "ip_addr"@
            && "rom"@ != "cpu"@ && "rom"@ != "ram"@,
        "os"@ != "name"@ && "os"@ != "pos_x"@ && "os"@ != "pos_y"@ && "os"@ != "ip_addr"@ && "os"@
            != "cpu"@ && "os"@ != "ram"@ && "os"@ != "rom"@,
        "network_bw"@ != "name"@ && "network_bw"@ != "pos_x"@ && "network_bw"@ != "pos_y"@
            && "network_bw"@ != "ip_addr"@ && "network_bw"@ != "cpu"@ && "network_bw"@ != "ram"@
            && "network_bw"@ != "rom"@ && "network_bw"@ != "os"@,
        "software"@ != "name"@ && "software"@ != "pos_x"@ && "software"@ != "pos_y"@
            && "software"@ != "ip_addr"@ && "software"@ != "cpu"@ && "software"@ != "ram"@
            && "software"@ != "rom"@ && "software"@ != "os"@ && "software"@ != "network_bw"@,
{
    reveal_strlit("key");
    reveal_strlit("node");
    reveal_strlit("data");
    reveal_strlit("edge");
    reveal_strlit("graph");
    reveal_strlit("graphml");
    reveal_strlit("target");
    reveal_strlit("source");
    reveal_strlit("name");
    reveal_strlit("pos_x");
    reveal_strlit("pos_y");
    reveal_strlit("ip_addr");
    reveal_strlit("cpu");
    reveal_strlit("ram");
    reveal_strlit("rom");
    reveal_strlit("os");
    reveal_strlit("network_bw");
    reveal_strlit("software");
    assert("key"@.len() == 3);
    assert("node"@.len() == 4);
    assert("data"@.len() == 4);
    assert("edge"@.len() == 4);
    assert("graph"@.len() == 5);
    assert("graphml"@.len() == 7);
    assert("target"@.len() == 6);
    assert("source"@.len() == 6);
    assert("name"@.len() == 4);
    assert("pos_x"@.len() == 5);
    assert("pos_y"@.len() == 5);
    assert("ip_addr"@.len() == 7);
    assert("cpu"@.len() == 3);
    assert("ram"@.len() == 3);
    assert("rom"@.len() == 3);
    assert("os"@.len() == 2);
    assert("network_bw"@.len() == 10);
    assert("software"@.len() == 8);
    assert("data"@[0] != "node"@[0]);
    assert("edge"@[0] != "node"@[0]);
    assert("edge"@[0] != "data"@[0]);
    assert("pos_y"@[4] != "pos_x"@[4]);
    assert("pos_x"@[0] != "name"@[0]);
    assert("cpu"@[0] != "ram"@[0]);
    assert("cpu"@[0] != "rom"@[0]);
    assert("ram"@[1] != "rom"@[1]);
    assert("software"@[0] != "name"@[0]);
    assert("target"@[0] != "source"@[0]);
    assert("os"@.len() == 2);
    assert("os"@ != "name"@ && "os"@ != "pos_x"@ && "os"@ != "pos_y"@ && "os"@ != "ip_addr"@);
    assert("os"@ != "cpu"@ && "os"@ != "ram"@ && "os"@ != "rom"@);
}

/// An element with no content, `<name attributes/>`, and the white space
/// after it.
pub open spec fn empty_element_items(
    name: Seq<char>,
    attributes: Seq<(Seq<char>, Seq<char>)>,
) -> Seq<XmlItemView> {
    seq![
        XmlItemView::Start { name: name, attributes: attributes },
        XmlItemView::End { name: name },
        XmlItemView::Other,
    ]
}

/// The declaration of a node's key in the header.
pub open spec fn key_items(id: Seq<char>, kind: Seq<char>) -> Seq<XmlItemView> {
    empty_element_items(
        "key"@,
        seq![("id"@, id), ("for"@, "node"@), ("attr.name"@, id), ("attr.type"@, kind)],
    )
}

/// What is reported for the header of a saved GraphML document: the
/// start of the document, the root element, each key, and the start of
/// the graph, with the white space between them.
pub open spec fn graphml_header_items() -> Seq<XmlItemView> {
    seq![
        XmlItemView::Other,
        XmlItemView::Start { name: "graphml"@, attributes: Seq::empty() },
        XmlItemView::Other,
    ]
        + key_items("name"@, "string"@) + key_items("pos_x"@, "integer"@) + key_items(
        "pos_y"@,
        "integer"@,
    ) + key_items("ip_addr"@, "string"@) + key_items("cpu"@, "string"@) + key_items(
        "ram"@,
        "string"@,
    ) + key_items("rom"@, "string"@) + key_items("os"@, "string"@) + key_items(
        "network_bw"@,
        "string"@,
    ) + key_items("software"@, "string"@) + seq![
        XmlItemView::Start {
            name: "graph"@,
            attributes: seq![("id"@, "G"@), ("edgedefault"@, "undirected"@)],
        },
        XmlItemView::Other,
    ]
}

/// What is reported for character data: nothing where there is none.
pub open spec fn text_items(text: Seq<char>) -> Seq<XmlItemView> {
    if text.len() == 0 {
        Seq::empty()
    } else {
        seq![XmlItemView::Text { text: text }]
    }
}

/// What is reported for one `data` element and the white space after it.
pub open spec fn data_items(key: Seq<char>, text: Seq<char>) -> Seq<XmlItemView> {
    seq![XmlItemView::Start { name: "data"@, attributes: seq![("key"@, key)] }] + text_items(text)
        + seq![XmlItemView::End { name: "data"@ }, XmlItemView::Other]
}

/// What is reported for the lines of one saved node.
pub open spec fn graphml_node_items(n: NodeView) -> Seq<XmlItemView> {
    seq![XmlItemView::Start { name: "node"@, attributes: seq![("id"@, n.id)] }, XmlItemView::Other]
        + data_items("name"@, n.name) + data_items("pos_x"@, coordinate_text(n.x)) + data_items(
        "pos_y"@,
        coordinate_text(n.y),
    ) + data_items("ip_addr"@, n.ip_addr) + data_items("cpu"@, n.cpu) + data_items("ram"@, n.ram)
        + data_items("rom"@, n.rom) + data_items("os"@, n.os) + data_items(
        "network_bw"@,
        n.network_bw,
    ) + data_items("software"@, n.software) + seq![XmlItemView::End { name: "node"@ }, XmlItemView::Other]
}

/// What is reported for the line of one saved link.
pub open spec fn graphml_edge_items(l: LinkView) -> Seq<XmlItemView> {
    empty_element_items("edge"@, seq![("source"@, l.node1_id), ("target"@, l.node2_id)])
}

pub open spec fn graphml_nodes_items(nodes: Seq<NodeView>) -> Seq<XmlItemView>
    decreases nodes.len(),
{
    if nodes.len() == 0 {
        Seq::empty()
    } else {
        graphml_nodes_items(nodes.drop_last()) + graphml_node_items(nodes.last())
    }
}

pub open spec fn graphml_edges_items(links: Seq<LinkView>) -> Seq<XmlItemView>
    decreases links.len(),
{
    if links.len() == 0 {
        Seq::empty()
    } else {
        graphml_edges_items(links.drop_last()) + graphml_edge_items(links.last())
    }
}

/// What is reported for the last lines of a saved GraphML document, up to
/// the end of the document.
pub open spec fn graphml_footer_items() -> Seq<XmlItemView> {
    seq![
        XmlItemView::End { name: "graph"@ },
        XmlItemView::Other,
        XmlItemView::End { name: "graphml"@ },
        XmlItemView::Other,
    ]
}

/// The items that the XML reader reports for `graphml_document(nodes,
/// links)`, the document that a graph is saved as, where no id, name or
/// attribute needs escaping (none holds `<`, `&`, a double quote or a
/// control character) and none that is not empty is white space alone:
/// each element's start and end, each text, and an `Other` for the start
/// and end of the document and for each run of white space between tags.
pub open spec fn graphml_items(nodes: Seq<NodeView>, links: Seq<LinkView>) -> Seq<XmlItemView> {
    graphml_header_items() + graphml_nodes_items(nodes) + graphml_edges_items(links)
        + graphml_footer_items()
}

/// A node as it is read back: with the radius that reading gives and
/// online.
pub open spec fn as_read(n: NodeView, radius: int) -> NodeView {
    NodeView { radius: radius, is_online: true, ..n }
}

proof fn lemma_data_items(
    s: GraphmlState,
    key: Seq<char>,
    text: Seq<char>,
    node: NodeView,
    radius: int,
)
    requires
        text.len() == 0 ==> s.node == node,
        text.len() > 0 ==> with_data(s.node, key, text) == Some(node),
    ensures
        run_from(Some(s), data_items(key, text), radius) == Some(
            GraphmlState { key: key, node: node, ..s },
        ),
{
    reveal(run_from);
    lemma_names_differ();
    let start = seq![XmlItemView::Start { name: "data"@, attributes: seq![("key"@, key)] }];
    let end = seq![XmlItemView::End { name: "data"@ }, XmlItemView::Other];
    let attributes = seq![("key"@, key)];
    assert(last_attribute(attributes, "key"@, s.key) == key);
    let s1 = GraphmlState { key: key, ..s };
    lemma_run_single(s, start[0], radius);
    assert(start =~= seq![start[0]]);
    let s2 = GraphmlState { key: key, node: node, ..s };
    if text.len() > 0 {
        lemma_run_single(s1, XmlItemView::Text { text: text }, radius);
    } else {
        assert(text_items(text) =~= Seq::<XmlItemView>::empty());
        assert(s1 == s2);
    }
    assert(run_from(Some(s1), text_items(text), radius) == Some(s2));
    assert forall|i: int| 0 <= i < end.len() implies passive(#[trigger] end[i]) by {}
    lemma_passive_run(s2, end, radius);
    lemma_run_concat(Some(s), start, text_items(text), radius);
    lemma_run_concat(Some(s), start + text_items(text), end, radius);
}

proof fn lemma_edge_items(s: GraphmlState, l: LinkView, radius: int)
    ensures
        run_from(Some(s), graphml_edge_items(l), radius) == Some(
            GraphmlState {
                source: l.node1_id,
                target: l.node2_id,
                links: s.links.push(l),
                ..s
            },
        ),
{
    reveal(run_from);
    lemma_names_differ();
    let attributes = seq![("source"@, l.node1_id), ("target"@, l.node2_id)];
    assert(attributes.drop_last() =~= seq![("source"@, l.node1_id)]);
    assert(last_attribute(attributes.drop_last(), "source"@, s.source) == l.node1_id);
    assert(last_attribute(attributes, "source"@, s.source) == l.node1_id);
    assert(last_attribute(attributes, "target"@, s.target) == l.node2_id);
    let items = graphml_edge_items(l);
    let t = GraphmlState {
        source: l.node1_id,
        target: l.node2_id,
        links: s.links.push(l),
        ..s
    };
    assert(items[0] == XmlItemView::Start { name: "edge"@, attributes: attributes });
    assert(LinkView { node1_id: l.node1_id, node2_id: l.node2_id } == l);
    assert(graphml_step(s, items[0], radius) == Some(t));
    let rest = items.drop_first();
    assert forall|i: int| 0 <= i < rest.len() implies passive(#[trigger] rest[i]) by {}
    lemma_passive_run(t, rest, radius);
}


proof fn lemma_then(
    s: GraphmlState,
    a: Seq<XmlItemView>,
    b: Seq<XmlItemView>,
    t: GraphmlState,
    u: GraphmlState,
    radius: int,
)
    requires
        run_from(Some(s), a, radius) == Some(t),
        run_from(Some(t), b, radius) == Some(u),
    ensures
        run_from(Some(s), a + b, radius) == Some(u),
{
    lemma_run_concat(Some(s), a, b, radius);
}


proof fn lemma_name_items(s: GraphmlState, text: Seq<char>, radius: int)
    requires
        s.node.name == Seq::<char>::empty(),
    ensures
        run_from(Some(s), data_items("name"@, text), radius) == Some(
            GraphmlState { key: "name"@, node: NodeView { name: text, ..s.node }, ..s },
        ),
{
    lemma_names_differ();
    if text.len() == 0 {
        assert(text =~= Seq::<char>::empty());
    }
    lemma_data_items(s, "name"@, text, NodeView { name: text, ..s.node }, radius);
}

proof fn lemma_ip_addr_items(s: GraphmlState, text: Seq<char>, radius: int)
    requires
        s.node.ip_addr == Seq::<char>::empty(),
    ensures
        run_from(Some(s), data_items("ip_addr"@, text), radius) == Some(
            GraphmlState { key: "ip_addr"@, node: NodeView { ip_addr: text, ..s.node }, ..s },
        ),
{
    lemma_names_differ();
    if text.len() == 0 {
        assert(text =~= Seq::<char>::empty());
    }
    lemma_data_items(s, "ip_addr"@, text, NodeView { ip_addr: text, ..s.node }, radius);
}

proof fn lemma_cpu_items(s: GraphmlState, text: Seq<char>, radius: int)
    requires
        s.node.cpu == Seq::<char>::empty(),
    ensures
        run_from(Some(s), data_items("cpu"@, text), radius) == Some(
            GraphmlState { key: "cpu"@, node: NodeView { cpu: text, ..s.node }, ..s },
        ),
{
    lemma_names_differ();
    if text.len() == 0 {
        assert(text =~= Seq::<char>::empty());
    }
    lemma_data_items(s, "cpu"@, text, NodeView { cpu: text, ..s.node }, radius);
}

proof fn lemma_ram_items(s: GraphmlState, text: Seq<char>, radius: int)
    requires
        s.node.ram == Seq::<char>::empty(),
    ensures
        run_from(Some(s), data_items("ram"@, text), radius) == Some(
            GraphmlState { key: "ram"@, node: NodeView { ram: text, ..s.node }, ..s },
        ),
{
    lemma_names_differ();
    if text.len() == 0 {
        assert(text =~= Seq::<char>::empty());
    }
    lemma_data_items(s, "ram"@, text, NodeView { ram: text, ..s.node }, radius);
}

proof fn lemma_rom_items(s: GraphmlState, text: Seq<char>, radius: int)
    requires
        s.node.rom == Seq::<char>::empty(),
    ensures
        run_from(Some(s), data_items("rom"@, text), radius) == Some(
            GraphmlState { key: "rom"@, node: NodeView { rom: text, ..s.node }, ..s },
        ),
{
    lemma_names_differ();
    if text.len() == 0 {
        assert(text =~= Seq::<char>::empty());
    }
    lemma_data_items(s, "rom"@, text, NodeView { rom: text, ..s.node }, radius);
}

proof fn lemma_os_items(s: GraphmlState, text: Seq<char>, radius: int)
    requires
        s.node.os == Seq::<char>::empty(),
    ensures
        run_from(Some(s), data_items("os"@, text), radius) == Some(
            GraphmlState { key: "os"@, node: NodeView { os: text, ..s.node }, ..s },
        ),
{
    lemma_names_differ();
    if text.len() == 0 {
        assert(text =~= Seq::<char>::empty());
    }
    lemma_data_items(s, "os"@, text, NodeView { os: text, ..s.node }, radius);
}

proof fn lemma_network_bw_items(s: GraphmlState, text: Seq<char>, radius: int)
    requires
        s.node.network_bw == Seq::<char>::empty(),
    ensures
        run_from(Some(s), data_items("network_bw"@, text), radius) == Some(
            GraphmlState { key: "network_bw"@, node: NodeView { network_bw: text, ..s.node }, ..s },
        ),
{
    lemma_names_differ();
    if text.len() == 0 {
        assert(text =~= Seq::<char>::empty());
    }
    lemma_data_items(s, "network_bw"@, text, NodeView { network_bw: text, ..s.node }, radius);
}

proof fn lemma_software_items(s: GraphmlState, text: Seq<char>, radius: int)
    requires
        s.node.software == Seq::<char>::empty(),
    ensures
        run_from(Some(s), data_items("software"@, text), radius) == Some(
            GraphmlState { key: "software"@, node: NodeView { software: text, ..s.node }, ..s },
        ),
{
    lemma_names_differ();
    if text.len() == 0 {
        assert(text =~= Seq::<char>::empty());
    }
    lemma_data_items(s, "software"@, text, NodeView { software: text, ..s.node }, radius);
}

proof fn lemma_pos_x_items(s: GraphmlState, v: int, radius: int)
    requires
        -COORDINATE_LIMIT <= v <= COORDINATE_LIMIT,
    ensures
        run_from(Some(s), data_items("pos_x"@, coordinate_text(v)), radius) == Some(
            GraphmlState { key: "pos_x"@, node: NodeView { x: v, ..s.node }, ..s },
        ),
{
    lemma_names_differ();
    lemma_coordinate_round_trip(v);
    let t = coordinate_text(v);
    if t.len() == 0 {
        assert(t =~= Seq::<char>::empty());
    }
    lemma_data_items(s, "pos_x"@, t, NodeView { x: v, ..s.node }, radius);
}

proof fn lemma_pos_y_items(s: GraphmlState, v: int, radius: int)
    requires
        -COORDINATE_LIMIT <= v <= COORDINATE_LIMIT,
    ensures
        run_from(Some(s), data_items("pos_y"@, coordinate_text(v)), radius) == Some(
            GraphmlState { key: "pos_y"@, node: NodeView { y: v, ..s.node }, ..s },
        ),
{
    lemma_names_differ();
    lemma_coordinate_round_trip(v);
    let t = coordinate_text(v);
    if t.len() == 0 {
        assert(t =~= Seq::<char>::empty());
    }
    lemma_data_items(s, "pos_y"@, t, NodeView { y: v, ..s.node }, radius);
}

proof fn lemma_node_open(s: GraphmlState, id: Seq<char>, radius: int)
    ensures
        run_from(
            Some(s),
            seq![XmlItemView::Start { name: "node"@, attributes: seq![("id"@, id)] }, XmlItemView::Other],
            radius,
        ) == Some(GraphmlState { node: NodeView { id: id, ..blank_node_view() }, ..s }),
{
    reveal(run_from);
    let open = seq![XmlItemView::Start { name: "node"@, attributes: seq![("id"@, id)] }, XmlItemView::Other];
    let s0 = GraphmlState { node: NodeView { id: id, ..blank_node_view() }, ..s };
    assert(last_attribute(seq![("id"@, id)], "id"@, Seq::empty()) == id);
    assert(graphml_step(s, open[0], radius) == Some(s0));
    assert(open.drop_first() =~= seq![XmlItemView::Other]);
    lemma_run_single(s0, XmlItemView::Other, radius);
}

proof fn lemma_node_close(s: GraphmlState, radius: int)
    requires
        !at_origin(s.node),
    ensures
        run_from(Some(s), seq![XmlItemView::End { name: "node"@ }, XmlItemView::Other], radius)
            == Some(
            GraphmlState {
                node: NodeView { radius: radius, ..s.node },
                nodes: s.nodes.push(NodeView { radius: radius, ..s.node }),
                occupied: s.occupied.push((s.node.x, s.node.y)),
                ..s
            },
        ),
{
    reveal(run_from);
    let close = seq![XmlItemView::End { name: "node"@ }, XmlItemView::Other];
    let t = GraphmlState {
        node: NodeView { radius: radius, ..s.node },
        nodes: s.nodes.push(NodeView { radius: radius, ..s.node }),
        occupied: s.occupied.push((s.node.x, s.node.y)),
        ..s
    };
    assert(graphml_step(s, close[0], radius) == Some(t));
    assert(close.drop_first() =~= seq![XmlItemView::Other]);
    lemma_run_single(t, XmlItemView::Other, radius);
}

proof fn lemma_node_items(s: GraphmlState, n: NodeView, radius: int)
    requires
        -COORDINATE_LIMIT <= n.x <= COORDINATE_LIMIT,
        -COORDINATE_LIMIT <= n.y <= COORDINATE_LIMIT,
        !at_origin(n),
    ensures
        run_from(Some(s), graphml_node_items(n), radius) == Some(
            GraphmlState {
                node: as_read(n, radius),
                key: "software"@,
                nodes: s.nodes.push(as_read(n, radius)),
                occupied: s.occupied.push((n.x, n.y)),
                ..s
            },
        ),
{
    let open = seq![
        XmlItemView::Start { name: "node"@, attributes: seq![("id"@, n.id)] },
        XmlItemView::Other,
    ];
    let s0 = GraphmlState { node: NodeView { id: n.id, ..blank_node_view() }, ..s };
    lemma_node_open(s, n.id, radius);
    let a0 = open;
    lemma_name_items(s0, n.name, radius);
    let s1 = GraphmlState { key: "name"@, node: NodeView { name: n.name, ..s0.node }, ..s0 };
    lemma_then(s, a0, data_items("name"@, n.name), s0, s1, radius);
    let a1 = a0 + data_items("name"@, n.name);
    lemma_pos_x_items(s1, n.x, radius);
    let s2 = GraphmlState { key: "pos_x"@, node: NodeView { x: n.x, ..s1.node }, ..s1 };
    lemma_then(s, a1, data_items("pos_x"@, coordinate_text(n.x)), s1, s2, radius);
    let a2 = a1 + data_items("pos_x"@, coordinate_text(n.x));
    lemma_pos_y_items(s2, n.y, radius);
    let s3 = GraphmlState { key: "pos_y"@, node: NodeView { y: n.y, ..s2.node }, ..s2 };
    lemma_then(s, a2, data_items("pos_y"@, coordinate_text(n.y)), s2, s3, radius);
    let a3 = a2 + data_items("pos_y"@, coordinate_text(n.y));
    lemma_ip_addr_items(s3, n.ip_addr, radius);
    let s4 = GraphmlState { key: "ip_addr"@, node: NodeView { ip_addr: n.ip_addr, ..s3.node }, ..s3 };
    lemma_then(s, a3, data_items("ip_addr"@, n.ip_addr), s3, s4, radius);
    let a4 = a3 + data_items("ip_addr"@, n.ip_addr);
    lemma_cpu_items(s4, n.cpu, radius);
    let s5 = GraphmlState { key: "cpu"@, node: NodeView { cpu: n.cpu, ..s4.node }, ..s4 };
    lemma_then(s, a4, data_items("cpu"@, n.cpu), s4, s5, radius);
    let a5 = a4 + data_items("cpu"@, n.cpu);
    lemma_ram_items(s5, n.ram, radius);
    let s6 = GraphmlState { key: "ram"@, node: NodeView { ram: n.ram, ..s5.node }, ..s5 };
    lemma_then(s, a5, data_items("ram"@, n.ram), s5, s6, radius);
    let a6 = a5 + data_items("ram"@, n.ram);
    lemma_rom_items(s6, n.rom, radius);
    let s7 = GraphmlState { key: "rom"@, node: NodeView { rom: n.rom, ..s6.node }, ..s6 };
    lemma_then(s, a6, data_items("rom"@, n.rom), s6, s7, radius);
    let a7 = a6 + data_items("rom"@, n.rom);
    lemma_os_items(s7, n.os, radius);
    let s8 = GraphmlState { key: "os"@, node: NodeView { os: n.os, ..s7.node }, ..s7 };
    lemma_then(s, a7, data_items("os"@, n.os), s7, s8, radius);
    let a8 = a7 + data_items("os"@, n.os);
    lemma_network_bw_items(s8, n.network_bw, radius);
    let s9 = GraphmlState {
        key: "network_bw"@,
        node: NodeView { network_bw: n.network_bw, ..s8.node },
        ..s8
    };
    lemma_then(s, a8, data_items("network_bw"@, n.network_bw), s8, s9, radius);
    let a9 = a8 + data_items("network_bw"@, n.network_bw);
    lemma_software_items(s9, n.software, radius);
    let s10 = GraphmlState { key: "software"@, node: NodeView { software: n.software, ..s9.node }, ..s9 };
    lemma_then(s, a9, data_items("software"@, n.software), s9, s10, radius);
    let a10 = a9 + data_items("software"@, n.software);
    let close = seq![XmlItemView::End { name: "node"@ }, XmlItemView::Other];
    let node = as_read(n, radius);
    assert(NodeView { radius: radius, ..s10.node } == node);
    let last = GraphmlState {
        node: node,
        key: "software"@,
        nodes: s.nodes.push(node),
        occupied: s.occupied.push((n.x, n.y)),
        ..s
    };
    lemma_node_close(s10, radius);
    lemma_then(s, a10, close, s10, last, radius);
}


/// The nodes as they are read back.
pub open spec fn read_back(nodes: Seq<NodeView>, radius: int) -> Seq<NodeView> {
    nodes.map_values(|n: NodeView| as_read(n, radius))
}

/// Every node has a position other than the origin, within the coordinate
/// limit.
pub open spec fn all_positioned(nodes: Seq<NodeView>) -> bool {
    forall|i: int|
        0 <= i < nodes.len() ==> -COORDINATE_LIMIT <= #[trigger] nodes[i].x <= COORDINATE_LIMIT
            && -COORDINATE_LIMIT <= nodes[i].y <= COORDINATE_LIMIT && !at_origin(nodes[i])
}

proof fn lemma_nodes_items(s: GraphmlState, nodes: Seq<NodeView>, radius: int)
    requires
        all_positioned(nodes),
    ensures
        run_from(Some(s), graphml_nodes_items(nodes), radius) is Some,
        run_from(Some(s), graphml_nodes_items(nodes), radius)->0.nodes == s.nodes + read_back(
            nodes,
            radius,
        ),
        run_from(Some(s), graphml_nodes_items(nodes), radius)->0.links == s.links,
        run_from(Some(s), graphml_nodes_items(nodes), radius)->0.unplaced == s.unplaced,
    decreases nodes.len(),
{
    if nodes.len() == 0 {
        reveal(run_from);
        assert(s.nodes + read_back(nodes, radius) =~= s.nodes);
    } else {
        let front = nodes.drop_last();
        let n = nodes.last();
        assert(all_positioned(front)) by {
            assert forall|i: int| 0 <= i < front.len() implies -COORDINATE_LIMIT
                <= #[trigger] front[i].x <= COORDINATE_LIMIT && -COORDINATE_LIMIT <= front[i].y
                <= COORDINATE_LIMIT && !at_origin(front[i]) by {
                assert(front[i] == nodes[i]);
            }
        }
        lemma_nodes_items(s, front, radius);
        let t = run_from(Some(s), graphml_nodes_items(front), radius)->0;
        assert(nodes[nodes.len() - 1] == n);
        lemma_node_items(t, n, radius);
        lemma_run_concat(Some(s), graphml_nodes_items(front), graphml_node_items(n), radius);
        assert(read_back(nodes, radius) =~= read_back(front, radius).push(as_read(n, radius)));
        assert(s.nodes + read_back(nodes, radius) =~= (s.nodes + read_back(front, radius)).push(
            as_read(n, radius),
        ));
    }
}

proof fn lemma_edges_items(s: GraphmlState, links: Seq<LinkView>, radius: int)
    ensures
        run_from(Some(s), graphml_edges_items(links), radius) is Some,
        run_from(Some(s), graphml_edges_items(links), radius)->0.nodes == s.nodes,
        run_from(Some(s), graphml_edges_items(links), radius)->0.links == s.links + links,
        run_from(Some(s), graphml_edges_items(links), radius)->0.unplaced == s.unplaced,
    decreases links.len(),
{
    if links.len() == 0 {
        reveal(run_from);
        assert(s.links + links =~= s.links);
    } else {
        let front = links.drop_last();
        let l = links.last();
        lemma_edges_items(s, front, radius);
        let t = run_from(Some(s), graphml_edges_items(front), radius)->0;
        lemma_edge_items(t, l, radius);
        lemma_run_concat(Some(s), graphml_edges_items(front), graphml_edge_items(l), radius);
        assert(s.links + links =~= (s.links + front).push(l));
    }
}

proof fn lemma_key_items(s: GraphmlState, id: Seq<char>, kind: Seq<char>, radius: int)
    ensures
        run_from(Some(s), key_items(id, kind), radius) == Some(s),
{
    lemma_names_differ();
    let items = key_items(id, kind);
    assert forall|i: int| 0 <= i < items.len() implies passive(#[trigger] items[i]) by {}
    lemma_passive_run(s, items, radius);
}

proof fn lemma_header_items(s: GraphmlState, radius: int)
    ensures
        run_from(Some(s), graphml_header_items(), radius) == Some(s),
{
    lemma_names_differ();
    let first = seq![
        XmlItemView::Other,
        XmlItemView::Start { name: "graphml"@, attributes: Seq::empty() },
        XmlItemView::Other,
    ];
    assert forall|i: int| 0 <= i < first.len() implies passive(#[trigger] first[i]) by {}
    lemma_passive_run(s, first, radius);
    let last = seq![
        XmlItemView::Start {
            name: "graph"@,
            attributes: seq![("id"@, "G"@), ("edgedefault"@, "undirected"@)],
        },
        XmlItemView::Other,
    ];
    assert forall|i: int| 0 <= i < last.len() implies passive(#[trigger] last[i]) by {}
    lemma_passive_run(s, last, radius);
    let h0 = first;
    lemma_key_items(s, "name"@, "string"@, radius);
    lemma_keep_concat(s, h0, key_items("name"@, "string"@), radius);
    let h1 = h0 + key_items("name"@, "string"@);
    lemma_key_items(s, "pos_x"@, "integer"@, radius);
    lemma_keep_concat(s, h1, key_items("pos_x"@, "integer"@), radius);
    let h2 = h1 + key_items("pos_x"@, "integer"@);
    lemma_key_items(s, "pos_y"@, "integer"@, radius);
    lemma_keep_concat(s, h2, key_items("pos_y"@, "integer"@), radius);
    let h3 = h2 + key_items("pos_y"@, "integer"@);
    lemma_key_items(s, "ip_addr"@, "string"@, radius);
    lemma_keep_concat(s, h3, key_items("ip_addr"@, "string"@), radius);
    let h4 = h3 + key_items("ip_addr"@, "string"@);
    lemma_key_items(s, "cpu"@, "string"@, radius);
    lemma_keep_concat(s, h4, key_items("cpu"@, "string"@), radius);
    let h5 = h4 + key_items("cpu"@, "string"@);
    lemma_key_items(s, "ram"@, "string"@, radius);
    lemma_keep_concat(s, h5, key_items("ram"@, "string"@), radius);
    let h6 = h5 + key_items("ram"@, "string"@);
    lemma_key_items(s, "rom"@, "string"@, radius);
    lemma_keep_concat(s, h6, key_items("rom"@, "string"@), radius);
    let h7 = h6 + key_items("rom"@, "string"@);
    lemma_key_items(s, "os"@, "string"@, radius);
    lemma_keep_concat(s, h7, key_items("os"@, "string"@), radius);
    let h8 = h7 + key_items("os"@, "string"@);
    lemma_key_items(s, "network_bw"@, "string"@, radius);
    lemma_keep_concat(s, h8, key_items("network_bw"@, "string"@), radius);
    let h9 = h8 + key_items("network_bw"@, "string"@);
    lemma_key_items(s, "software"@, "string"@, radius);
    lemma_keep_concat(s, h9, key_items("software"@, "string"@), radius);
    let h10 = h9 + key_items("software"@, "string"@);
    lemma_keep_concat(s, h10, last, radius);
    assert(graphml_header_items() == h10 + last);
}

proof fn lemma_footer_items(s: GraphmlState, radius: int)
    ensures
        run_from(Some(s), graphml_footer_items(), radius) == Some(s),
{
    lemma_names_differ();
    let items = graphml_footer_items();
    assert forall|i: int| 0 <= i < items.len() implies passive(#[trigger] items[i]) by {}
    lemma_passive_run(s, items, radius);
}

/// Reading the items of a saved GraphML document gives the saved graph
/// back: its nodes in order, each with the radius that reading gives and
/// online, and its links in order, where every node has a position other
/// than the origin, within the coordinate limit.
pub proof fn lemma_graphml_round_trip(nodes: Seq<NodeView>, links: Seq<LinkView>, radius: int)
    requires
        all_positioned(nodes),
    ensures
        graphml_graph(graphml_items(nodes, links), radius) == Some(
            (read_back(nodes, radius), links),
        ),
{
    let init = initial_state();
    let header = graphml_header_items();
    let ni = graphml_nodes_items(nodes);
    let ei = graphml_edges_items(links);
    let fi = graphml_footer_items();
    lemma_run_is_run_from(graphml_items(nodes, links), radius);
    lemma_header_items(init, radius);
    lemma_nodes_items(init, nodes, radius);
    let t1 = run_from(Some(init), ni, radius)->0;
    lemma_edges_items(t1, links, radius);
    let t2 = run_from(Some(t1), ei, radius)->0;
    lemma_footer_items(t2, radius);
    lemma_run_concat(Some(init), header, ni, radius);
    lemma_run_concat(Some(init), header + ni, ei, radius);
    lemma_run_concat(Some(init), header + ni + ei, fi, radius);
    assert(init.nodes + read_back(nodes, radius) =~= read_back(nodes, radius));
    assert(init.links + links =~= links);
    let g = graphml_run(graphml_items(nodes, links), radius)->0;
    assert(g == t2);
    assert(g.unplaced.len() == 0);
    let (placed, _) = placements(g.nodes, g.links, g.unplaced, g.occupied);
    assert(placed.len() == 0);
    assert(apply_placements(g.nodes, placed) == g.nodes);
}

} // verus!
