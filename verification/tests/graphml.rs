use p2p_network_visualizer::files::{parse_file, LoadError};
use p2p_network_visualizer::graphml_parser::{graphml_readable, parse_graphml, GraphmlError};
use p2p_network_visualizer::model::{Link, Node, Point};
use p2p_network_visualizer::saver::save_to_graphml;

const RADIUS: i64 = 15_000;

fn read(document: &str) -> (Result<(), GraphmlError>, Vec<Node>, Vec<Link>) {
    let mut nodes = Vec::new();
    let mut links = Vec::new();
    let r = parse_graphml(RADIUS, &mut nodes, &mut links, document.as_bytes());
    (r, nodes, links)
}

fn node(id: &str, name: &str, x: i64, y: i64) -> Node {
    let mut n = Node::new();
    n.id = id.to_string();
    n.name = name.to_string();
    n.center = Point { x, y };
    n.radius = RADIUS;
    n
}

const SAMPLE: &str = r#"<?xml version="1.0" encoding="UTF-8"?>
<graphml xmlns="http://graphml.graphdrawing.org/xmlns">
<graph id="G" edgedefault="undirected">
<node id="a"><data key="name">Alpha</data><data key="pos_x">100</data><data key="pos_y">50</data><data key="cpu">i7</data><data key="os">Linux</data></node>
<node id="b"><data key="name">Beta</data><data key="pos_x">300</data><data key="pos_y">150.5</data></node>
<node id="c"><data key="name">Gamma</data></node>
<node id="d"><data key="name">Delta</data></node>
<node id="e"><data key="name">Epsilon</data></node>
<edge source="a" target="c"/>
<edge source="c" target="b"/>
</graph>
</graphml>
"#;

#[test]
fn reads_nodes_with_their_attributes() {
    let (r, nodes, _) = read(SAMPLE);
    assert!(r.is_ok());
    assert_eq!(nodes.len(), 5);
    assert_eq!(nodes[0].id, "a");
    assert_eq!(nodes[0].name, "Alpha");
    assert_eq!(nodes[0].cpu, "i7");
    assert_eq!(nodes[0].os, "Linux");
    assert_eq!(nodes[0].ram, "");
    assert_eq!(nodes[0].center, Point { x: 100_000, y: 50_000 });
    assert_eq!(nodes[1].center, Point { x: 300_000, y: 150_500 });
    assert!(nodes.iter().all(|n| n.radius == RADIUS && n.is_online));
}

#[test]
fn reads_links_in_order() {
    let (_, _, links) = read(SAMPLE);
    assert_eq!(links.len(), 2);
    assert_eq!((links[0].node1_id.as_str(), links[0].node2_id.as_str()), ("a", "c"));
    assert_eq!((links[1].node1_id.as_str(), links[1].node2_id.as_str()), ("c", "b"));
}

#[test]
fn places_a_node_at_the_mean_of_its_placed_neighbours() {
    let (_, nodes, _) = read(SAMPLE);
    // (100 + 300) / 2 = 200, (50 + 150.5) / 2 = 100.25
    assert_eq!(nodes[2].center, Point { x: 200_000, y: 100_250 });
}

#[test]
fn places_a_node_without_neighbours_at_the_default_spot_and_shifts_the_next() {
    let (_, nodes, _) = read(SAMPLE);
    assert_eq!(nodes[3].center, Point { x: 400_000, y: 200_000 });
    assert_eq!(nodes[4].center, Point { x: 435_000, y: 200_000 });
}

#[test]
fn shifts_right_past_a_node_read_with_a_position() {
    let doc = r#"<graphml><graph>
<node id="p"><data key="pos_x">400</data><data key="pos_y">200</data></node>
<node id="q"><data key="pos_x">435</data><data key="pos_y">200</data></node>
<node id="r"></node>
</graph></graphml>"#;
    let (r, nodes, _) = read(doc);
    assert!(r.is_ok());
    assert_eq!(nodes[2].center, Point { x: 470_000, y: 200_000 });
}

#[test]
fn rounds_the_mean_to_thousandths() {
    let doc = r#"<graphml><graph>
<node id="a"><data key="pos_x">0.001</data><data key="pos_y">1</data></node>
<node id="b"><data key="pos_x">0.001</data><data key="pos_y">2</data></node>
<node id="c"><data key="pos_x">0.002</data><data key="pos_y">6</data></node>
<node id="n"></node>
<edge source="n" target="a"/><edge source="n" target="b"/><edge source="n" target="c"/>
</graph></graphml>"#;
    let (r, nodes, _) = read(doc);
    assert!(r.is_ok());
    // (1 + 1 + 2) / 3 = 1.333.. thousandths; (1 + 2 + 6) / 3 = 3
    assert_eq!(nodes[3].center, Point { x: 1, y: 3_000 });
}

#[test]
fn an_edge_without_a_source_keeps_the_last_one() {
    let doc = r#"<graphml><graph>
<edge source="a" target="b"/>
<edge target="c"/>
</graph></graphml>"#;
    let (_, _, links) = read(doc);
    assert_eq!(links.len(), 2);
    assert_eq!(links[1].node1_id, "a");
    assert_eq!(links[1].node2_id, "c");
}

#[test]
fn a_node_without_an_id_gets_an_empty_id() {
    let (r, nodes, _) = read("<graphml><node><data key=\"name\">x</data></node></graphml>");
    assert!(r.is_ok());
    assert_eq!(nodes[0].id, "");
    assert_eq!(nodes[0].name, "x");
}

#[test]
fn a_coordinate_that_is_not_a_number_is_refused_and_nothing_changes() {
    let mut nodes = vec![node("old", "Old", 1, 2)];
    let mut links = vec![Link { node1_id: "old".to_string(), node2_id: "old".to_string() }];
    let doc = "<graphml><node id=\"a\"><data key=\"pos_x\">abc</data></node></graphml>";
    assert!(!graphml_readable(RADIUS, doc.as_bytes()));
    let r = parse_file(RADIUS, &mut nodes, &mut links, "graph.graphml", doc.as_bytes());
    assert!(matches!(r, Err(LoadError::Graphml(GraphmlError::InvalidCoordinate))));
    assert_eq!(nodes.len(), 1);
    assert_eq!(nodes[0].id, "old");
    assert_eq!(links.len(), 1);
}

#[test]
fn reading_replaces_what_was_there() {
    let mut nodes = vec![node("old", "Old", 1, 2)];
    let mut links = vec![Link { node1_id: "old".to_string(), node2_id: "old".to_string() }];
    let r = parse_graphml(RADIUS, &mut nodes, &mut links, SAMPLE.as_bytes());
    assert!(r.is_ok());
    assert_eq!(nodes.len(), 5);
    assert_eq!(links.len(), 2);
}

#[test]
fn a_malformed_document_gives_what_was_read_before_the_error() {
    let (r, nodes, _) = read("<graphml><node id=\"a\"></node><node id=\"b\">");
    assert!(r.is_ok());
    assert_eq!(nodes.len(), 1);
    assert_eq!(nodes[0].id, "a");
}

#[test]
fn a_saved_graph_reads_back() {
    let mut a = node("a", "Alpha", 120_500, -30_000);
    a.ip_addr = "10.0.0.1".to_string();
    a.software = "nginx".to_string();
    let b = node("b", "Beta", 5, 7_250);
    let nodes = vec![a, b];
    let links = vec![Link { node1_id: "a".to_string(), node2_id: "b".to_string() }];
    let document = save_to_graphml(&nodes, &links);
    let (r, read_nodes, read_links) = read(&document);
    assert!(r.is_ok());
    assert_eq!(read_nodes.len(), 2);
    for (x, y) in nodes.iter().zip(read_nodes.iter()) {
        assert_eq!(x.id, y.id);
        assert_eq!(x.name, y.name);
        assert_eq!(x.center, y.center);
        assert_eq!(x.ip_addr, y.ip_addr);
        assert_eq!(x.software, y.software);
        assert_eq!(x.cpu, y.cpu);
    }
    assert_eq!(read_links.len(), 1);
    assert_eq!(read_links[0].node1_id, "a");
    assert_eq!(read_links[0].node2_id, "b");
}

#[test]
fn a_shared_id_places_the_last_node_with_that_id() {
    let doc = r#"<graphml><graph>
<node id="a"></node>
<node id="a"><data key="pos_x">10</data><data key="pos_y">10</data></node>
</graph></graphml>"#;
    let (r, nodes, _) = read(doc);
    assert!(r.is_ok());
    assert_eq!(nodes[0].center, Point { x: 0, y: 0 });
    assert_eq!(nodes[1].center, Point { x: 400_000, y: 200_000 });
}

#[test]
fn positioned_nodes_keep_their_positions() {
    let (_, nodes, _) = read(SAMPLE);
    assert_eq!(nodes[0].center, Point { x: 100_000, y: 50_000 });
    assert_eq!(nodes[1].center, Point { x: 300_000, y: 150_500 });
}

#[test]
fn reads_coordinates_in_exponent_form() {
    let doc = r#"<graphml><graph>
<node id="a"><data key="pos_x">1e3</data><data key="pos_y">2.5E-1</data></node>
</graph></graphml>"#;
    assert!(graphml_readable(RADIUS, doc.as_bytes()));
    let (r, nodes, _) = read(doc);
    assert!(r.is_ok());
    assert_eq!(nodes[0].center, Point { x: 1_000_000, y: 250 });
}

#[test]
fn a_readable_document_is_recognised() {
    assert!(graphml_readable(RADIUS, SAMPLE.as_bytes()));
    assert!(!graphml_readable(RADIUS, b"<graphml><node><data key=\"pos_y\">12px</data></node></graphml>"));
}
