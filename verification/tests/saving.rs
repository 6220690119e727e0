use p2p_network_visualizer::files::{parse_file, save_to_file, LoadError};
use p2p_network_visualizer::model::{Link, Node, Point};
use p2p_network_visualizer::saver::{save_to_gexf, save_to_graphml};

fn sample() -> (Vec<Node>, Vec<Link>) {
    let mut a = Node::new();
    a.id = "n1".to_string();
    a.name = "Server".to_string();
    a.center = Point { x: 250_000, y: 100_500 };
    a.cpu = "x86".to_string();
    let mut b = Node::new();
    b.id = "n2".to_string();
    b.name = "Client".to_string();
    b.center = Point { x: -3, y: 0 };
    let links = vec![Link { node1_id: "n1".to_string(), node2_id: "n2".to_string() }];
    (vec![a, b], links)
}

const GRAPHML: &str = r#"<?xml version="1.0" encoding="UTF-8"?>
<graphml xmlns="http://graphml.graphdrawing.org/xmlns">
<key id="name" for="node" attr.name="name" attr.type="string"/>
<key id="pos_x" for="node" attr.name="pos_x" attr.type="integer"/>
<key id="pos_y" for="node" attr.name="pos_y" attr.type="integer"/>
<key id="ip_addr" for="node" attr.name="ip_addr" attr.type="string"/>
<key id="cpu" for="node" attr.name="cpu" attr.type="string"/>
<key id="ram" for="node" attr.name="ram" attr.type="string"/>
<key id="rom" for="node" attr.name="rom" attr.type="string"/>
<key id="os" for="node" attr.name="os" attr.type="string"/>
<key id="network_bw" for="node" attr.name="network_bw" attr.type="string"/>
<key id="software" for="node" attr.name="software" attr.type="string"/>
<graph id="G" edgedefault="undirected">
<node id="n1">
<data key="name">Server</data>
<data key="pos_x">250</data>
<data key="pos_y">100.5</data>
<data key="ip_addr"></data>
<data key="cpu">x86</data>
<data key="ram"></data>
<data key="rom"></data>
<data key="os"></data>
<data key="network_bw"></data>
<data key="software"></data>
</node>
<node id="n2">
<data key="name">Client</data>
<data key="pos_x">-0.003</data>
<data key="pos_y">0</data>
<data key="ip_addr"></data>
<data key="cpu"></data>
<data key="ram"></data>
<data key="rom"></data>
<data key="os"></data>
<data key="network_bw"></data>
<data key="software"></data>
</node>
<edge source="n1" target="n2"/>
</graph>
</graphml>
"#;

#[test]
fn graphml_document_of_a_graph() {
    let (nodes, links) = sample();
    assert_eq!(save_to_graphml(&nodes, &links), GRAPHML);
}

#[test]
fn gexf_document_of_a_graph() {
    let (nodes, links) = sample();
    let doc = save_to_gexf(&nodes, &links);
    assert!(doc.starts_with("<?xml version=\"1.0\" encoding=\"UTF-8\"?>\n<gexf xmlns=\"http://gexf.net/1.2\" version=\"1.2\">\n"));
    assert!(doc.contains("<node id=\"n1\" label=\"Server\">\n<attvalues>\n<attvalue for=\"pos_x\" value=\"250\"/>\n<attvalue for=\"pos_y\" value=\"100.5\"/>\n"));
    assert!(doc.contains("<attvalue for=\"cpu\" value=\"x86\"/>\n"));
    assert!(doc.contains("</nodes>\n<edges>\n<edge id=\"n1\" source=\"n1\" target=\"n2\"/>\n</edges>\n</graph>\n</gexf>\n"));
    assert!(doc.ends_with("</gexf>\n"));
}

#[test]
fn empty_graph_documents() {
    let doc = save_to_graphml(&vec![], &vec![]);
    assert!(doc.ends_with("<graph id=\"G\" edgedefault=\"undirected\">\n</graph>\n</graphml>\n"));
    let doc = save_to_gexf(&vec![], &vec![]);
    assert!(doc.ends_with("<nodes>\n</nodes>\n<edges>\n</edges>\n</graph>\n</gexf>\n"));
}

#[test]
fn the_extension_chooses_the_format() {
    let (nodes, links) = sample();
    assert_eq!(save_to_file(&nodes, &links, "/tmp/graph.graphml"), Ok(save_to_graphml(&nodes, &links)));
    assert_eq!(save_to_file(&nodes, &links, "/tmp/graph.gexf"), Ok(save_to_gexf(&nodes, &links)));
}

#[test]
fn a_path_without_an_extension_is_saved_as_gexf() {
    let (nodes, links) = sample();
    assert_eq!(save_to_file(&nodes, &links, "/tmp/graph"), Ok(save_to_gexf(&nodes, &links)));
}

#[test]
fn a_hidden_file_named_graphml_is_saved_as_graphml() {
    let (nodes, links) = sample();
    assert_eq!(save_to_file(&nodes, &links, "/tmp/.graphml"), Ok(save_to_graphml(&nodes, &links)));
}

#[test]
fn another_extension_is_refused() {
    let (nodes, links) = sample();
    assert_eq!(
        save_to_file(&nodes, &links, "/tmp/graph.txt"),
        Err("Nepodržani format. Odaberite isključivo .graphml ili .gexf format.".to_string())
    );
}

#[test]
fn loading_chooses_by_extension() {
    let (nodes, links) = sample();
    let doc = save_to_graphml(&nodes, &links);
    let mut n = Vec::new();
    let mut l = Vec::new();
    assert!(parse_file(15_000, &mut n, &mut l, "/tmp/g.graphml", doc.as_bytes()).is_ok());
    assert_eq!(n.len(), 2);
    assert_eq!(l.len(), 1);
    assert_eq!(n[1].center, Point { x: -3, y: 0 });
    assert_eq!(n[0].radius, 15_000);
}

#[test]
fn loading_another_format_is_refused_and_nothing_changes() {
    let (nodes, links) = sample();
    let mut n = nodes;
    let mut l = links;
    match parse_file(15_000, &mut n, &mut l, "/tmp/g.txt", b"<graphml/>") {
        Err(LoadError::Rejected(m)) => assert_eq!(
            m,
            "Nepodržani format datoteke! Učitajte isključivo .graphml ili .gexf datoteku."
        ),
        _ => panic!("expected a refusal"),
    }
    assert_eq!(n.len(), 2);
    assert_eq!(l.len(), 1);
}

#[test]
fn loading_a_bad_coordinate_reports_it() {
    let mut n = Vec::new();
    let mut l = Vec::new();
    let doc = "<graphml><node id=\"a\"><data key=\"pos_y\">1,5</data></node></graphml>";
    let r = parse_file(15_000, &mut n, &mut l, "g.graphml", doc.as_bytes());
    assert!(matches!(r, Err(LoadError::Graphml(_))));
    assert!(n.is_empty());
}

#[test]
fn plain_file_names_follow_the_extension_rule() {
    let (nodes, links) = sample();
    assert_eq!(save_to_file(&nodes, &links, "mreza.graphml"), Ok(save_to_graphml(&nodes, &links)));
    assert_eq!(save_to_file(&nodes, &links, "mreza.v2.gexf"), Ok(save_to_gexf(&nodes, &links)));
    assert_eq!(save_to_file(&nodes, &links, "mreza"), Ok(save_to_gexf(&nodes, &links)));
    assert!(save_to_file(&nodes, &links, "mreza.txt").is_err());
    let mut n = Vec::new();
    let mut l = Vec::new();
    assert!(matches!(
        parse_file(15_000, &mut n, &mut l, "mreza.txt", b"<graphml/>"),
        Err(LoadError::Rejected(_))
    ));
    assert!(matches!(
        parse_file(15_000, &mut n, &mut l, ".graphml", b"<graphml/>"),
        Err(LoadError::Rejected(_))
    ));
    assert!(parse_file(15_000, &mut n, &mut l, "mreza.graphml", b"<graphml/>").is_ok());
}
