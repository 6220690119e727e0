use p2p_network_visualizer::api::{
    apply_update_request, node_down, node_up, send_failed_response, update_node,
};
use p2p_network_visualizer::model::{Node, Point, UpdateNodeRequest};

fn node(id: &str, name: &str) -> Node {
    let mut n = Node::new();
    n.id = id.to_string();
    n.name = name.to_string();
    n.center = Point { x: 10_000, y: 20_000 };
    n.radius = 15_000;
    n
}

fn request(id: &str) -> UpdateNodeRequest {
    let mut r = UpdateNodeRequest::default();
    r.node_id = id.to_string();
    r
}

#[test]
fn a_new_node_is_blank_and_online() {
    let n = Node::new();
    assert_eq!(n.id, "");
    assert_eq!(n.name, "");
    assert_eq!(n.center, Point { x: 0, y: 0 });
    assert_eq!(n.radius, 0);
    assert!(n.is_online);
}

#[test]
fn set_pos_and_set_radius_chain() {
    let mut n = Node::new();
    n.set_pos(Point { x: 5, y: 6 }).set_radius(7);
    assert_eq!(n.center, Point { x: 5, y: 6 });
    assert_eq!(n.radius, 7);
}

#[test]
fn the_default_request_changes_nothing() {
    let r = UpdateNodeRequest::default();
    assert_eq!(r.node_id, "");
    assert!(r.name.is_none() && r.status.is_none() && r.software.is_none());
    let mut n = node("a", "Alpha");
    update_node(&mut n, r);
    assert_eq!(n.name, "Alpha");
    assert!(n.is_online);
}

#[test]
fn a_status_request_changes_only_the_status() {
    let mut n = node("a", "Alpha");
    let mut r = request("a");
    r.status = Some(false);
    r.name = Some("Ignored".to_string());
    update_node(&mut n, r);
    assert!(!n.is_online);
    assert_eq!(n.name, "Alpha");
    let mut r = request("a");
    r.status = Some(true);
    update_node(&mut n, r);
    assert!(n.is_online);
}

#[test]
fn an_attribute_request_changes_what_it_gives() {
    let mut n = node("a", "Alpha");
    n.cpu = "old".to_string();
    let mut r = request("a");
    r.name = Some("Renamed".to_string());
    r.ip_addr = Some("10.0.0.2".to_string());
    r.ram = Some("16GB".to_string());
    update_node(&mut n, r);
    assert_eq!(n.name, "Renamed");
    assert_eq!(n.ip_addr, "10.0.0.2");
    assert_eq!(n.ram, "16GB");
    assert_eq!(n.cpu, "old");
    assert_eq!(n.id, "a");
    assert_eq!(n.center, Point { x: 10_000, y: 20_000 });
}

#[test]
fn applying_twice_is_applying_once() {
    let mut once = node("a", "Alpha");
    let mut twice = node("a", "Alpha");
    let make = || {
        let mut r = request("a");
        r.os = Some("BSD".to_string());
        r
    };
    update_node(&mut once, make());
    update_node(&mut twice, make());
    update_node(&mut twice, make());
    assert_eq!(once.os, twice.os);
    assert_eq!(once.name, twice.name);
}

#[test]
fn a_request_reaches_the_first_node_with_its_id() {
    let mut nodes = vec![node("a", "First"), node("b", "Other"), node("a", "Second")];
    let mut r = request("a");
    r.software = Some("nginx".to_string());
    let answer = apply_update_request(&mut nodes, r);
    assert!(answer.success);
    assert_eq!(answer.message, "OK");
    assert_eq!(nodes[0].software, "nginx");
    assert_eq!(nodes[2].software, "");
}

#[test]
fn a_request_for_an_unknown_node_is_answered_so() {
    let mut nodes = vec![node("a", "First")];
    let answer = apply_update_request(&mut nodes, request("zzz"));
    assert!(!answer.success);
    assert_eq!(answer.message, "Čvor nije pronađen");
    assert_eq!(nodes[0].name, "First");
}

#[test]
fn node_down_and_node_up_set_the_status() {
    let r = node_down(request("a"), true).ok().unwrap();
    assert_eq!(r.status, Some(false));
    assert_eq!(r.node_id, "a");
    let r = node_up(request("a"), true).ok().unwrap();
    assert_eq!(r.status, Some(true));
}

#[test]
fn node_down_then_applied_takes_the_node_offline() {
    let mut nodes = vec![node("a", "Alpha")];
    let r = node_down(request("a"), true).ok().unwrap();
    assert!(apply_update_request(&mut nodes, r).success);
    assert!(!nodes[0].is_online);
    let r = node_up(request("a"), true).ok().unwrap();
    assert!(apply_update_request(&mut nodes, r).success);
    assert!(nodes[0].is_online);
}

#[test]
fn without_a_receiver_the_answer_is_an_internal_error() {
    for answer in [node_down(request("a"), false).err().unwrap(), node_up(request("a"), false).err().unwrap()] {
        assert!(!answer.success);
        assert_eq!(answer.message, "Interna greška. Ponovno pokrenite vizualizator.");
    }
}

#[test]
fn a_failed_send_is_answered() {
    let answer = send_failed_response();
    assert!(!answer.success);
    assert_eq!(answer.message, "Greška u obradi zahtjeva. Pokušajte ponovno.");
}
