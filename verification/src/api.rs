//! Requests that change a node: its status (up or down) or its attributes,
//! and the answers they get.
use vstd::prelude::*;
use crate::model::{
    first_index_of, find_first, node_views, ApiResponse, Node, NodeView, UpdateNodeRequest,
};
use crate::text::owned;

verus! {

/// The new value of an attribute: the one given, or the current one.
pub open spec fn given_or(value: Option<String>, current: Seq<char>) -> Seq<char> {
    match value {
        Some(v) => v@,
        None => current,
    }
}

/// A node after a request: a request with a status changes only whether the
/// node is online; one without changes each attribute it gives. The node's
/// id never changes.
pub open spec fn updated_node(n: NodeView, request: UpdateNodeRequest) -> NodeView {
    match request.status {
        Some(online) => NodeView { is_online: online, ..n },
        None => NodeView {
            name: given_or(request.name, n.name),
            ip_addr: given_or(request.ip_addr, n.ip_addr),
            cpu: given_or(request.cpu, n.cpu),
            ram: given_or(request.ram, n.ram),
            rom: given_or(request.rom, n.rom),
            os: given_or(request.os, n.os),
            network_bw: given_or(request.network_bw, n.network_bw),
            software: given_or(request.software, n.software),
            ..n
        },
    }
}

/// Applies a request to a node.
pub fn update_node(node: &mut Node, update_request: UpdateNodeRequest)
    ensures
        final(node)@ == updated_node(old(node)@, update_request),
{
    let ghost request = update_request;
    match update_request.status {
        Some(online) => {
            node.is_online = online;
        },
        None => {
            let UpdateNodeRequest { name, ip_addr, cpu, ram, rom, os, network_bw, software, .. } =
                update_request;
            if let Some(v) = name {
                node.name = v;
            }
            if let Some(v) = ip_addr {
                node.ip_addr = v;
            }
            if let Some(v) = cpu {
                node.cpu = v;
            }
            if let Some(v) = ram {
                node.ram = v;
            }
            if let Some(v) = rom {
                node.rom = v;
            }
            if let Some(v) = os {
                node.os = v;
            }
            if let Some(v) = network_bw {
                node.network_bw = v;
            }
            if let Some(v) = software {
                node.software = v;
            }
        },
    }
    assert(node@ =~= updated_node(old(node)@, request));
}

/// The answer when the node was found and changed.
pub open spec fn ok_message() -> Seq<char> {
    "OK"@
}

/// The answer when no node has the id.
pub open spec fn not_found_message() -> Seq<char> {
    "Čvor nije pronađen"@
}

/// The answer when no one takes requests.
pub open spec fn internal_error_message() -> Seq<char> {
    "Interna greška. Ponovno pokrenite vizualizator."@
}

/// The answer when a request could not be passed on.
pub open spec fn send_failed_message() -> Seq<char> {
    "Greška u obradi zahtjeva. Pokušajte ponovno."@
}

/// Applies a request to the first node with the request's id, and answers
/// whether there was one.
pub fn apply_update_request(nodes: &mut Vec<Node>, update_request: UpdateNodeRequest) -> (r:
    ApiResponse)
    ensures
        match first_index_of(node_views(old(nodes)@), update_request.node_id@) {
            Some(i) => node_views(final(nodes)@) == node_views(old(nodes)@).update(
                i,
                updated_node(node_views(old(nodes)@)[i], update_request),
            ) && r.success && r.message@ == ok_message(),
            None => final(nodes)@ == old(nodes)@ && !r.success && r.message@
                == not_found_message(),
        },
{
    match find_first(nodes, &update_request.node_id) {
        Some(i) => {
            let ghost before = node_views(nodes@);
            let mut node = nodes[i].duplicate();
            update_node(&mut node, update_request);
            nodes.set(i, node);
            assert(node_views(nodes@) =~= before.update(i as int, node@));
            ApiResponse { success: true, message: owned("OK") }
        },
        None => ApiResponse { success: false, message: owned("Čvor nije pronađen") },
    }
}

/// A request to take a node down: the request with status offline, to pass
/// on where someone takes requests, else the answer that no one does.
pub fn node_down(update_request: UpdateNodeRequest, receiver_available: bool) -> (r: Result<
    UpdateNodeRequest,
    ApiResponse,
>)
    ensures
        receiver_available ==> r == Ok::<UpdateNodeRequest, ApiResponse>(
            (UpdateNodeRequest { status: Some(false), ..update_request }),
        ),
        !receiver_available ==> (r matches Err(a) && !a.success && a.message@
            == internal_error_message()),
{
    if receiver_available {
        let mut request = update_request;
        request.status = Some(false);
        Ok(request)
    } else {
        Err(internal_error_response())
    }
}

/// A request to bring a node up: the request with status online, to pass on
/// where someone takes requests, else the answer that no one does.
pub fn node_up(update_request: UpdateNodeRequest, receiver_available: bool) -> (r: Result<
    UpdateNodeRequest,
    ApiResponse,
>)
    ensures
        receiver_available ==> r == Ok::<UpdateNodeRequest, ApiResponse>(
            (UpdateNodeRequest { status: Some(true), ..update_request }),
        ),
        !receiver_available ==> (r matches Err(a) && !a.success && a.message@
            == internal_error_message()),
{
    if receiver_available {
        let mut request = update_request;
        request.status = Some(true);
        Ok(request)
    } else {
        Err(internal_error_response())
    }
}

/// The answer when no one takes requests.
pub fn internal_error_response() -> (r: ApiResponse)
    ensures
        !r.success,
        r.message@ == internal_error_message(),
{
    ApiResponse {
        success: false,
        message: owned("Interna greška. Ponovno pokrenite vizualizator."),
    }
}

/// The answer when a request could not be passed on.
pub fn send_failed_response() -> (r: ApiResponse)
    ensures
        !r.success,
        r.message@ == send_failed_message(),
{
    ApiResponse { success: false, message: owned("Greška u obradi zahtjeva. Pokušajte ponovno.") }
}

/// Applying the same request twice leaves the node as applying it once.
pub proof fn lemma_update_idempotent(n: NodeView, request: UpdateNodeRequest)
    ensures
        updated_node(updated_node(n, request), request) == updated_node(n, request),
{
    assert(updated_node(updated_node(n, request), request) =~= updated_node(n, request));
}

/// A request with a status changes whether the node is online, and nothing
/// else, whatever attributes it also gives.
pub proof fn lemma_status_request_only_changes_status(
    n: NodeView,
    request: UpdateNodeRequest,
    online: bool,
)
    ensures
        updated_node(n, (UpdateNodeRequest { status: Some(online), ..request })) == (NodeView {
            is_online: online,
            ..n
        }),
{
}

/// No request changes a node's id or position.
pub proof fn lemma_update_keeps_identity(n: NodeView, request: UpdateNodeRequest)
    ensures
        updated_node(n, request).id == n.id,
        updated_node(n, request).x == n.x,
        updated_node(n, request).y == n.y,
        updated_node(n, request).radius == n.radius,
{
}


/// A request without a status sets each attribute of the node to the value
/// it gives for that same attribute, and keeps each attribute it gives no
/// value for; whether the node is online stays as it was.
pub proof fn lemma_attribute_request_sets_each_field(n: NodeView, request: UpdateNodeRequest)
    requires
        request.status is None,
    ensures
        updated_node(n, request).name == match request.name {
            Some(v) => v@,
            None => n.name,
        },
        updated_node(n, request).ip_addr == match request.ip_addr {
            Some(v) => v@,
            None => n.ip_addr,
        },
        updated_node(n, request).cpu == match request.cpu {
            Some(v) => v@,
            None => n.cpu,
        },
        updated_node(n, request).ram == match request.ram {
            Some(v) => v@,
            None => n.ram,
        },
        updated_node(n, request).rom == match request.rom {
            Some(v) => v@,
            None => n.rom,
        },
        updated_node(n, request).os == match request.os {
            Some(v) => v@,
            None => n.os,
        },
        updated_node(n, request).network_bw == match request.network_bw {
            Some(v) => v@,
            None => n.network_bw,
        },
        updated_node(n, request).software == match request.software {
            Some(v) => v@,
            None => n.software,
        },
        updated_node(n, request).is_online == n.is_online,
{
}

} // verus!
