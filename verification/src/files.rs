//! Which file format a path names, and what loading and saving a graph at
//! that path does; the files themselves are read and written by the caller.
use vstd::prelude::*;
use crate::graphml_parser::{graphml_graph, graphml_readable, parse_graphml, GraphmlError, ITEM_LIMIT};
use crate::model::{link_views, node_views, Link, Node};
use crate::saver::{gexf_document, graphml_document, save_to_gexf, save_to_graphml};
use crate::text::{ends_with, owned, text_ends_with, text_is};
use crate::xml_source::xml_items;

verus! {

/// The extension of a path, as `std::path::Path::extension` gives it for
/// this target's path rules, as text.
pub uninterp spec fn path_extension(path: Seq<char>) -> Option<Seq<char>>;

/// The path with its extension replaced, as
/// `std::path::Path::with_extension` gives it for this target's path rules,
/// as text.
pub uninterp spec fn path_with_extension(path: Seq<char>, extension: Seq<char>) -> Seq<char>;

/// A path that is a file name alone: no separator, no drive, and neither
/// `.` nor `..`.
pub open spec fn plain_file_name(path: Seq<char>) -> bool {
    &&& !path.contains('/')
    &&& !path.contains('\\')
    &&& !path.contains(':')
    &&& path != "."@
    &&& path != ".."@
}

/// `k` is the index of the last point in `name`.
pub open spec fn is_last_point(name: Seq<char>, k: int) -> bool {
    &&& 0 <= k < name.len()
    &&& name[k] == '.'
    &&& forall|j: int| k < j < name.len() ==> name[j] != '.'
}

/// The extension of a file name as std documents it: none where the name
/// has no point, or its one point begins it; else what follows the last
/// point.
pub open spec fn name_extension(name: Seq<char>) -> Option<Seq<char>> {
    if exists|k: int| is_last_point(name, k) {
        let k = choose|k: int| is_last_point(name, k);
        if k == 0 {
            None
        } else {
            Some(name.skip(k + 1))
        }
    } else {
        None
    }
}

/// Calls `Path::extension` and turns the extension into text. The contract
/// claims that the result is `path_extension` of the path, and, for a path
/// that is a file name alone, the rule that std documents for it; for
/// other paths, how the file name is found is left unsaid.
#[verifier::external_body]
fn extension_of(path: &str) -> (r: Option<String>)
    ensures
        match path_extension(path@) {
            Some(e) => r matches Some(s) && s@ == e,
            None => r is None,
        },
        plain_file_name(path@) ==> match name_extension(path@) {
            Some(e) => r matches Some(s) && s@ == e,
            None => r is None,
        },
{
    std::path::Path::new(path).extension().map(|e| e.to_string_lossy().into_owned())
}

/// Calls `Path::with_extension` and turns the new path into text. The
/// contract claims only that the result is `path_with_extension` of the
/// arguments. The call panics on an extension that holds a path separator,
/// so such an extension is left out.
#[verifier::external_body]
fn with_extension(path: &str, extension: &str) -> (r: String)
    requires
        !extension@.contains('/'),
        !extension@.contains('\\'),
    ensures
        r@ == path_with_extension(path@, extension@),
{
    std::path::Path::new(path).with_extension(extension).to_string_lossy().into_owned()
}

/// The message shown when a file of another format is to be loaded.
pub open spec fn unsupported_load_message() -> Seq<char> {
    "Nepodržani format datoteke! Učitajte isključivo .graphml ili .gexf datoteku."@
}

/// The message shown when a graph is to be saved in another format.
pub open spec fn unsupported_save_message() -> Seq<char> {
    "Nepodržani format. Odaberite isključivo .graphml ili .gexf format."@
}

/// Why a graph was not loaded.
#[derive(Debug)]
pub enum LoadError {
    /// The file's format is not one that can be loaded; the message says so.
    Rejected(String),
    /// The GraphML document has a coordinate that is not a number, or is too
    /// large to read.
    Graphml(GraphmlError),
}

/// Loads a graph from the contents of the file at `file_path`, chosen by
/// the path's extension: a GraphML document is read as `parse_graphml`
/// says, once `graphml_readable` has found it readable; any other file,
/// a GEXF file too, is rejected with a message, the nodes and links
/// unchanged. The message still names both formats.
pub fn parse_file(
    default_radius: i64,
    nodes: &mut Vec<Node>,
    links: &mut Vec<Link>,
    file_path: &str,
    contents: &[u8],
) -> (r: Result<(), LoadError>)
    ensures
        path_extension(file_path@) == Some("graphml"@) ==> {
            let items = xml_items(contents@);
            &&& items.len() > ITEM_LIMIT ==> (r matches Err(
                LoadError::Graphml(GraphmlError::TooManyItems),
            )) && final(nodes)@ == old(nodes)@ && final(links)@ == old(links)@
            &&& items.len() <= ITEM_LIMIT ==> match graphml_graph(items, default_radius as int) {
                Some((ns, ls)) => r is Ok && node_views(final(nodes)@) == ns && link_views(
                    final(links)@,
                ) == ls,
                None => (r matches Err(LoadError::Graphml(GraphmlError::InvalidCoordinate)))
                    && final(nodes)@ == old(nodes)@ && final(links)@ == old(links)@,
            }
        },
        path_extension(file_path@) != Some("graphml"@) ==> (r matches Err(LoadError::Rejected(m))
            && m@ == unsupported_load_message()),
        path_extension(file_path@) != Some("graphml"@) ==> final(nodes)@ == old(nodes)@,
        path_extension(file_path@) != Some("graphml"@) ==> final(links)@ == old(links)@,
        plain_file_name(file_path@) ==> path_extension(file_path@) == name_extension(file_path@),
{
    let extension = extension_of(file_path);
    let is_graphml = match &extension {
        Some(e) => text_is(e, "graphml"),
        None => false,
    };
    if is_graphml {
        if !graphml_readable(default_radius, contents) {
            return Err(LoadError::Graphml(GraphmlError::InvalidCoordinate));
        }
        match parse_graphml(default_radius, nodes, links, contents) {
            Ok(()) => Ok(()),
            Err(e) => Err(LoadError::Graphml(e)),
        }
    } else {
        Err(
            LoadError::Rejected(
                owned("Nepodržani format datoteke! Učitajte isključivo .graphml ili .gexf datoteku."),
            ),
        )
    }
}

/// The extension that decides the format a graph is saved in: the path's
/// own, or, where it has none, that of the path with `graphml` put on where
/// the path ends in `.graphml`, else with `gexf` put on.
pub open spec fn save_extension(path: Seq<char>) -> Option<Seq<char>> {
    let provided = match path_extension(path) {
        Some(e) => e,
        None => Seq::empty(),
    };
    if provided.len() > 0 {
        Some(provided)
    } else {
        path_extension(
            path_with_extension(
                path,
                if ends_with(path, ".graphml"@) {
                    "graphml"@
                } else {
                    "gexf"@
                },
            ),
        )
    }
}

/// The document to save the graph as, at `path`: GraphML or GEXF as
/// `save_extension` says, or the message for any other format.
pub fn save_to_file(nodes: &Vec<Node>, links: &Vec<Link>, path: &str) -> (r: Result<String, String>)
    ensures
        save_extension(path@) == Some("graphml"@) ==> (r matches Ok(d) && d@ == graphml_document(
            node_views(nodes@),
            link_views(links@),
        )),
        save_extension(path@) != Some("graphml"@) && save_extension(path@) == Some("gexf"@) ==> (
        r matches Ok(d) && d@ == gexf_document(node_views(nodes@), link_views(links@))),
        save_extension(path@) != Some("graphml"@) && save_extension(path@) != Some("gexf"@) ==> (
        r matches Err(m) && m@ == unsupported_save_message()),
        plain_file_name(path@) ==> path_extension(path@) == name_extension(path@),
{
    let provided = match extension_of(path) {
        Some(e) => e,
        None => String::new(),
    };
    let extension = if provided.unicode_len() > 0 {
        Some(provided)
    } else {
        let chosen = if text_ends_with(path, ".graphml") {
            "graphml"
        } else {
            "gexf"
        };
        proof {
            reveal_strlit("graphml");
            reveal_strlit("gexf");
            assert(!"graphml"@.contains('/') && !"graphml"@.contains('\\')) by {
                assert forall|i: int| 0 <= i < "graphml"@.len() implies "graphml"@[i] != '/'
                    && "graphml"@[i] != '\\' by {}
            }
            assert(!"gexf"@.contains('/') && !"gexf"@.contains('\\')) by {
                assert forall|i: int| 0 <= i < "gexf"@.len() implies "gexf"@[i] != '/'
                    && "gexf"@[i] != '\\' by {}
            }
        }
        let adjusted = with_extension(path, chosen);
        extension_of(adjusted.as_str())
    };
    match extension {
        Some(e) => {
            if text_is(&e, "graphml") {
                return Ok(save_to_graphml(nodes, links));
            } else if text_is(&e, "gexf") {
                return Ok(save_to_gexf(nodes, links));
            }
        },
        None => {},
    }
    Err(owned("Nepodržani format. Odaberite isključivo .graphml ili .gexf format."))
}

} // verus!
