//! The requests that the web viewer sends over its socket, and which answer
//! each one gets: `get_maps_path` lists the maps, `get_map` sends the map
//! whose path is the request's content, anything else is answered as unknown.
//! Reading and writing the JSON and loading the maps are left to the caller.

use vstd::prelude::*;
use crate::text::string_is;

verus! {

/// Whether two texts name the same path: `Path`'s `==`, which compares the
/// paths component by component.
pub uninterp spec fn paths_equal(a: Seq<char>, b: Seq<char>) -> bool;

/// `std::path::Path::new(a) == std::path::Path::new(b)`.
///
/// Claimed: the answer is `paths_equal` of the two texts, and two equal texts
/// name the same path. Not claimed: which different texts name the same path
/// (such as `a//b` and `a/b`), which `Path` decides by its components.
#[verifier::external_body]
fn same_path(a: &str, b: &str) -> (r: bool)
    ensures
        r == paths_equal(a@, b@),
        a@ == b@ ==> r,
{
    std::path::Path::new(a) == std::path::Path::new(b)
}

/// How a request is answered.
#[derive(Debug, PartialEq, Eq)]
pub enum RequestRoute {
    /// `get_maps_path`: the paths of all the maps.
    MapPaths,
    /// `get_map`: the maps (by their index in the list) whose path is the
    /// content, in order. Each is loaded; the answer is the last one.
    Maps(Vec<usize>),
    /// `get_map` with a content that is the path of no map.
    MapNotFound,
    /// Any other request.
    Unknown,
}

pub enum RequestRouteView {
    MapPaths,
    Maps(Seq<usize>),
    MapNotFound,
    Unknown,
}

impl View for RequestRoute {
    type V = RequestRouteView;

    open spec fn view(&self) -> RequestRouteView {
        match self {
            RequestRoute::MapPaths => RequestRouteView::MapPaths,
            RequestRoute::Maps(v) => RequestRouteView::Maps(v@),
            RequestRoute::MapNotFound => RequestRouteView::MapNotFound,
            RequestRoute::Unknown => RequestRouteView::Unknown,
        }
    }
}

/// The indexes, among the first `i` paths, of those that name `content`.
pub open spec fn matching_upto(paths: Seq<Seq<char>>, content: Seq<char>, i: int) -> Seq<usize>
    decreases i,
{
    if i <= 0 || i > paths.len() {
        Seq::empty()
    } else if paths_equal(paths[i - 1], content) {
        matching_upto(paths, content, i - 1).push((i - 1) as usize)
    } else {
        matching_upto(paths, content, i - 1)
    }
}

/// How the request `request` with content `content` is answered when the
/// maps have the paths `paths`.
pub open spec fn route_of(request: Seq<char>, content: Seq<char>, paths: Seq<Seq<char>>) -> RequestRouteView {
    if request == "get_maps_path"@ {
        RequestRouteView::MapPaths
    } else if request == "get_map"@ {
        let found = matching_upto(paths, content, paths.len() as int);
        if found.len() == 0 {
            RequestRouteView::MapNotFound
        } else {
            RequestRouteView::Maps(found)
        }
    } else {
        RequestRouteView::Unknown
    }
}

pub open spec fn texts_view(v: Seq<String>) -> Seq<Seq<char>> {
    v.map_values(|s: String| s@)
}

/// Decides how a request is answered (see `route_of`).
pub fn route_request(request: &str, content: &str, paths: &Vec<String>) -> (r: RequestRoute)
    ensures
        r@ == route_of(request@, content@, texts_view(paths@)),
        forall|j: int|
            0 <= j < paths@.len() && request@ == "get_map"@ && #[trigger] paths@[j]@ == content@ ==> (
            r matches RequestRoute::Maps(found) && found@.contains(j as usize)),
{
    let req = String::from_str(request);
    if string_is(&req, "get_maps_path") {
        proof {
            reveal_strlit("get_maps_path");
            reveal_strlit("get_map");
            assert("get_maps_path"@.len() != "get_map"@.len());
        }
        return RequestRoute::MapPaths;
    }
    if !string_is(&req, "get_map") {
        return RequestRoute::Unknown;
    }
    let ghost ps = texts_view(paths@);
    let mut found: Vec<usize> = Vec::new();
    for i in 0..paths.len()
        invariant
            ps == texts_view(paths@),
            found@ == matching_upto(ps, content@, i as int),
            forall|j: int| 0 <= j < i && #[trigger] paths@[j]@ == content@ ==> found@.contains(j as usize),
    {
        assert(ps[i as int] == paths@[i as int]@);
        let ghost before = found@;
        if same_path(paths[i].as_str(), content) {
            found.push(i);
            assert(found@[found@.len() - 1] == i);
        }
        assert forall|j: int| 0 <= j < i + 1 && #[trigger] paths@[j]@ == content@ implies found@.contains(
            j as usize,
        ) by {
            if j < i {
                let w = choose|w: int| 0 <= w < before.len() && before[w] == j as usize;
                assert(found@[w] == j as usize);
            } else {
                assert(found@[found@.len() - 1] == i);
            }
        }
    }
    if found.len() == 0 {
        RequestRoute::MapNotFound
    } else {
        RequestRoute::Maps(found)
    }
}

} // verus!
