//! Routing of the daemon's HTTP requests by path.
use vstd::prelude::*;

use crate::text::{str_eq, str_starts_with};

verus! {

/// A page about the whole cluster.
#[derive(Debug, PartialEq, Eq)]
pub enum ClusterRoute {
    Downloading,
    Deleted,
}

/// What a request asks for; `W` is the websocket handshake of an upgrade request.
#[derive(Debug, PartialEq, Eq)]
pub enum Route<W> {
    NotFound,
    BadRequest,
    Websocket(W),
    Status,
    BaseDirs,
    Configs,
    Cluster(ClusterRoute),
    Downloading,
    Deleted,
}

/// The route for a request to `path`, with `wh` the websocket handshake if the
/// request asks for an upgrade.
pub open spec fn route_for<W>(path: Seq<char>, wh: Option<W>) -> Route<W> {
    if path == "/"@ {
        match wh {
            Some(w) => Route::Websocket(w),
            None => Route::NotFound,
        }
    } else if path == "/status/"@ {
        Route::Status
    } else if path == "/downloading/"@ {
        Route::Downloading
    } else if path == "/base-dirs/"@ {
        Route::BaseDirs
    } else if path == "/configs/"@ {
        Route::Configs
    } else if path == "/deleted/"@ {
        Route::Deleted
    } else if path == "/cluster/downloading/"@ {
        Route::Cluster(ClusterRoute::Downloading)
    } else if path == "/cluster/deleted/"@ {
        Route::Cluster(ClusterRoute::Deleted)
    } else {
        Route::NotFound
    }
}

impl<W> Route<W> {
    /// Routes a request to `path`; `wh` is the websocket handshake if the
    /// request asks for an upgrade.
    pub fn parse(path: &str, wh: Option<W>) -> (res: Route<W>)
        ensures
            res == route_for(path@, wh),
    {
        if str_eq(path, "/") {
            if let Some(wh) = wh {
                return Route::Websocket(wh);
            } else {
                return Route::NotFound;
            }
        } else if str_eq(path, "/status/") {
            return Route::Status;
        } else if str_eq(path, "/downloading/") {
            return Route::Downloading;
        } else if str_eq(path, "/base-dirs/") {
            return Route::BaseDirs;
        } else if str_eq(path, "/configs/") {
            return Route::Configs;
        } else if str_eq(path, "/deleted/") {
            return Route::Deleted;
        } else if str_starts_with(path, "/cluster/") {
            if str_eq(path, "/cluster/downloading/") {
                return Route::Cluster(ClusterRoute::Downloading);
            } else if str_eq(path, "/cluster/deleted/") {
                return Route::Cluster(ClusterRoute::Deleted);
            } else {
                return Route::NotFound;
            }
        } else {
            proof {
                reveal_strlit("/cluster/");
                reveal_strlit("/cluster/downloading/");
                reveal_strlit("/cluster/deleted/");
                if path@ == "/cluster/downloading/"@ {
                    assert(path@.take(9) =~= "/cluster/"@);
                }
                if path@ == "/cluster/deleted/"@ {
                    assert(path@.take(9) =~= "/cluster/"@);
                }
            }
            return Route::NotFound;
        }
    }
}

/// The path of a request: the root when the request has none.
pub open spec fn request_path(path: Option<&str>) -> Seq<char> {
    match path {
        Some(p) => p@,
        None => "/"@,
    }
}

/// Routes a request by its path (the root when it has none) and by how
/// its websocket upgrade headers read: malformed ones (`Err`) make a bad
/// request; otherwise `Some` handshake asks for an upgrade.
pub fn route_request<W>(path: Option<&str>, upgrade: Result<Option<W>, ()>) -> (res: Route<W>)
    ensures
        match upgrade {
            Err(_) => res == Route::<W>::BadRequest,
            Ok(wh) => res == route_for(request_path(path), wh),
        },
{
    match upgrade {
        Ok(wh) => match path {
            Some(p) => Route::parse(p, wh),
            None => Route::parse("/", wh),
        },
        Err(()) => Route::BadRequest,
    }
}

/// The status code a route is answered with.
pub open spec fn status_for<W>(r: Route<W>) -> u16 {
    match r {
        Route::Websocket(_) => 101,
        Route::BadRequest => 400,
        Route::NotFound => 404,
        _ => 200,
    }
}

/// The plain-text body a route is answered with: the error routes have one,
/// the others are answered by an upgrade or with a JSON document.
pub open spec fn text_body_for<W>(r: Route<W>) -> Option<Seq<char>> {
    match r {
        Route::BadRequest => Some("Bad Request"@),
        Route::NotFound => Some("Not found"@),
        _ => None,
    }
}

impl<W> Route<W> {
    /// The status code of the response: switching protocols for a websocket
    /// upgrade, 400 and 404 for the error routes, 200 for the JSON pages.
    pub fn status(&self) -> (res: u16)
        ensures
            res == status_for(*self),
    {
        match self {
            Route::Websocket(_) => 101,
            Route::BadRequest => 400,
            Route::NotFound => 404,
            _ => 200,
        }
    }

    /// The plain-text body of the response, for the error routes.
    pub fn text_body(&self) -> (res: Option<&'static str>)
        ensures
            match res {
                Some(b) => text_body_for(*self) == Some(b@),
                None => text_body_for(*self) is None,
            },
    {
        match self {
            Route::BadRequest => {
                proof {
                    reveal_strlit("Bad Request");
                }
                Some("Bad Request")
            },
            Route::NotFound => {
                proof {
                    reveal_strlit("Not found");
                }
                Some("Not found")
            },
            _ => None,
        }
    }

    /// Whether the connection is handed over to the websocket protocol once
    /// the headers are answered, rather than reading a request body.
    pub fn hijacks(&self) -> (res: bool)
        ensures
            res == (*self is Websocket),
    {
        match self {
            Route::Websocket(_) => true,
            _ => false,
        }
    }
}

} // verus!
