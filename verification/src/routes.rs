//! The server's own addresses (stylesheet, icons, files, reload events) and
//! what they answer.

use vstd::prelude::*;
use vstd::string::StringExecFns;

verus! {

/// Prefix under which the server's own addresses live.
pub const INTERNAL_PREFIX: &'static str = "/_rocs";

/// The files that are served as they are, below [`INTERNAL_PREFIX`].
pub const FILES_PREFIX: &'static str = "/_rocs/files";

/// One of the server's own addresses, below [`INTERNAL_PREFIX`].
#[derive(PartialEq, Eq, Structural, Clone, Copy, Debug)]
pub enum InternalRoute {
    /// The page stylesheet.
    Stylesheet,
    /// The "copy" icon of code blocks.
    ClipboardIcon,
    /// The "copied" icon of code blocks.
    CheckIcon,
    /// The documentation folder's files, served as they are.
    Files,
    /// The stream of reload events (watch mode only).
    Events,
}

/// The address of a route, relative to [`INTERNAL_PREFIX`].
pub open spec fn route_path(r: InternalRoute) -> Seq<char> {
    match r {
        InternalRoute::Stylesheet => "/style.css"@,
        InternalRoute::ClipboardIcon => "/icons/clipboard.svg"@,
        InternalRoute::CheckIcon => "/icons/check.svg"@,
        InternalRoute::Files => "/files"@,
        InternalRoute::Events => "/events"@,
    }
}

/// The content type of a fixed asset; the file and event routes have none.
pub open spec fn route_content_type(r: InternalRoute) -> Option<Seq<char>> {
    match r {
        InternalRoute::Stylesheet => Some("text/css; charset=utf-8"@),
        InternalRoute::ClipboardIcon => Some("image/svg+xml"@),
        InternalRoute::CheckIcon => Some("image/svg+xml"@),
        _ => None,
    }
}

impl InternalRoute {
    /// The address of the route, relative to [`INTERNAL_PREFIX`].
    pub fn path(&self) -> (p: &'static str)
        ensures
            p@ == route_path(*self),
    {
        match self {
            InternalRoute::Stylesheet => "/style.css",
            InternalRoute::ClipboardIcon => "/icons/clipboard.svg",
            InternalRoute::CheckIcon => "/icons/check.svg",
            InternalRoute::Files => "/files",
            InternalRoute::Events => "/events",
        }
    }

    /// The content type of a fixed asset.
    pub fn content_type(&self) -> (t: Option<&'static str>)
        ensures
            match t {
                Some(t) => route_content_type(*self) == Some(t@),
                None => route_content_type(*self) is None,
            },
    {
        match self {
            InternalRoute::Stylesheet => Some("text/css; charset=utf-8"),
            InternalRoute::ClipboardIcon => Some("image/svg+xml"),
            InternalRoute::CheckIcon => Some("image/svg+xml"),
            _ => None,
        }
    }
}

/// The server's own routes: the assets and files always, the reload events
/// only in watch mode.
pub open spec fn internal_route_list(watch: bool) -> Seq<InternalRoute> {
    let always = seq![
        InternalRoute::Stylesheet,
        InternalRoute::ClipboardIcon,
        InternalRoute::CheckIcon,
        InternalRoute::Files,
    ];
    if watch {
        always.push(InternalRoute::Events)
    } else {
        always
    }
}

/// The server's own routes.
pub fn internal_routes(watch: bool) -> (routes: Vec<InternalRoute>)
    ensures
        routes@ == internal_route_list(watch),
{
    let mut routes = Vec::new();
    routes.push(InternalRoute::Stylesheet);
    routes.push(InternalRoute::ClipboardIcon);
    routes.push(InternalRoute::CheckIcon);
    routes.push(InternalRoute::Files);
    if watch {
        routes.push(InternalRoute::Events);
    }
    assert(routes@ =~= internal_route_list(watch));
    routes
}

/// What waiting on the reload channel came to.
#[derive(PartialEq, Eq, Structural, Clone, Copy, Debug)]
pub enum ReloadSignal {
    /// A reload was announced.
    Announced,
    /// Announcements were missed because the listener fell behind.
    Lagged,
    /// The channel is closed.
    Closed,
}

/// One server-sent event.
pub struct ServerEvent {
    /// The event's name.
    pub name: String,
    /// The event's data.
    pub data: String,
}

/// The event that a browser receives for a signal: a `reload` event for an
/// announcement, also when some were missed; nothing once the channel is
/// closed, which ends the stream.
pub fn reload_event(signal: ReloadSignal) -> (e: Option<ServerEvent>)
    ensures
        match signal {
            ReloadSignal::Closed => e is None,
            _ => e matches Some(ev) && ev.name@ == "reload"@ && ev.data@ == "change detected"@,
        },
{
    match signal {
        ReloadSignal::Closed => None,
        _ => Some(
            ServerEvent {
                name: String::from_str("reload"),
                data: String::from_str("change detected"),
            },
        ),
    }
}

/// The documentation folder must be a directory; otherwise the server does
/// not start, and says `"<folder> is not a directory"`.
pub fn check_docs_dir(display: &str, is_dir: bool) -> (r: Result<(), String>)
    ensures
        is_dir ==> r is Ok,
        !is_dir ==> (r matches Err(m) && m@ == display@ + " is not a directory"@),
{
    if is_dir {
        Ok(())
    } else {
        let mut m = String::from_str(display);
        m.append(" is not a directory");
        Err(m)
    }
}


/// Whether `s` ends with `suffix`.
pub open spec fn ends_with(s: Seq<char>, suffix: Seq<char>) -> bool {
    s.len() >= suffix.len() && s.skip(s.len() - suffix.len()) == suffix
}

/// Each asset is answered with the content type of its file's kind: the
/// routes whose address ends with `.svg` as SVG images, the one ending with
/// `.css` as a stylesheet, and the file and event routes with none of their
/// own.
pub proof fn lemma_content_type_follows_extension(r: InternalRoute)
    ensures
        ends_with(route_path(r), ".svg"@) <==> route_content_type(r) == Some("image/svg+xml"@),
        ends_with(route_path(r), ".css"@) <==> route_content_type(r) == Some("text/css; charset=utf-8"@),
        (route_content_type(r) is None) <==> !ends_with(route_path(r), ".svg"@) && !ends_with(
            route_path(r),
            ".css"@,
        ),
{
    reveal_strlit(".svg");
    reveal_strlit(".css");
    reveal_strlit("image/svg+xml");
    reveal_strlit("text/css; charset=utf-8");
    reveal_strlit("/style.css");
    reveal_strlit("/icons/clipboard.svg");
    reveal_strlit("/icons/check.svg");
    reveal_strlit("/files");
    reveal_strlit("/events");
    let svg = ".svg"@;
    let css = ".css"@;
    let p = route_path(r);
    assert("image/svg+xml"@ != "text/css; charset=utf-8"@) by {
        assert("image/svg+xml"@[0] != "text/css; charset=utf-8"@[0]);
    }
    match r {
        InternalRoute::Stylesheet => {
            assert(p.skip(p.len() - 4) =~= css);
            assert(p.skip(p.len() - 4) != svg) by {
                assert(p.skip(p.len() - 4)[1] != svg[1]);
            }
        },
        InternalRoute::ClipboardIcon => {
            assert(p.skip(p.len() - 4) =~= svg);
            assert(p.skip(p.len() - 4) != css) by {
                assert(p.skip(p.len() - 4)[1] != css[1]);
            }
        },
        InternalRoute::CheckIcon => {
            assert(p.skip(p.len() - 4) =~= svg);
            assert(p.skip(p.len() - 4) != css) by {
                assert(p.skip(p.len() - 4)[1] != css[1]);
            }
        },
        InternalRoute::Files => {
            assert(p.skip(p.len() - 4) != svg) by {
                assert(p.skip(p.len() - 4)[0] != svg[0]);
            }
            assert(p.skip(p.len() - 4) != css) by {
                assert(p.skip(p.len() - 4)[0] != css[0]);
            }
        },
        InternalRoute::Events => {
            assert(p.skip(p.len() - 4) != svg) by {
                assert(p.skip(p.len() - 4)[0] != svg[0]);
            }
            assert(p.skip(p.len() - 4) != css) by {
                assert(p.skip(p.len() - 4)[0] != css[0]);
            }
        },
    }
}

/// Watch mode only adds the reload events: the assets and the files are
/// served either way, and no route is registered twice.
pub proof fn lemma_watch_only_adds_events()
    ensures
        internal_route_list(true) == internal_route_list(false).push(InternalRoute::Events),
        !internal_route_list(false).contains(InternalRoute::Events),
        internal_route_list(false).contains(InternalRoute::Files),
        internal_route_list(true).contains(InternalRoute::Files),
        forall|watch: bool, i: int, j: int|
            0 <= i < j < internal_route_list(watch).len() ==> #[trigger] internal_route_list(watch)[i]
                != #[trigger] internal_route_list(watch)[j],
{
    let f = internal_route_list(false);
    let t = internal_route_list(true);
    assert(f[3] == InternalRoute::Files);
    assert(t[3] == InternalRoute::Files);
    assert(forall|i: int| 0 <= i < f.len() ==> f[i] != InternalRoute::Events);
}

/// Distinct routes have distinct addresses.
pub proof fn lemma_route_paths_distinct(a: InternalRoute, b: InternalRoute)
    requires
        a != b,
    ensures
        route_path(a) != route_path(b),
{
    reveal_strlit("/style.css");
    reveal_strlit("/icons/clipboard.svg");
    reveal_strlit("/icons/check.svg");
    reveal_strlit("/files");
    reveal_strlit("/events");
    let pa = route_path(a);
    let pb = route_path(b);
    if pa == pb {
        assert(pa.len() == pb.len());
        assert(pa[1] == pb[1]);
        assert(pa[7] == pb[7] || pa.len() <= 7);
    }
}

} // verus!
