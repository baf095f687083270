//! The decisions of the live viewer: the rendering it keeps, what it answers
//! to web requests, and which listeners it keeps after announcing a change.
use vstd::prelude::*;
use vstd::string::StringSliceAdditionalSpecFns;
use crate::drawing::{Drawing, Figure};
use crate::svg::{svg_document, write_svg};

verus! {

/// The script file the viewer watches.
pub const WATCHED_FILE: &'static str = "./test.ares";

/// Where the viewer serves its pages.
pub const WEB_ADDRESS: &'static str = "127.0.0.1:3000";

/// Where the viewer accepts listeners for changes.
pub const WEBSOCKET_ADDRESS: &'static str = "127.0.0.1:2794";

/// The page that shows the rendering.
pub const INDEX_FILE: &'static str = "./include/viewer.html";

/// The script that lets the page pan and zoom.
pub const PAN_ZOOM_FILE: &'static str = "./include/svg-pan-zoom.min.js";

/// What listeners are sent when the script has changed.
pub const CHANGE_MESSAGE: &'static str = "hello_world";

/// The media type of the rendering.
pub const SVG_CONTENT_TYPE: &'static str = "image/svg+xml; charset=utf-8";

/// The media type of the page.
pub const HTML_CONTENT_TYPE: &'static str = "text/html; charset=utf-8";

/// The media type of the pan and zoom script.
pub const JAVASCRIPT_CONTENT_TYPE: &'static str = "application/javascript; charset=utf-8";

/// The body of the answer for the rendering when there is none yet.
pub const NO_RENDERING_BODY: &'static str = "oh shit!";

/// The viewer's settings and the most recent rendering of the script.
#[derive(Debug, PartialEq)]
pub struct Viewer {
    pub last_generated: Option<Vec<u8>>,
    pub watched_file: &'static str,
    pub web_address: &'static str,
    pub websocket_address: &'static str,
}

/// A viewer that has rendered nothing yet.
pub fn start() -> (v: Viewer)
    ensures
        v.last_generated is None,
        v.watched_file == WATCHED_FILE,
        v.web_address == WEB_ADDRESS,
        v.websocket_address == WEBSOCKET_ADDRESS,
{
    Viewer {
        last_generated: None,
        watched_file: WATCHED_FILE,
        web_address: WEB_ADDRESS,
        websocket_address: WEBSOCKET_ADDRESS,
    }
}

pub open spec fn rendering_view(r: Option<Vec<u8>>) -> Option<Seq<u8>> {
    match r {
        Some(b) => Some(b@),
        None => None,
    }
}

/// The rendering after a run of the script that drew `figures`: the run's
/// document if it succeeded, the earlier rendering otherwise.
pub open spec fn after_run(rendering: Option<Seq<u8>>, figures: Seq<Figure>, succeeded: bool) -> Option<
    Seq<u8>,
> {
    if succeeded {
        Some(svg_document(figures))
    } else {
        rendering
    }
}

/// The rendering after a series of runs, each the figures drawn and whether
/// the script succeeded, in order.
pub open spec fn after_runs(rendering: Option<Seq<u8>>, runs: Seq<(Seq<Figure>, bool)>) -> Option<Seq<u8>>
    decreases runs.len(),
{
    if runs.len() == 0 {
        rendering
    } else {
        after_run(after_runs(rendering, runs.drop_last()), runs.last().0, runs.last().1)
    }
}

/// The figures of the last run that succeeded, if any did.
pub open spec fn last_success(runs: Seq<(Seq<Figure>, bool)>) -> Option<Seq<Figure>>
    decreases runs.len(),
{
    if runs.len() == 0 {
        None
    } else if runs.last().1 {
        Some(runs.last().0)
    } else {
        last_success(runs.drop_last())
    }
}

/// Whatever runs came before, the viewer holds the document of the last run
/// that succeeded, and the rendering it started with only while none has.
pub proof fn lemma_serves_last_success(rendering: Option<Seq<u8>>, runs: Seq<(Seq<Figure>, bool)>)
    ensures
        after_runs(rendering, runs) == match last_success(runs) {
            Some(figures) => Some(svg_document(figures)),
            None => rendering,
        },
    decreases runs.len(),
{
    if runs.len() > 0 {
        lemma_serves_last_success(rendering, runs.drop_last());
    }
}

/// The rendering is the one the viewer started with, or the document of a
/// run among `runs` that succeeded.
pub open spec fn served_from(
    rendering: Option<Seq<u8>>,
    start: Option<Seq<u8>>,
    runs: Seq<(Seq<Figure>, bool)>,
) -> bool {
    ||| rendering == start
    ||| exists|i: int|
        0 <= i < runs.len() && (#[trigger] runs[i]).1 && rendering == Some(svg_document(runs[i].0))
}

/// At every moment the viewer holds the rendering it started with or the
/// document of a successful run: each run (`update`) keeps this so.
pub proof fn lemma_run_keeps_served_from(
    rendering: Option<Seq<u8>>,
    start: Option<Seq<u8>>,
    runs: Seq<(Seq<Figure>, bool)>,
    figures: Seq<Figure>,
    succeeded: bool,
)
    requires
        served_from(rendering, start, runs),
    ensures
        served_from(after_run(rendering, figures, succeeded), start, runs.push((figures, succeeded))),
{
    let next = runs.push((figures, succeeded));
    if succeeded {
        assert(next[runs.len() as int] == (figures, succeeded));
    } else if rendering != start {
        let i = choose|i: int|
            0 <= i < runs.len() && (#[trigger] runs[i]).1 && rendering == Some(svg_document(runs[i].0));
        assert(next[i] == runs[i]);
    }
}

/// After any number of runs, the viewer holds the rendering it started with
/// or the document of one of the runs that succeeded.
pub proof fn lemma_runs_served_from(start: Option<Seq<u8>>, runs: Seq<(Seq<Figure>, bool)>)
    ensures
        served_from(after_runs(start, runs), start, runs),
    decreases runs.len(),
{
    if runs.len() > 0 {
        let prev = runs.drop_last();
        lemma_runs_served_from(start, prev);
        lemma_run_keeps_served_from(after_runs(start, prev), start, prev, runs.last().0, runs.last().1);
        assert(prev.push((runs.last().0, runs.last().1)) =~= runs);
    }
}

/// What the watcher does on an event about the script file.
#[derive(Clone, Copy, Debug, PartialEq, Eq, Structural)]
pub enum WatchAction {
    /// Run the script again, keep its rendering, and announce the change.
    RenderAndAnnounce,
    /// Only report the event.
    Report,
}

/// The watcher's action on an event whose operation bits are `op` (`None`
/// when the event carries an error): a write, and a write alone, renders
/// and announces; anything else is reported.
pub fn watch_action(op: Option<u32>, write: u32) -> (a: WatchAction)
    ensures
        a == if op == Some(write) {
            WatchAction::RenderAndAnnounce
        } else {
            WatchAction::Report
        },
{
    match op {
        Some(bits) => if bits == write {
            WatchAction::RenderAndAnnounce
        } else {
            WatchAction::Report
        },
        None => WatchAction::Report,
    }
}

impl Viewer {
    /// After the watched script has run on `drawing`: a script that failed
    /// leaves the rendering as it was; one that ran replaces it with the
    /// drawing's SVG document.
    pub fn update(&mut self, drawing: &Drawing, script_succeeded: bool)
        ensures
            final(self).watched_file == old(self).watched_file,
            final(self).web_address == old(self).web_address,
            final(self).websocket_address == old(self).websocket_address,
            rendering_view(final(self).last_generated) == after_run(
                rendering_view(old(self).last_generated),
                drawing@,
                script_succeeded,
            ),
    {
        if !script_succeeded {
            return;
        }
        let mut out: Vec<u8> = Vec::new();
        write_svg(drawing, &mut out);
        assert(out@ =~= svg_document(drawing@));
        self.last_generated = Some(out);
    }
}

/// The files the viewer serves as they are.
#[derive(Clone, Copy, Debug, PartialEq, Eq, Structural)]
pub enum Asset {
    /// The page, as HTML.
    Index,
    /// The pan and zoom script, as JavaScript in UTF-8.
    PanZoom,
}

impl Asset {
    pub open spec fn spec_file(self) -> &'static str {
        match self {
            Asset::Index => INDEX_FILE,
            Asset::PanZoom => PAN_ZOOM_FILE,
        }
    }

    pub open spec fn spec_content_type(self) -> &'static str {
        match self {
            Asset::Index => HTML_CONTENT_TYPE,
            Asset::PanZoom => JAVASCRIPT_CONTENT_TYPE,
        }
    }

    /// The media type the asset is served as (the `Content-Type` header).
    pub fn content_type(self) -> (t: &'static str)
        ensures
            t == self.spec_content_type(),
    {
        match self {
            Asset::Index => HTML_CONTENT_TYPE,
            Asset::PanZoom => JAVASCRIPT_CONTENT_TYPE,
        }
    }

    /// The file that holds the asset.
    pub fn file(self) -> (f: &'static str)
        ensures
            f == self.spec_file(),
    {
        match self {
            Asset::Index => INDEX_FILE,
            Asset::PanZoom => PAN_ZOOM_FILE,
        }
    }
}

/// What a request for a path is answered with.
#[derive(Clone, Copy, Debug, PartialEq, Eq, Structural)]
pub enum Route {
    /// The most recent rendering.
    Rendering,
    /// A file served as it is.
    Asset(Asset),
    /// Nothing is written.
    Unanswered,
}

/// The route of a request path: paths that start with `/debug.svg` get the
/// rendering, `/svg-pan-zoom.min.js` and `/` their files, others nothing.
pub open spec fn route_of(path: Seq<u8>) -> Route {
    let debug = "/debug.svg".spec_bytes();
    if path.len() >= debug.len() && path.take(debug.len() as int) == debug {
        Route::Rendering
    } else if path == "/svg-pan-zoom.min.js".spec_bytes() {
        Route::Asset(Asset::PanZoom)
    } else if path == "/".spec_bytes() {
        Route::Asset(Asset::Index)
    } else {
        Route::Unanswered
    }
}

/// Whether `s` begins with `prefix`.
pub fn starts_with(s: &[u8], prefix: &[u8]) -> (r: bool)
    ensures
        r == (s@.len() >= prefix@.len() && s@.take(prefix@.len() as int) == prefix@),
{
    if s.len() < prefix.len() {
        return false;
    }
    let mut i: usize = 0;
    while i < prefix.len()
        invariant
            i <= prefix@.len() <= s@.len(),
            s@.take(i as int) == prefix@.take(i as int),
        decreases prefix@.len() - i,
    {
        if s[i] != prefix[i] {
            assert(s@.take(prefix@.len() as int)[i as int] != prefix@[i as int]);
            return false;
        }
        assert(s@.take(i + 1) =~= s@.take(i as int).push(s@[i as int]));
        assert(prefix@.take(i + 1) =~= prefix@.take(i as int).push(prefix@[i as int]));
        i = i + 1;
    }
    assert(prefix@.take(i as int) =~= prefix@);
    true
}

/// Whether `a` and `b` are the same bytes.
pub fn bytes_equal(a: &[u8], b: &[u8]) -> (r: bool)
    ensures
        r == (a@ == b@),
{
    if a.len() != b.len() {
        return false;
    }
    let r = starts_with(a, b);
    assert(a@.len() == b@.len() ==> a@.take(b@.len() as int) =~= a@);
    r
}

/// The route of a request for `path`.
pub fn route(path: &[u8]) -> (r: Route)
    ensures
        r == route_of(path@),
{
    if starts_with(path, "/debug.svg".as_bytes()) {
        Route::Rendering
    } else if bytes_equal(path, "/svg-pan-zoom.min.js".as_bytes()) {
        Route::Asset(Asset::PanZoom)
    } else if bytes_equal(path, "/".as_bytes()) {
        Route::Asset(Asset::Index)
    } else {
        Route::Unanswered
    }
}

/// The status of an answer for the rendering.
#[derive(Clone, Copy, Debug, PartialEq, Eq, Structural)]
pub enum Status {
    /// 200: the body is the rendering, an SVG image in UTF-8.
    Success,
    /// 204: there is no rendering yet.
    NoContent,
}

/// The answer to a request for the rendering.
#[derive(Debug, PartialEq)]
pub struct RenderingResponse {
    pub status: Status,
    /// The `Content-Type` header, if the answer has one.
    pub content_type: Option<&'static str>,
    pub body: Vec<u8>,
}

impl Viewer {
    /// The answer for the rendering: the most recent one with status 200, as
    /// an SVG image in UTF-8, or, while there is none, status 204 with no
    /// `Content-Type` and a short notice.
    pub fn rendering_response(&self) -> (r: RenderingResponse)
        ensures
            match self.last_generated {
                Some(content) => {
                    &&& r.status == Status::Success
                    &&& r.content_type == Some(SVG_CONTENT_TYPE)
                    &&& r.body@ == content@
                },
                None => {
                    &&& r.status == Status::NoContent
                    &&& r.content_type == None::<&'static str>
                    &&& r.body@ == NO_RENDERING_BODY.spec_bytes()
                },
            },
    {
        match &self.last_generated {
            Some(content) => {
                let mut body: Vec<u8> = Vec::new();
                crate::num::push_range(&mut body, content.as_slice(), 0, content.len());
                assert(content@.subrange(0, content@.len() as int) =~= content@);
                assert(body@ =~= content@);
                RenderingResponse { status: Status::Success, content_type: Some(SVG_CONTENT_TYPE), body }
            },
            None => {
                let mut body: Vec<u8> = Vec::new();
                crate::svg::push_str(&mut body, NO_RENDERING_BODY);
                assert(body@ =~= NO_RENDERING_BODY.spec_bytes());
                RenderingResponse { status: Status::NoContent, content_type: None, body }
            },
        }
    }
}

/// The listeners in `s` whose position in `delivered` is `true`, in order.
pub open spec fn kept<T>(s: Seq<T>, delivered: Seq<bool>) -> Seq<T>
    decreases s.len(),
{
    if s.len() == 0 || delivered.len() == 0 {
        Seq::empty()
    } else {
        let rest = kept(s.drop_last(), delivered.drop_last());
        if delivered.last() {
            rest.push(s.last())
        } else {
            rest
        }
    }
}

/// After the change message went to each listener, the listeners to keep:
/// those it reached (`delivered[i]` for `listeners[i]`), in their order.
pub fn keep_delivered<T>(listeners: Vec<T>, delivered: &[bool]) -> (r: Vec<T>)
    requires
        listeners@.len() == delivered@.len(),
    ensures
        r@ == kept(listeners@, delivered@),
{
    let ghost all = listeners@;
    let mut rest = listeners;
    let mut r: Vec<T> = Vec::new();
    let mut i: usize = 0;
    while i < delivered.len()
        invariant
            i <= delivered@.len() == all.len(),
            rest@ == all.skip(i as int),
            r@ == kept(all.take(i as int), delivered@.take(i as int)),
        decreases delivered@.len() - i,
    {
        let x = rest.remove(0);
        assert(x == all[i as int]);
        assert(all.take(i + 1).drop_last() =~= all.take(i as int));
        assert(delivered@.take(i + 1).drop_last() =~= delivered@.take(i as int));
        if delivered[i] {
            r.push(x);
        }
        assert(rest@ =~= all.skip(i + 1));
        i = i + 1;
    }
    assert(all.take(i as int) =~= all);
    assert(delivered@.take(i as int) =~= delivered@);
    r
}


/// The positions of `delivered` that hold `true`, in increasing order.
pub open spec fn reached(delivered: Seq<bool>) -> Seq<int>
    decreases delivered.len(),
{
    if delivered.len() == 0 {
        Seq::empty()
    } else {
        let rest = reached(delivered.drop_last());
        if delivered.last() {
            rest.push(delivered.len() - 1)
        } else {
            rest
        }
    }
}

/// The kept listeners are exactly those at the positions the message
/// reached, in order: a listener whose send failed is not among them.
pub proof fn lemma_kept_are_reached<T>(s: Seq<T>, delivered: Seq<bool>)
    requires
        s.len() == delivered.len(),
    ensures
        kept(s, delivered).len() == reached(delivered).len(),
        forall|j: int|
            0 <= j < reached(delivered).len() ==> #[trigger] kept(s, delivered)[j] == s[reached(delivered)[j]],
        forall|i: int|
            0 <= i < delivered.len() ==> (#[trigger] delivered[i] <==> reached(delivered).contains(i)),
        forall|j: int, k: int|
            0 <= j < k < reached(delivered).len() ==> reached(delivered)[j] < reached(delivered)[k],
        forall|j: int|
            0 <= j < reached(delivered).len() ==> 0 <= #[trigger] reached(delivered)[j] < delivered.len(),
    decreases s.len(),
{
    if s.len() > 0 {
        let s0 = s.drop_last();
        let d0 = delivered.drop_last();
        lemma_kept_are_reached(s0, d0);
        let r0 = reached(d0);
        let n = delivered.len() - 1;
        assert forall|i: int| 0 <= i < delivered.len() implies (#[trigger] delivered[i] <==> reached(
            delivered,
        ).contains(i)) by {
            if i < n {
                assert(delivered[i] == d0[i]);
                if delivered.last() {
                    if r0.contains(i) {
                        let j = choose|j: int| 0 <= j < r0.len() && r0[j] == i;
                        assert(reached(delivered)[j] == i);
                    }
                    if reached(delivered).contains(i) {
                        let j = choose|j: int| 0 <= j < reached(delivered).len() && reached(delivered)[j] == i;
                        if j < r0.len() {
                            assert(r0[j] == i);
                        }
                    }
                }
            } else {
                if delivered.last() {
                    assert(reached(delivered)[r0.len() as int] == n);
                } else {
                    if reached(delivered).contains(n) {
                        // every earlier position is below `n`
                        let j = choose|j: int| 0 <= j < r0.len() && r0[j] == n;
                        assert(r0[j] < n);
                    }
                }
            }
        }
    }
}

/// The listeners after a series of announcements: each round adds its
/// newcomers to the list and keeps those the message reached.
pub open spec fn after_announcements<T>(listeners: Seq<T>, rounds: Seq<(Seq<T>, Seq<bool>)>) -> Seq<T>
    decreases rounds.len(),
{
    if rounds.len() == 0 {
        listeners
    } else {
        kept(after_announcements(listeners, rounds.drop_last()) + rounds.last().0, rounds.last().1)
    }
}

proof fn lemma_kept_within<T>(s: Seq<T>, delivered: Seq<bool>, x: T)
    requires
        kept(s, delivered).contains(x),
    ensures
        s.contains(x),
    decreases s.len(),
{
    if s.len() > 0 && delivered.len() > 0 {
        let rest = kept(s.drop_last(), delivered.drop_last());
        if rest.contains(x) {
            lemma_kept_within(s.drop_last(), delivered.drop_last(), x);
            let i = choose|i: int| 0 <= i < s.drop_last().len() && s.drop_last()[i] == x;
            assert(s[i] == x);
        } else {
            assert(s[s.len() - 1] == x);
        }
    }
}

/// A dropped listener stays dropped: a listener not in the list, and not
/// among the newcomers of any later announcement, is never sent a message
/// again.
pub proof fn lemma_dropped_stays_dropped<T>(listeners: Seq<T>, rounds: Seq<(Seq<T>, Seq<bool>)>, x: T)
    requires
        !listeners.contains(x),
        forall|k: int| 0 <= k < rounds.len() ==> !(#[trigger] rounds[k]).0.contains(x),
    ensures
        !after_announcements(listeners, rounds).contains(x),
    decreases rounds.len(),
{
    if rounds.len() > 0 {
        let prev = rounds.drop_last();
        assert forall|k: int| 0 <= k < prev.len() implies !(#[trigger] prev[k]).0.contains(x) by {
            assert(prev[k] == rounds[k]);
        }
        lemma_dropped_stays_dropped(listeners, prev, x);
        let before = after_announcements(listeners, prev);
        let joined = before + rounds.last().0;
        assert(!rounds[rounds.len() - 1].0.contains(x));
        if joined.contains(x) {
            let i = choose|i: int| 0 <= i < joined.len() && joined[i] == x;
            if i < before.len() {
                assert(before[i] == x);
            } else {
                assert(rounds.last().0[i - before.len()] == x);
            }
        }
        if after_announcements(listeners, rounds).contains(x) {
            lemma_kept_within(joined, rounds.last().1, x);
        }
    }
}


/// Every request path that begins with `/debug.svg`, whatever follows it, is
/// answered with the rendering, and only those are.
pub proof fn lemma_rendering_route(q: Seq<u8>, path: Seq<u8>)
    ensures
        route_of("/debug.svg".spec_bytes() + q) == Route::Rendering,
        route_of(path) == Route::Rendering ==> path.len() >= "/debug.svg".spec_bytes().len() && path.take(
            "/debug.svg".spec_bytes().len() as int,
        ) == "/debug.svg".spec_bytes(),
{
    let d = "/debug.svg".spec_bytes();
    assert((d + q).take(d.len() as int) =~= d);
}

/// The other answered paths: exactly `/svg-pan-zoom.min.js` gets the pan and
/// zoom script and exactly `/` the page (neither begins with `/debug.svg`);
/// every other path that does not begin with `/debug.svg` gets nothing.
pub proof fn lemma_asset_routes(path: Seq<u8>)
    ensures
        !(path.len() >= "/debug.svg".spec_bytes().len() && path.take("/debug.svg".spec_bytes().len() as int)
            == "/debug.svg".spec_bytes()) ==> route_of(path) == if path == "/svg-pan-zoom.min.js".spec_bytes() {
            Route::Asset(Asset::PanZoom)
        } else if path == "/".spec_bytes() {
            Route::Asset(Asset::Index)
        } else {
            Route::Unanswered
        },
        route_of("/svg-pan-zoom.min.js".spec_bytes()) == Route::Asset(Asset::PanZoom),
        route_of("/".spec_bytes()) == Route::Asset(Asset::Index),
{
    reveal_strlit("/debug.svg");
    reveal_strlit("/svg-pan-zoom.min.js");
    reveal_strlit("/");
    vstd::string::is_ascii_spec_bytes("/debug.svg");
    vstd::string::is_ascii_spec_bytes("/svg-pan-zoom.min.js");
    vstd::string::is_ascii_spec_bytes("/");
    let d = "/debug.svg".spec_bytes();
    let z = "/svg-pan-zoom.min.js".spec_bytes();
    let i = "/".spec_bytes();
    assert(d.len() == 10);
    assert(z.len() == 20);
    assert(i.len() == 1);
    assert(z[1] != d[1]);
    assert(z.take(10)[1] != d[1]);
}

/// What the viewer serves and where: the media types of its answers, the
/// files of its assets, its settings, and the notice it gives while it has
/// no rendering.
pub proof fn lemma_viewer_settings()
    ensures
        SVG_CONTENT_TYPE == "image/svg+xml; charset=utf-8",
        Asset::Index.spec_content_type() == "text/html; charset=utf-8",
        Asset::PanZoom.spec_content_type() == "application/javascript; charset=utf-8",
        Asset::Index.spec_file() == "./include/viewer.html",
        Asset::PanZoom.spec_file() == "./include/svg-pan-zoom.min.js",
        WATCHED_FILE == "./test.ares",
        WEB_ADDRESS == "127.0.0.1:3000",
        WEBSOCKET_ADDRESS == "127.0.0.1:2794",
        CHANGE_MESSAGE == "hello_world",
        NO_RENDERING_BODY == "oh shit!",
{
}

} // verus!
