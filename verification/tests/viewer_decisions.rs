use cutsvg::svg::write_svg;
use cutsvg::viewer::{
    keep_delivered, route, start, watch_action, Asset, Route, Status, WatchAction, CHANGE_MESSAGE,
    HTML_CONTENT_TYPE, JAVASCRIPT_CONTENT_TYPE, PAN_ZOOM_FILE, SVG_CONTENT_TYPE, WATCHED_FILE,
};
use cutsvg::{Drawing, Figure, Num, Unit};

fn num(x: f64) -> Num {
    Num::parse(format!("{}", x).as_bytes()).unwrap()
}

fn one_line() -> Drawing {
    let mut d = Drawing::new();
    d.push(Figure::Line {
        p1: (Unit::Px(num(0.0)), Unit::Px(num(0.0))),
        p2: (Unit::Px(num(20.0)), Unit::Px(num(20.0))),
        width: Unit::Px(num(0.1)),
    });
    d
}

#[test]
fn starts_without_rendering() {
    let v = start();
    assert_eq!(v.last_generated, None);
    assert_eq!(v.watched_file, WATCHED_FILE);
    assert_eq!(v.watched_file, "./test.ares");
    assert_eq!(v.web_address, "127.0.0.1:3000");
    assert_eq!(v.websocket_address, "127.0.0.1:2794");
    let r = v.rendering_response();
    assert_eq!(r.status, Status::NoContent);
    assert_eq!(r.body, b"oh shit!".to_vec());
}

#[test]
fn successful_run_replaces_rendering() {
    let mut v = start();
    let d = one_line();
    v.update(&d, true);
    let mut expected = Vec::new();
    write_svg(&d, &mut expected);
    let r = v.rendering_response();
    assert_eq!(r.status, Status::Success);
    assert_eq!(r.body, expected);
}

#[test]
fn failed_run_keeps_rendering() {
    let mut v = start();
    let d = one_line();
    v.update(&d, true);
    let before = v.rendering_response();
    v.update(&Drawing::new(), false);
    assert_eq!(v.rendering_response(), before);

    let mut fresh = start();
    fresh.update(&d, false);
    assert_eq!(fresh.last_generated, None);
}

#[test]
fn routes() {
    assert_eq!(route(b"/debug.svg"), Route::Rendering);
    assert_eq!(route(b"/debug.svg?t=12"), Route::Rendering);
    assert_eq!(route(b"/svg-pan-zoom.min.js"), Route::Asset(Asset::PanZoom));
    assert_eq!(route(b"/"), Route::Asset(Asset::Index));
    assert_eq!(route(b""), Route::Unanswered);
    assert_eq!(route(b"/debug"), Route::Unanswered);
    assert_eq!(route(b"/svg-pan-zoom.min.js?x"), Route::Unanswered);
    assert_eq!(route(b"/index.html"), Route::Unanswered);
    assert_eq!(Asset::PanZoom.file(), PAN_ZOOM_FILE);
    assert_eq!(Asset::Index.file(), "./include/viewer.html");
}

#[test]
fn listeners_that_were_reached_stay() {
    assert_eq!(keep_delivered(vec![1, 2, 3, 4], &[true, false, true, false]), vec![1, 3]);
    assert_eq!(keep_delivered(vec!["a", "b"], &[true, true]), vec!["a", "b"]);
    assert_eq!(keep_delivered(vec!["a", "b"], &[false, false]), Vec::<&str>::new());
    assert_eq!(keep_delivered(Vec::<u8>::new(), &[]), Vec::<u8>::new());
    assert_eq!(CHANGE_MESSAGE, "hello_world");
}

#[test]
fn serves_last_successful_run() {
    let mut v = start();
    let first = one_line();
    let mut second = one_line();
    second.push(Figure::Circle {
        center: (Unit::Px(num(1.0)), Unit::Px(num(1.0))),
        radius: Unit::Px(num(1.0)),
        width: Unit::Px(num(0.1)),
        fill: None,
    });
    v.update(&first, true);
    v.update(&Drawing::new(), false);
    v.update(&second, true);
    v.update(&first, false);
    let mut expected = Vec::new();
    write_svg(&second, &mut expected);
    assert_eq!(v.last_generated, Some(expected));
}

#[test]
fn content_types() {
    assert_eq!(Asset::Index.content_type(), "text/html; charset=utf-8");
    assert_eq!(Asset::PanZoom.content_type(), "application/javascript; charset=utf-8");
    assert_eq!(Asset::Index.content_type(), HTML_CONTENT_TYPE);
    assert_eq!(Asset::PanZoom.content_type(), JAVASCRIPT_CONTENT_TYPE);
    let mut v = start();
    assert_eq!(v.rendering_response().content_type, None);
    v.update(&one_line(), true);
    assert_eq!(v.rendering_response().content_type, Some("image/svg+xml; charset=utf-8"));
    assert_eq!(v.rendering_response().content_type, Some(SVG_CONTENT_TYPE));
}

#[test]
fn watcher_renders_on_writes_only() {
    let write = 0b010000;
    assert_eq!(watch_action(Some(write), write), WatchAction::RenderAndAnnounce);
    assert_eq!(watch_action(Some(0b000010), write), WatchAction::Report);
    assert_eq!(watch_action(Some(write | 0b000001), write), WatchAction::Report);
    assert_eq!(watch_action(None, write), WatchAction::Report);
}
