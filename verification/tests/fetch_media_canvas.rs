use content::canvas::{
    parse_css_color, CanvasContextMode, ContextRequest, HTMLCanvasElement, OffscreenCanvas,
    OffscreenCanvasContextMode, RenderingContext2D, Rgba8,
};
use content::dom::DomTree;
use content::fetch::{
    FetchController, FetchControllerState, FetchGroup, FetchParams, FetchRecord, HeaderList,
    InternalFetchRequest,
};
use content::fetch_api::{
    header_list_from_value, headers_get_method, is_header_name, is_null_body_status,
    is_reason_phrase, response_init, serialized_url_without_fragment, FetchError, FetchResponse,
    Headers, Response, ResponseInitDict,
};
use content::media::{HTMLMediaElement, HTMLVideoElement, MediaError};

fn err<T>(r: Result<T, FetchError>) -> FetchError {
    match r {
        Err(e) => e,
        Ok(_) => panic!("expected an error"),
    }
}

fn pair(a: &str, b: &str) -> (String, String) {
    (String::from(a), String::from(b))
}

fn init(status: Option<u32>, text: Option<&str>, headers: Option<Vec<(String, String)>>) -> ResponseInitDict {
    ResponseInitDict { status, status_text: text.map(String::from), headers }
}

#[test]
fn header_names_and_reason_phrases() {
    assert!(is_header_name("Content-Type"));
    assert!(!is_header_name("bad name"));
    assert!(!is_header_name(""));
    assert!(is_reason_phrase("Not Found"));
    assert!(!is_reason_phrase("bad\nline"));
    assert!(is_null_body_status(204));
    assert!(is_null_body_status(304));
    assert!(!is_null_body_status(200));
}

#[test]
fn header_get_combines_values_and_ignores_case() {
    let list = header_list_from_value(&[pair("Accept", "a"), pair("X-Y", "1"), pair("accept", "b")]).unwrap();
    assert_eq!(list.headers[0].0, "accept");
    let headers = Headers::new(list);
    assert_eq!(headers.get("ACCEPT"), Some(String::from("a, b")));
    assert_eq!(headers.get("missing"), None);
    assert_eq!(headers_get_method(&headers, "x-y").unwrap(), Some(String::from("1")));
    match headers_get_method(&headers, "no good") {
        Err(FetchError::InvalidHeaderName { name }) => assert_eq!(name, "no good"),
        _ => panic!("expected an invalid header name"),
    }
}

#[test]
fn response_init_errors_in_order() {
    let e = err(response_init(init(Some(99), Some("\n"), None)));
    assert!(matches!(e, FetchError::StatusOutOfRange));
    assert!(e.is_range_error());
    assert_eq!(e.message(), "Response status must be in the range 200 to 599");
    let e = err(response_init(init(Some(404), Some("a\nb"), None)));
    assert!(matches!(e, FetchError::InvalidStatusText));
    assert!(!e.is_range_error());
    assert_eq!(e.message(), "Response statusText must match reason-phrase");
    let e = err(response_init(init(None, None, Some(vec![pair("ok", "1"), pair("b@d", "2")]))));
    assert_eq!(e.message(), "invalid header name `b@d`");
    let ok = response_init(init(Some(201), Some("Created"), Some(vec![pair("X-A", "v")]))).unwrap();
    assert_eq!(ok.status, 201);
    assert_eq!(ok.status_text, "Created");
    assert_eq!(ok.header_list.headers, vec![pair("x-a", "v")]);
    let default = response_init(init(None, None, None)).unwrap();
    assert_eq!(default.status, 200);
    assert_eq!(default.status_text, "");
    assert!(default.header_list.headers.is_empty());
}

#[test]
fn text_reads_back_the_constructed_body_once() {
    let mut response = Response::create_platform_object(Some(String::from("héllo")), init(None, None, None)).unwrap();
    assert!(response.ok());
    assert!(!response.body_used());
    assert_eq!(response.consume_body_as_text().unwrap(), "héllo");
    assert!(response.body_used());
    assert!(response.body_unusable());
    let e = err(response.consume_body_as_text());
    assert!(matches!(e, FetchError::BodyUnusable));
    assert_eq!(e.message(), "body has already been consumed");
}

#[test]
fn a_null_body_status_refuses_a_body() {
    let e = err(Response::create_platform_object(Some(String::from("x")), init(Some(204), None, None)));
    assert!(matches!(e, FetchError::BodyNotAllowed));
    assert_eq!(e.message(), "Response body is not allowed for this status");
    let mut empty = Response::create_platform_object(None, init(Some(204), None, None)).unwrap();
    assert_eq!(empty.consume_body_as_text().unwrap(), "");
}

#[test]
fn fetched_bodies_are_decoded_lossily_without_bom() {
    let fetched = FetchResponse {
        final_url: String::from("https://example.com/a#frag"),
        url_list: vec![String::from("https://example.com/a#frag")],
        status: 200,
        status_text: String::from("OK"),
        header_list: HeaderList::from_content_type("text/plain"),
        body: vec![0xEF, 0xBB, 0xBF, b'h', b'i', 0xFF],
    };
    let mut response = Response::from_content_fetch_response(fetched);
    assert_eq!(response.url(), "https://example.com/a");
    assert_eq!(response.headers.get("content-type"), Some(String::from("text/plain")));
    assert_eq!(response.consume_body_as_text().unwrap(), "hi\u{FFFD}");
}

#[test]
fn url_without_fragment() {
    assert_eq!(serialized_url_without_fragment("https://a.test/x?q#f"), "https://a.test/x?q");
    assert_eq!(serialized_url_without_fragment("not a url#f"), "not a url#f");
}

fn request() -> InternalFetchRequest {
    InternalFetchRequest {
        url: String::from("https://a.test/"),
        method: String::from("GET"),
        header_list: HeaderList::new(),
        body: String::new(),
        done: false,
        keepalive: false,
    }
}

#[test]
fn fetch_controller_states() {
    let mut params = FetchParams::new(request());
    assert!(!params.is_aborted());
    assert!(!params.is_canceled());
    params.controller.abort(Some(String::from("reason")));
    assert!(params.is_aborted());
    assert!(params.is_canceled());
    let mut controller = FetchController::new();
    controller.terminate();
    assert_eq!(controller.state, FetchControllerState::Terminated);
}

#[test]
fn terminating_a_fetch_group_terminates_unfinished_fetches() {
    let mut group = FetchGroup::new();
    let mut finished = request();
    finished.mark_done();
    group.push_fetch_record(FetchRecord { request: finished, controller: FetchController::new() });
    group.push_fetch_record(FetchRecord { request: request(), controller: FetchController::new() });
    group.terminate();
    assert_eq!(group.fetch_records[0].controller.state, FetchControllerState::Ongoing);
    assert_eq!(group.fetch_records[1].controller.state, FetchControllerState::Terminated);
}

#[test]
fn css_colors() {
    assert_eq!(parse_css_color(" Red "), Some(Rgba8 { r: 255, g: 0, b: 0, a: 255 }));
    assert_eq!(parse_css_color("transparent"), Some(Rgba8 { r: 0, g: 0, b: 0, a: 0 }));
    assert_eq!(parse_css_color("green"), Some(Rgba8 { r: 0, g: 128, b: 0, a: 255 }));
    assert_eq!(parse_css_color("#0f8"), Some(Rgba8 { r: 0, g: 255, b: 136, a: 255 }));
    assert_eq!(parse_css_color("#12AB34"), Some(Rgba8 { r: 0x12, g: 0xab, b: 0x34, a: 255 }));
    assert_eq!(parse_css_color("#11223344"), Some(Rgba8 { r: 0x11, g: 0x22, b: 0x33, a: 0x44 }));
    assert_eq!(parse_css_color("#+12"), None);
    assert_eq!(parse_css_color("#+1234567"), None);
    assert_eq!(parse_css_color("#12"), None);
    assert_eq!(parse_css_color("#ggg"), None);
    assert_eq!(parse_css_color("purple"), None);
}

#[test]
fn short_hex_colors_double_each_digit_and_ignore_trim_and_case() {
    assert_eq!(parse_css_color("#a1F"), parse_css_color("#aa11FF"));
    assert_eq!(parse_css_color("#a1F"), Some(Rgba8 { r: 0xaa, g: 0x11, b: 0xff, a: 255 }));
    assert_eq!(parse_css_color("\t #A1f\n"), parse_css_color("#a1f"));
    assert_eq!(parse_css_color(" BLUE "), parse_css_color("blue"));
    assert_eq!(parse_css_color(" #+12 "), parse_css_color("#+12"));
}

#[test]
fn restore_brings_back_the_state_from_before_several_fill_styles() {
    let mut ctx = RenderingContext2D::new(1, 300, 150);
    ctx.restore();
    assert_eq!(ctx.fill_style_value(), "#000000");
    ctx.set_fill_style("red");
    ctx.save();
    ctx.set_fill_style("#00ff00");
    ctx.set_fill_style("blue");
    ctx.set_fill_style("#12345678");
    ctx.restore();
    assert_eq!(ctx.fill_style_value(), "red");
    assert_eq!(ctx.fill_style, Rgba8 { r: 255, g: 0, b: 0, a: 255 });
    assert!(ctx.drawing_state_stack.is_empty());
}

#[test]
fn restore_undoes_save() {
    let mut ctx = RenderingContext2D::new(1, 300, 150);
    assert_eq!(ctx.fill_style_value(), "#000000");
    ctx.set_fill_style("blue");
    ctx.save();
    ctx.set_fill_style("#fff");
    ctx.set_fill_style("not a color");
    assert_eq!(ctx.fill_style_value(), "#fff");
    assert_eq!(ctx.fill_style, Rgba8 { r: 255, g: 255, b: 255, a: 255 });
    ctx.restore();
    assert_eq!(ctx.fill_style_value(), "blue");
    assert_eq!(ctx.fill_style, Rgba8 { r: 0, g: 0, b: 255, a: 255 });
    ctx.restore();
    assert_eq!(ctx.fill_style_value(), "blue");
    ctx.reset_drawing_state();
    assert_eq!(ctx.fill_style_value(), "#000000");
    assert!(!ctx.is_context_lost());
}

#[test]
fn canvas_dimensions_and_contexts() {
    let mut tree = DomTree::new();
    let node = tree.create_element("canvas");
    let mut canvas = HTMLCanvasElement::new(node);
    assert_eq!(canvas.width(&tree), 300);
    assert_eq!(canvas.height(&tree), 150);
    tree.set_attribute(node, "width", " 640px");
    assert_eq!(canvas.width(&tree), 640);
    tree.set_attribute(node, "width", "-1");
    assert_eq!(canvas.width(&tree), 300);
    canvas.set_height(&mut tree, 480).unwrap();
    assert_eq!(tree.get_attribute(node, "height"), Some(String::from("480")));
    assert_eq!(canvas.get_context("2d").unwrap(), ContextRequest::CreateContext2D);
    assert_eq!(canvas.get_context("webgl").unwrap(), ContextRequest::Null);
    let ctx = canvas.create_2d_context(&tree, 5);
    assert_eq!((ctx.rendering_context.width, ctx.rendering_context.height), (300, 480));
    assert_eq!(ctx.canvas_element(), node);
    canvas.context_2d_created();
    assert_eq!(canvas.get_context("2d").unwrap(), ContextRequest::SameContext2D);
    assert_eq!(
        canvas.transfer_control_to_offscreen(&tree).unwrap_err().name_value(),
        "InvalidStateError"
    );
}

#[test]
fn a_placeholder_canvas_refuses_contexts_and_resizing() {
    let mut tree = DomTree::new();
    let node = tree.create_element("canvas");
    let mut canvas = HTMLCanvasElement::new(node);
    assert_eq!(canvas.transfer_control_to_offscreen(&tree).unwrap(), (300, 150));
    canvas.became_placeholder();
    assert_eq!(canvas.context_mode, CanvasContextMode::Placeholder);
    assert_eq!(canvas.get_context("2d").unwrap_err().name_value(), "InvalidStateError");
    assert!(canvas.set_width(&mut tree, 10).is_err());
    assert_eq!(tree.get_attribute(node, "width"), None);
}

#[test]
fn offscreen_canvas_contexts() {
    let mut offscreen = OffscreenCanvas::constructor(3, 5_000_000_000, 20);
    assert_eq!(offscreen.width(), u32::MAX);
    assert_eq!(offscreen.height(), 20);
    assert_eq!(offscreen.get_context("2d").unwrap(), ContextRequest::CreateContext2D);
    offscreen.context_2d_created();
    assert_eq!(offscreen.context_mode(), OffscreenCanvasContextMode::Context2D);
    assert_eq!(offscreen.get_context("2d").unwrap(), ContextRequest::SameContext2D);
    let ctx = offscreen.create_offscreen_2d_context();
    assert_eq!(ctx.rendering_context.canvas_id, 3);
    offscreen.set_context_mode(OffscreenCanvasContextMode::Detached);
    assert!(offscreen.get_context("2d").is_err());
}

#[test]
fn media_play_and_pause() {
    let mut tree = DomTree::new();
    let node = tree.create_element("video");
    tree.set_attribute(node, "src", "movie.webm");
    let mut media = HTMLMediaElement::new(node);
    assert!(media.paused());
    assert_eq!(media.network_state(), 0);
    let resolved = media.play(&tree, Some("https://a.test/dir/page.html"));
    assert_eq!(resolved, Some(String::from("https://a.test/dir/movie.webm")));
    assert!(!media.paused());
    assert_eq!(media.network_state(), 3);
    let (again, sync) = media.pause(&tree, Some("https://a.test/"));
    assert_eq!(again, None);
    assert!(sync);
    assert!(media.paused());
    let (_, sync) = media.pause(&tree, None);
    assert!(!sync);
}

#[test]
fn media_load_resets_playback() {
    let mut tree = DomTree::new();
    let node = tree.create_element("audio");
    let mut media = HTMLMediaElement::new(node);
    media.error = Some(MediaError::new(4, String::from("unsupported")));
    let first = media.load(&tree, None);
    assert!(!first.reset_playback);
    assert_eq!(first.resolved_src, None);
    assert!(media.error().is_none());
    let second = media.set_src(&mut tree, "", Some("https://a.test/"));
    assert!(second.reset_playback);
    assert_eq!(second.resolved_src, None);
    assert_eq!(media.src(&tree), "");
    assert!(media.paused());
}

#[test]
fn boolean_reflection_round_trip() {
    let mut tree = DomTree::new();
    let node = tree.create_element("video");
    let video = HTMLVideoElement::new(node);
    let media = &video.media_element;
    assert!(!media.autoplay(&tree));
    media.set_autoplay(&mut tree, true);
    assert!(media.autoplay(&tree));
    assert_eq!(tree.get_attribute(node, "autoplay"), Some(String::new()));
    media.set_autoplay(&mut tree, false);
    assert!(!media.autoplay(&tree));
    media.set_muted(&mut tree, true);
    media.set_loop(&mut tree, true);
    media.set_controls(&mut tree, true);
    assert!(media.muted(&tree) && media.loop_(&tree) && media.controls(&tree));
    assert_eq!(media.preload(&tree), "metadata");
    media.set_preload(&mut tree, "auto");
    assert_eq!(media.preload(&tree), "auto");
    video.set_plays_inline(&mut tree, true);
    assert!(video.plays_inline(&tree));
    video.set_poster(&mut tree, "p.png");
    assert_eq!(video.poster(&tree), "p.png");
    video.set_width(&mut tree, "320");
    assert_eq!(video.width(&tree), "320");
    assert_eq!(video.height(&tree), "");
    assert_eq!((video.video_width(), video.video_height()), (0, 0));
}

#[test]
fn headers_get_combines_case_insensitive_values() {
    let list = header_list_from_value(&[pair("X-Test", "one"), pair("x-test", "two")]).unwrap();
    let headers = Headers::new(list);
    assert_eq!(headers.get("x-test"), Some(String::from("one, two")));
    assert!(headers.get("missing").is_none());
}

#[test]
fn response_text_consumes_body_once() {
    let mut response = Response::create_platform_object(
        Some(String::from("hello")),
        init(Some(201), Some("Created"), Some(vec![pair("Content-Type", "text/plain")])),
    )
    .unwrap();
    let before = response.body_used();
    let text = response.consume_body_as_text().unwrap();
    let after_first = response.body_used();
    let error = err(response.consume_body_as_text());
    assert_eq!(text, "hello");
    assert!(!before);
    assert!(after_first);
    assert!(response.body_used());
    assert!(response.ok());
    assert_eq!(response.status, 201);
    assert_eq!(response.status_text, "Created");
    assert_eq!(response.headers.get("content-type"), Some(String::from("text/plain")));
    // A TypeError, not a RangeError.
    assert!(!error.is_range_error());
}

#[test]
fn canvas_dimension_reads_back_what_was_set() {
    let mut tree = DomTree::new();
    let node = tree.create_element("canvas");
    let canvas = HTMLCanvasElement::new(node);
    for value in [0u32, 7, 1234, u32::MAX] {
        canvas.set_width(&mut tree, value).unwrap();
        assert_eq!(canvas.width(&tree), value);
        canvas.set_height(&mut tree, value).unwrap();
        assert_eq!(canvas.height(&tree), value);
    }
}
