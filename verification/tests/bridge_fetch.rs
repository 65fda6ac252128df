//! Requests and responses of the fetch bridge, and the page that watches them.
use astro_plugins::bridge::codec::{BodyEncoding, Compression};
use astro_plugins::bridge::fetch::{
    build_plan, choose_reply, finish_request, handle_ack, handle_request, handle_stream_cancel,
    header_text, into_http_response, is_redirect_status, legacy_encoding_for, parse_method,
    pick_compression, pick_encoding, plan_request, refuse_stream, remove_body_headers,
    remove_sensitive_headers, same_origin, send_error, send_response, send_streaming, should_redirect_as_get, should_stream,
    status_text, stream_encoding, FetchOptions, FetchRequest, FetchResponse, Hop, HttpResponse,
    Location, Method, ParsedUrl, ReplyKind, RequestState,
};
use astro_plugins::bridge::handshake::{
    handle_packet, negotiated_caps, HandshakeState, NegotiatedCaps,
};
use astro_plugins::bridge::interconnect::{
    auto_refresh, parse_message, refresh_installed_apps, register_for_all_devices,
    registered_count, send_json, sort_installed,
};
use astro_plugins::bridge::state::{
    clear_notice, ensure_app, first_device_addr_for, install_loaded_apps, is_enabled,
    is_monitored, persist_now, pkg_names, record_request, record_result, remove_app, set_enabled,
    set_notice, set_pending_add, snapshot_apps, take_pending_add, try_claim_auto_refresh,
    AppEntry, InstalledApp, PluginState,
};
use astro_plugins::bridge::stream;
use astro_plugins::bridge::transfer;
use astro_plugins::bridge::ui::{
    build_root, format_time, read_event, registered, render_main_ui, ui_event_processor, UiAction,
    UiEffect,
};
use astro_plugins::json::{Json, JsonObject};

#[test]
fn redirect_method_rewrite_matches_fetch_semantics() {
    assert!(should_redirect_as_get(301, "POST"));
    assert!(should_redirect_as_get(302, "post"));
    assert!(should_redirect_as_get(303, "PUT"));
    assert!(!should_redirect_as_get(301, "GET"));
    assert!(!should_redirect_as_get(303, "HEAD"));
    assert!(!should_redirect_as_get(307, "POST"));
    assert!(!should_redirect_as_get(308, "POST"));
}

#[test]
fn cross_origin_redirect_drops_credentials() {
    let headers = remove_sensitive_headers(vec![
        ("Authorization".to_string(), Json::Str("secret".into())),
        ("Cookie".to_string(), Json::Str("session=1".into())),
        ("Accept".to_string(), Json::Str("*/*".into())),
    ]);
    assert!(!headers.iter().any(|(name, _)| name == "Authorization"));
    assert!(!headers.iter().any(|(name, _)| name == "Cookie"));
    assert!(headers.iter().any(|(name, _)| name == "Accept"));
}

#[test]
fn origin_comparison_accounts_for_default_ports() {
    let https = ParsedUrl::parse("https://example.com/a").unwrap();
    let explicit = ParsedUrl::parse("https://example.com:443/b").unwrap();
    let other = ParsedUrl::parse("https://other.example/b").unwrap();
    assert!(same_origin(&https, &explicit));
    assert!(!same_origin(&https, &other));
}

// ---------------------------------------------------------------- redirects

fn header(name: &str, value: &str) -> (String, Json) {
    (name.to_string(), Json::Str(value.into()))
}

fn names(headers: &[(String, Json)]) -> Vec<&str> {
    headers.iter().map(|(name, _)| name.as_str()).collect()
}

#[test]
fn a_post_is_followed_as_a_get_without_its_body() {
    let start = RequestState::start(
        "post",
        "https://a.example/x/y",
        Some(vec![header("Content-Type", "text/plain"), header("Cookie", "1")]),
        Some("body".into()),
    )
    .unwrap();
    assert_eq!(start.method, "POST");
    let (next, hop) = start.next_hop(true, 302, Location::Text("../z".into()));
    assert!(matches!(hop, Hop::Follow));
    assert_eq!(next.method, "GET");
    assert_eq!(next.url.text, "https://a.example/z");
    assert_eq!(next.body, None);
    assert_eq!(names(&next.headers), vec!["Cookie"]);
    let (next, hop) = next.next_hop(true, 307, Location::Text("https://b.example/".into()));
    assert!(matches!(hop, Hop::Follow));
    assert_eq!(next.redirect_count, 2);
    assert!(next.headers.is_empty());
}

#[test]
fn redirects_are_followed_only_on_demand() {
    let start = || RequestState::start("GET", "http://a.example/", None, None).unwrap();
    let there = || Location::Text("/b".to_string());
    assert!(matches!(start().next_hop(false, 302, there()).1, Hop::Deliver));
    assert!(matches!(start().next_hop(true, 200, there()).1, Hop::Deliver));
    assert!(matches!(start().next_hop(true, 302, Location::Absent).1, Hop::Deliver));
    assert!(matches!(
        start().next_hop(true, 302, Location::Unreadable("bad bytes".into())).1,
        Hop::Fail(m) if m == "invalid redirect Location header: bad bytes"
    ));
    assert!(matches!(
        start().next_hop(true, 302, Location::Text("http://[".into())).1,
        Hop::Fail(m) if m.starts_with("invalid redirect Location \"http://[\": ")
    ));
    assert!(RequestState::start("GET", "no url", None, None)
        .err()
        .unwrap()
        .starts_with("invalid URL: "));
    let mut state = start();
    for _ in 0..10 {
        let (next, hop) = state.next_hop(true, 301, there());
        assert!(matches!(hop, Hop::Follow));
        state = next;
    }
    assert!(matches!(
        state.next_hop(true, 301, there()).1,
        Hop::Fail(m) if m == "too many HTTP redirects (limit 10)"
    ));
}

#[test]
fn body_headers_go_with_the_body() {
    let kept = remove_body_headers(vec![
        header("content-LENGTH", "4"),
        header("Transfer-Encoding", "chunked"),
        header("X-Other", "1"),
    ]);
    assert_eq!(names(&kept), vec!["X-Other"]);
    assert!(is_redirect_status(308));
    assert!(!is_redirect_status(304));
}

// ---------------------------------------------------------------- responses

fn object(text: &str) -> JsonObject {
    match Json::parse(text) {
        Ok(Json::Object(object)) => object,
        _ => panic!("no object"),
    }
}

fn http(headers: &[(&str, &str)], raw: bool) -> HttpResponse {
    let list = headers.iter().map(|(n, v)| (n.to_string(), Some(v.to_string()))).collect();
    into_http_response(200, &list, raw)
}

fn caps() -> NegotiatedCaps {
    NegotiatedCaps {
        protocol_version: 4,
        chunked: true,
        chunk_size: 256,
        stream: true,
        encodings: vec![BodyEncoding::Text, BodyEncoding::Hex],
        compressions: vec![],
        ack_window: 2,
    }
}

#[test]
fn a_response_keeps_its_headers() {
    let list = vec![("x-a".to_string(), Some("1".to_string())), ("x-b".to_string(), None)];
    let response = into_http_response(404, &list, false);
    assert!(!response.ok);
    assert_eq!(response.status_text, "Not Found");
    assert_eq!(Json::Object(response.headers).to_text(), r#"{"x-a":"1","x-b":""}"#);
    assert_eq!(status_text(299), "");
    assert!(matches!(parse_method("PATCH"), Method::Patch));
    assert!(matches!(parse_method("BREW"), Method::Other(m) if m == "BREW"));
}

#[test]
fn media_and_large_bodies_are_streamed() {
    assert!(should_stream(&http(&[("content-type", "Audio/mpeg")], false), None));
    assert!(should_stream(&http(&[("content-length", "65536")], false), None));
    assert!(!should_stream(&http(&[("content-length", "65535")], false), None));
    assert!(!should_stream(&http(&[("content-type", "video/mp4")], false), Some(false)));
    let response = http(&[("content-type", "audio/mpeg")], false);
    assert!(matches!(choose_reply(Some("1"), &response, Some(&caps()), None), ReplyKind::Stream));
    assert!(matches!(choose_reply(Some(""), &response, Some(&caps()), None), ReplyKind::NeedsId));
    assert!(matches!(choose_reply(Some("1"), &response, None, None), ReplyKind::Buffered));
    assert_eq!(stream_encoding(&caps()), BodyEncoding::Hex);
}

#[test]
fn a_stream_header_announces_the_frames() {
    let response = http(&[("content-type", "text/html"), ("content-length", "70000")], false);
    let (message, config) = send_streaming("7", &response, &caps(), true);
    assert_eq!(config.chunk_size, 256);
    assert_eq!(config.window, 2);
    assert!(config.fixed_chunks);
    let inner = message.get("resp").unwrap();
    assert_eq!(inner.bool_at("raw"), Some(false));
    assert_eq!(inner.u64_at("contentLength"), Some(70000));
    assert_eq!(inner.str_at("bodyEncoding"), Some("hex"));
    assert_eq!(message.str_at("id"), Some("7"));
}

fn buffered(body: &[u8]) -> FetchResponse {
    http(&[], false).into_buffered(body.to_vec())
}

#[test]
fn small_bodies_go_in_one_message() {
    let mut registry = transfer::Registry::new();
    let (out, result) =
        send_response(&mut registry, "aa", "pkg", Some("7"), &buffered(b"hello"), None, 0);
    assert_eq!(result, Ok(()));
    assert_eq!(out.len(), 1);
    let inner = out[0].body.get("resp").unwrap();
    assert_eq!(inner.str_at("body"), Some("hello"));
    assert_eq!(inner.bool_at("ok"), Some(true));
    assert!(buffered(&[0xff]).raw);
    assert_eq!(legacy_encoding_for(true), BodyEncoding::Base64);
    let refused =
        send_response(&mut registry, "aa", "pkg", None, &buffered(&[b'x'; 20000]), None, 0);
    assert!(refused.1.unwrap_err().starts_with("response too large"));
}

#[test]
fn large_bodies_go_in_chunks() {
    let mut registry = transfer::Registry::new();
    let mut handshakes = HandshakeState::new();
    let body: Vec<u8> = (0..1000).map(|i| (i % 251) as u8).collect();
    let response = buffered(&body);
    let plan = build_plan(&response, Some(&caps()));
    assert_eq!(plan.chunk_size, Some(256));
    assert_eq!(plan.compression, Compression::Plain);
    assert_eq!(plan.original_bytes, 1000);
    let (out, result) =
        send_response(&mut registry, "aa", "pkg", Some("7"), &response, Some(&caps()), 0);
    assert_eq!(result, Ok(()));
    assert_eq!(out.len(), 3);
    assert_eq!(out[0].tag, "fetch");
    assert_eq!(out[1].tag, "fetch-chunk");
    let ack = Json::parse(r#"{"id":"7","ack":2}"#).unwrap();
    assert_eq!(handle_ack(&mut handshakes, &mut registry, "aa", "pkg", &ack, 1).len(), 2);
    let last = Json::parse(r#"{"id":"7","ack":4}"#).unwrap();
    assert!(handle_ack(&mut handshakes, &mut registry, "aa", "pkg", &last, 1).is_empty());
    assert_eq!(registry.transfers.len(), 0);
}

#[test]
fn the_encoding_suits_the_payload() {
    let caps = caps();
    let pick = |payload: &[u8], raw, chunk| {
        pick_encoding(Some(&caps), payload, raw, chunk, Compression::Plain)
    };
    assert_eq!(pick(b"text", false, false), BodyEncoding::Text);
    assert_eq!(pick(b"text", true, false), BodyEncoding::Hex);
    assert_eq!(pick(b"text", false, true), BodyEncoding::Hex);
    assert_eq!(pick(&[0xff], false, false), BodyEncoding::Hex);
    assert_eq!(pick_encoding(None, b"x", false, false, Compression::Plain), BodyEncoding::Text);
    let mut packed = caps.duplicate();
    packed.compressions = vec![Compression::Lz4];
    assert_eq!(pick_compression(Some(&packed), 255), Compression::Plain);
    assert_eq!(pick_compression(Some(&packed), 256), Compression::Lz4);
    assert_eq!(pick_compression(None, 10_000), Compression::Plain);
}

#[test]
fn errors_are_answered_with_an_empty_response() {
    let message = send_error(Some("7"), "send failed: x");
    assert_eq!(message.str_at("id"), Some("7"));
    let inner = message.get("resp").unwrap();
    assert_eq!(inner.bool_at("ok"), Some(false));
    assert_eq!(inner.u64_at("status"), Some(0));
    assert_eq!(inner.str_at("statusText"), Some("send failed: x"));
    assert_eq!(header_text(&Json::UInt(7)), "7");
    assert_eq!(header_text(&Json::Str("a".into())), "a");
}

// ---------------------------------------------------------------- requests

fn state() -> PluginState {
    PluginState::default()
}

fn options() -> FetchOptions {
    FetchOptions {
        method: Some("put".into()),
        headers: None,
        body: None,
        raw: Some(true),
        stream: None,
        follow_redirects: None,
        fixed_chunks: Some(true),
    }
}

#[test]
fn redirects_are_off_unless_asked_for() {
    let plan = plan_request(Some(options()));
    assert_eq!(plan.method, "PUT");
    assert!(plan.raw && plan.fixed_chunks && !plan.follow_redirects);
    let plan = plan_request(None);
    assert_eq!(plan.method, "GET");
    assert!(!plan.raw && !plan.fixed_chunks && !plan.follow_redirects);
    assert_eq!(plan.stream_preference, None);
}

#[test]
fn a_request_is_recorded_and_greeted() {
    let mut s = state();
    let mut handshakes = HandshakeState::new();
    let request = FetchRequest {
        id: Some("7".into()),
        url: "https://a.example/".into(),
        options: None,
    };
    let (hello, plan) =
        handle_request(&mut s, &mut handshakes, "aa", "pkg", request, 55, 0);
    assert_eq!(hello.unwrap().u64_at("count"), Some(0));
    assert_eq!(plan.method, "GET");
    finish_request(&mut s, "pkg", Ok(204));
    finish_request(&mut s, "pkg", Err("send failed: x".into()));
    let app = &snapshot_apps(&s)[0];
    assert_eq!((app.request_count, app.success_count, app.error_count), (1, 1, 1));
    assert_eq!(app.last_status.as_deref(), Some("send failed: x"));
    assert_eq!(app.last_url.as_deref(), Some("https://a.example/"));
    assert_eq!(app.last_seen_unix_ms, Some(55));
    let mut streams = stream::Registry::new();
    let cancel = Json::parse(r#"{"id":"7"}"#).unwrap();
    assert!(!handle_stream_cancel(&mut handshakes, &mut streams, "aa", "pkg", &cancel, 0));
}

#[test]
fn messages_are_taken_out_of_their_envelope() {
    let mut s = state();
    ensure_app(&mut s, "com.a");
    record_request(&mut s, "com.a", "aa", None, 1);
    let m = parse_message(
        &s,
        r#"{"payload":"{\"tag\":\"x\"}","pkg":"com.b","addr":"bb"}"#,
    );
    assert_eq!(m.data, r#"{"tag":"x"}"#);
    let bare = parse_message(&s, "not json");
    assert_eq!(bare.data, "not json");
    assert_eq!(bare.pkg_name, "com.a");
    assert_eq!(bare.addr, "aa");
    let text = send_json("fetch", Json::Object(object(r#"{"id":"7"}"#)));
    assert_eq!(text, r#"{"id":"7","tag":"fetch"}"#);
}

// ---------------------------------------------------------------- apps

#[test]
fn apps_are_enabled_until_switched_off() {
    let mut s = state();
    assert!(ensure_app(&mut s, "com.a"));
    assert!(!ensure_app(&mut s, "com.a"));
    assert!(is_enabled(&s, "com.a"));
    set_enabled(&mut s, "com.a", false);
    assert!(!is_enabled(&s, "com.a"));
    assert!(is_monitored(&s, "com.a"));
    record_result(&mut s, "com.a", true, Some("HTTP 200".into()));
    assert_eq!(persist_now(&s).len(), 1);
    assert_eq!(pkg_names(&s), vec!["com.a"]);
    assert!(remove_app(&mut s, "com.a"));
    assert!(!remove_app(&mut s, "com.a"));
    install_loaded_apps(&mut s, vec![AppEntry::new("com.b")]);
    assert!(is_monitored(&s, "com.b"));
    set_pending_add(&mut s, "com.c".into());
    assert_eq!(take_pending_add(&mut s), "com.c");
    assert_eq!(take_pending_add(&mut s), "");
    set_notice(&mut s, "hi".into());
    assert_eq!(s.last_notice.as_deref(), Some("hi"));
    clear_notice(&mut s);
    assert_eq!(s.last_notice, None);
}

fn installed(device: &str, name: &str) -> InstalledApp {
    InstalledApp {
        addr: "aa".into(),
        device_name: device.into(),
        package_name: format!("com.{name}"),
        app_name: name.into(),
        version_code: 1,
    }
}

#[test]
fn installed_apps_are_listed_in_order() {
    let sorted = sort_installed(vec![installed("w", "b"), installed("w", "A"), installed("v", "z")]);
    let order: Vec<&str> = sorted.iter().map(|a| a.app_name.as_str()).collect();
    assert_eq!(order, vec!["z", "A", "b"]);
    let mut s = state();
    ensure_app(&mut s, "com.gone");
    record_request(&mut s, "com.gone", "aa", None, 1);
    ensure_app(&mut s, "com.a");
    record_request(&mut s, "com.a", "aa", None, 1);
    let changed =
        refresh_installed_apps(&mut s, vec![installed("w", "a")], &vec!["aa".to_string()]);
    assert!(changed);
    assert_eq!(pkg_names(&s), vec!["com.a"]);
    assert_eq!(first_device_addr_for(&s, "com.a").as_deref(), Some("aa"));
}

#[test]
fn unseen_apps_stay_until_every_device_lacks_them() {
    let watch = |addr: &str| (addr.to_string(), "w".to_string());
    let mut s = state();
    s.connected_devices = vec![watch("aa"), watch("bb")];
    ensure_app(&mut s, "com.a");
    ensure_app(&mut s, "com.never");
    record_request(&mut s, "com.off", "cc", None, 1);
    assert!(!refresh_installed_apps(&mut s, vec![], &vec![]));
    let reported = || vec![installed("w", "a")];
    assert!(!refresh_installed_apps(&mut s, reported(), &vec!["aa".to_string()]));
    assert!(is_monitored(&s, "com.never"));
    let both = vec!["aa".to_string(), "bb".to_string()];
    assert!(refresh_installed_apps(&mut s, reported(), &both));
    assert_eq!(pkg_names(&s), vec!["com.a", "com.off"]);
}

#[test]
fn a_request_keeps_the_agreement_with_its_peer() {
    let mut s = state();
    s.connected_devices = vec![("aa".into(), "Watch".into())];
    let (mut here, mut there) = (HandshakeState::new(), HandshakeState::new());
    let ask = || FetchRequest { id: None, url: "http://a/".into(), options: None };
    let (hello, _) = handle_request(&mut s, &mut here, "aa", "pkg", ask(), 1, 0);
    assert!(negotiated_caps(&here, "aa", "pkg", 0).is_none());
    let answer = handle_packet(&mut there, "aa", "pkg", &hello.unwrap(), 0).unwrap();
    let _ = handle_packet(&mut here, "aa", "pkg", &answer, 0);
    let size = negotiated_caps(&here, "aa", "pkg", 0).unwrap().chunk_size;
    let (again, _) = handle_request(&mut s, &mut here, "aa", "pkg", ask(), 2, 1);
    assert!(again.is_none());
    assert_eq!(negotiated_caps(&here, "aa", "pkg", 1).unwrap().chunk_size, size);
    assert_eq!(s.connected_devices.len(), 1);
}

#[test]
fn refreshes_are_spaced_out() {
    let mut s = state();
    assert!(auto_refresh(&mut s, 10_000));
    assert!(!auto_refresh(&mut s, 11_499));
    assert!(auto_refresh(&mut s, 11_500));
    assert!(!try_claim_auto_refresh(&mut s, 100, 11_599));
    assert!(try_claim_auto_refresh(&mut s, 100, 11_600));
    assert_eq!(register_for_all_devices(&s), vec![""]);
    s.connected_devices = vec![("aa".into(), "Watch".into())];
    assert_eq!(register_for_all_devices(&s), vec!["aa"]);
    assert_eq!(registered_count(&vec![true, false, true]), 2);
}

#[test]
fn page_events_are_understood() {
    let mut s = state();
    assert!(matches!(read_event("toggle:pkg:com.a"), UiAction::Toggle(p) if p == "com.a"));
    assert!(matches!(read_event("action:pkg.remove:com.a"), UiAction::Remove(p) if p == "com.a"));
    assert!(matches!(read_event("action:devices.refresh"), UiAction::RefreshDevices));
    assert!(matches!(read_event("else"), UiAction::Unknown));
    ui_event_processor(&mut s, "input:add-pkg", Some(" com.new ".into()), None);
    let effect = ui_event_processor(&mut s, "action:add-pkg.submit", None, None);
    assert!(matches!(effect, UiEffect::Register(p) if p == "com.new"));
    assert!(is_monitored(&s, "com.new"));
    registered(&mut s, "action:add-pkg.submit", "com.new", 2);
    ui_event_processor(&mut s, "toggle:pkg:com.new", None, Some(false));
    assert!(!is_enabled(&s, "com.new"));
    let (root, element) = render_main_ui(&mut s, "root").unwrap();
    assert_eq!(root, "root");
    assert!(format!("{element:?}").contains("toggle:pkg:com.new"));
    assert_eq!(format!("{:?}", build_root(&s)), format!("{element:?}"));
    assert_eq!(format_time(Some(1_700_000_000_000)), "22:13:20 UTC");
    assert_eq!(format_time(None), "—");
}

#[test]
fn streams_without_an_id_are_refused() {
    let (message, note) = refuse_stream(None);
    assert_eq!(note, "protocol v4 streaming requires a non-empty fetch id");
    assert_eq!(message.to_text(), send_error(None, &note).to_text());
}
