use mx::web::{
    check_foreground_pid, check_session, check_stream_options, check_swipe_duration,
    check_text_length, frame_head, marker, parse_request, response_head, stream_video_args,
    take_frames, ControlError, OptionsError, RequestError, Route, MAX_FRAME_BYTES,
};

#[test]
fn marker_finds_the_first_pair_at_or_after_the_start() {
    let bytes = [1, 0xff, 0xd8, 2, 0xff, 0xd8];
    assert_eq!(marker(&bytes, [0xff, 0xd8], 0), Some(1));
    assert_eq!(marker(&bytes, [0xff, 0xd8], 2), Some(4));
    assert_eq!(marker(&bytes, [0xff, 0xd9], 0), None);
    assert_eq!(marker(&bytes, [0xff, 0xd8], 6), None);
}

#[test]
fn frames_are_cut_between_start_and_end_markers() {
    let mut pending = vec![9, 9, 0xff, 0xd8, 1, 2, 0xff, 0xd9, 7, 0xff, 0xd8, 3, 0xff, 0xd9, 0xff, 0xd8, 5];
    let frames = take_frames(&mut pending);
    assert_eq!(
        frames,
        vec![vec![0xff, 0xd8, 1, 2, 0xff, 0xd9], vec![0xff, 0xd8, 3, 0xff, 0xd9]]
    );
    assert_eq!(pending, vec![0xff, 0xd8, 5]);
}

#[test]
fn bytes_without_a_frame_start_stay_buffered() {
    let mut pending = vec![1, 2, 3];
    assert!(take_frames(&mut pending).is_empty());
    assert_eq!(pending, vec![1, 2, 3]);
}

#[test]
fn end_marker_inside_the_start_marker_does_not_close_a_frame() {
    let mut pending = vec![0xff, 0xd8, 0xd9];
    assert!(take_frames(&mut pending).is_empty());
    assert_eq!(pending, vec![0xff, 0xd8, 0xd9]);
}

#[test]
fn oversized_partial_frame_is_dropped() {
    let mut pending = vec![0_u8; MAX_FRAME_BYTES + 1];
    pending[0] = 0xff;
    pending[1] = 0xd8;
    assert!(take_frames(&mut pending).is_empty());
    assert!(pending.is_empty());
}

#[test]
fn requests_are_routed_by_method_and_path() {
    let r = parse_request(b"GET / HTTP/1.1\r\nHost: x\r\n\r\n").unwrap();
    assert_eq!(r.route, Route::Index);
    assert!(r.body.is_empty());
    let r = parse_request(b"GET /api/status HTTP/1.1\r\n\r\n").unwrap();
    assert_eq!(r.route, Route::Status);
    let r = parse_request(b"GET /stream.mjpg HTTP/1.1\r\n\r\n").unwrap();
    assert_eq!(r.route, Route::Stream);
    let r = parse_request(b"POST /api/tap HTTP/1.1\r\nContent-Length: 13\r\n\r\n{\"x\":1,\"y\":2}").unwrap();
    assert_eq!(r.route, Route::Tap);
    assert_eq!(r.body, b"{\"x\":1,\"y\":2}".to_vec());
    assert_eq!(parse_request(b"POST /api/swipe HTTP/1.1\r\n\r\n").unwrap().route, Route::Swipe);
    assert_eq!(parse_request(b"POST /api/type HTTP/1.1\r\n\r\n").unwrap().route, Route::Type);
    assert_eq!(parse_request(b"GET /api/tap HTTP/1.1\r\n\r\n").unwrap().route, Route::NotFound);
    assert_eq!(parse_request(b"POST / HTTP/1.1\r\n\r\n").unwrap().route, Route::NotFound);
    assert_eq!(parse_request(b"  GET   /  \r\n\r\n").unwrap().route, Route::Index);
    assert_eq!(parse_request(b"GET\r\n\r\n").unwrap().route, Route::NotFound);
}

#[test]
fn malformed_requests_are_refused() {
    assert_eq!(parse_request(b"GET / HTTP/1.1\r\n").unwrap_err(), RequestError::Invalid);
    assert_eq!(parse_request(b"").unwrap_err(), RequestError::Invalid);
    assert_eq!(parse_request(b"\r\n\r\n").unwrap_err(), RequestError::MissingRequestLine);
    assert_eq!(parse_request(b"GET /\xff HTTP/1.1\r\n\r\n").unwrap_err(), RequestError::NotText);
}

#[test]
fn response_heads_carry_status_type_and_length() {
    assert_eq!(
        response_head(204, "text/plain", 0),
        "HTTP/1.1 204 OK\r\nContent-Type: text/plain\r\nContent-Length: 0\r\nCache-Control: no-store\r\nConnection: close\r\n\r\n"
    );
    assert_eq!(
        response_head(404, "text/plain", 9),
        "HTTP/1.1 404 OK\r\nContent-Type: text/plain\r\nContent-Length: 9\r\nCache-Control: no-store\r\nConnection: close\r\n\r\n"
    );
    assert_eq!(
        frame_head(1234),
        "--frame\r\nContent-Type: image/jpeg\r\nContent-Length: 1234\r\n\r\n"
    );
}

#[test]
fn stream_options_are_bounded() {
    assert!(check_stream_options(1, 1).is_ok());
    assert!(check_stream_options(30, 100).is_ok());
    assert_eq!(check_stream_options(0, 50), Err(OptionsError::Fps));
    assert_eq!(check_stream_options(31, 0), Err(OptionsError::Fps));
    assert_eq!(check_stream_options(10, 0), Err(OptionsError::Quality));
    assert_eq!(check_stream_options(10, 101), Err(OptionsError::Quality));
    assert_eq!(OptionsError::Fps.message(), "fps must be 1..30");
    assert_eq!(OptionsError::Quality.message(), "quality must be 1..100");
}

#[test]
fn stream_video_arguments_name_the_device_and_settings() {
    assert_eq!(
        stream_video_args(10, 80, "0.5", "UDID"),
        vec![
            "stream-video", "--format", "mjpeg", "--fps", "10", "--quality", "80", "--scale", "0.5",
            "--udid", "UDID"
        ]
    );
}

#[test]
fn browser_input_checks_session_foreground_duration_and_text() {
    assert!(check_session("a", "a").is_ok());
    assert_eq!(check_session("b", "a"), Err(ControlError::SessionChanged));
    assert!(check_foreground_pid(Some(42), 42).is_ok());
    assert_eq!(check_foreground_pid(Some(43), 42), Err(ControlError::ForegroundChanged));
    assert_eq!(check_foreground_pid(None, 42), Err(ControlError::ForegroundChanged));
    assert!(check_swipe_duration(50).is_ok());
    assert!(check_swipe_duration(5000).is_ok());
    assert_eq!(check_swipe_duration(49), Err(ControlError::BadDuration));
    assert_eq!(check_swipe_duration(5001), Err(ControlError::BadDuration));
    assert!(check_text_length(16 * 1024).is_ok());
    assert_eq!(check_text_length(16 * 1024 + 1), Err(ControlError::TextTooLong));
    assert_eq!(ControlError::SessionChanged.message(), "Mx session changed; reload mx web");
    assert_eq!(ControlError::BadDuration.message(), "duration_ms must be 50..5000");
}
