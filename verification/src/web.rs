//! The browser viewer: cutting JPEG frames out of the MJPEG byte stream,
//! reading the viewer's HTTP requests, the response heads it writes, and the
//! checks made before browser input reaches the simulator.
use crate::metrics::{find_word, next_word};
use crate::process::strs;
use crate::text::{chars_of, decimal, lines, next_line, push_decimal, push_str, slice_chars, strict_subrange_eq};
use vstd::prelude::*;
use vstd::utf8::{decode_utf8, valid_utf8};

verus! {

/// Largest number of bytes kept while waiting for the end of a frame.
pub const MAX_FRAME_BYTES: usize = 16777216;

/// Largest HTTP request the viewer reads.
pub const MAX_REQUEST_BYTES: usize = 32768;

/// First index `i >= from` at which `a` followed by `b` stands in `s`.
pub open spec fn first_marker(s: Seq<u8>, a: u8, b: u8, from: int) -> Option<int>
    decreases s.len() - from,
{
    if from < 0 || from + 1 >= s.len() {
        None
    } else if s[from] == a && s[from + 1] == b {
        Some(from)
    } else {
        first_marker(s, a, b, from + 1)
    }
}

pub proof fn lemma_first_marker(s: Seq<u8>, a: u8, b: u8, from: int)
    requires
        0 <= from,
    ensures
        match first_marker(s, a, b, from) {
            Some(i) => {
                &&& from <= i
                &&& i + 1 < s.len()
                &&& s[i] == a
                &&& s[i + 1] == b
                &&& forall|j: int| from <= j < i ==> !(#[trigger] s[j] == a && s[j + 1] == b)
            },
            None => forall|j: int|
                from <= j && j + 1 < s.len() ==> !(#[trigger] s[j] == a && s[j + 1] == b),
        },
    decreases s.len() - from,
{
    if from + 1 < s.len() && !(s[from] == a && s[from + 1] == b) {
        lemma_first_marker(s, a, b, from + 1);
    }
}

/// Searching the tail of `s` that starts at `pos` finds what searching `s`
/// from `pos` finds, shifted by `pos`.
proof fn lemma_first_marker_shift(s: Seq<u8>, a: u8, b: u8, pos: int, k: int)
    requires
        0 <= pos <= s.len(),
        0 <= k,
    ensures
        match first_marker(s.skip(pos), a, b, k) {
            Some(i) => first_marker(s, a, b, pos + k) == Some(i + pos),
            None => first_marker(s, a, b, pos + k) is None,
        },
    decreases s.len() - pos - k,
{
    let t = s.skip(pos);
    if k + 1 < t.len() {
        assert(t[k] == s[pos + k]);
        assert(t[k + 1] == s[pos + k + 1]);
        if !(t[k] == a && t[k + 1] == b) {
            lemma_first_marker_shift(s, a, b, pos, k + 1);
        }
    }
}

/// Position of the first occurrence of the byte `pair` in `bytes` at or after `from`.
pub fn marker(bytes: &[u8], pair: [u8; 2], from: usize) -> (r: Option<usize>)
    requires
        from <= bytes@.len(),
    ensures
        match first_marker(bytes@, pair@[0], pair@[1], from as int) {
            Some(i) => r == Some(i as usize),
            None => r is None,
        },
{
    let a = pair[0];
    let b = pair[1];
    let mut i = from;
    while i < bytes.len() && i + 1 < bytes.len()
        invariant
            from <= i <= bytes@.len(),
            a == pair@[0],
            b == pair@[1],
            first_marker(bytes@, a, b, from as int) == first_marker(bytes@, a, b, i as int),
        decreases bytes@.len() - i,
    {
        if bytes[i] == a && bytes[i + 1] == b {
            return Some(i);
        }
        i += 1;
    }
    None
}

/// What a sequence of byte vectors holds, as byte sequences.
pub open spec fn byte_views(v: Seq<Vec<u8>>) -> Seq<Seq<u8>> {
    v.map_values(|f: Vec<u8>| f@)
}

/// The complete JPEG frames at the front of `s` (each from a start-of-image
/// marker to the next end-of-image marker after it, both included) and what
/// stays buffered: nothing before the next start-of-image marker once there
/// is one, and everything when there is none.
pub open spec fn split_frames(s: Seq<u8>) -> (Seq<Seq<u8>>, Seq<u8>)
    decreases s.len(),
{
    match first_marker(s, 0xff, 0xd8, 0) {
        None => (seq![], s),
        Some(start) => {
            proof {
                lemma_first_marker(s, 0xff, 0xd8, 0);
            }
            match first_marker(s, 0xff, 0xd9, start + 2) {
                None => (seq![], s.skip(start)),
                Some(end) => {
                    proof {
                        lemma_first_marker(s, 0xff, 0xd9, start + 2);
                    }
                    let rest = split_frames(s.skip(end + 2));
                    (seq![s.subrange(start, end + 2)] + rest.0, rest.1)
                },
            }
        },
    }
}

/// Every frame taken from the stream is a whole JPEG image: it starts with
/// the start-of-image marker, ends with the end-of-image marker, and holds
/// no end-of-image marker before its last two bytes (past the start
/// marker).
pub proof fn lemma_frames_are_whole_images(s: Seq<u8>)
    ensures
        forall|k: int|
            0 <= k < split_frames(s).0.len() ==> {
                let f = #[trigger] split_frames(s).0[k];
                &&& f.len() >= 4
                &&& f[0] == 0xff && f[1] == 0xd8
                &&& f[f.len() - 2] == 0xff && f[f.len() - 1] == 0xd9
                &&& forall|j: int| 2 <= j < f.len() - 2 ==> !(#[trigger] f[j] == 0xff && f[j + 1] == 0xd9)
            },
    decreases s.len(),
{
    match first_marker(s, 0xff, 0xd8, 0) {
        None => {},
        Some(start) => {
            lemma_first_marker(s, 0xff, 0xd8, 0);
            match first_marker(s, 0xff, 0xd9, start + 2) {
                None => {},
                Some(end) => {
                    lemma_first_marker(s, 0xff, 0xd9, start + 2);
                    let rest = s.skip(end + 2);
                    lemma_frames_are_whole_images(rest);
                    let f = s.subrange(start, end + 2);
                    let all = split_frames(s).0;
                    assert(all == seq![f] + split_frames(rest).0);
                    assert forall|k: int| 0 <= k < all.len() implies {
                        let g = #[trigger] all[k];
                        &&& g.len() >= 4
                        &&& g[0] == 0xff && g[1] == 0xd8
                        &&& g[g.len() - 2] == 0xff && g[g.len() - 1] == 0xd9
                        &&& forall|j: int| 2 <= j < g.len() - 2 ==> !(#[trigger] g[j] == 0xff && g[j + 1] == 0xd9)
                    } by {
                        if k == 0 {
                            assert(all[0] == f);
                            assert forall|j: int| 2 <= j < f.len() - 2 implies !(#[trigger] f[j] == 0xff && f[j + 1] == 0xd9) by {
                                assert(f[j] == s[start + j]);
                                assert(f[j + 1] == s[start + j + 1]);
                            }
                        } else {
                            assert(all[k] == split_frames(rest).0[k - 1]);
                        }
                    }
                },
            }
        },
    }
}

/// What stays buffered after the frames are taken: the rest, dropped whole
/// once it outgrows the frame limit.
pub open spec fn kept_after_frames(s: Seq<u8>) -> Seq<u8> {
    let rest = split_frames(s).1;
    if rest.len() > MAX_FRAME_BYTES {
        seq![]
    } else {
        rest
    }
}

fn copy_bytes(v: &[u8], lo: usize, hi: usize) -> (r: Vec<u8>)
    requires
        lo <= hi <= v@.len(),
    ensures
        r@ == v@.subrange(lo as int, hi as int),
{
    let mut r: Vec<u8> = Vec::new();
    let mut i = lo;
    while i < hi
        invariant
            lo <= i <= hi <= v@.len(),
            r@ == v@.subrange(lo as int, i as int),
        decreases hi - i,
    {
        r.push(v[i]);
        i += 1;
        assert(r@ =~= v@.subrange(lo as int, i as int));
    }
    r
}

/// Takes every complete frame out of the buffered stream bytes, in order,
/// and leaves in `pending` what has to wait for more bytes.
pub fn take_frames(pending: &mut Vec<u8>) -> (frames: Vec<Vec<u8>>)
    ensures
        byte_views(frames@) == split_frames(old(pending)@).0,
        final(pending)@ == kept_after_frames(old(pending)@),
{
    let ghost s0 = pending@;
    let mut frames: Vec<Vec<u8>> = Vec::new();
    let mut pos: usize = 0;
    let mut rest_from: usize = 0;
    proof {
        assert(s0.skip(0) =~= s0);
        assert(byte_views(frames@) + split_frames(s0).0 =~= split_frames(s0).0);
    }
    loop
        invariant
            pos <= pending.len(),
            rest_from <= pending.len(),
            pending@ == s0,
            split_frames(s0).0 == byte_views(frames@) + split_frames(s0.skip(pos as int)).0,
            split_frames(s0).1 == split_frames(s0.skip(pos as int)).1,
        ensures
            rest_from <= pending.len(),
            pending@ == s0,
            split_frames(s0).0 == byte_views(frames@),
            split_frames(s0).1 == s0.skip(rest_from as int),
        decreases pending.len() - pos,
    {
        let ghost t = s0.skip(pos as int);
        proof {
            lemma_first_marker_shift(s0, 0xff, 0xd8, pos as int, 0);
        }
        match marker(pending.as_slice(), [0xff, 0xd8], pos) {
            None => {
                proof {
                    assert(split_frames(t).0 =~= Seq::<Seq<u8>>::empty());
                    assert(byte_views(frames@) + split_frames(t).0 =~= byte_views(frames@));
                }
                rest_from = pos;
                break;
            },
            Some(start) => {
                proof {
                    lemma_first_marker(s0, 0xff, 0xd8, pos as int);
                    lemma_first_marker_shift(s0, 0xff, 0xd9, pos as int, start - pos + 2);
                }
                match marker(pending.as_slice(), [0xff, 0xd9], start + 2) {
                    None => {
                        proof {
                            assert(t.skip(start - pos) =~= s0.skip(start as int));
                            assert(split_frames(t).0 =~= Seq::<Seq<u8>>::empty());
                            assert(byte_views(frames@) + split_frames(t).0 =~= byte_views(
                                frames@,
                            ));
                        }
                        rest_from = start;
                        break;
                    },
                    Some(end) => {
                        proof {
                            lemma_first_marker(s0, 0xff, 0xd9, start + 2);
                        }
                        let frame = copy_bytes(pending.as_slice(), start, end + 2);
                        let ghost before = frames@;
                        frames.push(frame);
                        proof {
                            assert(t.skip(end - pos + 2) =~= s0.skip(end + 2));
                            assert(t.subrange(start - pos, end - pos + 2) =~= s0.subrange(
                                start as int,
                                end + 2,
                            ));
                            assert(byte_views(frames@) =~= byte_views(before).push(frame@));
                            let r = split_frames(s0.skip(end + 2));
                            assert(split_frames(t).0 == seq![frame@] + r.0);
                            assert(byte_views(before) + (seq![frame@] + r.0) =~= byte_views(
                                frames@,
                            ) + r.0);
                        }
                        pos = end + 2;
                    },
                }
            },
        }
    }
    let rest = copy_bytes(pending.as_slice(), rest_from, pending.len());
    proof {
        assert(rest@ =~= s0.skip(rest_from as int));
    }
    if rest.len() > MAX_FRAME_BYTES {
        *pending = Vec::new();
    } else {
        *pending = rest;
    }
    frames
}

/// What the viewer answers a request with.
#[derive(Debug, Clone, Copy, PartialEq, Eq, Structural)]
pub enum Route {
    /// `GET /`: the viewer page.
    Index,
    /// `GET /api/status`: the device, session and screen size.
    Status,
    /// `GET /stream.mjpg`: the frame stream.
    Stream,
    /// `POST /api/tap`.
    Tap,
    /// `POST /api/swipe`.
    Swipe,
    /// `POST /api/type`.
    Type,
    /// Anything else: 404.
    NotFound,
}

/// A request the viewer read: where it goes, and the bytes after its head.
#[derive(Debug)]
pub struct Request {
    pub route: Route,
    pub body: Vec<u8>,
}

/// Why a request could not be read.
#[derive(Debug, Clone, Copy, PartialEq, Eq, Structural)]
pub enum RequestError {
    /// No blank line ends the head.
    Invalid,
    /// The head is not UTF-8.
    NotText,
    /// The head is empty.
    MissingRequestLine,
}

/// Whether `\r\n\r\n` starts at `i` in `s`.
pub open spec fn blank_line_at(s: Seq<u8>, i: int) -> bool {
    &&& 0 <= i
    &&& i + 3 < s.len()
    &&& s[i] == 13 && s[i + 1] == 10 && s[i + 2] == 13 && s[i + 3] == 10
}

/// First index at or after `from` where the head's closing blank line starts.
pub open spec fn header_end(s: Seq<u8>, from: int) -> Option<int>
    decreases s.len() - from,
{
    if from < 0 || from + 3 >= s.len() {
        None
    } else if blank_line_at(s, from) {
        Some(from)
    } else {
        header_end(s, from + 1)
    }
}

/// The word of `line` after index `i` (empty when there is none) and the
/// index where it ends (the line's end when there is none).
pub open spec fn word_after(line: Seq<char>, i: int) -> (Seq<char>, int) {
    match next_word(line, i) {
        None => (seq![], line.len() as int),
        Some((a, e)) => (line.subrange(a, e), e),
    }
}

/// Where a method and a path lead.
pub open spec fn route_of(method: Seq<char>, path: Seq<char>) -> Route {
    if method == "GET"@ {
        if path == "/"@ {
            Route::Index
        } else if path == "/api/status"@ {
            Route::Status
        } else if path == "/stream.mjpg"@ {
            Route::Stream
        } else {
            Route::NotFound
        }
    } else if method == "POST"@ {
        if path == "/api/tap"@ {
            Route::Tap
        } else if path == "/api/swipe"@ {
            Route::Swipe
        } else if path == "/api/type"@ {
            Route::Type
        } else {
            Route::NotFound
        }
    } else {
        Route::NotFound
    }
}

/// What reading the bytes `s` of a request gives: the head ends at the
/// first blank line and must be UTF-8 and not empty; the first two words of
/// its first line are the method and the path; the body is what follows the
/// blank line.
pub open spec fn request_spec(s: Seq<u8>) -> Result<(Route, Seq<u8>), RequestError> {
    match header_end(s, 0) {
        None => Err(RequestError::Invalid),
        Some(h) => {
            if !valid_utf8(s.take(h)) {
                Err(RequestError::NotText)
            } else {
                let text = decode_utf8(s.take(h));
                if text.len() == 0 {
                    Err(RequestError::MissingRequestLine)
                } else {
                    let first = lines(text)[0];
                    let method = word_after(first, 0);
                    let path = word_after(first, method.1);
                    Ok((route_of(method.0, path.0), s.skip(h + 4)))
                }
            }
        },
    }
}

/// The text of `bytes` (`std::str::from_utf8`): there is one exactly when
/// the bytes are well-formed UTF-8, and its characters are the scalars they
/// encode.
#[verifier::external_body]
pub(crate) fn utf8_text(bytes: &[u8]) -> (r: Option<&str>)
    ensures
        r is Some <==> valid_utf8(bytes@),
        r matches Some(t) ==> t@ == decode_utf8(bytes@),
{
    std::str::from_utf8(bytes).ok()
}

fn find_header_end(s: &[u8]) -> (r: Option<usize>)
    ensures
        match header_end(s@, 0) {
            Some(h) => r matches Some(k) && k as int == h,
            None => r is None,
        },
        r matches Some(h) ==> blank_line_at(s@, h as int),
{
    let mut i: usize = 0;
    while i < s.len() && s.len() - i > 3
        invariant
            i <= s@.len(),
            header_end(s@, 0) == header_end(s@, i as int),
        decreases s@.len() - i,
    {
        if s[i] == 13 && s[i + 1] == 10 && s[i + 2] == 13 && s[i + 3] == 10 {
            return Some(i);
        }
        i += 1;
    }
    None
}

fn word_chars(line: &Vec<char>, from: usize) -> (r: (Vec<char>, usize))
    requires
        from <= line.len(),
    ensures
        r.0@ == word_after(line@, from as int).0,
        r.1 as int == word_after(line@, from as int).1,
        r.1 <= line.len(),
{
    match find_word(line, from) {
        None => (Vec::new(), line.len()),
        Some((a, e)) => (slice_chars(line, a, e), e),
    }
}

fn is_word(w: &Vec<char>, lit: &str) -> (r: bool)
    ensures
        r == (w@ == lit@),
{
    let r = strict_subrange_eq(w, 0, w.len(), lit);
    assert(w@.subrange(0, w@.len() as int) =~= w@);
    r
}

/// Reads the head of a request and keeps its body.
pub fn parse_request(request: &[u8]) -> (r: Result<Request, RequestError>)
    ensures
        match request_spec(request@) {
            Ok((route, body)) => r matches Ok(q) && q.route == route && q.body@ == body,
            Err(e) => r == Err::<Request, RequestError>(e),
        },
{
    let h = match find_header_end(request) {
        None => return Err(RequestError::Invalid),
        Some(h) => h,
    };
    let head = vstd::slice::slice_subrange(request, 0, h);
    assert(head@ =~= request@.take(h as int));
    let text = match utf8_text(head) {
        None => return Err(RequestError::NotText),
        Some(t) => t,
    };
    let v = chars_of(text);
    if v.len() == 0 {
        return Err(RequestError::MissingRequestLine);
    }
    let (first, _) = next_line(&v, 0);
    proof {
        assert(v@.skip(0) =~= v@);
    }
    let (method, e) = word_chars(&first, 0);
    let (path, _) = word_chars(&first, e);
    let route = if is_word(&method, "GET") {
        if is_word(&path, "/") {
            Route::Index
        } else if is_word(&path, "/api/status") {
            Route::Status
        } else if is_word(&path, "/stream.mjpg") {
            Route::Stream
        } else {
            Route::NotFound
        }
    } else if is_word(&method, "POST") {
        if is_word(&path, "/api/tap") {
            Route::Tap
        } else if is_word(&path, "/api/swipe") {
            Route::Swipe
        } else if is_word(&path, "/api/type") {
            Route::Type
        } else {
            Route::NotFound
        }
    } else {
        Route::NotFound
    };
    let n = request.len();
    assert(h + 4 <= n);
    let body = copy_bytes(request, h + 4, n);
    proof {
        assert(body@ =~= request@.skip(h + 4));
    }
    Ok(Request { route, body })
}

/// The head of a plain response.
pub open spec fn response_head_spec(status: u16, content_type: Seq<char>, length: nat) -> Seq<char> {
    "HTTP/1.1 "@ + decimal(status as nat) + " OK\r\nContent-Type: "@ + content_type
        + "\r\nContent-Length: "@ + decimal(length) + "\r\nCache-Control: no-store\r\nConnection: close\r\n\r\n"@
}

/// The head of a response with `status`, `content_type` and a body of
/// `length` bytes; the connection closes after it.
pub fn response_head(status: u16, content_type: &str, length: usize) -> (r: String)
    ensures
        r@ == response_head_spec(status, content_type@, length as nat),
{
    let mut s = String::new();
    push_str(&mut s, "HTTP/1.1 ");
    push_decimal(&mut s, status as u64);
    push_str(&mut s, " OK\r\nContent-Type: ");
    push_str(&mut s, content_type);
    push_str(&mut s, "\r\nContent-Length: ");
    push_decimal(&mut s, length as u64);
    push_str(&mut s, "\r\nCache-Control: no-store\r\nConnection: close\r\n\r\n");
    s
}

/// The head of one frame in the multipart stream.
pub open spec fn frame_head_spec(length: nat) -> Seq<char> {
    "--frame\r\nContent-Type: image/jpeg\r\nContent-Length: "@ + decimal(length) + "\r\n\r\n"@
}

/// The part head that precedes a frame of `length` bytes in the stream.
pub fn frame_head(length: usize) -> (r: String)
    ensures
        r@ == frame_head_spec(length as nat),
{
    let mut s = String::new();
    push_str(&mut s, "--frame\r\nContent-Type: image/jpeg\r\nContent-Length: ");
    push_decimal(&mut s, length as u64);
    push_str(&mut s, "\r\n\r\n");
    s
}

/// Why stream options were refused.
#[derive(Debug, Clone, Copy, PartialEq, Eq, Structural)]
pub enum OptionsError {
    Fps,
    Quality,
}

impl OptionsError {
    /// The error as text.
    pub fn message(&self) -> (r: String)
        ensures
            match self {
                OptionsError::Fps => r@ == "fps must be 1..30"@,
                OptionsError::Quality => r@ == "quality must be 1..100"@,
            },
    {
        match self {
            OptionsError::Fps => String::from_str("fps must be 1..30"),
            OptionsError::Quality => String::from_str("quality must be 1..100"),
        }
    }
}

/// Checks the frame rate, then the JPEG quality.
pub fn check_stream_options(fps: u8, quality: u8) -> (r: Result<(), OptionsError>)
    ensures
        !(1 <= fps <= 30) ==> r == Err::<(), OptionsError>(OptionsError::Fps),
        1 <= fps <= 30 && !(1 <= quality <= 100) ==> r == Err::<(), OptionsError>(
            OptionsError::Quality,
        ),
        1 <= fps <= 30 && 1 <= quality <= 100 ==> r is Ok,
{
    if !(1 <= fps && fps <= 30) {
        Err(OptionsError::Fps)
    } else if !(1 <= quality && quality <= 100) {
        Err(OptionsError::Quality)
    } else {
        Ok(())
    }
}

/// The arguments of the bridge's `stream-video` command.
pub fn stream_video_args(fps: u8, quality: u8, scale: &str, udid: &str) -> (r: Vec<String>)
    ensures
        strs(r@) == seq![
            "stream-video"@,
            "--format"@,
            "mjpeg"@,
            "--fps"@,
            decimal(fps as nat),
            "--quality"@,
            decimal(quality as nat),
            "--scale"@,
            scale@,
            "--udid"@,
            udid@,
        ],
{
    let mut fps_text = String::new();
    push_decimal(&mut fps_text, fps as u64);
    let mut quality_text = String::new();
    push_decimal(&mut quality_text, quality as u64);
    let mut r: Vec<String> = Vec::new();
    r.push(String::from_str("stream-video"));
    r.push(String::from_str("--format"));
    r.push(String::from_str("mjpeg"));
    r.push(String::from_str("--fps"));
    r.push(fps_text);
    r.push(String::from_str("--quality"));
    r.push(quality_text);
    r.push(String::from_str("--scale"));
    r.push(String::from_str(scale));
    r.push(String::from_str("--udid"));
    r.push(String::from_str(udid));
    proof {
        assert(strs(r@) =~= seq![
            "stream-video"@,
            "--format"@,
            "mjpeg"@,
            "--fps"@,
            decimal(fps as nat),
            "--quality"@,
            decimal(quality as nat),
            "--scale"@,
            scale@,
            "--udid"@,
            udid@,
        ]);
    }
    r
}

/// Why browser input was refused.
#[derive(Debug, Clone, Copy, PartialEq, Eq, Structural)]
pub enum ControlError {
    /// Another session is bound to the device now.
    SessionChanged,
    /// The app in front is not the session's.
    ForegroundChanged,
    /// A swipe shorter than 50 ms or longer than 5 s.
    BadDuration,
    /// More than 16 KiB of text.
    TextTooLong,
}

impl ControlError {
    /// The error as text.
    pub fn message(&self) -> (r: String)
        ensures
            match self {
                ControlError::SessionChanged => r@ == "Mx session changed; reload mx web"@,
                ControlError::ForegroundChanged => r@ == "Foreground application changed; refusing browser input"@,
                ControlError::BadDuration => r@ == "duration_ms must be 50..5000"@,
                ControlError::TextTooLong => r@ == "Text is too long"@,
            },
    {
        match self {
            ControlError::SessionChanged => String::from_str("Mx session changed; reload mx web"),
            ControlError::ForegroundChanged => String::from_str(
                "Foreground application changed; refusing browser input",
            ),
            ControlError::BadDuration => String::from_str("duration_ms must be 50..5000"),
            ControlError::TextTooLong => String::from_str("Text is too long"),
        }
    }
}

/// Browser input goes only to the session the viewer was started for.
pub fn check_session(bound_id: &str, expected: &str) -> (r: Result<(), ControlError>)
    ensures
        bound_id@ == expected@ ==> r is Ok,
        bound_id@ != expected@ ==> r == Err::<(), ControlError>(ControlError::SessionChanged),
{
    if crate::text::str_eq(bound_id, expected) {
        Ok(())
    } else {
        Err(ControlError::SessionChanged)
    }
}

/// Browser input goes only to the session's app: the pid of the first root
/// of the accessibility tree must be the session's.
pub fn check_foreground_pid(pid: Option<u64>, expected: u32) -> (r: Result<(), ControlError>)
    ensures
        pid == Some(expected as u64) ==> r is Ok,
        pid != Some(expected as u64) ==> r == Err::<(), ControlError>(
            ControlError::ForegroundChanged,
        ),
{
    match pid {
        Some(p) if p == expected as u64 => Ok(()),
        _ => Err(ControlError::ForegroundChanged),
    }
}

/// A swipe lasts from 50 ms to 5 s.
pub fn check_swipe_duration(duration_ms: u64) -> (r: Result<(), ControlError>)
    ensures
        50 <= duration_ms <= 5000 ==> r is Ok,
        !(50 <= duration_ms <= 5000) ==> r == Err::<(), ControlError>(ControlError::BadDuration),
{
    if 50 <= duration_ms && duration_ms <= 5000 {
        Ok(())
    } else {
        Err(ControlError::BadDuration)
    }
}

/// Typed text is at most 16 KiB of UTF-8.
pub fn check_text_length(byte_len: usize) -> (r: Result<(), ControlError>)
    ensures
        byte_len <= 16384 ==> r is Ok,
        byte_len > 16384 ==> r == Err::<(), ControlError>(ControlError::TextTooLong),
{
    if byte_len <= 16384 {
        Ok(())
    } else {
        Err(ControlError::TextTooLong)
    }
}

} // verus!
