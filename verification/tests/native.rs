use mx::native::apt::{flatten_nodes, hex16, normalize_role, tree_hash, AptNode};
use mx::native::coresim::{device_state, launch_supported, list_supported, map_sim_state, LaunchProbe, ListProbe};
use mx::native::encode::{encode_frame, frame_length, read_frame, FrameError, MAX_FRAME_BYTES};
use mx::native::guest::{
    exit_detail, hash_source, inspect_source, lowered_empty_tree_error, read_reply, reply_status, GuestHash, GuestSnapshot, HashSource, InspectSource, decode_snapshot, empty_tree_error, reply_pid, snapshot_unchanged, socket_path, ElementsField,
    GuestElement, SnapshotError, SnapshotReply,
};
use mx::native::hid::{
    hid_usage, is_block, is_bool_code, is_id_or_pointer, is_pointer, key_combo_cmd_v,
    keyboard_message, touch_message, type_ascii, type_text_blocking, HidError, TypingRoute,
};
use mx::native::screen::{
    encode_rgb_jpeg, encode_rgb_png, pack_to_rgb, pixel_format, EncodeError, PackError, PixelFormat, Subscriptions, FOURCC_ARGB, FOURCC_BGRA, FOURCC_RGBA};
use mx::ui::{Element, FrameBits, Json};
use mx::native::video::{new_frames, publish_frame, set_error, wait_for_first_frame, FirstFrame};

#[test]
fn maps_core_simulator_device_states() {
    assert_eq!(map_sim_state(1), "Shutdown");
    assert_eq!(map_sim_state(3), "Booted");
    assert_eq!(map_sim_state(4), "Shutting Down");
    assert_eq!(map_sim_state(99), "Unknown");
}

#[test]
fn round_trips_a_length_prefixed_frame() {
    let encoded = encode_frame(b"{\"ok\":true}").unwrap();
    assert_eq!(&encoded[..4], 11_u32.to_be_bytes());
    let decoded = read_frame(&encoded).unwrap();
    assert_eq!(decoded, b"{\"ok\":true}");
}

#[test]
fn frames_refuse_oversized_and_truncated_input() {
    let big = vec![0_u8; MAX_FRAME_BYTES as usize + 1];
    assert_eq!(encode_frame(&big), Err(FrameError::TooLarge));
    assert_eq!(read_frame(&[0, 0]), Err(FrameError::Closed));
    assert_eq!(read_frame(&[0, 0, 0, 5, 1, 2]), Err(FrameError::Truncated));
    assert_eq!(read_frame(&[2, 0, 0, 0]), Err(FrameError::LengthTooLarge(0x0200_0000)));
    assert_eq!(frame_length([0, 0, 1, 0]), Ok(256));
    assert_eq!(read_frame(&[0, 0, 0, 2, 7, 8, 9]), Ok(vec![7, 8]));
    assert_eq!(read_frame(&encode_frame(&[]).unwrap()), Ok(Vec::new()));
}

#[test]
fn empty_tree_error_matches_guest_ax_copy() {
    let error =
        anyhow::Error::msg("empty XCT tree (xct=loaded-remote; timeout; empty AX tree (pid=1))");
    assert!(empty_tree_error(&format!("{error:#}")));
    assert!(!empty_tree_error(&format!("{:#}", anyhow::Error::msg("mx-guest hello failed"))));
}

#[test]
fn empty_tree_error_ignores_case() {
    assert!(empty_tree_error("EMPTY AX TREE"));
    assert!(empty_tree_error("guest: Empty Tree"));
    assert!(!empty_tree_error("tree empty"));
}

#[test]
fn keyboard_message_is_button_indigo_layout() {
    let down = keyboard_message(0x04, true, 7);
    let up = keyboard_message(0x19, false, 7);
    assert_eq!(down.len(), 0xc0);
    assert_eq!(up.len(), 0xc0);
    assert_eq!(down[0x1c], 0x01);
    assert_eq!(up[0x1c], 0x01);
    assert_eq!(
        u32::from_le_bytes(down[0x3c..0x40].try_into().unwrap()),
        0x04
    );
    assert_eq!(u32::from_le_bytes(up[0x3c..0x40].try_into().unwrap()), 0x19);
    assert_eq!(&down[0x6c..0x70], &[0, 0, 0, 0]);
}

#[test]
fn keyboard_message_stamps_time_and_direction() {
    let message = keyboard_message(0x2c, false, 0x1122_3344_5566_7788);
    assert_eq!(u64::from_le_bytes(message[0x24..0x2c].try_into().unwrap()), 0x1122_3344_5566_7788);
    assert_eq!(u32::from_le_bytes(message[0x34..0x38].try_into().unwrap()), 2);
    assert_eq!(u32::from_le_bytes(message[0x30..0x34].try_into().unwrap()), 0x2710);
}

#[test]
fn touch_message_is_digitizer_indigo_layout() {
    let message = touch_message(0.5_f64.to_bits(), 0.25_f64.to_bits(), true, 1);
    assert_eq!(message.len(), 0x160);
    assert_eq!(
        u32::from_le_bytes(message[0x18..0x1c].try_into().unwrap()),
        0xa0
    );
    assert_eq!(message[0x1c], 0x02);
    assert_eq!(
        f64::from_le_bytes(message[0x3c..0x44].try_into().unwrap()),
        0.5
    );
    assert_eq!(
        f64::from_le_bytes(message[0x44..0x4c].try_into().unwrap()),
        0.25
    );
    assert_eq!(
        u32::from_le_bytes(message[0x6c..0x70].try_into().unwrap()),
        0x32
    );
    assert_eq!(
        u32::from_le_bytes(message[0xd0..0xd4].try_into().unwrap()),
        1
    );
    assert_eq!(
        u32::from_le_bytes(message[0xd4..0xd8].try_into().unwrap()),
        2
    );
    assert_eq!(&message[0xc0 + 0x1c..0xc0 + 0x2c], &message[0x3c..0x4c]);
}

#[test]
fn indigo_send_probe_accepts_struct_pointer_bool_queue_and_block() {
    assert!(is_pointer(Some(b"^{IndigoHIDMessageStruct={?=IIIIIi}IC}")));
    assert!(is_pointer(Some(b"^v")));
    assert!(is_bool_code(Some(b'B')));
    assert!(is_bool_code(Some(b'c')));
    assert!(is_id_or_pointer(Some(b'@')));
    assert!(is_block(Some(b"@?")));
    assert!(!is_pointer(Some(b"@")));
    assert!(!is_bool_code(Some(b'i')));
}

#[test]
fn typing_maps_ascii_and_routes_unicode_to_the_pasteboard() {
    assert_eq!(hid_usage('a'), Some(0x04));
    assert_eq!(hid_usage('Z'), Some(0x1d));
    assert_eq!(hid_usage('0'), Some(0x27));
    assert_eq!(hid_usage('\n'), Some(0x28));
    assert_eq!(hid_usage('~'), None);
    assert_eq!(type_ascii("ab 1"), Ok(vec![0x04, 0x05, 0x2c, 0x1e]));
    assert_eq!(type_ascii("a~b"), Err(HidError::NoUsage('~')));
    assert_eq!(key_combo_cmd_v(), vec![(0xe3, true), (0x19, true), (0x19, false), (0xe3, false)]);
    assert_eq!(type_text_blocking("hello\tworld\n"), Ok(TypingRoute::Keys));
    assert_eq!(type_text_blocking("héllo"), Ok(TypingRoute::Paste));
    assert_eq!(type_text_blocking("bell\u{7}"), Err(HidError::ControlCharacters));
    assert_eq!(type_text_blocking(&"é".repeat(8193)), Err(HidError::TooLong));
    assert_eq!(type_text_blocking(&"a".repeat(16384)), Ok(TypingRoute::Keys));
}

#[test]
fn coresim_probes_and_states() {
    let probe = ListProbe {
        udid: Some(b'@'),
        name: Some(b'@'),
        device_type_identifier: Some(b'@'),
        runtime_identifier: Some(b'@'),
        state_string: None,
        state: Some(b'Q'),
        devices: Some(b'@'),
    };
    assert!(list_supported(&probe));
    assert!(!list_supported(&ListProbe { devices: None, ..probe }));
    assert!(launch_supported(&LaunchProbe { launch: Some((Some(b'i'), 5)), terminate: Some((Some(b'B'), 4)) }));
    assert!(!launch_supported(&LaunchProbe { launch: Some((Some(b'i'), 4)), terminate: Some((Some(b'B'), 4)) }));
    assert_eq!(device_state(Some(""), 2), "Booting");
    assert_eq!(device_state(Some("Booted"), 1), "Booted");
    assert_eq!(device_state(None, 0), "Creating");
}

fn reply(unchanged: Option<bool>, hash: Option<&str>, elements: ElementsField) -> SnapshotReply {
    SnapshotReply {
        unchanged,
        hash: hash.map(str::to_owned),
        pid: Some(4321),
        width_bits: 390.0_f64.to_bits(),
        height_bits: 844.0_f64.to_bits(),
        elements,
    }
}

#[test]
fn missing_elements_with_hash_is_unchanged() {
    let reply = reply(None, Some("abc123"), ElementsField::Missing);
    assert!(snapshot_unchanged(&reply));
    let screen = decode_snapshot("test-device", &reply).unwrap();
    assert_eq!(screen.hash.as_deref(), Some("abc123"));
    assert!(screen.elements.is_empty());
    assert_eq!(screen.pid, Some(4321));
    assert_eq!(f64::from_bits(screen.width_bits), 390.0);
    assert_eq!(f64::from_bits(screen.height_bits), 844.0);
}

#[test]
fn empty_elements_with_unchanged_flag_is_unchanged() {
    let reply = reply(Some(true), Some("same"), ElementsField::Array(Vec::new()));
    assert!(snapshot_unchanged(&reply));
    let screen = decode_snapshot("d", &reply).unwrap();
    assert!(screen.elements.is_empty());
    assert_eq!(screen.hash.as_deref(), Some("same"));
}

#[test]
fn version_one_reply_with_elements_is_a_full_tree() {
    let reply = reply(
        None,
        Some("tree"),
        ElementsField::Array(vec![GuestElement {
            role: Some("Button".into()),
            identifier: Some("first".into()),
            label: Some("Continue".into()),
            value: None,
            frame: None,
        }]),
    );
    assert!(!snapshot_unchanged(&reply));
    let screen = decode_snapshot("d", &reply).unwrap();
    assert_eq!(screen.elements.len(), 1);
    assert_eq!(screen.elements[0].identifier.as_deref(), Some("first"));
    assert_eq!(screen.elements[0].index, Some(0));
    assert_eq!(screen.hash.as_deref(), Some("tree"));
}

#[test]
fn empty_tree_without_unchanged_flag_is_not_a_cache_hit() {
    let reply = reply(None, Some("empty"), ElementsField::Array(Vec::new()));
    assert!(!snapshot_unchanged(&reply));
    let screen = decode_snapshot("d", &reply).unwrap();
    assert!(screen.elements.is_empty());
    assert_eq!(screen.hash.as_deref(), Some("empty"));
}

#[test]
fn snapshot_without_elements_or_hash_is_refused() {
    let reply = reply(None, Some(""), ElementsField::Null);
    assert!(!snapshot_unchanged(&reply));
    assert_eq!(decode_snapshot("d", &reply).unwrap_err(), SnapshotError::MissingElements);
    let element = GuestElement { role: None, identifier: None, label: None, value: None, frame: None };
    let screen = decode_snapshot("d", &reply_with(ElementsField::Array(vec![element]))).unwrap();
    assert_eq!(screen.elements[0].role, "Unknown");
    assert_eq!(reply_pid(Some(0)), None);
    assert_eq!(reply_pid(Some(u64::from(u32::MAX) + 1)), None);
    assert_eq!(socket_path("ABC"), "/tmp/mx-ABC.sock");
}

fn reply_with(elements: ElementsField) -> SnapshotReply {
    reply(None, None, elements)
}

#[test]
fn frame_state_reports_first_frame_or_error() {
    let mut frames = new_frames();
    assert!(matches!(wait_for_first_frame(&frames), FirstFrame::Pending));
    publish_frame(&mut frames, vec![1, 2, 3]);
    assert_eq!(frames.sequence, 1);
    assert!(matches!(wait_for_first_frame(&frames), FirstFrame::Ready));
    set_error(&mut frames, "stream ended".into());
    assert!(matches!(wait_for_first_frame(&frames), FirstFrame::Failed(message) if message == "stream ended"));
}

#[test]
fn frame_clocks_count_per_device() {
    let mut subscriptions = Subscriptions::new();
    assert_eq!(subscriptions.current_counter("a"), 0);
    assert_eq!(subscriptions.wait_frame_after("a", 0), Err(()));
    subscriptions.subscribe("a");
    subscriptions.bump("a", 10);
    subscriptions.bump("a", 20);
    subscriptions.subscribe("a");
    assert_eq!(subscriptions.current_counter("a"), 2);
    assert_eq!(subscriptions.frames_since("a", 1), 1);
    assert_eq!(subscriptions.frames_since("a", 5), 0);
    assert_eq!(subscriptions.last_frame_nanos("a"), 20);
    assert_eq!(subscriptions.wait_frame_after("a", 1), Ok(Some(2)));
    assert_eq!(subscriptions.wait_frame_after("a", 2), Ok(None));
    assert!(subscriptions.contains("a") && !subscriptions.contains("b"));
}

fn padded_bgra() -> (Vec<u8>, u32, u32, usize) {
    let width = 2_u32;
    let height = 2_u32;
    let bytes_per_row = 16_usize;
    let mut bgra = vec![0_u8; bytes_per_row * height as usize];
    // Opaque red, green / blue, white in BGRA, with 8 bytes of row padding.
    bgra[0..4].copy_from_slice(&[0, 0, 255, 255]);
    bgra[4..8].copy_from_slice(&[0, 255, 0, 255]);
    bgra[16..20].copy_from_slice(&[255, 0, 0, 255]);
    bgra[20..24].copy_from_slice(&[255, 255, 255, 255]);
    (bgra, width, height, bytes_per_row)
}

// The output size that a scale of 1.0 gives for this frame.
#[test]
fn pack_skips_row_padding() {
    let (bgra, width, height, bytes_per_row) = padded_bgra();
    let mut rgb = Vec::new();
    let (out_w, out_h) =
        pack_to_rgb(&bgra, width, height, bytes_per_row, FOURCC_BGRA, 2, 2, &mut rgb).unwrap();
    assert_eq!((out_w, out_h), (2, 2));
    assert_eq!(rgb, vec![255, 0, 0, 0, 255, 0, 0, 0, 255, 255, 255, 255]);
}

// The output size that a scale of 0.5 gives for this frame.
#[test]
fn pack_scales_down_bgra() {
    let (bgra, width, height, bytes_per_row) = padded_bgra();
    let mut rgb = Vec::new();
    let (out_w, out_h) =
        pack_to_rgb(&bgra, width, height, bytes_per_row, FOURCC_BGRA, 1, 1, &mut rgb).unwrap();
    assert_eq!((out_w, out_h), (1, 1));
    assert_eq!(rgb, vec![255, 0, 0]);
}

#[test]
fn pack_reads_rgba_and_argb_layouts() {
    let src = vec![10, 20, 30, 40];
    let mut rgb = Vec::new();
    pack_to_rgb(&src, 1, 1, 4, FOURCC_RGBA, 1, 1, &mut rgb).unwrap();
    assert_eq!(rgb, vec![10, 20, 30]);
    pack_to_rgb(&src, 1, 1, 4, FOURCC_ARGB, 1, 1, &mut rgb).unwrap();
    assert_eq!(rgb, vec![20, 30, 40]);
    assert_eq!(pixel_format(0), PixelFormat::Bgra);
    assert_eq!(pixel_format(FOURCC_RGBA), PixelFormat::Rgba);
}

#[test]
fn pack_refuses_bad_geometry_and_keeps_the_output() {
    let src = vec![0_u8; 8];
    let mut rgb = vec![7];
    assert_eq!(pack_to_rgb(&src, 0, 1, 4, FOURCC_BGRA, 1, 1, &mut rgb), Err(PackError::EmptyFrame));
    assert_eq!(pack_to_rgb(&src, 2, 1, 7, FOURCC_BGRA, 1, 1, &mut rgb), Err(PackError::ShortRows));
    assert_eq!(pack_to_rgb(&src, 1, 3, 4, FOURCC_BGRA, 1, 1, &mut rgb), Err(PackError::ShortBuffer));
    assert_eq!(rgb, vec![7]);
}

#[test]
fn guest_exit_detail_is_trimmed_stderr_or_a_placeholder() {
    assert_eq!(exit_detail("  boom \n"), "boom");
    assert_eq!(exit_detail(" \n\t"), "no stderr");
    assert_eq!(exit_detail(""), "no stderr");
}

#[test]
fn guest_reply_succeeds_only_when_ok_is_true() {
    let ok = Json::Object(vec![("id".into(), Json::Number("1".into())), ("ok".into(), Json::Bool(true))]);
    assert!(reply_status(&ok).is_ok());
    let failed = Json::Object(vec![
        ("ok".into(), Json::Bool(false)),
        ("error".into(), Json::Str("no app".into())),
    ]);
    assert_eq!(reply_status(&failed).unwrap_err(), "no app");
    let truthy = Json::Object(vec![("ok".into(), Json::Str("true".into()))]);
    assert_eq!(reply_status(&truthy).unwrap_err(), "mx-guest returned an error");
    assert_eq!(reply_status(&Json::Null).unwrap_err(), "mx-guest returned an error");
}

fn frame(x: f64, y: f64, w: f64, h: f64) -> Option<FrameBits> {
    Some(FrameBits { x: x.to_bits(), y: y.to_bits(), width: w.to_bits(), height: h.to_bits() })
}

fn counter_tree(with_frames: bool) -> Vec<AptNode> {
    vec![AptNode {
        role: "AXButton".into(),
        identifier: Some("increment".into()),
        label: Some("Increment".into()),
        value: None,
        frame: if with_frames { frame(10.0, 20.0, 30.0, 40.0) } else { None },
        children: vec![AptNode {
            role: "StaticText".into(),
            identifier: Some("counter".into()),
            label: Some("0".into()),
            value: Some("0".into()),
            frame: if with_frames { frame(1.0, 2.0, 3.0, 4.0) } else { None },
            children: Vec::new(),
        }],
    }]
}

#[test]
fn flattens_and_hashes_role_id_label_value_without_frames() {
    let elements = flatten_nodes(&counter_tree(true));
    assert_eq!(elements.len(), 2);
    assert_eq!(elements[0].role, "AXButton");
    assert_eq!(elements[0].identifier.as_deref(), Some("increment"));
    assert_eq!(elements[0].frame, frame(10.0, 20.0, 30.0, 40.0));
    assert_eq!(elements[1].identifier.as_deref(), Some("counter"));
    assert_eq!(elements[0].index, Some(0));
    assert_eq!(elements[1].index, Some(1));
    let hashed = tree_hash(&elements);
    let without_frames = flatten_nodes(&counter_tree(false));
    assert_eq!(hashed, tree_hash(&without_frames));
    assert_eq!(hashed.len(), 16);
    assert!(hashed.chars().all(|ch| ch.is_ascii_hexdigit()));
}

#[test]
fn tree_hash_mixes_fields_with_separators() {
    assert_eq!(tree_hash(&Vec::new()), "0000000000001505");
    let one = vec![Element {
        role: "A".into(),
        reference: None,
        identifier: None,
        label: None,
        value: None,
        index: None,
        frame: None,
    }];
    assert_eq!(tree_hash(&one), "000000310ca8c0a2");
    assert_eq!(hex16(0xabc), "0000000000000abc");
    assert_eq!(hex16(u64::MAX), "ffffffffffffffff");
}

#[test]
fn siblings_are_numbered_after_descendants() {
    let mut tree = counter_tree(false);
    tree.push(AptNode {
        role: "Cell".into(),
        identifier: None,
        label: None,
        value: None,
        frame: None,
        children: Vec::new(),
    });
    let elements = flatten_nodes(&tree);
    let roles: Vec<&str> = elements.iter().map(|e| e.role.as_str()).collect();
    assert_eq!(roles, vec!["AXButton", "StaticText", "Cell"]);
    assert_eq!(elements[2].index, Some(2));
}

#[test]
fn roles_lose_the_ax_prefix_before_an_uppercase_letter() {
    assert_eq!(normalize_role(Some("AXButton".into())), "Button");
    assert_eq!(normalize_role(Some("AXe".into())), "AXe");
    assert_eq!(normalize_role(Some("AX".into())), "AX");
    assert_eq!(normalize_role(Some("".into())), "Unknown");
    assert_eq!(normalize_role(None), "Unknown");
    assert_eq!(normalize_role(Some("Cell".into())), "Cell");
}

#[test]
fn inspection_prefers_the_guest_and_falls_back_to_the_host_walk() {
    assert_eq!(inspect_source(GuestSnapshot::Unchanged, true), InspectSource::Guest);
    assert_eq!(inspect_source(GuestSnapshot::WithElements, true), InspectSource::Guest);
    assert_eq!(inspect_source(GuestSnapshot::Empty, true), InspectSource::Apt);
    assert_eq!(inspect_source(GuestSnapshot::Empty, false), InspectSource::Guest);
    assert_eq!(inspect_source(GuestSnapshot::Failed, true), InspectSource::Apt);
    assert_eq!(inspect_source(GuestSnapshot::Failed, false), InspectSource::GuestError);
    assert_eq!(hash_source(GuestHash::Hash, false), HashSource::Guest);
    assert_eq!(hash_source(GuestHash::NoHash, true), HashSource::Apt);
    assert_eq!(hash_source(GuestHash::NoHash, false), HashSource::Unknown);
    assert_eq!(hash_source(GuestHash::Failed, true), HashSource::Apt);
    assert_eq!(hash_source(GuestHash::Failed, false), HashSource::GuestError);
}

fn padded_rgb() -> (Vec<u8>, u32, u32) {
    let (bgra, width, height, bytes_per_row) = padded_bgra();
    let mut rgb = Vec::new();
    let (w, h) = pack_to_rgb(&bgra, width, height, bytes_per_row, FOURCC_BGRA, 2, 2, &mut rgb).unwrap();
    (rgb, w, h)
}

#[test]
fn encodes_synthetic_bgra_jpeg() {
    let (rgb, width, height) = padded_rgb();
    let jpeg = encode_rgb_jpeg(&rgb, width, height, 80).unwrap();
    assert!(jpeg.len() > 2 && jpeg[0] == 0xff && jpeg[1] == 0xd8);
    assert_eq!(&jpeg[jpeg.len() - 2..], &[0xff, 0xd9]);
}

#[test]
fn encodes_synthetic_bgra_png() {
    let (rgb, width, height) = padded_rgb();
    let png = encode_rgb_png(&rgb, width, height).unwrap();
    assert_eq!(&png[..8], &[0x89, b'P', b'N', b'G', 0x0d, 0x0a, 0x1a, 0x0a]);
}

#[test]
fn jpeg_quality_is_clamped_and_oversized_frames_are_refused() {
    let (rgb, width, height) = padded_rgb();
    assert_eq!(encode_rgb_jpeg(&rgb, width, height, 0), encode_rgb_jpeg(&rgb, width, height, 1));
    assert_eq!(encode_rgb_jpeg(&rgb, width, height, 255), encode_rgb_jpeg(&rgb, width, height, 100));
    assert_ne!(encode_rgb_jpeg(&rgb, width, height, 10), encode_rgb_jpeg(&rgb, width, height, 100));
    assert_eq!(encode_rgb_jpeg(&rgb, 65536, 1, 80), Err(EncodeError::TooLarge));
    assert_eq!(encode_rgb_jpeg(&rgb, 1, 70000, 80), Err(EncodeError::TooLarge));
    assert_eq!(EncodeError::TooLarge.message(), "Frame is too large");
}

#[test]
fn encoders_refuse_missing_pixels_and_empty_frames() {
    let (rgb, _, _) = padded_rgb();
    assert_eq!(encode_rgb_jpeg(&rgb, 3, 2, 80), Err(EncodeError::Jpeg));
    assert_eq!(encode_rgb_jpeg(&rgb, 0, 2, 80), Err(EncodeError::Jpeg));
    assert_eq!(encode_rgb_png(&rgb, 0, 2), Err(EncodeError::Png));
    assert_eq!(encode_rgb_png(&rgb[..9], 2, 2), Err(EncodeError::Png));
    assert_eq!(encode_rgb_png(&rgb, 1, 2), Err(EncodeError::Png));
    assert!(encode_rgb_jpeg(&rgb, 1, 2, 80).is_ok());
}

#[test]
fn guest_replies_are_decoded_then_judged() {
    let ok = read_reply(br#"{"ok":true,"hash":"h"}"#).unwrap();
    assert!(matches!(ok, Json::Object(_)));
    assert_eq!(read_reply(br#"{"ok":false,"error":"no app"}"#).unwrap_err(), "no app");
    assert_eq!(read_reply(br#"{"ok":1}"#).unwrap_err(), "mx-guest returned an error");
    assert_eq!(read_reply(b"{\"ok\":tru").unwrap_err(), "Guest returned invalid JSON");
    assert_eq!(read_reply(&[0x7b, 0xff, 0x7d]).unwrap_err(), "Guest returned invalid JSON");
}

#[test]
fn lowered_error_text_is_matched_without_case_mapping() {
    assert!(lowered_empty_tree_error("guest: empty ax tree"));
    assert!(lowered_empty_tree_error("empty xct snapshot"));
    assert!(!lowered_empty_tree_error("EMPTY TREE"));
    assert!(!lowered_empty_tree_error("tree is empty"));
}
