use crate::text::chars_of;
use vstd::prelude::*;
use vstd::string::*;

verus! {

/// The little-endian bytes of a 32-bit number.
pub open spec fn le32(n: u32) -> Seq<u8> {
    seq![
        (n & 0xff) as u8,
        ((n >> 8) & 0xff) as u8,
        ((n >> 16) & 0xff) as u8,
        ((n >> 24) & 0xff) as u8,
    ]
}

/// The little-endian bytes of a 64-bit number.
pub open spec fn le64(n: u64) -> Seq<u8> {
    le32((n & 0xffff_ffff) as u32) + le32((n >> 32) as u32)
}

/// `n` zero bytes.
pub open spec fn zeros(n: nat) -> Seq<u8> {
    Seq::new(n, |i: int| 0u8)
}

fn push_le32(v: &mut Vec<u8>, n: u32)
    ensures
        final(v)@ == old(v)@ + le32(n),
{
    v.push((n & 0xff) as u8);
    v.push(((n >> 8) & 0xff) as u8);
    v.push(((n >> 16) & 0xff) as u8);
    v.push(((n >> 24) & 0xff) as u8);
    assert(v@ =~= old(v)@ + le32(n));
}

fn push_le64(v: &mut Vec<u8>, n: u64)
    ensures
        final(v)@ == old(v)@ + le64(n),
{
    push_le32(v, (n & 0xffff_ffff) as u32);
    push_le32(v, (n >> 32) as u32);
    assert(v@ =~= old(v)@ + le64(n));
}

fn push_zeros(v: &mut Vec<u8>, n: usize)
    ensures
        final(v)@ == old(v)@ + zeros(n as nat),
{
    let mut i: usize = 0;
    while i < n
        invariant
            i <= n,
            v@ == old(v)@ + zeros(i as nat),
        decreases n - i,
    {
        v.push(0u8);
        i += 1;
        assert(v@ =~= old(v)@ + zeros(i as nat));
    }
}

/// The Indigo button message of one key event: usage page 7 key `usage`,
/// pressed when `down`, stamped with `timestamp`.
pub open spec fn keyboard_spec(usage: u32, down: bool, timestamp: u64) -> Seq<u8> {
    zeros(0x18) + le32(0xa0) + seq![1u8] + zeros(3) + le32(2) + le64(timestamp) + zeros(4)
        + le32(0x2710) + le32(if down { 1 } else { 2 }) + le32(0x64) + le32(usage) + zeros(0x80)
}

/// The Indigo button message of one key event.
pub fn keyboard_message(usage: u32, down: bool, timestamp: u64) -> (r: Vec<u8>)
    ensures
        r@ == keyboard_spec(usage, down, timestamp),
        r@.len() == 0xc0,
{
    let mut m: Vec<u8> = Vec::new();
    push_zeros(&mut m, 0x18);
    push_le32(&mut m, 0xa0);
    m.push(1u8);
    push_zeros(&mut m, 3);
    push_le32(&mut m, 2);
    push_le64(&mut m, timestamp);
    push_zeros(&mut m, 4);
    push_le32(&mut m, 0x2710);
    push_le32(
        &mut m,
        if down {
            1
        } else {
            2
        },
    );
    push_le32(&mut m, 0x64);
    push_le32(&mut m, usage);
    push_zeros(&mut m, 0x80);
    assert(m@ =~= keyboard_spec(usage, down, timestamp));
    m
}

/// One digitizer record of a touch message.
pub open spec fn touch_record(
    timestamp: u64,
    first: u32,
    second: u32,
    down: bool,
    x_bits: u64,
    y_bits: u64,
) -> Seq<u8> {
    le32(0x0b) + le64(timestamp) + zeros(4) + le32(first) + le32(second) + le32(
        if down { 0x07 } else { 0x06 },
    ) + le64(x_bits) + le64(y_bits) + zeros(0x18) + le32(if down { 1 } else { 0 }) + le32(
        if down { 1 } else { 0 },
    ) + le32(0x32) + zeros(0x50)
}

/// The Indigo digitizer message of one touch at the given screen ratios
/// (each the bit pattern of an `f64`): two records, the second marked
/// contact 2.
pub open spec fn touch_spec(x_bits: u64, y_bits: u64, down: bool, timestamp: u64) -> Seq<u8> {
    zeros(0x18) + le32(0xa0) + seq![2u8] + zeros(3) + touch_record(
        timestamp,
        0x400002,
        1,
        down,
        x_bits,
        y_bits,
    ) + touch_record(timestamp, 1, 2, down, x_bits, y_bits)
}

fn push_touch_record(
    m: &mut Vec<u8>,
    timestamp: u64,
    first: u32,
    second: u32,
    down: bool,
    x_bits: u64,
    y_bits: u64,
)
    ensures
        final(m)@ == old(m)@ + touch_record(timestamp, first, second, down, x_bits, y_bits),
{
    push_le32(m, 0x0b);
    push_le64(m, timestamp);
    push_zeros(m, 4);
    push_le32(m, first);
    push_le32(m, second);
    push_le32(
        m,
        if down {
            0x07
        } else {
            0x06
        },
    );
    push_le64(m, x_bits);
    push_le64(m, y_bits);
    push_zeros(m, 0x18);
    push_le32(
        m,
        if down {
            1
        } else {
            0
        },
    );
    push_le32(
        m,
        if down {
            1
        } else {
            0
        },
    );
    push_le32(m, 0x32);
    push_zeros(m, 0x50);
    assert(m@ =~= old(m)@ + touch_record(timestamp, first, second, down, x_bits, y_bits));
}

/// The Indigo digitizer message of one touch.
pub fn touch_message(x_bits: u64, y_bits: u64, down: bool, timestamp: u64) -> (r: Vec<u8>)
    ensures
        r@ == touch_spec(x_bits, y_bits, down, timestamp),
        r@.len() == 0x160,
{
    let mut m: Vec<u8> = Vec::new();
    push_zeros(&mut m, 0x18);
    push_le32(&mut m, 0xa0);
    m.push(2u8);
    push_zeros(&mut m, 3);
    push_touch_record(&mut m, timestamp, 0x400002, 1, down, x_bits, y_bits);
    push_touch_record(&mut m, timestamp, 1, 2, down, x_bits, y_bits);
    assert(m@ =~= touch_spec(x_bits, y_bits, down, timestamp));
    m
}

/// The HID keyboard usage that types `c`, if any.
pub open spec fn hid_usage_spec(c: char) -> Option<u32> {
    if 'a' <= c <= 'z' {
        Some((0x04 + (c as int - 'a' as int)) as u32)
    } else if 'A' <= c <= 'Z' {
        Some((0x04 + (c as int - 'A' as int)) as u32)
    } else if '1' <= c <= '9' {
        Some((0x1e + (c as int - '1' as int)) as u32)
    } else if c == '0' {
        Some(0x27)
    } else if c == '\n' || c == '\r' {
        Some(0x28)
    } else if c == '\t' {
        Some(0x2b)
    } else if c == ' ' {
        Some(0x2c)
    } else if c == '-' {
        Some(0x2d)
    } else if c == '=' {
        Some(0x2e)
    } else if c == '[' {
        Some(0x2f)
    } else if c == ']' {
        Some(0x30)
    } else if c == '\\' {
        Some(0x31)
    } else if c == ';' {
        Some(0x33)
    } else if c == '\'' {
        Some(0x34)
    } else if c == '`' {
        Some(0x35)
    } else if c == ',' {
        Some(0x36)
    } else if c == '.' {
        Some(0x37)
    } else if c == '/' {
        Some(0x38)
    } else {
        None
    }
}

/// The HID keyboard usage that types `c`, if any.
pub fn hid_usage(c: char) -> (r: Option<u32>)
    ensures
        r == hid_usage_spec(c),
{
    if 'a' <= c && c <= 'z' {
        Some(0x04 + (c as u32 - 'a' as u32))
    } else if 'A' <= c && c <= 'Z' {
        Some(0x04 + (c as u32 - 'A' as u32))
    } else if '1' <= c && c <= '9' {
        Some(0x1e + (c as u32 - '1' as u32))
    } else if c == '0' {
        Some(0x27)
    } else if c == '\n' || c == '\r' {
        Some(0x28)
    } else if c == '\t' {
        Some(0x2b)
    } else if c == ' ' {
        Some(0x2c)
    } else if c == '-' {
        Some(0x2d)
    } else if c == '=' {
        Some(0x2e)
    } else if c == '[' {
        Some(0x2f)
    } else if c == ']' {
        Some(0x30)
    } else if c == '\\' {
        Some(0x31)
    } else if c == ';' {
        Some(0x33)
    } else if c == '\'' {
        Some(0x34)
    } else if c == '`' {
        Some(0x35)
    } else if c == ',' {
        Some(0x36)
    } else if c == '.' {
        Some(0x37)
    } else if c == '/' {
        Some(0x38)
    } else {
        None
    }
}

/// Why text cannot be typed.
#[derive(Debug, Clone, Copy, PartialEq, Eq)]
pub enum HidError {
    /// A character has no HID usage.
    NoUsage(char),
    /// The text exceeds 16 KiB.
    TooLong,
    /// The text holds control characters other than line breaks and tabs.
    ControlCharacters,
}

/// The key usages that type `s[0..n]`, or the first character that has
/// none.
pub open spec fn usages_of(s: Seq<char>, n: int) -> Result<Seq<u32>, char>
    decreases n,
{
    if n <= 0 {
        Ok(seq![])
    } else {
        match usages_of(s, n - 1) {
            Err(c) => Err(c),
            Ok(u) => match hid_usage_spec(s[n - 1]) {
                Some(k) => Ok(u.push(k)),
                None => Err(s[n - 1]),
            },
        }
    }
}

/// The key usages that type ASCII text, one per character, in order; each
/// is sent as a press and a release.
pub fn type_ascii(text: &str) -> (r: Result<Vec<u32>, HidError>)
    ensures
        match usages_of(text@, text@.len() as int) {
            Ok(u) => r matches Ok(v) && v@ == u,
            Err(c) => r == Err::<Vec<u32>, HidError>(HidError::NoUsage(c)),
        },
{
    let v = chars_of(text);
    let mut out: Vec<u32> = Vec::new();
    let mut i: usize = 0;
    while i < v.len()
        invariant
            i <= v.len(),
            v@ == text@,
            usages_of(v@, i as int) == Ok::<Seq<u32>, char>(out@),
        decreases v.len() - i,
    {
        match hid_usage(v[i]) {
            Some(k) => {
                out.push(k);
            },
            None => {
                proof {
                    lemma_usages_err_persists(v@, i + 1, v.len() as int);
                }
                return Err(HidError::NoUsage(v[i]));
            },
        }
        i += 1;
    }
    Ok(out)
}

proof fn lemma_usages_err_persists(s: Seq<char>, m: int, n: int)
    requires
        0 <= m <= n,
        usages_of(s, m) is Err,
    ensures
        usages_of(s, n) == usages_of(s, m),
    decreases n - m,
{
    if m < n {
        lemma_usages_err_persists(s, m, n - 1);
    }
}

/// Command key, then V.
pub const LEFT_GUI_USAGE: u32 = 0xe3;

/// The V key.
pub const V_USAGE: u32 = 0x19;

/// The key events of a paste shortcut: command down, V down, V up, command
/// up.
pub fn key_combo_cmd_v() -> (r: Vec<(u32, bool)>)
    ensures
        r@ == seq![
            (LEFT_GUI_USAGE, true),
            (V_USAGE, true),
            (V_USAGE, false),
            (LEFT_GUI_USAGE, false),
        ],
{
    let r = vec![(LEFT_GUI_USAGE, true), (V_USAGE, true), (V_USAGE, false), (LEFT_GUI_USAGE, false)];
    r
}

/// How text reaches the simulator.
#[derive(Debug, Clone, Copy, PartialEq, Eq)]
pub enum TypingRoute {
    /// Typed key by key.
    Keys,
    /// Copied to the pasteboard and pasted.
    Paste,
}

/// Whether `c` is a control character (`char::is_control`).
pub open spec fn is_control(c: char) -> bool {
    c <= '\u{1f}' || ('\u{7f}' <= c && c <= '\u{9f}')
}

/// Bytes of the UTF-8 encoding of `c`.
pub open spec fn utf8_width(c: char) -> nat {
    if c <= '\u{7f}' {
        1
    } else if c <= '\u{7ff}' {
        2
    } else if c <= '\u{ffff}' {
        3
    } else {
        4
    }
}

/// Bytes of the UTF-8 encoding of `s[0..n]` (`str::len`).
pub open spec fn utf8_len(s: Seq<char>, n: int) -> nat
    decreases n,
{
    if n <= 0 {
        0
    } else {
        utf8_len(s, n - 1) + utf8_width(s[n - 1])
    }
}

proof fn lemma_utf8_len_monotone(s: Seq<char>, m: int, n: int)
    requires
        0 <= m <= n,
    ensures
        utf8_len(s, m) <= utf8_len(s, n),
    decreases n - m,
{
    if m < n {
        lemma_utf8_len_monotone(s, m, n - 1);
    }
}

/// Whether the UTF-8 encoding of `v` is longer than `limit` bytes.
fn exceeds_bytes(v: &Vec<char>, limit: u64) -> (r: bool)
    requires
        limit <= u64::MAX - 4,
    ensures
        r == (utf8_len(v@, v.len() as int) > limit),
{
    let mut total: u64 = 0;
    let mut i: usize = 0;
    while i < v.len()
        invariant
            i <= v.len(),
            limit <= u64::MAX - 4,
            total == utf8_len(v@, i as int),
            total <= limit,
        decreases v.len() - i,
    {
        let c = v[i];
        let w: u64 = if c <= '\u{7f}' {
            1
        } else if c <= '\u{7ff}' {
            2
        } else if c <= '\u{ffff}' {
            3
        } else {
            4
        };
        total = total + w;
        i += 1;
        if total > limit {
            proof {
                lemma_utf8_len_monotone(v@, i as int, v.len() as int);
            }
            return true;
        }
    }
    false
}

/// Most bytes of text one call may type.
pub const MAX_TEXT_BYTES: usize = 16384;

/// Decides how to type `text`: at most 16 KiB, no control characters but
/// line breaks and tabs; ASCII is typed, anything else pasted.
pub fn type_text_blocking(text: &str) -> (r: Result<TypingRoute, HidError>)
    ensures
        utf8_len(text@, text@.len() as int) > MAX_TEXT_BYTES ==> r == Err::<TypingRoute, HidError>(
            HidError::TooLong,
        ),
        utf8_len(text@, text@.len() as int) <= MAX_TEXT_BYTES ==> {
            let bad = exists|i: int|
                0 <= i < text@.len() && is_control(#[trigger] text@[i]) && text@[i] != '\n'
                    && text@[i] != '\r' && text@[i] != '\t';
            &&& bad ==> r == Err::<TypingRoute, HidError>(HidError::ControlCharacters)
            &&& !bad && is_ascii(text) ==> r == Ok::<TypingRoute, HidError>(TypingRoute::Keys)
            &&& !bad && !is_ascii(text) ==> r == Ok::<TypingRoute, HidError>(TypingRoute::Paste)
        },
{
    let v = chars_of(text);
    if exceeds_bytes(&v, MAX_TEXT_BYTES as u64) {
        return Err(HidError::TooLong);
    }
    let mut i: usize = 0;
    while i < v.len()
        invariant
            i <= v.len(),
            v@ == text@,
            utf8_len(text@, text@.len() as int) <= MAX_TEXT_BYTES,
            forall|j: int|
                0 <= j < i ==> !(is_control(#[trigger] v@[j]) && v@[j] != '\n' && v@[j] != '\r'
                    && v@[j] != '\t'),
        decreases v.len() - i,
    {
        let c = v[i];
        if (c <= '\u{1f}' || ('\u{7f}' <= c && c <= '\u{9f}')) && c != '\n' && c != '\r' && c
            != '\t' {
            assert(is_control(text@[i as int]));
            return Err(HidError::ControlCharacters);
        }
        i += 1;
    }
    if text.is_ascii() {
        Ok(TypingRoute::Keys)
    } else {
        Ok(TypingRoute::Paste)
    }
}

/// Whether a method argument's type encoding is a pointer (`^` or `r`).
pub fn is_pointer(bytes: Option<&[u8]>) -> (r: bool)
    ensures
        r == (bytes matches Some(b) && b@.len() > 0 && (b@[0] == 94u8 || b@[0] == 114u8)),
{
    match bytes {
        Some(b) => b.len() > 0 && (b[0] == 94u8 || b[0] == 114u8),
        None => false,
    }
}

/// Whether a type code is a boolean (`B` or `c`).
pub fn is_bool_code(code: Option<u8>) -> (r: bool)
    ensures
        r == (code == Some(66u8) || code == Some(99u8)),
{
    code == Some(66u8) || code == Some(99u8)
}

/// Whether a type code is an object or a pointer (`@` or `^`).
pub fn is_id_or_pointer(code: Option<u8>) -> (r: bool)
    ensures
        r == (code == Some(64u8) || code == Some(94u8)),
{
    code == Some(64u8) || code == Some(94u8)
}

/// Whether a type encoding is a block (`@…` or `^?…`).
pub fn is_block(bytes: Option<&[u8]>) -> (r: bool)
    ensures
        r == (bytes matches Some(b) && ((b@.len() >= 1 && b@[0] == 64u8) || (b@.len() >= 2
            && b@[0] == 94u8 && b@[1] == 63u8))),
{
    match bytes {
        Some(b) => (b.len() >= 1 && b[0] == 64u8) || (b.len() >= 2 && b[0] == 94u8 && b[1] == 63u8),
        None => false,
    }
}

/// Whether `c` is an ASCII letter.
pub open spec fn ascii_letter(c: char) -> bool {
    ('a' <= c <= 'z') || ('A' <= c <= 'Z')
}

/// Distinct characters are typed with distinct keys: two characters share a
/// HID usage only when they are the same letter in either case, or both
/// line breaks. So no character is typed as another (`.` is never `,`).
pub proof fn lemma_usages_tell_characters_apart(a: char, b: char)
    requires
        hid_usage_spec(a) is Some,
        hid_usage_spec(a) == hid_usage_spec(b),
    ensures
        a == b || (ascii_letter(a) && ascii_letter(b) && (a as int - b as int == 32 || b as int
            - a as int == 32)) || ((a == '\n' || a == '\r') && (b == '\n' || b == '\r')),
{
}

/// Every usage lies among the keyboard keys of the HID usage table, from
/// `a` (0x04) to `/` (0x38), and never on 0x32 (the non-US `#`).
pub proof fn lemma_usages_are_keyboard_keys(c: char)
    ensures
        hid_usage_spec(c) matches Some(u) ==> 0x04 <= u <= 0x38 && u != 0x32,
{
}

/// Typed text takes one key per character, each the character's own key.
pub proof fn lemma_one_key_per_character(s: Seq<char>, n: int)
    requires
        0 <= n <= s.len(),
    ensures
        usages_of(s, n) matches Ok(u) ==> u.len() == n && forall|k: int|
            0 <= k < n ==> hid_usage_spec(s[k]) == Some(#[trigger] u[k]),
    decreases n,
{
    if n > 0 {
        lemma_one_key_per_character(s, n - 1);
    }
}

/// Every keyboard key of the HID usage table from `a` (0x04) to `/` (0x38)
/// types some character, except Escape (0x29), Backspace (0x2A) and the
/// non-US `#` (0x32).
pub proof fn lemma_every_key_types_a_character(u: u32)
    requires
        0x04 <= u <= 0x38,
        u != 0x29 && u != 0x2a && u != 0x32,
    ensures
        exists|c: char| hid_usage_spec(c) == Some(u),
{
    if u <= 0x1d {
        let c = ((u - 0x04) + 'a' as int) as char;
        assert(hid_usage_spec(c) == Some(u));
    } else if u <= 0x26 {
        let c = ((u - 0x1e) + '1' as int) as char;
        assert(hid_usage_spec(c) == Some(u));
    } else if u == 0x27 {
        assert(hid_usage_spec('0') == Some(u));
    } else if u == 0x28 {
        assert(hid_usage_spec('\n') == Some(u));
    } else if u == 0x2b {
        assert(hid_usage_spec('\t') == Some(u));
    } else if u == 0x2c {
        assert(hid_usage_spec(' ') == Some(u));
    } else if u == 0x2d {
        assert(hid_usage_spec('-') == Some(u));
    } else if u == 0x2e {
        assert(hid_usage_spec('=') == Some(u));
    } else if u == 0x2f {
        assert(hid_usage_spec('[') == Some(u));
    } else if u == 0x30 {
        assert(hid_usage_spec(']') == Some(u));
    } else if u == 0x31 {
        assert(hid_usage_spec('\\') == Some(u));
    } else if u == 0x33 {
        assert(hid_usage_spec(';') == Some(u));
    } else if u == 0x34 {
        assert(hid_usage_spec('\'') == Some(u));
    } else if u == 0x35 {
        assert(hid_usage_spec('`') == Some(u));
    } else if u == 0x36 {
        assert(hid_usage_spec(',') == Some(u));
    } else if u == 0x37 {
        assert(hid_usage_spec('.') == Some(u));
    } else {
        assert(hid_usage_spec('/') == Some(u));
    }
}

/// The punctuation keys of the US layout, in the order the HID usage table
/// lists them.
pub open spec fn us_punctuation() -> Seq<char> {
    seq!['-', '=', '[', ']', '\\', ';', '\'', '`', ',', '.', '/']
}

/// The punctuation keys take the usages from `-` (0x2D) to `/` (0x38) in
/// the table's order, strictly increasing, so each is typed with its own
/// key (only the non-US `#`, 0x32, is skipped).
pub proof fn lemma_punctuation_follows_table_order()
    ensures
        forall|i: int| 0 <= i < 11 ==> hid_usage_spec(#[trigger] us_punctuation()[i]) is Some,
        forall|i: int, j: int|
            0 <= i < j < 11 ==> hid_usage_spec(#[trigger] us_punctuation()[i])->Some_0
                < hid_usage_spec(#[trigger] us_punctuation()[j])->Some_0,
        hid_usage_spec(us_punctuation()[0]) == Some(0x2du32),
        hid_usage_spec(us_punctuation()[10]) == Some(0x38u32),
{
    let p = us_punctuation();
    assert(hid_usage_spec(p[0]) == Some(0x2du32));
    assert(hid_usage_spec(p[1]) == Some(0x2eu32));
    assert(hid_usage_spec(p[2]) == Some(0x2fu32));
    assert(hid_usage_spec(p[3]) == Some(0x30u32));
    assert(hid_usage_spec(p[4]) == Some(0x31u32));
    assert(hid_usage_spec(p[5]) == Some(0x33u32));
    assert(hid_usage_spec(p[6]) == Some(0x34u32));
    assert(hid_usage_spec(p[7]) == Some(0x35u32));
    assert(hid_usage_spec(p[8]) == Some(0x36u32));
    assert(hid_usage_spec(p[9]) == Some(0x37u32));
    assert(hid_usage_spec(p[10]) == Some(0x38u32));
}

} // verus!
