use crate::diagnostics::{Delta, Diagnostic};
use crate::text::{
    chars_of, contains_seq, lines, next_line, parse_u32, parse_u32_spec, push_char, push_decimal,
    push_str, str_contains, trim_bounds, trim_spec,
};
use crate::ui::Screen;
use vstd::prelude::*;

verus! {

/// What `mx run` builds and where it runs it.
#[derive(Debug)]
pub struct RunRequest {
    /// Xcode project, workspace, or containing directory. Defaults to the server's working directory.
    pub project: String,
    pub scheme: Option<String>,
    /// Simulator UDID or unambiguous name. Omit only if one device can be selected.
    pub device: Option<String>,
    pub inspect_ui: bool,
}

/// What a run built and launched.
#[derive(Debug)]
pub struct RunResult {
    pub project: String,
    pub scheme: String,
    pub device: String,
    pub bundle_id: String,
    pub pid: u32,
    pub app: String,
    pub elapsed_ms: u64,
    pub build_log: String,
    pub session_id: String,
    pub timings_ms: Vec<(String, u64)>,
    pub diagnostics: Vec<Diagnostic>,
    pub diagnostic_delta: Delta,
    pub ui: Option<Screen>,
    pub ui_error: Option<String>,
}

/// Installs and launches a prebuilt app.
#[derive(Debug)]
pub struct LaunchRequest {
    /// A previously built simulator .app. Build once, reuse across compatible simulators.
    pub app: String,
    pub device: String,
    pub inspect_ui: bool,
}

/// Launches the app of a session again.
#[derive(Debug)]
pub struct RelaunchRequest {
    /// Simulator UDID with an existing Mx session and installed app.
    pub device: String,
    pub inspect_ui: bool,
}

/// Whether a failed `simctl terminate` only says that the app was not
/// running.
pub fn app_is_already_stopped(message: &str) -> (r: bool)
    ensures
        r == contains_seq(message@, "found nothing to terminate"@),
{
    str_contains(message, "found nothing to terminate")
}

/// What to do about the scheme of a run.
#[derive(Debug)]
pub enum SchemeChoice {
    /// Build this scheme.
    Use(String),
    /// Ask the project for its schemes and take its only one.
    Discover,
    /// The requested scheme is blank.
    Empty,
}

/// The scheme of a run: the requested one unless it is blank, else the
/// project's only scheme.
pub fn scheme_choice(requested: Option<String>) -> (r: SchemeChoice)
    ensures
        match requested {
            Some(s) => if trim_spec(s@).len() == 0 {
                r is Empty
            } else {
                r matches SchemeChoice::Use(x) && x == s
            },
            None => r is Discover,
        },
{
    match requested {
        Some(s) => if crate::text::is_blank(s.as_str()) {
            SchemeChoice::Empty
        } else {
            SchemeChoice::Use(s)
        },
        None => SchemeChoice::Discover,
    }
}

/// Index just after the last `:` in `s[0..n]`.
pub open spec fn last_colon_end(s: Seq<char>, n: int) -> Option<int>
    decreases n,
{
    if n <= 0 {
        None
    } else if s[n - 1] == ':' {
        Some(n)
    } else {
        last_colon_end(s, n - 1)
    }
}

/// The pid that `simctl launch` prints: the text after the last `:` of the
/// trimmed reply, trimmed and read as a number.
pub open spec fn launch_pid_spec(reply: Seq<char>) -> Option<u32> {
    let t = trim_spec(reply);
    match last_colon_end(t, t.len() as int) {
        None => None,
        Some(k) => parse_u32_spec(trim_spec(t.skip(k))),
    }
}

/// The pid that `simctl launch` prints, if the reply holds one.
pub fn launch_pid(reply: &str) -> (r: Option<u32>)
    ensures
        r == launch_pid_spec(reply@),
{
    let v = chars_of(reply);
    let (a, b) = trim_bounds(&v, 0, v.len());
    assert(v@.subrange(0, v.len() as int) =~= v@);
    let ghost t = v@.subrange(a as int, b as int);
    let mut k = b;
    while k > a && v[k - 1] != ':'
        invariant
            a <= k <= b <= v.len(),
            t == v@.subrange(a as int, b as int),
            last_colon_end(t, t.len() as int) == last_colon_end(t, k - a),
        decreases k,
    {
        assert(t[k - a - 1] == v@[k - 1]);
        k -= 1;
    }
    if k == a {
        return None;
    }
    assert(t[k - a - 1] == v@[k - 1]);
    let (c, d) = trim_bounds(&v, k, b);
    assert(v@.subrange(k as int, b as int) =~= t.skip(k - a));
    parse_u32(&v, c, d)
}

/// A character kept in a screenshot file name: ASCII letters and digits,
/// `-` and `_`.
pub open spec fn file_char(c: char) -> bool {
    ('a' <= c <= 'z') || ('A' <= c <= 'Z') || ('0' <= c <= '9') || c == '-' || c == '_'
}

/// A device name with every other character replaced by `-`.
pub open spec fn sanitized(name: Seq<char>) -> Seq<char> {
    Seq::new(name.len(), |i: int| if file_char(name[i]) { name[i] } else { '-' })
}

/// The default screenshot file name: the time in milliseconds and the
/// sanitized device name.
pub fn screenshot_file_name(timestamp_ms: u64, device_name: &str) -> (r: String)
    ensures
        r@ == crate::text::decimal(timestamp_ms as nat) + "-"@ + sanitized(device_name@)
            + ".png"@,
{
    let mut s = String::new();
    push_decimal(&mut s, timestamp_ms);
    push_char(&mut s, '-');
    let v = chars_of(device_name);
    let ghost start = s@;
    let mut i: usize = 0;
    while i < v.len()
        invariant
            i <= v.len(),
            v@ == device_name@,
            s@ == start + sanitized(v@).take(i as int),
        decreases v.len() - i,
    {
        let c = v[i];
        let keep = ('a' <= c && c <= 'z') || ('A' <= c && c <= 'Z') || ('0' <= c && c <= '9') || c
            == '-' || c == '_';
        push_char(
            &mut s,
            if keep {
                c
            } else {
                '-'
            },
        );
        i += 1;
        assert(s@ =~= start + sanitized(v@).take(i as int));
    }
    assert(sanitized(v@).take(v.len() as int) =~= sanitized(v@));
    push_str(&mut s, ".png");
    proof {
        reveal_strlit("-");
        assert(s@ =~= crate::text::decimal(timestamp_ms as nat) + "-"@ + sanitized(device_name@)
            + ".png"@);
    }
    s
}

/// Most log lines one `mx logs` reply holds.
pub const MAX_LOG_LINES: usize = 200;

/// Most log bytes one `mx logs` reply holds.
pub const MAX_LOG_BYTES: usize = 65536;

/// Bytes of the UTF-8 encoding of a line (`str::len`).
pub open spec fn line_bytes(l: Seq<char>) -> int {
    vstd::utf8::encode_utf8(l).len() as usize as int
}

/// How many of the last lines of `ls[0..n]` fit: at most `count` of them,
/// taken from the end while each costs its bytes plus one newline and the
/// costs stay within `budget`.
pub open spec fn tail_count(ls: Seq<Seq<char>>, n: int, count: nat, budget: int) -> nat
    decreases n,
{
    if n <= 0 || count == 0 {
        0
    } else if line_bytes(ls[n - 1]) + 1 > budget {
        0
    } else {
        1 + tail_count(ls, n - 1, (count - 1) as nat, budget - line_bytes(ls[n - 1]) - 1)
    }
}

/// The log lines kept for a reply: the longest tail of the lines, in order,
/// with at most 200 lines whose text joined by newlines holds at most 64 KiB
/// (k lines of b bytes in all join to b + k - 1 bytes, so each line is
/// charged its bytes and one newline against 64 KiB and one byte more), and
/// whether lines were left out.
pub fn tail_lines(text: &str) -> (r: (Vec<String>, bool))
    ensures
        ({
            let ls = lines(text@);
            let k = tail_count(ls, ls.len() as int, MAX_LOG_LINES as nat, MAX_LOG_BYTES + 1);
            &&& crate::process::strs(r.0@) == ls.skip(ls.len() - k)
            &&& r.1 == (k < ls.len())
        }),
{
    let v = chars_of(text);
    let mut all: Vec<Vec<char>> = Vec::new();
    let mut pos: usize = 0;
    proof {
        assert(v@.skip(0) =~= v@);
        assert(Seq::<Seq<char>>::empty() + lines(v@) =~= lines(v@));
    }
    while pos < v.len()
        invariant
            pos <= v.len(),
            v@ == text@,
            all@.map_values(|x: Vec<char>| x@) + lines(v@.skip(pos as int)) == lines(v@),
        decreases v.len() - pos,
    {
        let (line, next) = next_line(&v, pos);
        let ghost before = all@.map_values(|x: Vec<char>| x@);
        all.push(line);
        assert(all@.map_values(|x: Vec<char>| x@) =~= before.push(line@));
        assert(before + (seq![line@] + lines(v@.skip(next as int))) =~= before.push(line@) + lines(
            v@.skip(next as int),
        ));
        pos = next;
    }
    proof {
        assert(v@.skip(pos as int) =~= Seq::<char>::empty());
        assert(lines(v@.skip(pos as int)) =~= Seq::<Seq<char>>::empty());
        assert(all@.map_values(|x: Vec<char>| x@) + Seq::<Seq<char>>::empty() =~= all@.map_values(
            |x: Vec<char>| x@,
        ));
    }
    let ghost ls = lines(text@);
    assert(all@.map_values(|x: Vec<char>| x@) == ls);
    let mut k: usize = 0;
    let mut budget: usize = MAX_LOG_BYTES + 1;
    let mut stopped = false;
    while k < all.len() && k < MAX_LOG_LINES && !stopped
        invariant
            all@.map_values(|x: Vec<char>| x@) == ls,
            k <= all.len(),
            k <= MAX_LOG_LINES,
            budget <= MAX_LOG_BYTES + 1,
            tail_count(ls, ls.len() as int, MAX_LOG_LINES as nat, MAX_LOG_BYTES + 1) == k
                + tail_count(ls, ls.len() - k, (MAX_LOG_LINES - k) as nat, budget as int),
            stopped ==> tail_count(ls, ls.len() - k, (MAX_LOG_LINES - k) as nat, budget as int)
                == 0,
        decreases all.len() - k + (if stopped {
            0int
        } else {
            1int
        }),
    {
        let idx = all.len() - 1 - k;
        let s = crate::text::string_of(&all[idx], 0, all[idx].len());
        assert(all[idx as int]@.subrange(0, all[idx as int]@.len() as int) =~= all[idx as int]@);
        assert(ls[idx as int] == all[idx as int]@);
        let n = s.as_str().len();
        if n >= budget {
            stopped = true;
        } else {
            budget -= n + 1;
            k += 1;
        }
    }
    let ghost total = tail_count(ls, ls.len() as int, MAX_LOG_LINES as nat, MAX_LOG_BYTES + 1);
    proof {
        if !stopped && k < all.len() {
            assert(k == MAX_LOG_LINES);
        }
        assert(total == k);
    }
    let start = all.len() - k;
    let mut out: Vec<String> = Vec::new();
    let mut i = start;
    while i < all.len()
        invariant
            all@.map_values(|x: Vec<char>| x@) == ls,
            start <= i <= all.len(),
            crate::process::strs(out@) == ls.subrange(start as int, i as int),
        decreases all.len() - i,
    {
        let s = crate::text::string_of(&all[i], 0, all[i].len());
        assert(all[i as int]@.subrange(0, all[i as int]@.len() as int) =~= all[i as int]@);
        let ghost before = crate::process::strs(out@);
        out.push(s);
        assert(crate::process::strs(out@) =~= before.push(ls[i as int]));
        i += 1;
        assert(crate::process::strs(out@) =~= ls.subrange(start as int, i as int));
    }
    assert(ls.subrange(start as int, all.len() as int) =~= ls.skip(ls.len() - total));
    (out, k < all.len())
}

/// Accepts a log look-back of 1 to 300 seconds.
pub fn valid_log_seconds(seconds: u32) -> (r: bool)
    ensures
        r == (1 <= seconds <= 300),
{
    1 <= seconds && seconds <= 300
}

} // verus!
