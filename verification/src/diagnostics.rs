use crate::text::{
    chars_of, find, find_pattern, lemma_find_from_bounds, lines, next_line, parse_u32,
    parse_u32_spec, slice_chars, string_of,
};
use vstd::prelude::*;
use vstd::string::*;

verus! {

/// One compiler diagnostic parsed from build output.
#[derive(Debug, PartialEq, Eq)]
pub struct Diagnostic {
    pub severity: String,
    pub file: Option<String>,
    pub line: Option<u32>,
    pub column: Option<u32>,
    pub message: String,
}

/// The value of a diagnostic, over character sequences.
pub struct DiagnosticView {
    pub severity: Seq<char>,
    pub file: Option<Seq<char>>,
    pub line: Option<u32>,
    pub column: Option<u32>,
    pub message: Seq<char>,
}

pub open spec fn opt_string_view(s: Option<String>) -> Option<Seq<char>> {
    match s {
        Some(v) => Some(v@),
        None => None,
    }
}

impl View for Diagnostic {
    type V = DiagnosticView;

    open spec fn view(&self) -> DiagnosticView {
        DiagnosticView {
            severity: self.severity@,
            file: opt_string_view(self.file),
            line: self.line,
            column: self.column,
            message: self.message@,
        }
    }
}

/// The views of a sequence of diagnostics.
pub open spec fn views(ds: Seq<Diagnostic>) -> Seq<DiagnosticView> {
    ds.map_values(|d: Diagnostic| d@)
}

/// Most diagnostics kept from one build log.
pub const MAX_DIAGNOSTICS: usize = 200;

pub open spec fn error_word() -> Seq<char> {
    seq!['e', 'r', 'r', 'o', 'r']
}

pub open spec fn warning_word() -> Seq<char> {
    seq!['w', 'a', 'r', 'n', 'i', 'n', 'g']
}

pub open spec fn note_word() -> Seq<char> {
    seq!['n', 'o', 't', 'e']
}

/// `": <severity>: "`.
pub open spec fn severity_marker(severity: Seq<char>) -> Seq<char> {
    seq![':', ' '] + severity + seq![':', ' ']
}

/// The prefix, severity and message of a line, split at the first marker of
/// the first severity (error, then warning, then note) that occurs in it.
pub open spec fn split_severity(line: Seq<char>) -> Option<(Seq<char>, Seq<char>, Seq<char>)> {
    let e = severity_marker(error_word());
    let w = severity_marker(warning_word());
    let n = severity_marker(note_word());
    if let Some(i) = find(line, e) {
        Some((line.take(i), error_word(), line.skip(i + e.len())))
    } else if let Some(i) = find(line, w) {
        Some((line.take(i), warning_word(), line.skip(i + w.len())))
    } else if let Some(i) = find(line, n) {
        Some((line.take(i), note_word(), line.skip(i + n.len())))
    } else {
        None
    }
}

/// Index of the last `:` in `s[0..hi]`.
pub open spec fn last_colon(s: Seq<char>, hi: int) -> Option<int>
    decreases hi,
{
    if hi <= 0 {
        None
    } else if s[hi - 1] == ':' {
        Some(hi - 1)
    } else {
        last_colon(s, hi - 1)
    }
}

/// File, line and column of a location prefix, split from the right at
/// colons (`rsplitn(3, ':')`); the file is kept only when line and column
/// are both numbers.
pub open spec fn location(p: Seq<char>) -> (Option<Seq<char>>, Option<u32>, Option<u32>) {
    match last_colon(p, p.len() as int) {
        None => (None, None, parse_u32_spec(p)),
        Some(c1) => {
            let column = parse_u32_spec(p.skip(c1 + 1));
            match last_colon(p, c1) {
                None => (None, parse_u32_spec(p.take(c1)), column),
                Some(c2) => {
                    let line = parse_u32_spec(p.subrange(c2 + 1, c1));
                    let file = if line is Some && column is Some {
                        Some(p.take(c2))
                    } else {
                        None
                    };
                    (file, line, column)
                },
            }
        },
    }
}

/// The diagnostic one line of build output holds, if any.
pub open spec fn diagnostic_of_line(line: Seq<char>) -> Option<DiagnosticView> {
    match split_severity(line) {
        None => None,
        Some((prefix, severity, message)) => {
            let (file, l, c) = location(prefix);
            Some(DiagnosticView { severity, file, line: l, column: c, message })
        },
    }
}

/// The diagnostics of a sequence of lines, in order.
pub open spec fn diagnostics_of_lines(ls: Seq<Seq<char>>) -> Seq<DiagnosticView>
    decreases ls.len(),
{
    if ls.len() == 0 {
        seq![]
    } else {
        match diagnostic_of_line(ls[0]) {
            Some(d) => seq![d] + diagnostics_of_lines(ls.skip(1)),
            None => diagnostics_of_lines(ls.skip(1)),
        }
    }
}

/// What `parse` returns for `text`: the diagnostics of its lines, at most
/// `MAX_DIAGNOSTICS` of them.
pub open spec fn parse_spec(text: Seq<char>) -> Seq<DiagnosticView> {
    let all = diagnostics_of_lines(lines(text));
    if all.len() <= MAX_DIAGNOSTICS {
        all
    } else {
        all.take(MAX_DIAGNOSTICS as int)
    }
}

/// Index of the last `:` in `v[0..hi]`.
fn find_last_colon(v: &Vec<char>, hi: usize) -> (r: Option<usize>)
    requires
        hi <= v.len(),
    ensures
        r matches Some(k) ==> k < hi && last_colon(v@, hi as int) == Some(k as int),
        r is None ==> last_colon(v@, hi as int) is None,
{
    let mut i = hi;
    while i > 0
        invariant
            i <= hi <= v.len(),
            last_colon(v@, hi as int) == last_colon(v@, i as int),
        decreases i,
    {
        if v[i - 1] == ':' {
            return Some(i - 1);
        }
        i -= 1;
    }
    None
}

fn parse_location(p: &Vec<char>) -> (r: (Option<String>, Option<u32>, Option<u32>))
    ensures
        (opt_string_view(r.0), r.1, r.2) == location(p@),
{
    match find_last_colon(p, p.len()) {
        None => {
            assert(p@.subrange(0, p.len() as int) =~= p@);
            (None, None, parse_u32(p, 0, p.len()))
        },
        Some(c1) => {
            assert(p@.subrange(c1 + 1, p.len() as int) =~= p@.skip(c1 + 1));
            let column = parse_u32(p, c1 + 1, p.len());
            match find_last_colon(p, c1) {
                None => {
                    assert(p@.subrange(0, c1 as int) =~= p@.take(c1 as int));
                    (None, parse_u32(p, 0, c1), column)
                },
                Some(c2) => {
                    let line = parse_u32(p, c2 + 1, c1);
                    let file = if line.is_some() && column.is_some() {
                        assert(p@.subrange(0, c2 as int) =~= p@.take(c2 as int));
                        Some(string_of(p, 0, c2))
                    } else {
                        None
                    };
                    (file, line, column)
                },
            }
        },
    }
}

fn severity_marker_chars(word: &str) -> (r: Vec<char>)
    ensures
        r@ == severity_marker(word@),
{
    let mut r: Vec<char> = Vec::new();
    r.push(':');
    r.push(' ');
    let w = chars_of(word);
    let mut i: usize = 0;
    while i < w.len()
        invariant
            i <= w.len(),
            r@ == seq![':', ' '] + w@.take(i as int),
        decreases w.len() - i,
    {
        r.push(w[i]);
        i += 1;
        assert(r@ =~= seq![':', ' '] + w@.take(i as int));
    }
    r.push(':');
    r.push(' ');
    assert(w@.take(w.len() as int) =~= w@);
    assert(r@ =~= severity_marker(word@));
    r
}

fn diagnostic_from_parts(
    line: &Vec<char>,
    at: usize,
    marker_len: usize,
    severity: &str,
) -> (r: Diagnostic)
    requires
        at + marker_len <= line.len(),
    ensures
        ({
            let (file, l, c) = location(line@.take(at as int));
            r@ == DiagnosticView {
                severity: severity@,
                file,
                line: l,
                column: c,
                message: line@.skip(at + marker_len),
            }
        }),
{
    let prefix = slice_chars(line, 0, at);
    assert(prefix@ =~= line@.take(at as int));
    let (file, l, c) = parse_location(&prefix);
    let message = string_of(line, at + marker_len, line.len());
    assert(line@.subrange(at + marker_len, line.len() as int) =~= line@.skip(at + marker_len));
    Diagnostic { severity: String::from_str(severity), file, line: l, column: c, message }
}

/// The diagnostic one line of build output holds, if any.
pub fn parse_line(line: &Vec<char>) -> (r: Option<Diagnostic>)
    ensures
        r matches Some(d) ==> diagnostic_of_line(line@) == Some(d@),
        r is None ==> diagnostic_of_line(line@) is None,
{
    let e = severity_marker_chars("error");
    let w = severity_marker_chars("warning");
    let n = severity_marker_chars("note");
    proof {
        reveal_strlit("error");
        reveal_strlit("warning");
        reveal_strlit("note");
        assert("error"@ =~= error_word());
        assert("warning"@ =~= warning_word());
        assert("note"@ =~= note_word());
        lemma_find_from_bounds(line@, e@, 0);
        lemma_find_from_bounds(line@, w@, 0);
        lemma_find_from_bounds(line@, n@, 0);
    }
    if let Some(i) = find_pattern(line, &e, 0) {
        Some(diagnostic_from_parts(line, i, e.len(), "error"))
    } else if let Some(i) = find_pattern(line, &w, 0) {
        Some(diagnostic_from_parts(line, i, w.len(), "warning"))
    } else if let Some(i) = find_pattern(line, &n, 0) {
        Some(diagnostic_from_parts(line, i, n.len(), "note"))
    } else {
        None
    }
}


proof fn lemma_lines_cons(l: Seq<char>, rest: Seq<Seq<char>>)
    ensures
        diagnostics_of_lines(seq![l] + rest) == (match diagnostic_of_line(l) {
            Some(d) => seq![d] + diagnostics_of_lines(rest),
            None => diagnostics_of_lines(rest),
        }),
{
    assert((seq![l] + rest).skip(1) =~= rest);
    assert((seq![l] + rest)[0] == l);
}

/// Parses the diagnostics of build output: each line that holds
/// `": error: "`, `": warning: "` or `": note: "`, at most `MAX_DIAGNOSTICS`.
pub fn parse(text: &str) -> (r: Vec<Diagnostic>)
    ensures
        views(r@) == parse_spec(text@),
{
    let v = chars_of(text);
    let mut out: Vec<Diagnostic> = Vec::new();
    let mut pos: usize = 0;
    proof {
        assert(v@.skip(0) =~= v@);
        assert(views(out@) =~= Seq::<DiagnosticView>::empty());
        assert(views(out@) + diagnostics_of_lines(lines(v@)) =~= diagnostics_of_lines(lines(v@)));
    }
    while pos < v.len() && out.len() < MAX_DIAGNOSTICS
        invariant
            pos <= v.len(),
            v@ == text@,
            out.len() <= MAX_DIAGNOSTICS,
            diagnostics_of_lines(lines(v@)) == views(out@) + diagnostics_of_lines(
                lines(v@.skip(pos as int)),
            ),
        decreases v.len() - pos,
    {
        let (line, next) = next_line(&v, pos);
        let found = parse_line(&line);
        proof {
            lemma_lines_cons(line@, lines(v@.skip(next as int)));
        }
        match found {
            Some(d) => {
                let ghost before = views(out@);
                out.push(d);
                proof {
                    assert(views(out@) =~= before + seq![d@]);
                    assert(views(out@) + diagnostics_of_lines(lines(v@.skip(next as int)))
                        =~= before + (seq![d@] + diagnostics_of_lines(lines(v@.skip(next as int)))));
                }
            },
            None => {},
        }
        pos = next;
    }
    proof {
        let total = diagnostics_of_lines(lines(v@));
        let rest = diagnostics_of_lines(lines(v@.skip(pos as int)));
        assert(views(out@).len() == out.len());
        if pos >= v.len() {
            assert(v@.skip(pos as int) =~= Seq::<char>::empty());
            assert(lines(v@.skip(pos as int)) =~= Seq::<Seq<char>>::empty());
            assert(rest =~= Seq::<DiagnosticView>::empty());
            assert(total =~= views(out@));
        } else {
            assert(out.len() == MAX_DIAGNOSTICS);
            assert((views(out@) + rest).take(MAX_DIAGNOSTICS as int) =~= views(out@));
        }
    }
    out
}


fn clone_opt_string(s: &Option<String>) -> (r: Option<String>)
    ensures
        opt_string_view(r) == opt_string_view(*s),
{
    match s {
        Some(v) => Some(v.clone()),
        None => None,
    }
}

impl Clone for Diagnostic {
    fn clone(&self) -> (r: Self)
        ensures
            r@ == self@,
    {
        Diagnostic {
            severity: self.severity.clone(),
            file: clone_opt_string(&self.file),
            line: self.line,
            column: self.column,
            message: self.message.clone(),
        }
    }
}

fn same_opt_string(a: &Option<String>, b: &Option<String>) -> (r: bool)
    ensures
        r == (opt_string_view(*a) == opt_string_view(*b)),
{
    match (a, b) {
        (Some(x), Some(y)) => *x == *y,
        (None, None) => true,
        _ => false,
    }
}

impl Diagnostic {
    /// Whether two diagnostics agree in every field.
    pub fn same_as(&self, other: &Diagnostic) -> (r: bool)
        ensures
            r == (self@ == other@),
    {
        self.severity == other.severity && same_opt_string(&self.file, &other.file)
            && self.line == other.line && self.column == other.column
            && self.message == other.message
    }
}

/// Whether `list` holds a diagnostic equal to `d`.
pub fn contains_diagnostic(list: &[Diagnostic], d: &Diagnostic) -> (r: bool)
    ensures
        r == views(list@).contains(d@),
{
    let mut i: usize = 0;
    while i < list.len()
        invariant
            i <= list.len(),
            forall|j: int| 0 <= j < i ==> list@[j]@ != d@,
        decreases list.len() - i,
    {
        if list[i].same_as(d) {
            assert(views(list@)[i as int] == d@);
            return true;
        }
        i += 1;
    }
    proof {
        if views(list@).contains(d@) {
            let j = choose|j: int| 0 <= j < views(list@).len() && views(list@)[j] == d@;
            assert(list@[j]@ == d@);
        }
    }
    false
}

/// What changed between two builds: diagnostics that appeared and ones
/// that went away.
#[derive(Debug)]
pub struct Delta {
    pub added: Vec<Diagnostic>,
    pub resolved: Vec<Diagnostic>,
}

/// The diagnostics of `xs`, in order, that `ys` does not hold.
pub open spec fn missing_from(xs: Seq<DiagnosticView>, ys: Seq<DiagnosticView>) -> Seq<DiagnosticView> {
    xs.filter(|x: DiagnosticView| !ys.contains(x))
}

fn not_in(xs: &[Diagnostic], ys: &[Diagnostic]) -> (r: Vec<Diagnostic>)
    ensures
        views(r@) == missing_from(views(xs@), views(ys@)),
{
    let ghost pred = |x: DiagnosticView| !views(ys@).contains(x);
    let mut out: Vec<Diagnostic> = Vec::new();
    let mut i: usize = 0;
    proof {
        assert(views(xs@).take(0) =~= Seq::<DiagnosticView>::empty());
        reveal(Seq::filter);
        assert(Seq::<DiagnosticView>::empty().filter(pred) =~= Seq::<DiagnosticView>::empty());
        assert(views(out@) =~= Seq::<DiagnosticView>::empty());
    }
    while i < xs.len()
        invariant
            i <= xs.len(),
            pred == (|x: DiagnosticView| !views(ys@).contains(x)),
            views(out@) == views(xs@).take(i as int).filter(pred),
        decreases xs.len() - i,
    {
        let keep = !contains_diagnostic(ys, &xs[i]);
        let ghost before = views(out@);
        proof {
            assert(views(xs@).take(i + 1) =~= views(xs@).take(i as int).push(xs@[i as int]@));
            views(xs@).take(i as int).lemma_filter_push(xs@[i as int]@, pred);
        }
        if keep {
            let d = xs[i].clone();
            out.push(d);
            assert(views(out@) =~= before.push(d@));
        }
        i += 1;
    }
    assert(views(xs@).take(xs.len() as int) =~= views(xs@));
    out
}

/// Compares the diagnostics of two builds.
pub fn diff(before: &[Diagnostic], after: &[Diagnostic]) -> (r: Delta)
    ensures
        views(r.added@) == missing_from(views(after@), views(before@)),
        views(r.resolved@) == missing_from(views(before@), views(after@)),
{
    Delta { added: not_in(after, before), resolved: not_in(before, after) }
}
/// The first place a marker occurs in a line is where `find` reports it.
proof fn lemma_first_marker_at(line: Seq<char>, marker: Seq<char>, at: int)
    requires
        0 <= at,
        at + marker.len() <= line.len(),
        line.subrange(at, at + marker.len()) == marker,
        forall|k: int| 0 <= k < at ==> !#[trigger] crate::text::occurs_at(line, marker, k),
    ensures
        find(line, marker) == Some(at),
{
    crate::text::lemma_find_from_bounds(line, marker, 0);
    assert(crate::text::occurs_at(line, marker, at));
    match find(line, marker) {
        Some(k) => {
            if k < at {
                assert(crate::text::occurs_at(line, marker, k));
            }
        },
        None => {},
    }
}

/// A line with no `": error: "` in it whose first `": warning: "` comes right
/// after `prefix` is a warning, and its message is exactly the text after
/// that marker.
pub proof fn lemma_warning_line(prefix: Seq<char>, message: Seq<char>)
    requires
        forall|k: int|
            0 <= k < prefix.len() ==> !#[trigger] crate::text::occurs_at(
                prefix + ": warning: "@ + message,
                ": warning: "@,
                k,
            ),
        forall|k: int| !#[trigger] crate::text::occurs_at(prefix + ": warning: "@ + message, ": error: "@, k),
    ensures
        diagnostic_of_line(prefix + ": warning: "@ + message) matches Some(d) && d.severity
            == "warning"@ && d.message == message && (d.file, d.line, d.column) == location(
            prefix,
        ),
{
    reveal_strlit(": warning: ");
    reveal_strlit(": error: ");
    reveal_strlit("warning");
    let line = prefix + ": warning: "@ + message;
    let e = severity_marker(error_word());
    let w = severity_marker(warning_word());
    assert(e =~= ": error: "@);
    assert(w =~= ": warning: "@);
    crate::text::lemma_find_from_bounds(line, e, 0);
    if let Some(k) = find(line, e) {
        assert(crate::text::occurs_at(line, e, k));
    }
    assert(line.subrange(prefix.len() as int, (prefix.len() + 11) as int) =~= w);
    lemma_first_marker_at(line, w, prefix.len() as int);
    assert(line.skip((prefix.len() + w.len()) as int) =~= message);
    assert(line.take(prefix.len() as int) =~= prefix);
    assert(warning_word() =~= "warning"@);
}

/// A line whose first `": error: "` comes right after `prefix` is an error,
/// and its message is exactly the text after that marker, whatever other
/// markers follow.
pub proof fn lemma_error_line(prefix: Seq<char>, message: Seq<char>)
    requires
        forall|k: int|
            0 <= k < prefix.len() ==> !#[trigger] crate::text::occurs_at(
                prefix + ": error: "@ + message,
                ": error: "@,
                k,
            ),
    ensures
        diagnostic_of_line(prefix + ": error: "@ + message) matches Some(d) && d.severity
            == "error"@ && d.message == message && (d.file, d.line, d.column) == location(
            prefix,
        ),
{
    reveal_strlit(": error: ");
    reveal_strlit("error");
    let line = prefix + ": error: "@ + message;
    let e = severity_marker(error_word());
    assert(e =~= ": error: "@);
    assert(line.subrange(prefix.len() as int, (prefix.len() + 9) as int) =~= e);
    lemma_first_marker_at(line, e, prefix.len() as int);
    assert(line.skip((prefix.len() + e.len()) as int) =~= message);
    assert(line.take(prefix.len() as int) =~= prefix);
    assert(error_word() =~= "error"@);
}

/// A line with neither `": error: "` nor `": warning: "` in it whose first
/// `": note: "` comes right after `prefix` is a note, and its message is
/// exactly the text after that marker.
pub proof fn lemma_note_line(prefix: Seq<char>, message: Seq<char>)
    requires
        forall|k: int|
            0 <= k < prefix.len() ==> !#[trigger] crate::text::occurs_at(
                prefix + ": note: "@ + message,
                ": note: "@,
                k,
            ),
        forall|k: int| !#[trigger] crate::text::occurs_at(prefix + ": note: "@ + message, ": error: "@, k),
        forall|k: int| !#[trigger] crate::text::occurs_at(prefix + ": note: "@ + message, ": warning: "@, k),
    ensures
        diagnostic_of_line(prefix + ": note: "@ + message) matches Some(d) && d.severity
            == "note"@ && d.message == message && (d.file, d.line, d.column) == location(
            prefix,
        ),
{
    reveal_strlit(": note: ");
    reveal_strlit(": warning: ");
    reveal_strlit(": error: ");
    reveal_strlit("note");
    let line = prefix + ": note: "@ + message;
    let e = severity_marker(error_word());
    let w = severity_marker(warning_word());
    let n = severity_marker(note_word());
    assert(e =~= ": error: "@);
    assert(w =~= ": warning: "@);
    assert(n =~= ": note: "@);
    crate::text::lemma_find_from_bounds(line, e, 0);
    if let Some(k) = find(line, e) {
        assert(crate::text::occurs_at(line, e, k));
    }
    crate::text::lemma_find_from_bounds(line, w, 0);
    if let Some(k) = find(line, w) {
        assert(crate::text::occurs_at(line, w, k));
    }
    assert(line.subrange(prefix.len() as int, (prefix.len() + 8) as int) =~= n);
    lemma_first_marker_at(line, n, prefix.len() as int);
    assert(line.skip((prefix.len() + n.len()) as int) =~= message);
    assert(line.take(prefix.len() as int) =~= prefix);
    assert(note_word() =~= "note"@);
}

proof fn lemma_decimal_digits(n: nat)
    ensures
        crate::text::decimal(n).len() > 0,
        crate::text::all_digits(crate::text::decimal(n)),
        crate::text::digits_value(crate::text::decimal(n)) == n,
        crate::text::decimal(n)[0] != '+',
        forall|k: int| 0 <= k < crate::text::decimal(n).len() ==> #[trigger] crate::text::decimal(n)[k] != ':',
    decreases n,
{
    let d = crate::text::decimal(n);
    if n >= 10 {
        lemma_decimal_digits(n / 10);
        let p = crate::text::decimal(n / 10);
        assert(d == p.push(crate::text::digit_char(n % 10)));
        assert(d.drop_last() =~= p);
        assert(d.last() == crate::text::digit_char(n % 10));
        assert(crate::text::digit_value(crate::text::digit_char(n % 10)) == n % 10);
        assert(n == 10 * (n / 10) + n % 10);
        assert(crate::text::digits_value(d) == 10 * crate::text::digits_value(p) + crate::text::digit_value(
            d.last(),
        ));
        assert forall|k: int| 0 <= k < d.len() implies crate::text::is_digit(#[trigger] d[k]) by {
            if k < p.len() {
                assert(d[k] == p[k]);
            }
        }
        assert forall|k: int| 0 <= k < d.len() implies #[trigger] d[k] != ':' by {
            if k < p.len() {
                assert(d[k] == p[k]);
            }
        }
    } else {
        assert(d == seq![crate::text::digit_char(n)]);
        assert(d.drop_last() =~= Seq::<char>::empty());
        assert(crate::text::digit_value(crate::text::digit_char(n)) == n);
        assert(d.last() == crate::text::digit_char(n));
        assert(crate::text::digits_value(d.drop_last()) == 0);
        assert(crate::text::digits_value(d) == 10 * crate::text::digits_value(d.drop_last())
            + crate::text::digit_value(d.last()));
    }
}

/// A location written `file:line:column`, line and column in decimal, names
/// that file, line and column; the file may itself hold colons.
pub proof fn lemma_location_of_file_line_column(file: Seq<char>, line: u32, column: u32)
    ensures
        location(file + seq![':'] + crate::text::decimal(line as nat) + seq![':']
            + crate::text::decimal(column as nat)) == (Some(file), Some(line), Some(column)),
{
    let l = crate::text::decimal(line as nat);
    let c = crate::text::decimal(column as nat);
    let p = file + seq![':'] + l + seq![':'] + c;
    lemma_decimal_digits(line as nat);
    lemma_decimal_digits(column as nat);
    let c1: int = (file.len() + 1 + l.len()) as int;
    let c2 = file.len() as int;
    lemma_last_colon_skips(p, c1, p.len() as int);
    lemma_last_colon_skips(p, c2, c1);
    assert(p.skip(c1 + 1) =~= c);
    assert(p.subrange(c2 + 1, c1) =~= l);
    assert(p.take(c2) =~= file);
    assert(crate::text::unsigned_part(c) == c);
    assert(crate::text::unsigned_part(l) == l);
}

/// The last colon below `hi` is at `at` when `p[at]` is one and none lies
/// between.
proof fn lemma_last_colon_skips(p: Seq<char>, at: int, hi: int)
    requires
        0 <= at < hi <= p.len(),
        p[at] == ':',
        forall|k: int| at < k < hi ==> p[k] != ':',
    ensures
        last_colon(p, hi) == Some(at),
    decreases hi - at,
{
    if hi - 1 > at {
        lemma_last_colon_skips(p, at, hi - 1);
    }
}

} // verus!
