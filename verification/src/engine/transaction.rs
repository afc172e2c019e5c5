use crate::process::{str_views, strs};
use crate::text::{chars_of, push_char, push_str};
use vstd::prelude::*;

verus! {

/// Whether a batch disables or re-enables services.
#[derive(Clone, Copy, Debug, PartialEq, Eq)]
pub enum Transition {
    Disable,
    Enable,
}

impl Transition {
    /// The `launchctl` subcommand of the transition.
    pub open spec fn command_spec(self) -> Seq<char> {
        match self {
            Transition::Disable => "disable"@,
            Transition::Enable => "enable"@,
        }
    }

    /// The `launchctl` subcommand of the transition.
    pub fn command(self) -> (r: &'static str)
        ensures
            r@ == self.command_spec(),
    {
        match self {
            Transition::Disable => "disable",
            Transition::Enable => "enable",
        }
    }
}

/// What one service batch did.
#[derive(Debug, Clone, Copy, PartialEq, Eq)]
pub struct BatchResult {
    pub transitions: usize,
    pub batches: usize,
}

/// Why no script is made.
#[derive(Debug, Clone, Copy, PartialEq, Eq)]
pub enum TransactionError {
    /// A label holds a character that a shell could interpret.
    UnsafeLabel,
    /// The script exceeds 32 KiB.
    TooLarge,
}

/// Characters a launchd label may hold: ASCII letters and digits, `.`,
/// `-` and `_`.
pub open spec fn label_char(c: char) -> bool {
    ('a' <= c <= 'z') || ('A' <= c <= 'Z') || ('0' <= c <= '9') || c == '.' || c == '-' || c
        == '_'
}

/// A label that is safe to place in a shell script: 1 to 128 label
/// characters.
pub open spec fn valid_label_spec(l: Seq<char>) -> bool {
    0 < l.len() <= 128 && forall|i: int| 0 <= i < l.len() ==> label_char(#[trigger] l[i])
}

/// Whether a label is safe to place in a shell script.
pub fn valid_label(label: &str) -> (r: bool)
    ensures
        r == valid_label_spec(label@),
{
    let v = chars_of(label);
    if v.len() == 0 || v.len() > 128 {
        return false;
    }
    let mut i: usize = 0;
    while i < v.len()
        invariant
            i <= v.len(),
            v@ == label@,
            forall|j: int| 0 <= j < i ==> label_char(#[trigger] v@[j]),
        decreases v.len() - i,
    {
        let c = v[i];
        if !(('a' <= c && c <= 'z') || ('A' <= c && c <= 'Z') || ('0' <= c && c <= '9') || c == '.'
            || c == '-' || c == '_') {
            return false;
        }
        i += 1;
    }
    true
}

/// Whether every label is safe.
pub open spec fn all_valid(labels: Seq<Seq<char>>) -> bool {
    forall|i: int| 0 <= i < labels.len() ==> valid_label_spec(#[trigger] labels[i])
}

fn all_valid_exec(labels: &Vec<String>) -> (r: bool)
    ensures
        r == all_valid(strs(labels@)),
{
    let mut i: usize = 0;
    while i < labels.len()
        invariant
            i <= labels.len(),
            forall|j: int| 0 <= j < i ==> valid_label_spec(#[trigger] strs(labels@)[j]),
        decreases labels.len() - i,
    {
        if !valid_label(labels[i].as_str()) {
            assert(!valid_label_spec(strs(labels@)[i as int]));
            return false;
        }
        i += 1;
    }
    true
}

/// The labels, each preceded by a space.
pub open spec fn spaced(labels: Seq<Seq<char>>) -> Seq<char>
    decreases labels.len(),
{
    if labels.len() == 0 {
        seq![]
    } else {
        spaced(labels.drop_last()) + seq![' '] + labels.last()
    }
}

fn push_spaced(s: &mut String, labels: &Vec<String>)
    ensures
        final(s)@ == old(s)@ + spaced(strs(labels@)),
{
    let mut i: usize = 0;
    proof {
        assert(strs(labels@).take(0) =~= Seq::<Seq<char>>::empty());
        assert(old(s)@ + spaced(Seq::<Seq<char>>::empty()) =~= old(s)@);
    }
    while i < labels.len()
        invariant
            i <= labels.len(),
            s@ == old(s)@ + spaced(strs(labels@).take(i as int)),
        decreases labels.len() - i,
    {
        let ghost before = s@;
        push_char(s, ' ');
        push_str(s, labels[i].as_str());
        proof {
            let t = strs(labels@).take(i + 1);
            assert(t.drop_last() =~= strs(labels@).take(i as int));
            assert(t.last() == labels@[i as int]@);
            assert(s@ =~= old(s)@ + spaced(t));
        }
        i += 1;
    }
    proof {
        assert(strs(labels@).take(labels.len() as int) =~= strs(labels@));
    }
}

/// Start of a batch script, up to the first `launchctl` subcommand.
pub open spec fn script_head() -> Seq<char> {
    "set -u\ntransition() {\n  label=$1\n  DYLD_ROOT_PATH=\"$SIMULATOR_ROOT\" \"$SIMULATOR_ROOT/bin/launchctl\" "@
}

/// Between the first and the second `launchctl` subcommand: one retry
/// after a short pause.
pub open spec fn script_retry() -> Seq<char> {
    " \"system/$label\" || {\n    /bin/sleep 0.05\n    DYLD_ROOT_PATH=\"$SIMULATOR_ROOT\" \"$SIMULATOR_ROOT/bin/launchctl\" "@
}

/// After the second subcommand, up to the list of labels.
pub open spec fn script_loop() -> Seq<char> {
    " \"system/$label\" || { status=$?; printf 'transition failed: %s\\n' \"$label\" >&2; return \"$status\"; }\n  }\n}\npids=''\ncount=0\nfailed=0\nfor label in"@
}

/// After the labels: runs eight transitions at a time and fails when one
/// fails.
pub open spec fn script_tail() -> Seq<char> {
    "; do\n  transition \"$label\" &\n  pids=\"$pids $!\"\n  count=$((count + 1))\n  if [ \"$count\" -eq 8 ]; then\n    for pid in $pids; do wait \"$pid\" || failed=1; done\n    [ \"$failed\" -eq 0 ] || exit 1\n    pids=''\n    count=0\n  fi\ndone\nfor pid in $pids; do wait \"$pid\" || failed=1; done\nexit \"$failed\"\n"@
}

/// The shell script that applies `operation` to every label.
pub open spec fn script_text(operation: Transition, labels: Seq<Seq<char>>) -> Seq<char> {
    script_head() + operation.command_spec() + script_retry() + operation.command_spec()
        + script_loop() + spaced(labels) + script_tail()
}

/// Largest script sent to the simulator, in bytes.
pub const MAX_SCRIPT_BYTES: usize = 32768;

/// The shell script that applies `operation` to every label, eight at a
/// time; refused when a label is unsafe or the script is too large.
pub fn script(operation: Transition, labels: &Vec<String>) -> (r: Result<String, TransactionError>)
    ensures
        !all_valid(strs(labels@)) ==> r == Err::<String, TransactionError>(
            TransactionError::UnsafeLabel,
        ),
        all_valid(strs(labels@)) && script_text(operation, strs(labels@)).len()
            > MAX_SCRIPT_BYTES ==> r == Err::<String, TransactionError>(
            TransactionError::TooLarge,
        ),
        all_valid(strs(labels@)) && script_text(operation, strs(labels@)).len()
            <= MAX_SCRIPT_BYTES ==> (r matches Ok(s) && s@ == script_text(
            operation,
            strs(labels@),
        )),
{
    if !all_valid_exec(labels) {
        return Err(TransactionError::UnsafeLabel);
    }
    let mut s = String::from_str(
        "set -u\ntransition() {\n  label=$1\n  DYLD_ROOT_PATH=\"$SIMULATOR_ROOT\" ",
    );
    push_str(&mut s, "\"$SIMULATOR_ROOT/bin/launchctl\" ");
    push_str(&mut s, operation.command());
    push_str(
        &mut s,
        " \"system/$label\" || {\n    /bin/sleep 0.05\n    DYLD_ROOT_PATH=\"$SIMULATOR_ROOT\" ",
    );
    push_str(&mut s, "\"$SIMULATOR_ROOT/bin/launchctl\" ");
    push_str(&mut s, operation.command());
    push_str(
        &mut s,
        " \"system/$label\" || { status=$?; printf 'transition failed: %s\\n' \"$label\" >&2; return \"$status\"; }\n  }\n}\npids=''\ncount=0\nfailed=0\nfor label in",
    );
    push_spaced(&mut s, labels);
    push_str(
        &mut s,
        "; do\n  transition \"$label\" &\n  pids=\"$pids $!\"\n  count=$((count + 1))\n  if [ \"$count\" -eq 8 ]; then\n    for pid in $pids; do wait \"$pid\" || failed=1; done\n    [ \"$failed\" -eq 0 ] || exit 1\n    pids=''\n    count=0\n  fi\ndone\nfor pid in $pids; do wait \"$pid\" || failed=1; done\nexit \"$failed\"\n",
    );
    proof {
        reveal_strlit("set -u\ntransition() {\n  label=$1\n  DYLD_ROOT_PATH=\"$SIMULATOR_ROOT\" ");
        reveal_strlit("\"$SIMULATOR_ROOT/bin/launchctl\" ");
        reveal_strlit(
            "set -u\ntransition() {\n  label=$1\n  DYLD_ROOT_PATH=\"$SIMULATOR_ROOT\" \"$SIMULATOR_ROOT/bin/launchctl\" ",
        );
        reveal_strlit(
            " \"system/$label\" || {\n    /bin/sleep 0.05\n    DYLD_ROOT_PATH=\"$SIMULATOR_ROOT\" ",
        );
        reveal_strlit(
            " \"system/$label\" || {\n    /bin/sleep 0.05\n    DYLD_ROOT_PATH=\"$SIMULATOR_ROOT\" \"$SIMULATOR_ROOT/bin/launchctl\" ",
        );
        assert(s@ =~= script_text(operation, strs(labels@)));
    }
    let n = char_count(&s);
    if n > MAX_SCRIPT_BYTES {
        return Err(TransactionError::TooLarge);
    }
    Ok(s)
}

fn char_count(s: &String) -> (n: usize)
    ensures
        n == s@.len(),
{
    let v = chars_of(s.as_str());
    v.len()
}

/// The batch result of applying a transition to `count` labels in one
/// script.
pub fn batch_of(count: usize) -> (r: BatchResult)
    ensures
        r.transitions == count,
        r.batches == (if count == 0 { 0usize } else { 1usize }),
{
    BatchResult { transitions: count, batches: if count == 0 { 0 } else { 1 } }
}

/// Start of a user-agent cleanup script.
pub open spec fn bootout_head() -> Seq<char> {
    "set -u\nfor label in"@
}

/// After the labels of a user-agent cleanup script.
pub open spec fn bootout_tail() -> Seq<char> {
    "; do\n  DYLD_ROOT_PATH=\"$SIMULATOR_ROOT\" \"$SIMULATOR_ROOT/bin/launchctl\" bootout \"user/501/$label\" >/dev/null 2>&1 || true\ndone\n"@
}

/// The script that boots out user agents; `None` when there is nothing to
/// do; refused when a label is unsafe.
pub fn bootout_script(labels: &[&str]) -> (r: Result<Option<String>, TransactionError>)
    ensures
        !all_valid(str_views(labels@)) ==> r == Err::<Option<String>, TransactionError>(
            TransactionError::UnsafeLabel,
        ),
        all_valid(str_views(labels@)) && labels.len() == 0 ==> r == Ok::<
            Option<String>,
            TransactionError,
        >(None),
        all_valid(str_views(labels@)) && labels.len() > 0 ==> (r matches Ok(Some(s)) && s@
            == bootout_head() + spaced(str_views(labels@)) + bootout_tail()),
{
    let owned = crate::process::strings(labels);
    if !all_valid_exec(&owned) {
        return Err(TransactionError::UnsafeLabel);
    }
    if labels.len() == 0 {
        return Ok(None);
    }
    let mut s = String::from_str("set -u\nfor label in");
    push_spaced(&mut s, &owned);
    push_str(
        &mut s,
        "; do\n  DYLD_ROOT_PATH=\"$SIMULATOR_ROOT\" \"$SIMULATOR_ROOT/bin/launchctl\" bootout \"user/501/$label\" >/dev/null 2>&1 || true\ndone\n",
    );
    Ok(Some(s))
}

} // verus!
