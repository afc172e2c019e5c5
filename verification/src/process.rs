use vstd::prelude::*;

verus! {

/// The character sequences of a slice of `String`s.
pub open spec fn strs(v: Seq<String>) -> Seq<Seq<char>> {
    v.map_values(|s: String| s@)
}

/// The character sequences of a slice of `&str`s.
pub open spec fn str_views(v: Seq<&str>) -> Seq<Seq<char>> {
    v.map_values(|s: &str| s@)
}

/// Owned copies of command-line arguments.
pub fn strings(args: &[&str]) -> (r: Vec<String>)
    ensures
        strs(r@) == str_views(args@),
{
    let mut out: Vec<String> = Vec::new();
    let mut i: usize = 0;
    while i < args.len()
        invariant
            i <= args.len(),
            strs(out@) == str_views(args@).take(i as int),
        decreases args.len() - i,
    {
        let ghost before = out@;
        let s = String::from_str(args[i]);
        assert(s@ == args@[i as int]@);
        out.push(s);
        assert(out@ == before.push(s));
        assert(strs(out@) =~= strs(before).push(s@));
        i += 1;
        assert(strs(out@) =~= str_views(args@).take(i as int));
    }
    assert(str_views(args@).take(args.len() as int) =~= str_views(args@));
    out
}

/// Whether `v` holds a string equal to `x`.
pub fn contains_string(v: &[String], x: &str) -> (r: bool)
    ensures
        r == strs(v@).contains(x@),
{
    let mut i: usize = 0;
    while i < v.len()
        invariant
            i <= v.len(),
            forall|j: int| 0 <= j < i ==> v@[j]@ != x@,
        decreases v.len() - i,
    {
        if crate::text::str_eq(v[i].as_str(), x) {
            assert(strs(v@)[i as int] == x@);
            return true;
        }
        i += 1;
    }
    proof {
        if strs(v@).contains(x@) {
            let j = choose|j: int| 0 <= j < strs(v@).len() && strs(v@)[j] == x@;
            assert(v@[j]@ == x@);
        }
    }
    false
}


/// Counts of host subprocesses: started, running, and the most running at
/// once.
#[derive(Debug, Clone, Copy, Default)]
pub struct ProcessCounters {
    pub spawned: u64,
    pub active: u64,
    pub peak: u64,
}

impl ProcessCounters {
    /// Counts a started subprocess; counters wrap like atomic additions.
    pub fn record_spawn(&mut self)
        ensures
            final(self).spawned == (if old(self).spawned == u64::MAX { 0 } else { (old(self).spawned + 1) as u64 }),
            final(self).active == (if old(self).active == u64::MAX { 0 } else { (old(self).active + 1) as u64 }),
            final(self).peak == (if final(self).active > old(self).peak { final(self).active } else { old(self).peak }),
    {
        self.spawned = self.spawned.wrapping_add(1);
        self.active = self.active.wrapping_add(1);
        if self.active > self.peak {
            self.peak = self.active;
        }
    }

    /// Counts a finished subprocess.
    pub fn record_exit(&mut self)
        ensures
            final(self).active == (if old(self).active == 0 { u64::MAX } else { (old(self).active - 1) as u64 }),
            final(self).spawned == old(self).spawned,
            final(self).peak == old(self).peak,
    {
        self.active = self.active.wrapping_sub(1);
    }

    /// Subprocesses started so far.
    pub fn spawn_count(&self) -> (r: u64)
        ensures
            r == self.spawned,
    {
        self.spawned
    }

    /// The most subprocesses that ran at once.
    pub fn peak_active_count(&self) -> (r: u64)
        ensures
            r == self.peak,
    {
        self.peak
    }
}

/// Bytes of subprocess output kept before the call fails.
pub const OUTPUT_LIMIT: u64 = 8388608;

/// Whether captured output stays within the limit.
pub fn output_within_limit(len: u64) -> (r: bool)
    ensures
        r == (len <= OUTPUT_LIMIT),
{
    len <= OUTPUT_LIMIT
}

/// Bytes of a failed command's output quoted in its error.
pub const ERROR_TAIL_BYTES: usize = 4096;

/// Where the quoted tail of a failed command's output starts.
pub fn tail_start(len: usize) -> (r: usize)
    ensures
        r == (if len > ERROR_TAIL_BYTES { len - ERROR_TAIL_BYTES } else { 0 }),
{
    len.saturating_sub(ERROR_TAIL_BYTES)
}

/// Longest line a live log stream forwards; longer lines are split.
pub const MAX_PUMP_LINE: usize = 16384;

/// How many bytes of `buffer` a line reader takes into a pending line of
/// `pending` bytes: through the first line feed, else all of it, and never
/// past `MAX_PUMP_LINE`.
pub fn pump_take(buffer: &[u8], pending: usize) -> (r: usize)
    requires
        pending <= MAX_PUMP_LINE,
    ensures
        r <= buffer.len(),
        pending + r <= MAX_PUMP_LINE,
        ({
            let full = if exists|i: int| 0 <= i < buffer.len() && buffer@[i] == 10u8 {
                (choose|i: int|
                    0 <= i < buffer.len() && buffer@[i] == 10u8 && forall|j: int|
                        0 <= j < i ==> buffer@[j] != 10u8) + 1
            } else {
                buffer.len() as int
            };
            r == if full < MAX_PUMP_LINE - pending {
                full
            } else {
                MAX_PUMP_LINE - pending
            }
        }),
{
    let mut i: usize = 0;
    while i < buffer.len() && buffer[i] != 10u8
        invariant
            i <= buffer.len(),
            forall|j: int| 0 <= j < i ==> buffer@[j] != 10u8,
        decreases buffer.len() - i,
    {
        i += 1;
    }
    let full = if i < buffer.len() {
        proof {
            let c = choose|c: int|
                0 <= c < buffer.len() && buffer@[c] == 10u8 && forall|j: int|
                    0 <= j < c ==> buffer@[j] != 10u8;
            if c < i {
            } else if c > i {
                assert(buffer@[i as int] == 10u8);
            }
        }
        i + 1
    } else {
        buffer.len()
    };
    let room = MAX_PUMP_LINE - pending;
    if full < room {
        full
    } else {
        room
    }
}

/// Whether a pending line is complete: it ends with a line feed or reached
/// `MAX_PUMP_LINE` bytes.
pub fn pump_line_complete(pending: &[u8]) -> (r: bool)
    ensures
        r == ((pending.len() > 0 && pending@.last() == 10u8) || pending.len() == MAX_PUMP_LINE),
{
    (pending.len() > 0 && pending[pending.len() - 1] == 10u8) || pending.len() == MAX_PUMP_LINE
}
} // verus!
