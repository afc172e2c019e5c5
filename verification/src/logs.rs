use vstd::prelude::*;
use vstd::string::*;

verus! {

/// Most entries a live log buffer keeps.
pub const MAX_ENTRIES: usize = 1000;

/// Most text bytes a live log buffer keeps.
pub const MAX_BUFFER_BYTES: usize = 1048576;

/// Most entries one read returns.
pub const MAX_BATCH_ENTRIES: usize = 200;

/// Most text bytes one read returns.
pub const MAX_BATCH_BYTES: usize = 65536;

/// One line of a live log stream, numbered from 1.
#[derive(Debug)]
pub struct Entry {
    pub sequence: u64,
    pub text: String,
}

impl Clone for Entry {
    fn clone(&self) -> (r: Self)
        ensures
            r == *self,
    {
        Entry { sequence: self.sequence, text: self.text.clone() }
    }
}

/// Bytes of the UTF-8 text of an entry (`str::len`).
pub open spec fn entry_bytes(e: Entry) -> int {
    vstd::utf8::encode_utf8(e.text@).len() as usize as int
}

fn text_bytes(e: &Entry) -> (r: usize)
    ensures
        r == entry_bytes(*e),
{
    e.text.as_str().len()
}

/// Bytes of the texts of `es`.
pub open spec fn total_bytes(es: Seq<Entry>) -> int
    decreases es.len(),
{
    if es.len() == 0 {
        0
    } else {
        entry_bytes(es[0]) + total_bytes(es.skip(1))
    }
}

/// `es` without its oldest entries while it holds more than
/// `MAX_ENTRIES` entries or `MAX_BUFFER_BYTES` bytes.
pub open spec fn trimmed(es: Seq<Entry>) -> Seq<Entry>
    decreases es.len(),
{
    if es.len() > 0 && (es.len() > MAX_ENTRIES || total_bytes(es) > MAX_BUFFER_BYTES) {
        trimmed(es.skip(1))
    } else {
        es
    }
}

/// What one read of a live log stream returns.
#[derive(Debug)]
pub struct Batch {
    pub entries: Vec<Entry>,
    pub cursor: u64,
    pub dropped: bool,
    pub done: bool,
    pub error: Option<String>,
}

/// The retained entries of a live log stream.
#[derive(Debug)]
pub struct LogBuffer {
    entries: Vec<Entry>,
    next: u64,
    bytes: usize,
    done: bool,
    error: Option<String>,
}

/// Why a read is refused.
#[derive(Debug, Clone, Copy, PartialEq, Eq)]
pub enum LogError {
    /// The cursor is past the last entry of the stream.
    CursorAhead,
}

/// The entries after sequence `after` that one read returns from `es`: in
/// order, at most `n` of them, and only while their bytes fit `budget`.
pub open spec fn collect(es: Seq<Entry>, after: u64, n: nat, budget: int) -> Seq<Entry>
    decreases es.len(),
{
    if es.len() == 0 || n == 0 {
        seq![]
    } else if es[0].sequence <= after {
        collect(es.skip(1), after, n, budget)
    } else if entry_bytes(es[0]) <= budget {
        seq![es[0]] + collect(es.skip(1), after, (n - 1) as nat, budget - entry_bytes(es[0]))
    } else {
        seq![]
    }
}

impl LogBuffer {
    /// The retained entries, oldest first.
    pub closed spec fn entries_spec(self) -> Seq<Entry> {
        self.entries@
    }

    /// Sequence of the last entry pushed, 0 before the first.
    pub closed spec fn next_spec(self) -> u64 {
        self.next
    }

    /// Whether the stream ended.
    pub closed spec fn done_spec(self) -> bool {
        self.done
    }

    /// The error that ended the stream.
    pub closed spec fn error_spec(self) -> Option<String> {
        self.error
    }

    /// The buffer's invariant: the byte count is that of the entries, the
    /// limits hold, and sequences increase up to `next`.
    pub closed spec fn wf(self) -> bool {
        &&& self.bytes == total_bytes(self.entries@)
        &&& self.entries.len() <= MAX_ENTRIES
        &&& self.bytes <= MAX_BUFFER_BYTES
        &&& forall|i: int, j: int|
            0 <= i < j < self.entries.len() ==> self.entries@[i].sequence
                < self.entries@[j].sequence
        &&& forall|i: int| 0 <= i < self.entries.len() ==> 1 <= (#[trigger] self.entries@[i]).sequence <= self.next
    }

    /// An empty buffer of a running stream.
    pub fn new() -> (r: Self)
        ensures
            r.wf(),
            r.entries_spec().len() == 0,
            r.next_spec() == 0,
            !r.done_spec(),
            r.error_spec() is None,
    {
        LogBuffer { entries: Vec::new(), next: 0, bytes: 0, done: false, error: None }
    }

    /// Appends a line under the next sequence number, then drops the oldest
    /// lines while more than 1000 lines or 1 MiB are kept.
    pub fn push(&mut self, text: String)
        requires
            old(self).wf(),
            old(self).next_spec() < u64::MAX,
            vstd::utf8::encode_utf8(text@).len() <= usize::MAX - MAX_BUFFER_BYTES,
        ensures
            final(self).wf(),
            final(self).next_spec() == old(self).next_spec() + 1,
            final(self).entries_spec() == trimmed(
                old(self).entries_spec().push(
                    Entry { sequence: (old(self).next_spec() + 1) as u64, text },
                ),
            ),
            final(self).done_spec() == old(self).done_spec(),
            final(self).error_spec() == old(self).error_spec(),
    {
        self.next = self.next + 1;
        let entry = Entry { sequence: self.next, text };
        let n = text_bytes(&entry);
        let ghost before = self.entries@;
        self.bytes = self.bytes + n;
        self.entries.push(entry);
        proof {
            lemma_total_push(before, entry);
        }
        while self.entries.len() > 0 && (self.entries.len() > MAX_ENTRIES || self.bytes
            > MAX_BUFFER_BYTES)
            invariant
                self.bytes == total_bytes(self.entries@),
                trimmed(self.entries@) == trimmed(before.push(entry)),
                forall|i: int, j: int|
                    0 <= i < j < self.entries.len() ==> self.entries@[i].sequence
                        < self.entries@[j].sequence,
                forall|i: int|
                    0 <= i < self.entries.len() ==> 1 <= (#[trigger] self.entries@[i]).sequence <= self.next,
                self.entries.len() <= MAX_ENTRIES + 1,
                self.next == old(self).next + 1,
                self.done == old(self).done,
                self.error == old(self).error,
            decreases self.entries.len(),
        {
            let ghost prev = self.entries@;
            let front = self.entries.remove(0);
            let m = text_bytes(&front);
            proof {
                assert(prev =~= seq![front] + self.entries@);
                assert(prev.skip(1) =~= self.entries@);
                lemma_total_front(self.entries@, front);
                lemma_total_nonneg(self.entries@);
            }
            self.bytes = self.bytes - m;
        }
        proof {
            assert(trimmed(self.entries@) == self.entries@);
        }
    }

    /// Marks the stream ended, with the error that ended it.
    pub fn finish(&mut self, error: Option<String>)
        ensures
            final(self).done_spec(),
            final(self).error_spec() == error,
            final(self).entries_spec() == old(self).entries_spec(),
            final(self).next_spec() == old(self).next_spec(),
            old(self).wf() ==> final(self).wf(),
    {
        self.done = true;
        self.error = error;
    }

    /// Reads the lines after sequence `after`: at most 200 lines and 64 KiB,
    /// the cursor of the last line returned (else `after`), and whether lines
    /// after `after` were already dropped.
    pub fn read(&self, after: u64) -> (r: Result<Batch, LogError>)
        requires
            self.wf(),
        ensures
            after > self.next_spec() ==> r == Err::<Batch, LogError>(LogError::CursorAhead),
            after <= self.next_spec() ==> (r matches Ok(b) && {
                let es = collect(self.entries_spec(), after, MAX_BATCH_ENTRIES as nat, MAX_BATCH_BYTES as int);
                &&& b.entries@ == es
                &&& b.cursor == (if es.len() > 0 {
                    es.last().sequence
                } else {
                    after
                })
                &&& b.dropped == (self.entries_spec().len() > 0 && after + 1
                    < self.entries_spec()[0].sequence)
                &&& b.done == self.done_spec()
                &&& b.error == self.error_spec()
            }),
    {
        if after > self.next {
            return Err(LogError::CursorAhead);
        }
        let ghost all = self.entries@;
        let mut out: Vec<Entry> = Vec::new();
        let mut n: usize = MAX_BATCH_ENTRIES;
        let mut budget: usize = MAX_BATCH_BYTES;
        let mut i: usize = 0;
        let mut stopped = false;
        proof {
            assert(all.skip(0) =~= all);
            assert(out@ + collect(all.skip(0), after, n as nat, budget as int) =~= collect(
                all,
                after,
                MAX_BATCH_ENTRIES as nat,
                MAX_BATCH_BYTES as int,
            ));
        }
        while i < self.entries.len() && n > 0 && !stopped
            invariant
                all == self.entries@,
                i <= self.entries.len(),
                stopped ==> collect(all.skip(i as int), after, n as nat, budget as int) =~= Seq::<
                    Entry,
                >::empty(),
                out@ + collect(all.skip(i as int), after, n as nat, budget as int) == collect(
                    all,
                    after,
                    MAX_BATCH_ENTRIES as nat,
                    MAX_BATCH_BYTES as int,
                ),
            decreases self.entries.len() - i + (if stopped {
                0int
            } else {
                1int
            }),
        {
            let e = &self.entries[i];
            let ghost rest = all.skip(i as int);
            assert(rest[0] == all[i as int]);
            assert(rest.skip(1) =~= all.skip(i + 1));
            if e.sequence <= after {
                i += 1;
            } else {
                let m = text_bytes(e);
                if m <= budget {
                    let ghost before = out@;
                    out.push(e.clone());
                    assert(out@ =~= before + seq![all[i as int]]);
                    assert(before + (seq![all[i as int]] + collect(
                        all.skip(i + 1),
                        after,
                        (n - 1) as nat,
                        budget - m,
                    )) =~= out@ + collect(all.skip(i + 1), after, (n - 1) as nat, budget - m));
                    n -= 1;
                    budget -= m;
                    i += 1;
                } else {
                    stopped = true;
                }
            }
        }
        proof {
            if i >= self.entries.len() {
                assert(all.skip(i as int).len() == 0);
            }
            assert(collect(all.skip(i as int), after, n as nat, budget as int) =~= Seq::<
                Entry,
            >::empty());
            assert(out@ + Seq::<Entry>::empty() =~= out@);
        }
        let cursor = if out.len() > 0 {
            out[out.len() - 1].sequence
        } else {
            after
        };
        let dropped = self.entries.len() > 0 && self.entries[0].sequence > after
            && self.entries[0].sequence - after > 1;
        let error = match &self.error {
            Some(e) => Some(e.clone()),
            None => None,
        };
        Ok(Batch { entries: out, cursor, dropped, done: self.done, error })
    }
}

proof fn lemma_total_push(es: Seq<Entry>, e: Entry)
    ensures
        total_bytes(es.push(e)) == total_bytes(es) + entry_bytes(e),
    decreases es.len(),
{
    if es.len() > 0 {
        assert(es.push(e).skip(1) =~= es.skip(1).push(e));
        assert(es.push(e)[0] == es[0]);
        lemma_total_push(es.skip(1), e);
        assert(total_bytes(es.push(e)) == entry_bytes(es[0]) + total_bytes(es.push(e).skip(1)));
        assert(total_bytes(es) == entry_bytes(es[0]) + total_bytes(es.skip(1)));
    } else {
        assert(es.push(e).skip(1) =~= Seq::<Entry>::empty());
        assert(es.push(e)[0] == e);
        assert(total_bytes(Seq::<Entry>::empty()) == 0);
        assert(total_bytes(es.push(e)) == entry_bytes(e) + total_bytes(es.push(e).skip(1)));
    }
}

proof fn lemma_total_nonneg(es: Seq<Entry>)
    ensures
        total_bytes(es) >= 0,
    decreases es.len(),
{
    if es.len() > 0 {
        lemma_total_nonneg(es.skip(1));
    }
}

proof fn lemma_total_front(rest: Seq<Entry>, front: Entry)
    ensures
        total_bytes(seq![front] + rest) == entry_bytes(front) + total_bytes(rest),
{
    assert((seq![front] + rest).skip(1) =~= rest);
}

} // verus!
