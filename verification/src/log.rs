use vstd::prelude::*;
use crate::mutation::{LogEntry, Mutation};
use crate::time::Timestamp;

verus! {

/// The highest of the sequence numbers (0 when there are none).
pub open spec fn max_seq(seqs: Seq<u64>) -> nat
    decreases seqs.len(),
{
    if seqs.len() == 0 {
        0
    } else {
        let m = max_seq(seqs.drop_last());
        if seqs.last() > m {
            seqs.last() as nat
        } else {
            m
        }
    }
}

/// The sequence numbers `1..=n`, as a log written from the start holds them.
pub open spec fn first_seqs(n: nat) -> Seq<u64> {
    Seq::new(n, |i: int| (i + 1) as u64)
}

/// The state of an append-only mutation log kept in a `.jsonl` file: the
/// file's path and the sequence number that the next entry receives.
///
/// Reading and writing the file is left to the caller: `resume` takes the
/// sequence numbers found in the file, `stage_append` builds the next entry
/// to write, and `confirm_append` advances the sequence once it is written.
#[derive(Debug)]
pub struct MutationLog {
    path: String,
    next_seq: u64,
}

/// One append seen from outside: the path stays and the counter moves on by one.
pub open spec fn appended(before: MutationLog, after: MutationLog) -> bool {
    &&& after.path_text() == before.path_text()
    &&& after.seq_counter() == before.seq_counter() + 1
}

impl MutationLog {
    #[verifier::type_invariant]
    closed spec fn inv(self) -> bool {
        self.next_seq >= 1
    }

    /// The sequence number that the next entry receives.
    pub closed spec fn seq_counter(self) -> u64 {
        self.next_seq
    }

    /// The path of the backing file.
    pub closed spec fn path_text(self) -> Seq<char> {
        self.path@
    }

    /// A log at the given path whose file already holds entries with the
    /// given sequence numbers (none for a missing or empty file): the next
    /// entry receives one more than the highest of them.
    pub fn resume(path: &str, recorded: &Vec<u64>) -> (log: MutationLog)
        requires
            forall|i: int| 0 <= i < recorded@.len() ==> recorded@[i] < u64::MAX,
        ensures
            log.seq_counter() == max_seq(recorded@) + 1,
            log.path_text() == path@,
    {
        let n = recorded.len();
        let mut max: u64 = 0;
        let mut i: usize = 0;
        while i < n
            invariant
                n == recorded@.len(),
                i <= n,
                forall|j: int| 0 <= j < recorded@.len() ==> recorded@[j] < u64::MAX,
                max == max_seq(recorded@.take(i as int)),
                max < u64::MAX,
            decreases n - i,
        {
            proof {
                assert(recorded@.take(i + 1).drop_last() =~= recorded@.take(i as int));
            }
            if recorded[i] > max {
                max = recorded[i];
            }
            i = i + 1;
        }
        proof {
            assert(recorded@.take(n as int) =~= recorded@);
        }
        MutationLog { path: String::from_str(path), next_seq: max + 1 }
    }

    /// The sequence number that the next entry receives.
    pub fn next_seq(&self) -> (s: u64)
        ensures
            s == self.seq_counter(),
            s >= 1,
    {
        proof {
            use_type_invariant(self);
        }
        self.next_seq
    }

    /// The path of the backing file.
    pub fn path(&self) -> (p: &str)
        ensures
            p@ == self.path_text(),
    {
        self.path.as_str()
    }

    /// The entry that appending the mutation now writes: the next sequence
    /// number, the current time and the mutation.
    pub fn stage_append(&self, mutation: Mutation) -> (e: LogEntry)
        ensures
            e.seq == self.seq_counter(),
            e.mutation == mutation,
            e.ts.nanos < 2_000_000_000,
    {
        LogEntry { seq: self.next_seq, ts: Timestamp::now(), mutation }
    }

    /// Records that the staged entry was written: the sequence advances by one.
    pub fn confirm_append(&mut self)
        requires
            old(self).seq_counter() < u64::MAX,
        ensures
            final(self).seq_counter() == old(self).seq_counter() + 1,
            final(self).path_text() == old(self).path_text(),
            appended(*old(self), *final(self)),
    {
        self.next_seq = self.next_seq + 1;
    }
}

/// Over any run of appends the path stays the one the log was opened with,
/// and after `k` appends the counter has moved on by `k`.
pub proof fn lemma_appends(logs: Seq<MutationLog>)
    requires
        logs.len() >= 1,
        forall|i: int| 0 <= i < logs.len() - 1 ==> #[trigger] appended(logs[i], logs[i + 1]),
    ensures
        forall|i: int|
            0 <= i < logs.len() ==> #[trigger] logs[i].path_text() == logs[0].path_text()
                && logs[i].seq_counter() == logs[0].seq_counter() + i,
    decreases logs.len(),
{
    if logs.len() > 1 {
        let init = logs.drop_last();
        assert forall|i: int| 0 <= i < init.len() - 1 implies #[trigger] appended(init[i], init[i + 1]) by {
            assert(appended(logs[i], logs[i + 1]));
        }
        lemma_appends(init);
        let last = logs.len() - 1;
        let j = last - 1;
        assert(appended(logs[j], logs[j + 1]));
        assert forall|i: int| 0 <= i < logs.len() implies #[trigger] logs[i].path_text() == logs[0].path_text()
            && logs[i].seq_counter() == logs[0].seq_counter() + i by {
            if i < last {
                assert(init[i] == logs[i]);
            } else {
                assert(init[last - 1] == logs[last - 1]);
            }
        }
    }
}

/// A log whose file holds the entries `1..=n` resumes at `n + 1`: reopening
/// continues the sequence.
pub proof fn lemma_reopen_continues(n: nat)
    requires
        n < u64::MAX,
    ensures
        max_seq(first_seqs(n)) == n,
    decreases n,
{
    if n > 0 {
        lemma_reopen_continues((n - 1) as nat);
        assert(first_seqs(n).drop_last() =~= first_seqs((n - 1) as nat));
        assert(first_seqs(n).last() == n);
    }
}

} // verus!
