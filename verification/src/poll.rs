//! The decisions of the polling loop. The caller does the reading,
//! publishing and sleeping; these state machines say what to do next.

use vstd::prelude::*;
use crate::clock::{timestamp_chars, timestamp_text, ClockLog, LocalTime};
use crate::map::ValueMap;
use crate::registers::BATCH_COUNT;
use crate::scale::{apply_scale_factors, scaled_values};
use crate::value::Value;

verus! {

/// The map with the entries put in one after the other, later ones
/// replacing earlier ones under the same key.
pub open spec fn extended(m: Map<Seq<char>, Value>, entries: Seq<(String, Value)>) -> Map<Seq<char>, Value>
    decreases entries.len(),
{
    if entries.len() == 0 {
        m
    } else {
        extended(m, entries.drop_last()).insert(entries.last().0@, entries.last().1)
    }
}

/// Puts entries into a map, one after the other.
pub fn extend(values: &mut ValueMap, entries: Vec<(String, Value)>)
    requires
        old(values).wf(),
    ensures
        final(values).wf(),
        final(values)@ == extended(old(values)@, entries@),
{
    let ghost all = entries@;
    assert(all.len() == entries.len());
    let mut rest = entries;
    let mut taken: Vec<(String, Value)> = Vec::new();
    // Reverse the entries so that they can be taken from the back in order.
    while rest.len() > 0
        invariant
            all.len() <= usize::MAX,
            rest@.len() + taken@.len() == all.len(),
            rest@ == all.take(rest@.len() as int),
            forall|i: int| 0 <= i < taken@.len() ==> #[trigger] taken@[i] == all[all.len() - 1 - i],
        decreases rest@.len(),
    {
        let e = rest.pop().unwrap();
        assert(rest@ =~= all.take(rest@.len() as int));
        taken.push(e);
    }
    let mut done: usize = 0;
    assert(all.take(0) =~= Seq::<(String, Value)>::empty());
    while taken.len() > 0
        invariant
            values.wf(),
            all.len() <= usize::MAX,
            done + taken@.len() == all.len(),
            forall|i: int| 0 <= i < taken@.len() ==> #[trigger] taken@[i] == all[all.len() - 1 - i],
            values@ == extended(old(values)@, all.take(done as int)),
        decreases taken@.len(),
    {
        let (key, value) = taken.pop().unwrap();
        proof {
            let next = all.take(done + 1);
            assert(next.drop_last() =~= all.take(done as int));
            assert(next.last() == all[done as int]);
        }
        values.insert(key, value);
        done = done + 1;
    }
    assert(all.take(all.len() as int) =~= all);
}

/// What to do next while reading all registers.
#[derive(Debug, Clone, Copy, PartialEq, Eq, Structural)]
pub enum ReadAction {
    /// Read request `i` (see `registers::register_batch`).
    ReadBatch(usize),
    /// Every request is done; the values are complete.
    Finished,
    /// Request `i` failed and the reading fails with it.
    Abort(usize),
}

/// Requests from this one on may be missing on some firmware: their
/// failure is not an error.
pub const FIRST_OPTIONAL_BATCH: usize = 2;

/// The state of one reading of all registers.
pub struct ReadAll {
    values: ValueMap,
    next: usize,
}

impl ReadAll {
    /// The values read so far.
    pub closed spec fn values(&self) -> Map<Seq<char>, Value> {
        self.values@
    }

    /// The request that is read now.
    pub closed spec fn next(&self) -> nat {
        self.next as nat
    }

    pub closed spec fn wf(&self) -> bool {
        &&& self.values.wf()
        &&& self.next <= BATCH_COUNT
    }

    /// Starts a reading: nothing read yet, and request 0 to read.
    pub fn start() -> (r: (ReadAll, ReadAction))
        ensures
            r.0.wf(),
            r.0.values() == Map::<Seq<char>, Value>::empty(),
            r.0.next() == 0,
            r.1 == ReadAction::ReadBatch(0),
    {
        (ReadAll { values: ValueMap::new(), next: 0 }, ReadAction::ReadBatch(0))
    }

    /// The action after request `next` has been dealt with.
    fn advance(&mut self) -> (a: ReadAction)
        requires
            old(self).wf(),
            old(self).next < BATCH_COUNT,
        ensures
            final(self).wf(),
            final(self).values() == old(self).values(),
            final(self).next() == old(self).next() + 1,
            a == if final(self).next() < BATCH_COUNT {
                ReadAction::ReadBatch(final(self).next() as usize)
            } else {
                ReadAction::Finished
            },
    {
        self.next = self.next + 1;
        if self.next < BATCH_COUNT {
            ReadAction::ReadBatch(self.next)
        } else {
            ReadAction::Finished
        }
    }

    /// Request `next` returned these named values: they join the others.
    pub fn on_batch_read(&mut self, entries: Vec<(String, Value)>) -> (a: ReadAction)
        requires
            old(self).wf(),
            old(self).next() < BATCH_COUNT,
        ensures
            final(self).wf(),
            final(self).values() == extended(old(self).values(), entries@),
            final(self).next() == old(self).next() + 1,
            a == if final(self).next() < BATCH_COUNT {
                ReadAction::ReadBatch(final(self).next() as usize)
            } else {
                ReadAction::Finished
            },
    {
        extend(&mut self.values, entries);
        self.advance()
    }

    /// Request `next` failed: the reading fails if the request is one of the
    /// first two (common and inverter block); the later ones are skipped.
    pub fn on_batch_failed(&mut self) -> (a: ReadAction)
        requires
            old(self).wf(),
            old(self).next() < BATCH_COUNT,
        ensures
            final(self).wf(),
            final(self).values() == old(self).values(),
            old(self).next() < FIRST_OPTIONAL_BATCH ==> a == ReadAction::Abort(
                old(self).next() as usize,
            ) && final(self).next() == old(self).next(),
            old(self).next() >= FIRST_OPTIONAL_BATCH ==> {
                &&& final(self).next() == old(self).next() + 1
                &&& a == if final(self).next() < BATCH_COUNT {
                    ReadAction::ReadBatch(final(self).next() as usize)
                } else {
                    ReadAction::Finished
                }
            },
    {
        if self.next < FIRST_OPTIONAL_BATCH {
            ReadAction::Abort(self.next)
        } else {
            self.advance()
        }
    }

    /// The values read.
    pub fn into_values(self) -> (m: ValueMap)
        requires
            self.wf(),
        ensures
            m.wf(),
            m@ == self.values(),
    {
        self.values
    }
}

/// The longest wait between two attempts after errors, in seconds.
pub const MAX_BACKOFF_SECS: u64 = 60;

/// The wait after `errors` consecutive failed readings: `2^errors` seconds,
/// at most a minute.
pub open spec fn backoff_secs(errors: nat) -> nat {
    let p = vstd::arithmetic::power2::pow2(errors);
    if p < MAX_BACKOFF_SECS {
        p
    } else {
        MAX_BACKOFF_SECS as nat
    }
}

/// The wait never exceeds a minute, and it does not shrink while errors
/// keep coming.
pub proof fn law_backoff_bounded_and_growing(a: nat, b: nat)
    requires
        a <= b,
    ensures
        backoff_secs(a) <= MAX_BACKOFF_SECS,
        backoff_secs(a) <= backoff_secs(b),
{
    if a < b {
        vstd::arithmetic::power2::lemma_pow2_strictly_increases(a, b);
    }
}

/// The state of the polling loop: how many readings failed in a row, and
/// the clock that stamps the readings.
pub struct Poller {
    consecutive_errors: u32,
    clock: ClockLog,
}

impl Poller {
    /// The number of readings that failed in a row.
    pub closed spec fn errors(&self) -> nat {
        self.consecutive_errors as nat
    }

    /// The clock readings that stamped this loop's readings, oldest first.
    pub closed spec fn stamps(&self) -> Seq<LocalTime> {
        self.clock.readings()
    }

    /// The loop before its first reading.
    pub fn new() -> (p: Poller)
        ensures
            p.errors() == 0,
            p.stamps() == Seq::<LocalTime>::empty(),
    {
        Poller { consecutive_errors: 0, clock: ClockLog::new() }
    }

    /// The number of readings that failed in a row.
    pub fn consecutive_errors(&self) -> (n: u32)
        ensures
            n == self.errors(),
    {
        self.consecutive_errors
    }

    /// A reading succeeded: the error count starts over, the scale factors
    /// are applied and the time of the reading is added under
    /// `_timestamp`. The result is what to publish.
    pub fn on_read_ok(&mut self, values: ValueMap, timestamp: String) -> (out: ValueMap)
        requires
            values.wf(),
        ensures
            final(self).errors() == 0,
            final(self).stamps() == old(self).stamps(),
            out.wf(),
            out@ == scaled_values(values@).insert("_timestamp"@, Value::Str(timestamp)),
    {
        self.consecutive_errors = 0;
        let mut values = values;
        apply_scale_factors(&mut values);
        values.insert("_timestamp".to_owned(), Value::Str(timestamp));
        values
    }

    /// A reading succeeded now: as `on_read_ok`, stamped with the local time
    /// that the clock gives during the call, in ISO 8601 with its UTC offset.
    pub fn on_reading(&mut self, values: ValueMap) -> (out: ValueMap)
        requires
            values.wf(),
        ensures
            final(self).errors() == 0,
            out.wf(),
            out@.contains_key("_timestamp"@),
            out@ == scaled_values(values@).insert("_timestamp"@, out@["_timestamp"@]),
            exists|t: LocalTime|
                t.in_range() && (out@["_timestamp"@] matches Value::Str(s) && s@
                    == #[trigger] timestamp_chars(t)),
            final(self).stamps().len() == old(self).stamps().len() + 1,
            final(self).stamps().drop_last() == old(self).stamps(),
            final(self).stamps().last().in_range(),
            (out@["_timestamp"@] matches Value::Str(s) && s@ == timestamp_chars(
                final(self).stamps().last(),
            )),
    {
        let now = self.clock.read();
        let timestamp = timestamp_text(&now);
        let out = self.on_read_ok(values, timestamp);
        assert(out@["_timestamp"@] matches Value::Str(s) && s@ == timestamp_chars(now));
        out
    }

    /// A reading failed: one more error in a row (the count stops at
    /// `u32::MAX`), and the number of seconds to wait (after reconnecting)
    /// before the next attempt.
    pub fn on_read_error(&mut self) -> (secs: u64)
        ensures
            final(self).errors() == if old(self).errors() < u32::MAX {
                old(self).errors() + 1
            } else {
                old(self).errors()
            },
            secs == backoff_secs(final(self).errors()),
            final(self).stamps() == old(self).stamps(),
    {
        self.consecutive_errors = self.consecutive_errors.saturating_add(1);
        let n = self.consecutive_errors;
        proof {
            vstd::arithmetic::power2::lemma2_to64();
        }
        if n >= 6 {
            proof {
                if n > 6 {
                    vstd::arithmetic::power2::lemma_pow2_strictly_increases(6, n as nat);
                }
            }
            MAX_BACKOFF_SECS
        } else {
            let p: u64 = 1u64 << (n as u64);
            proof {
                vstd::bits::lemma_u64_shl_is_mul(1, n as u64);
            }
            if p < MAX_BACKOFF_SECS {
                p
            } else {
                MAX_BACKOFF_SECS
            }
        }
    }
}

} // verus!
