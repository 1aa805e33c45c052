//! Snowflakes algorithm: time-ordered unique identifiers composed of a
//! millisecond timestamp, worker and datacenter numbers, and a running
//! sequence.

use vstd::prelude::*;

verus! {

/// How an identifier is composed from its parts: timestamp in the high
/// bits, then worker, datacenter, and the sequence in the low bits.
pub open spec fn snowflake_id(timestamp: i64, worker_id: i64, datacenter_id: i64, sequence: i64) -> i64 {
    (timestamp << 22) | (worker_id << 17) | (datacenter_id << 12) | sequence
}

/// The identifier generator's state. The sequence advances on every
/// generated identifier; the timestamp comes from the system clock,
/// shifted by the configured epoch.
pub struct Snowflake {
    pub epoch: i64,
    pub worker_id: i64,
    pub datacenter_id: i64,
    pub sequence: i64,
}

/// Relies on std::time::SystemTime::now and duration_since: milliseconds
/// since the Unix epoch as the system clock reports them; a clock before
/// the epoch yields 0. Nothing is promised of the value: it depends on the
/// machine's clock.
#[verifier::external_body]
fn unix_millis() -> i64 {
    match std::time::SystemTime::now().duration_since(std::time::UNIX_EPOCH) {
        Ok(d) => d.as_millis() as i64,
        Err(_) => 0,
    }
}

/// Composes an identifier from its four parts.
pub fn compose_id(timestamp: i64, worker_id: i64, datacenter_id: i64, sequence: i64) -> (r: i64)
    ensures
        r == snowflake_id(timestamp, worker_id, datacenter_id, sequence),
{
    (timestamp << 22u64) | (worker_id << 17u64) | (datacenter_id << 12u64) | sequence
}

impl Snowflake {
    /// The stock generator: epoch in mid-2019, worker and datacenter 1.
    pub fn default() -> (r: Snowflake)
        ensures
            r.epoch == 1_564_790_400_000i64,
            r.worker_id == 1,
            r.datacenter_id == 1,
            r.sequence == 0,
    {
        Snowflake { epoch: 1_564_790_400_000, worker_id: 1, datacenter_id: 1, sequence: 0 }
    }

    /// A generator with the given epoch, worker and datacenter numbers.
    pub fn new(epoch: i64, worker_id: i64, datacenter_id: i64) -> (r: Snowflake)
        ensures
            r.epoch == epoch,
            r.worker_id == worker_id,
            r.datacenter_id == datacenter_id,
            r.sequence == 0,
    {
        Snowflake { epoch, worker_id, datacenter_id, sequence: 0 }
    }

    /// Changes the epoch the timestamps are measured from.
    pub fn set_epoch(&mut self, epoch: i64)
        ensures
            *final(self) == (Snowflake { epoch, ..*old(self) }),
    {
        self.epoch = epoch;
    }

    /// Changes the worker number.
    pub fn set_worker_id(&mut self, worker_id: i64)
        ensures
            *final(self) == (Snowflake { worker_id, ..*old(self) }),
    {
        self.worker_id = worker_id;
    }

    /// Changes the datacenter number.
    pub fn set_datacenter_id(&mut self, datacenter_id: i64)
        ensures
            *final(self) == (Snowflake { datacenter_id, ..*old(self) }),
    {
        self.datacenter_id = datacenter_id;
    }

    /// Milliseconds since this generator's epoch, by the system clock. The
    /// subtraction wraps, as the composition discards high bits anyway.
    pub fn get_time(&self) -> i64 {
        let now = unix_millis();
        now.wrapping_sub(self.epoch)
    }

    /// Generates the next identifier: the current timestamp composed with
    /// the worker and datacenter numbers and the pre-advance sequence. The
    /// sequence steps by one, wrapping at the end of its range.
    pub fn generate(&mut self) -> (r: i64)
        ensures
            final(self).epoch == old(self).epoch,
            final(self).worker_id == old(self).worker_id,
            final(self).datacenter_id == old(self).datacenter_id,
            old(self).sequence < i64::MAX ==> final(self).sequence == old(self).sequence + 1,
            old(self).sequence == i64::MAX ==> final(self).sequence == i64::MIN,
            exists|t: i64|
                r == #[trigger] snowflake_id(
                    t,
                    old(self).worker_id,
                    old(self).datacenter_id,
                    old(self).sequence,
                ),
    {
        let timestamp = self.get_time();
        let sequence = self.sequence;
        if self.sequence == i64::MAX {
            self.sequence = i64::MIN;
        } else {
            self.sequence = self.sequence + 1;
        }
        let r = compose_id(timestamp, self.worker_id, self.datacenter_id, sequence);
        proof {
            assert(r == snowflake_id(
                timestamp,
                old(self).worker_id,
                old(self).datacenter_id,
                old(self).sequence,
            ));
        }
        r
    }
}

/// Generates a new identifier from the given generator.
pub fn new_snowflake_id(flake: &mut Snowflake) -> (r: i64)
    ensures
        final(flake).epoch == old(flake).epoch,
        final(flake).worker_id == old(flake).worker_id,
        final(flake).datacenter_id == old(flake).datacenter_id,
        old(flake).sequence < i64::MAX ==> final(flake).sequence == old(flake).sequence + 1,
        exists|t: i64|
            r == #[trigger] snowflake_id(
                t,
                old(flake).worker_id,
                old(flake).datacenter_id,
                old(flake).sequence,
            ),
{
    flake.generate()
}

} // verus!
