//! Counting the bytes of a stream.
//!
//! A meter gathers what it counts and hands it over in larger amounts, so that
//! a counter that others read is not touched for every read and write.
use vstd::prelude::*;

verus! {

/// Hand over once this many bytes have gathered: 64 KB.
pub const FLUSH_THRESHOLD: usize = 65536;

/// What one direction of a stream has counted and not handed over.
#[derive(Clone, Copy, Debug, PartialEq, Eq, Structural)]
pub struct Meter {
    buffered: usize,
}

impl View for Meter {
    type V = nat;

    closed spec fn view(&self) -> nat {
        self.buffered as nat
    }
}

/// What has gathered, and what is handed over, once `n` bytes are counted on
/// top of `buffered`.
pub open spec fn after_count(buffered: nat, n: nat) -> (nat, nat) {
    if buffered + n >= FLUSH_THRESHOLD {
        (0, buffered + n)
    } else {
        (buffered + n, 0)
    }
}

impl Meter {
    /// A meter that has counted nothing.
    pub fn new() -> (r: Self)
        ensures
            r@ == 0,
    {
        Meter { buffered: 0 }
    }

    /// Whether `n` more bytes can be counted.
    pub fn can_count(&self, n: usize) -> (r: bool)
        ensures
            r == (self@ + n <= usize::MAX),
    {
        n <= usize::MAX - self.buffered
    }

    /// Counts `n` bytes. Returns how many are handed over.
    pub fn count(&mut self, n: usize) -> (r: usize)
        requires
            old(self)@ + n <= usize::MAX,
        ensures
            (final(self)@, r as nat) == after_count(old(self)@, n as nat),
    {
        self.buffered = self.buffered + n;
        if self.buffered >= FLUSH_THRESHOLD {
            self.flush()
        } else {
            0
        }
    }

    /// Hands over what has gathered.
    pub fn flush(&mut self) -> (r: usize)
        ensures
            final(self)@ == 0,
            r == old(self)@,
    {
        let n = self.buffered;
        self.buffered = 0;
        n
    }
}

// ---------------------------------------------------------------------------
// Laws
// ---------------------------------------------------------------------------

/// What can be done with a meter.
pub enum MeterUse {
    Count(nat),
    Flush,
}

/// What has gathered, and what was handed over in all, after a row of uses of
/// a new meter.
pub open spec fn after_uses(uses: Seq<MeterUse>) -> (nat, nat)
    decreases uses.len(),
{
    if uses.len() == 0 {
        (0, 0)
    } else {
        let (buffered, given) = after_uses(uses.drop_last());
        match uses.last() {
            MeterUse::Count(n) => {
                let (left, out) = after_count(buffered, n);
                (left, given + out)
            },
            MeterUse::Flush => (0, given + buffered),
        }
    }
}

/// The bytes that a row of uses counts.
pub open spec fn bytes_counted(uses: Seq<MeterUse>) -> nat
    decreases uses.len(),
{
    if uses.len() == 0 {
        0
    } else {
        bytes_counted(uses.drop_last()) + match uses.last() {
            MeterUse::Count(n) => n,
            MeterUse::Flush => 0,
        }
    }
}

/// No byte is lost and none is counted twice: what was handed over and what
/// has gathered are together what was counted. What has gathered stays below
/// the threshold, and a flush leaves nothing behind.
pub proof fn every_byte_is_handed_over_once(uses: Seq<MeterUse>)
    ensures
        after_uses(uses).0 + after_uses(uses).1 == bytes_counted(uses),
        after_uses(uses).0 < FLUSH_THRESHOLD,
        uses.len() > 0 && uses.last() is Flush ==> after_uses(uses).1 == bytes_counted(uses),
    decreases uses.len(),
{
    if uses.len() > 0 {
        every_byte_is_handed_over_once(uses.drop_last());
    }
}

/// What has gathered is handed over, all of it, as soon as it comes to 65536
/// bytes, and nothing before that.
pub proof fn handed_over_from_the_threshold_on(buffered: nat, n: nat)
    ensures
        buffered + n >= 65536 ==> after_count(buffered, n) == (0nat, buffered + n),
        buffered + n < 65536 ==> after_count(buffered, n) == (buffered + n, 0nat),
{
}

} // verus!
