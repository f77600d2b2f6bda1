//! Wall-clock instants with millisecond precision, used to order an asset's
//! recorded load time against the modification time of its source file.
use vstd::prelude::*;

verus! {

/// An instant, split into whole seconds since an arbitrary epoch and the
/// millisecond part. Well-formed values keep the millisecond part below 1000,
/// so comparing field-lexicographically agrees with comparing total
/// milliseconds.
#[derive(Debug, Clone, Copy, PartialEq, Eq, Structural)]
pub struct Timestamp {
    pub seconds: u32,
    pub millis: u32,
}

impl Timestamp {
    /// A well-formed timestamp keeps its millisecond part below one second.
    pub open spec fn wf(self) -> bool {
        self.millis < 1000
    }

    /// The instant as total milliseconds since the epoch.
    pub open spec fn as_millis(self) -> int {
        self.seconds * 1000 + self.millis
    }

    /// The zero instant: the epoch itself.
    pub fn zero() -> (t: Timestamp)
        ensures
            t.wf(),
            t.as_millis() == 0,
    {
        Timestamp { seconds: 0, millis: 0 }
    }

    /// The current wall-clock time.
    ///
    /// Relies on `std::time::SystemTime::now` and
    /// `Duration::subsec_millis`, whose result is documented to be below
    /// 1000. A clock set before the epoch yields the zero instant instead of
    /// failing.
    #[verifier::external_body]
    pub fn now() -> (t: Timestamp)
        ensures
            t.wf(),
    {
        let dur = std::time::SystemTime::now()
            .duration_since(std::time::UNIX_EPOCH)
            .unwrap_or(std::time::Duration::ZERO);
        Timestamp { seconds: dur.as_secs() as u32, millis: dur.subsec_millis() }
    }

    /// Strict order on instants by total milliseconds.
    pub fn lt(self, other: Timestamp) -> (r: bool)
        requires
            self.wf(),
            other.wf(),
        ensures
            r == (self.as_millis() < other.as_millis()),
    {
        proof {
            lemma_millis_order(self, other);
        }
        self.seconds < other.seconds || (self.seconds == other.seconds && self.millis
            < other.millis)
    }

    /// Milliseconds from `self` to `later`, zero when `later` is not after
    /// `self`.
    pub fn millis_until(self, later: Timestamp) -> (d: u64)
        requires
            self.wf(),
            later.wf(),
        ensures
            d == if self.as_millis() < later.as_millis() {
                later.as_millis() - self.as_millis()
            } else {
                0
            },
    {
        proof {
            lemma_millis_order(self, later);
        }
        let a: u64 = (self.seconds as u64) * 1000 + (self.millis as u64);
        let b: u64 = (later.seconds as u64) * 1000 + (later.millis as u64);
        if a < b {
            b - a
        } else {
            0
        }
    }
}

/// Field-lexicographic comparison of well-formed timestamps agrees with
/// comparison of their total milliseconds.
proof fn lemma_millis_order(a: Timestamp, b: Timestamp)
    requires
        a.wf(),
        b.wf(),
    ensures
        (a.as_millis() < b.as_millis()) == (a.seconds < b.seconds || (a.seconds == b.seconds
            && a.millis < b.millis)),
{
    if a.seconds < b.seconds {
        assert(a.seconds * 1000 + 1000 <= b.seconds * 1000) by (nonlinear_arith)
            requires
                a.seconds < b.seconds,
        ;
    } else if b.seconds < a.seconds {
        assert(b.seconds * 1000 + 1000 <= a.seconds * 1000) by (nonlinear_arith)
            requires
                b.seconds < a.seconds,
        ;
    }
}

} // verus!
