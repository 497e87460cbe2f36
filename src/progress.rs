//! Progress reports: the status of a running operation and the one-line
//! summary printed when it ends.

use vstd::prelude::*;

use crate::context::push_all;
use crate::decimal::{decimal, decimal_padded, push_decimal, push_decimal_padded};

verus! {

/// How far an operation has come: a count of items, or a step out of a
/// known number of steps.
#[derive(Clone, Copy, Debug, PartialEq, Eq, Structural)]
pub enum Status {
    Count(usize),
    Step(usize, usize),
}

impl Status {
    /// The number of items or steps done.
    pub fn count(&self) -> (r: Option<usize>)
        ensures
            r == Some(match self {
                Status::Count(v) => *v,
                Status::Step(i, _) => *i,
            }),
    {
        match self {
            Status::Count(v) => Some(*v),
            Status::Step(i, _) => Some(*i),
        }
    }
}

/// A progress sink that reports nothing.
pub struct NullSink();

impl NullSink {
    pub fn update(&mut self, status: Status, elapsed_centis: u64) {
    }

    pub fn finish(&mut self) {
    }
}

/// A progress sink that keeps the last report and prints one summary line
/// at the end.
pub struct SummarySink {
    last_info: Option<(Status, u64)>,
}

/// `... processed N items in S.CC seconds` and a line feed, for `N` items
/// and an elapsed time of `centis` hundredths of a second.
pub open spec fn summary_text(n: nat, centis: nat) -> Seq<u8> {
    "... processed "@.map_values(|c: char| c as u8) + decimal(n)
        + " items in "@.map_values(|c: char| c as u8) + decimal(centis / 100) + seq![0x2eu8]
        + decimal_padded(centis % 100, 2) + " seconds\n"@.map_values(|c: char| c as u8)
}

fn push_ascii(out: &mut Vec<u8>, s: &str)
    requires
        vstd::string::is_ascii(s),
    ensures
        final(out)@ == old(out)@ + s@.map_values(|c: char| c as u8),
{
    proof {
        vstd::string::is_ascii_spec_bytes(s);
    }
    push_all(out, s.as_bytes());
    assert(final(out)@ =~= old(out)@ + s@.map_values(|c: char| c as u8));
}

impl SummarySink {
    pub closed spec fn last(&self) -> Option<(Status, u64)> {
        self.last_info
    }

    pub fn new() -> (r: SummarySink)
        ensures
            r.last().is_none(),
    {
        SummarySink { last_info: None }
    }

    /// Keeps the report, replacing the one before.
    pub fn update(&mut self, status: Status, elapsed_centis: u64)
        ensures
            final(self).last() == Some((status, elapsed_centis)),
    {
        self.last_info = Some((status, elapsed_centis));
    }

    /// The summary line of the last report, if there was one; the report is
    /// used up.
    pub fn finish(&mut self) -> (r: Option<Vec<u8>>)
        ensures
            final(self).last().is_none(),
            match old(self).last() {
                Some((status, centis)) => r.is_some() && r.unwrap()@ == summary_text(
                    match status { Status::Count(v) => v as nat, Status::Step(i, _) => i as nat }, centis as nat),
                None => r.is_none(),
            },
    {
        match self.last_info {
            Some((status, centis)) => {
                self.last_info = None;
                let n = match status.count() {
                    Some(c) => c,
                    None => 0,
                };
                let mut out: Vec<u8> = Vec::new();
                proof { reveal_strlit("... processed "); reveal_strlit(" items in "); reveal_strlit(" seconds\n"); }
                push_ascii(&mut out, "... processed ");
                push_decimal(&mut out, n as u64);
                push_ascii(&mut out, " items in ");
                push_decimal(&mut out, centis / 100);
                out.push(0x2eu8);
                push_decimal_padded(&mut out, centis % 100, 2);
                push_ascii(&mut out, " seconds\n");
                assert(out@ =~= summary_text(n as nat, centis as nat));
                Some(out)
            },
            None => None,
        }
    }
}

/// One progress report: the status, the time since the start, and the
/// items done and time passed since the report before (the rate is the
/// one over the other).
#[derive(Clone, Copy, Debug, PartialEq, Eq, Structural)]
pub struct Report {
    pub status: Status,
    pub elapsed_nanos: u64,
    pub items: usize,
    pub window_nanos: u64,
}

/// Tracks progress through a known number of steps; times are nanoseconds
/// of a monotonic clock.
pub struct StepMeter {
    t0: u64,
    tprev: u64,
    iprev: usize,
    n: usize,
}

/// Tracks progress through an unknown number of items.
pub struct CountMeter {
    t0: u64,
    tprev: u64,
    iprev: usize,
}

impl StepMeter {
    pub closed spec fn start(&self) -> u64 {
        self.t0
    }

    pub closed spec fn last_time(&self) -> u64 {
        self.tprev
    }

    pub closed spec fn last_step(&self) -> usize {
        self.iprev
    }

    pub closed spec fn total(&self) -> usize {
        self.n
    }

    pub fn new(n: usize, tnow: u64) -> (r: StepMeter)
        ensures
            r.start() == tnow && r.last_time() == tnow && r.last_step() == 0 && r.total() == n,
    {
        StepMeter { t0: tnow, tprev: tnow, iprev: 0, n }
    }

    /// The report for step `inow` at time `tnow`; it becomes the last one.
    pub fn update(&mut self, inow: usize, tnow: u64) -> (r: Report)
        requires
            old(self).last_time() <= tnow,
            old(self).start() <= old(self).last_time(),
            old(self).last_step() <= inow,
        ensures
            r == (Report {
                status: Status::Step(inow, old(self).total()),
                elapsed_nanos: (tnow - old(self).start()) as u64,
                items: (inow - old(self).last_step()) as usize,
                window_nanos: (tnow - old(self).last_time()) as u64,
            }),
            final(self).start() == old(self).start(),
            final(self).total() == old(self).total(),
            final(self).last_time() == tnow,
            final(self).last_step() == inow,
    {
        let r = Report {
            status: Status::Step(inow, self.n),
            elapsed_nanos: tnow - self.t0,
            items: inow - self.iprev,
            window_nanos: tnow - self.tprev,
        };
        self.iprev = inow;
        self.tprev = tnow;
        r
    }

    /// The final report at time `tnow`: all steps done, over the whole run.
    pub fn finish(&self, tnow: u64) -> (r: Report)
        requires
            self.start() <= tnow,
        ensures
            r == (Report {
                status: Status::Step(self.total(), self.total()),
                elapsed_nanos: (tnow - self.start()) as u64,
                items: self.total(),
                window_nanos: (tnow - self.start()) as u64,
            }),
    {
        Report { status: Status::Step(self.n, self.n), elapsed_nanos: tnow - self.t0, items: self.n, window_nanos: tnow - self.t0 }
    }
}

impl CountMeter {
    pub closed spec fn start(&self) -> u64 {
        self.t0
    }

    pub closed spec fn last_time(&self) -> u64 {
        self.tprev
    }

    pub closed spec fn last_count(&self) -> usize {
        self.iprev
    }

    pub fn new(tnow: u64) -> (r: CountMeter)
        ensures
            r.start() == tnow && r.last_time() == tnow && r.last_count() == 0,
    {
        CountMeter { t0: tnow, tprev: tnow, iprev: 0 }
    }

    /// The report for `inow` items at time `tnow`; it becomes the last one.
    pub fn update(&mut self, inow: usize, tnow: u64) -> (r: Report)
        requires
            old(self).last_time() <= tnow,
            old(self).start() <= old(self).last_time(),
            old(self).last_count() <= inow,
        ensures
            r == (Report {
                status: Status::Count(inow),
                elapsed_nanos: (tnow - old(self).start()) as u64,
                items: (inow - old(self).last_count()) as usize,
                window_nanos: (tnow - old(self).last_time()) as u64,
            }),
            final(self).start() == old(self).start(),
            final(self).last_time() == tnow,
            final(self).last_count() == inow,
    {
        let r = Report {
            status: Status::Count(inow),
            elapsed_nanos: tnow - self.t0,
            items: inow - self.iprev,
            window_nanos: tnow - self.tprev,
        };
        self.iprev = inow;
        self.tprev = tnow;
        r
    }

    /// The final report for `total` items at time `tnow`, over the whole run.
    pub fn finish(&self, total: usize, tnow: u64) -> (r: Report)
        requires
            self.start() <= tnow,
        ensures
            r == (Report {
                status: Status::Count(total),
                elapsed_nanos: (tnow - self.start()) as u64,
                items: total,
                window_nanos: (tnow - self.start()) as u64,
            }),
    {
        Report { status: Status::Count(total), elapsed_nanos: tnow - self.t0, items: total, window_nanos: tnow - self.t0 }
    }
}

} // verus!
