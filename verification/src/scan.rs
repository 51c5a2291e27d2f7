//! Scan-benchmark configuration and byte-size report formatting.

use vstd::prelude::*;

use vstd::string::StrSliceExecFns;
use vstd::string::StringExecFns;

verus! {

/// Scan-benchmark run configuration, as resolved before the run starts.
#[derive(Clone, Debug)]
pub struct Config {
    /// Input file path; the format is detected from its extension.
    pub input: String,
    /// Engines to benchmark, comma-separated, or "all".
    pub engines: String,
    /// Output directory for converted files.
    pub output_dir: String,
    /// Number of timed iterations.
    pub iterations: usize,
    /// Number of warmup iterations.
    pub warmup_iterations: usize,
    /// Skip warmup phase.
    pub skip_warmup: bool,
    /// Skip cache drop between warmup and timed phase.
    pub skip_cache_drop: bool,
}

/// What a scan-benchmark run does next.
#[derive(Clone, Copy, Debug, PartialEq, Eq, Structural)]
pub enum ScanStep {
    /// Run one warmup scan; its latency is discarded.
    Warmup,
    /// Evict the dataset from the page cache, once, between warmup
    /// and the timed phase.
    DropCache,
    /// Run one timed scan; its latency joins the sample.
    Timed,
    /// Every iteration has run.
    Done,
}

/// State machine of one engine's scan-benchmark run: a fixed number of
/// warmup scans, one cache eviction, then a fixed number of timed
/// scans, each scan's row count checked against the expected count.
/// The surrounding program performs the scans and cache eviction and
/// reports each to this state machine.
pub struct ScanRun {
    expected_rows: usize,
    warmup_remaining: usize,
    cache_drop_pending: bool,
    timed_remaining: usize,
    timed_total: usize,
    latencies: Vec<u64>,
}

impl ScanRun {
    /// The row count every scan must report.
    pub closed spec fn expected_rows(self) -> nat {
        self.expected_rows as nat
    }

    /// Warmup scans still to run.
    pub closed spec fn warmup_remaining(self) -> nat {
        self.warmup_remaining as nat
    }

    /// Whether the cache eviction is still to happen.
    pub closed spec fn cache_drop_pending(self) -> bool {
        self.cache_drop_pending
    }

    /// Timed scans still to run.
    pub closed spec fn timed_remaining(self) -> nat {
        self.timed_remaining as nat
    }

    /// Number of timed scans of the whole run.
    pub closed spec fn timed_total(self) -> nat {
        self.timed_total as nat
    }

    /// The timed latencies recorded so far, in nanoseconds.
    pub closed spec fn sample(self) -> Seq<u64> {
        self.latencies@
    }

    /// Every timed scan so far is in the sample.
    pub closed spec fn wf(self) -> bool {
        &&& self.timed_remaining <= self.timed_total
        &&& self.latencies@.len() + self.timed_remaining == self.timed_total
    }

    /// What the run does next: warmup scans first, then the cache
    /// eviction, then the timed scans.
    pub open spec fn spec_next_step(self) -> ScanStep {
        if self.warmup_remaining() > 0 {
            ScanStep::Warmup
        } else if self.cache_drop_pending() {
            ScanStep::DropCache
        } else if self.timed_remaining() > 0 {
            ScanStep::Timed
        } else {
            ScanStep::Done
        }
    }

    /// Builds the run: `warmup_iterations` warmup scans unless warmup
    /// is skipped, one cache eviction unless skipped, and `iterations`
    /// timed scans.
    pub fn new(
        expected_rows: usize,
        iterations: usize,
        warmup_iterations: usize,
        skip_warmup: bool,
        skip_cache_drop: bool,
    ) -> (r: ScanRun)
        ensures
            r.wf(),
            r.expected_rows() == expected_rows,
            r.warmup_remaining() == if skip_warmup {
                0nat
            } else {
                warmup_iterations as nat
            },
            r.cache_drop_pending() == !skip_cache_drop,
            r.timed_remaining() == iterations,
            r.timed_total() == iterations,
            r.sample() =~= Seq::<u64>::empty(),
    {
        ScanRun {
            expected_rows,
            warmup_remaining: if skip_warmup {
                0
            } else {
                warmup_iterations
            },
            cache_drop_pending: !skip_cache_drop,
            timed_remaining: iterations,
            timed_total: iterations,
            latencies: Vec::new(),
        }
    }

    /// What the run does next.
    pub fn next_step(&self) -> (s: ScanStep)
        ensures
            s == self.spec_next_step(),
    {
        if self.warmup_remaining > 0 {
            ScanStep::Warmup
        } else if self.cache_drop_pending {
            ScanStep::DropCache
        } else if self.timed_remaining > 0 {
            ScanStep::Timed
        } else {
            ScanStep::Done
        }
    }

    /// Reports one finished warmup scan with the row count it
    /// returned. Accepted (and counted) exactly when the count matches
    /// the expected one; the run is unchanged on a mismatch, which the
    /// caller treats as fatal.
    pub fn record_warmup(&mut self, rows_scanned: usize) -> (ok: bool)
        requires
            old(self).wf(),
            old(self).spec_next_step() is Warmup,
        ensures
            final(self).wf(),
            ok == (rows_scanned == old(self).expected_rows()),
            final(self).expected_rows() == old(self).expected_rows(),
            final(self).cache_drop_pending() == old(self).cache_drop_pending(),
            final(self).timed_remaining() == old(self).timed_remaining(),
            final(self).timed_total() == old(self).timed_total(),
            final(self).sample() == old(self).sample(),
            final(self).warmup_remaining() == if ok {
                old(self).warmup_remaining() - 1
            } else {
                old(self).warmup_remaining() as int
            },
    {
        if rows_scanned != self.expected_rows {
            return false;
        }
        self.warmup_remaining = self.warmup_remaining - 1;
        true
    }

    /// Reports that the dataset was evicted from the page cache.
    pub fn record_cache_dropped(&mut self)
        requires
            old(self).wf(),
            old(self).spec_next_step() is DropCache,
        ensures
            final(self).wf(),
            final(self).expected_rows() == old(self).expected_rows(),
            final(self).warmup_remaining() == old(self).warmup_remaining(),
            !final(self).cache_drop_pending(),
            final(self).timed_remaining() == old(self).timed_remaining(),
            final(self).timed_total() == old(self).timed_total(),
            final(self).sample() == old(self).sample(),
    {
        self.cache_drop_pending = false;
    }

    /// Reports one finished timed scan with its row count and latency
    /// in nanoseconds. Accepted (and sampled) exactly when the row
    /// count matches the expected one; the run is unchanged on a
    /// mismatch, which the caller treats as fatal.
    pub fn record_timed(&mut self, rows_scanned: usize, latency_nanos: u64) -> (ok: bool)
        requires
            old(self).wf(),
            old(self).spec_next_step() is Timed,
        ensures
            final(self).wf(),
            ok == (rows_scanned == old(self).expected_rows()),
            final(self).expected_rows() == old(self).expected_rows(),
            final(self).warmup_remaining() == old(self).warmup_remaining(),
            final(self).cache_drop_pending() == old(self).cache_drop_pending(),
            final(self).timed_total() == old(self).timed_total(),
            final(self).timed_remaining() == if ok {
                old(self).timed_remaining() - 1
            } else {
                old(self).timed_remaining() as int
            },
            final(self).sample() == if ok {
                old(self).sample().push(latency_nanos)
            } else {
                old(self).sample()
            },
    {
        if rows_scanned != self.expected_rows {
            return false;
        }
        self.timed_remaining = self.timed_remaining - 1;
        self.latencies.push(latency_nanos);
        true
    }

    /// Hands out the timed latencies once the run is done: exactly one
    /// entry per timed iteration.
    pub fn into_latencies(self) -> (v: Vec<u64>)
        requires
            self.wf(),
            self.spec_next_step() is Done,
        ensures
            v@ == self.sample(),
            v@.len() == self.timed_total(),
    {
        let ScanRun { latencies, .. } = self;
        latencies
    }
}

pub const KB: u64 = 1024;

pub const MB: u64 = KB * 1024;

pub const GB: u64 = MB * 1024;

/// The character of one decimal digit.
pub open spec fn digit_char(d: int) -> char {
    if d == 0 {
        '0'
    } else if d == 1 {
        '1'
    } else if d == 2 {
        '2'
    } else if d == 3 {
        '3'
    } else if d == 4 {
        '4'
    } else if d == 5 {
        '5'
    } else if d == 6 {
        '6'
    } else if d == 7 {
        '7'
    } else if d == 8 {
        '8'
    } else {
        '9'
    }
}

/// The decimal digits of a number, most significant first.
pub open spec fn decimal_of(n: nat) -> Seq<char>
    decreases n,
{
    if n < 10 {
        seq![digit_char(n as int)]
    } else {
        decimal_of(n / 10).push(digit_char((n % 10) as int))
    }
}

/// `num / den` rounded to the nearest integer, ties to even.
pub open spec fn round_half_even(num: nat, den: nat) -> nat
    recommends
        den >= 1,
{
    let q = num / den;
    let r = num % den;
    if 2 * r > den {
        q + 1
    } else if 2 * r == den && q % 2 == 1 {
        q + 1
    } else {
        q
    }
}

/// A byte count scaled by a unit, in hundredths of the unit, rounded
/// to nearest (ties to even).
pub open spec fn spec_scaled(bytes: nat, base: nat) -> nat {
    round_half_even(bytes * 100, base)
}

/// A count of hundredths rendered with two decimal places.
pub open spec fn two_decimals(q: nat) -> Seq<char> {
    decimal_of(q / 100) + seq!['.', digit_char(((q / 10) % 10) as int), digit_char((q % 10) as int)]
}

/// A byte count rendered with its largest fitting unit, two decimal
/// places for scaled units.
pub open spec fn spec_format_bytes(bytes: nat) -> Seq<char> {
    if bytes >= GB {
        two_decimals(spec_scaled(bytes, GB as nat)) + " GB"@
    } else if bytes >= MB {
        two_decimals(spec_scaled(bytes, MB as nat)) + " MB"@
    } else if bytes >= KB {
        two_decimals(spec_scaled(bytes, KB as nat)) + " KB"@
    } else {
        decimal_of(bytes) + " B"@
    }
}

/// One decimal digit as a string.
fn digit_str(d: u64) -> (r: &'static str)
    requires
        d < 10,
    ensures
        r@ =~= seq![digit_char(d as int)],
{
    proof {
        reveal_strlit("0");
        reveal_strlit("1");
        reveal_strlit("2");
        reveal_strlit("3");
        reveal_strlit("4");
        reveal_strlit("5");
        reveal_strlit("6");
        reveal_strlit("7");
        reveal_strlit("8");
        reveal_strlit("9");
    }
    if d == 0 {
        "0"
    } else if d == 1 {
        "1"
    } else if d == 2 {
        "2"
    } else if d == 3 {
        "3"
    } else if d == 4 {
        "4"
    } else if d == 5 {
        "5"
    } else if d == 6 {
        "6"
    } else if d == 7 {
        "7"
    } else if d == 8 {
        "8"
    } else {
        "9"
    }
}

/// A number rendered in decimal.
pub fn u64_to_decimal(n: u64) -> (s: String)
    ensures
        s@ =~= decimal_of(n as nat),
    decreases n,
{
    if n < 10 {
        let s = digit_str(n).to_owned();
        s
    } else {
        let mut s = u64_to_decimal(n / 10);
        let d = digit_str(n % 10);
        s.append(d);
        proof {
            assert(decimal_of((n / 10) as nat) + seq![digit_char((n % 10) as int)] =~= decimal_of(
                n as nat,
            ));
        }
        s
    }
}

/// A byte count scaled by a unit, in hundredths of the unit, rounded
/// to nearest (ties to even).
fn scale(bytes: u64, base: u64) -> (q: u64)
    requires
        1024 <= base,
    ensures
        q == spec_scaled(bytes as nat, base as nat),
{
    let num: u128 = (bytes as u128) * 100;
    let den: u128 = base as u128;
    let q0: u128 = num / den;
    let r0: u128 = num % den;
    proof {
        assert(q0 * 1024 <= q0 * den <= num) by (nonlinear_arith)
            requires
                1024 <= den,
                q0 == num / den,
                num >= 0,
                den >= 1,
        ;
        assert(num <= (u64::MAX as u128) * 100);
        assert(q0 < u64::MAX as u128) by (nonlinear_arith)
            requires
                q0 * 1024 <= num,
                num <= (u64::MAX as u128) * 100,
        ;
    }
    let rounded: u128 = if 2 * r0 > den {
        q0 + 1
    } else if 2 * r0 == den && q0 % 2 == 1 {
        q0 + 1
    } else {
        q0
    };
    rounded as u64
}

/// A count of hundredths rendered with two decimal places.
fn two_decimals_string(q: u64) -> (s: String)
    ensures
        s@ =~= two_decimals(q as nat),
{
    let mut s = u64_to_decimal(q / 100);
    proof {
        reveal_strlit(".");
    }
    s.append(".");
    s.append(digit_str((q / 10) % 10));
    s.append(digit_str(q % 10));
    s
}

/// Renders a byte count human-readably: the largest unit out of GB,
/// MB, KB that the count reaches, with two decimal places (the exact
/// quotient rounded to nearest, ties to even), or the plain count in
/// bytes below 1 KB.
pub fn format_bytes(bytes: u64) -> (r: String)
    ensures
        r@ =~= spec_format_bytes(bytes as nat),
{
    proof {
        reveal_strlit(" GB");
        reveal_strlit(" MB");
        reveal_strlit(" KB");
        reveal_strlit(" B");
    }
    if bytes >= GB {
        let mut s = two_decimals_string(scale(bytes, GB));
        s.append(" GB");
        s
    } else if bytes >= MB {
        let mut s = two_decimals_string(scale(bytes, MB));
        s.append(" MB");
        s
    } else if bytes >= KB {
        let mut s = two_decimals_string(scale(bytes, KB));
        s.append(" KB");
        s
    } else {
        let mut s = u64_to_decimal(bytes);
        s.append(" B");
        s
    }
}

} // verus!
