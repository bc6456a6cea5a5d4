//! Latency samples per response class, and the histograms they end up in.
use vstd::prelude::*;
use crate::packet::ResponseType;
use crate::SIG_FIG;

verus! {

/// A histogram of latencies in microseconds, filled and counted through
/// the functions of this module alone.
#[verifier::external_body]
pub struct LatencyHistogram {
    inner: hdrhistogram::Histogram<u64>,
}

/// The number of samples that a histogram has taken in, as the histogram
/// itself counts them: the count stops at `u64::MAX`.
pub uninterp spec fn total_count(hist: LatencyHistogram) -> u64;

/// The bounds that a histogram was made with: the lowest value that it
/// tells from zero, the highest value that it tracks, and the number of
/// significant digits that it keeps.
pub uninterp spec fn made_with(hist: LatencyHistogram) -> (u64, u64, u8);

/// A count that stops at `u64::MAX`.
pub open spec fn capped(n: int) -> u64 {
    if n <= u64::MAX {
        n as u64
    } else {
        u64::MAX
    }
}

/// `Histogram::new_with_bounds`: a histogram with the given bounds and
/// nothing recorded. The crate refuses bounds that it cannot serve. It
/// serves every upper bound from two on when the lowest value is one and
/// the digits are five at most: the table then has at most 65 times 2^17
/// counters, which every `usize` of 32 bits or more can index.
#[verifier::external_body]
fn new_histogram(low: u64, high: u64, sigfig: u8) -> (made: Option<LatencyHistogram>)
    ensures
        low == 1 && high >= 2 && sigfig <= 5 ==> made is Some,
        made matches Some(hist) ==> total_count(hist) == 0,
        made matches Some(hist) ==> made_with(hist) == (low, high, sigfig),
{
    match hdrhistogram::Histogram::<u64>::new_with_bounds(low, high, sigfig) {
        Ok(inner) => Some(LatencyHistogram { inner }),
        Err(_) => None,
    }
}

/// `Histogram::record`, on a histogram that does not resize itself: a
/// value up to the highest tracked one is always taken in, and the count is
/// then one more, unless it stands at `u64::MAX`. On refusal the histogram
/// is as it was. The bounds stay.
#[verifier::external_body]
fn record_sample(hist: &mut LatencyHistogram, value: u64) -> (recorded: bool)
    ensures
        made_with(*final(hist)) == made_with(*old(hist)),
        value <= made_with(*old(hist)).1 ==> recorded,
        recorded ==> total_count(*final(hist)) == capped(total_count(*old(hist)) + 1),
        !recorded ==> total_count(*final(hist)) == total_count(*old(hist)),
{
    hist.inner.record(value).is_ok()
}

/// `Histogram::len`: the number of samples that the histogram counts.
#[verifier::external_body]
fn sample_count(hist: &LatencyHistogram) -> (n: u64)
    ensures
        n == total_count(*hist),
{
    hist.inner.len()
}

/// The smallest latency, in microseconds, that the histograms tell from
/// zero.
pub const LOWEST_LATENCY: u64 = 1;

/// The histogram sample for a latency: its low 64 bits.
pub open spec fn sample_of(latency: u128) -> u64 {
    (latency % 0x1_0000_0000_0000_0000) as u64
}

/// The histogram sample for a latency.
pub fn sample_of_latency(latency: u128) -> (value: u64)
    ensures
        value == sample_of(latency),
{
    (latency % 0x1_0000_0000_0000_0000u128) as u64
}

/// Whether every latency of `latencies` gives a sample up to `high`.
pub open spec fn all_within(latencies: Seq<u128>, high: u64) -> bool {
    forall|i: int| 0 <= i < latencies.len() ==> sample_of(#[trigger] latencies[i]) <= high
}

/// Lists of latencies by response class, as the contracts see them.
pub struct LatencyLists {
    pub be_read: Seq<u128>,
    pub lc_read: Seq<u128>,
    pub lc_write: Seq<u128>,
}

impl LatencyLists {
    /// The latencies of one class.
    pub open spec fn of(self, kind: ResponseType) -> Seq<u128> {
        match kind {
            ResponseType::BeRead => self.be_read,
            ResponseType::LcRead => self.lc_read,
            ResponseType::LcWrite => self.lc_write,
        }
    }

    /// No latencies.
    pub open spec fn empty() -> LatencyLists {
        LatencyLists { be_read: Seq::empty(), lc_read: Seq::empty(), lc_write: Seq::empty() }
    }

    /// The lists with `latency` added at the end of its class.
    pub open spec fn recorded(self, kind: ResponseType, latency: u128) -> LatencyLists {
        match kind {
            ResponseType::BeRead => LatencyLists { be_read: self.be_read.push(latency), ..self },
            ResponseType::LcRead => LatencyLists { lc_read: self.lc_read.push(latency), ..self },
            ResponseType::LcWrite => LatencyLists {
                lc_write: self.lc_write.push(latency),
                ..self
            },
        }
    }

    /// The number of latencies in the three lists together.
    pub open spec fn total(self) -> nat {
        self.be_read.len() + self.lc_read.len() + self.lc_write.len()
    }

    /// The lists with those of `other` appended, class by class.
    pub open spec fn extended(self, other: LatencyLists) -> LatencyLists {
        LatencyLists {
            be_read: self.be_read + other.be_read,
            lc_read: self.lc_read + other.lc_read,
            lc_write: self.lc_write + other.lc_write,
        }
    }
}

/// The latencies measured so far, by response class, in order of arrival.
#[derive(Debug)]
pub struct Latencies {
    pub be_read: Vec<u128>,
    pub lc_read: Vec<u128>,
    pub lc_write: Vec<u128>,
}

impl View for Latencies {
    type V = LatencyLists;

    open spec fn view(&self) -> LatencyLists {
        LatencyLists {
            be_read: self.be_read@,
            lc_read: self.lc_read@,
            lc_write: self.lc_write@,
        }
    }
}

impl Latencies {
    /// No latencies yet.
    pub fn new() -> (made: Latencies)
        ensures
            made@ == LatencyLists::empty(),
    {
        Latencies { be_read: Vec::new(), lc_read: Vec::new(), lc_write: Vec::new() }
    }

    /// The latencies of one class.
    pub fn get(&self, kind: ResponseType) -> (list: &Vec<u128>)
        ensures
            list@ == self@.of(kind),
    {
        match kind {
            ResponseType::BeRead => &self.be_read,
            ResponseType::LcRead => &self.lc_read,
            ResponseType::LcWrite => &self.lc_write,
        }
    }

    /// Adds one latency at the end of its class.
    pub fn record(&mut self, kind: ResponseType, latency: u128)
        ensures
            final(self)@ == old(self)@.recorded(kind, latency),
    {
        match kind {
            ResponseType::BeRead => self.be_read.push(latency),
            ResponseType::LcRead => self.lc_read.push(latency),
            ResponseType::LcWrite => self.lc_write.push(latency),
        }
    }

    /// Appends the latencies of `other`, class by class.
    pub fn extend_from(&mut self, other: &Latencies)
        ensures
            final(self)@ == old(self)@.extended(other@),
    {
        append_latencies(&mut self.be_read, &other.be_read);
        append_latencies(&mut self.lc_read, &other.lc_read);
        append_latencies(&mut self.lc_write, &other.lc_write);
    }
}

/// Appends `more` to `list`.
fn append_latencies(list: &mut Vec<u128>, more: &Vec<u128>)
    ensures
        final(list)@ == old(list)@ + more@,
{
    list.extend_from_slice(more.as_slice());
    assert(list@ =~= old(list)@ + more@);
}

/// Records the sample of every latency of `latencies` in `hist`, and
/// returns how many the histogram refused. It refuses none that lies
/// within its bounds.
pub fn record_latencies(hist: &mut LatencyHistogram, latencies: &Vec<u128>) -> (refused: usize)
    ensures
        made_with(*final(hist)) == made_with(*old(hist)),
        refused <= latencies@.len(),
        total_count(*final(hist)) == capped(
            total_count(*old(hist)) + latencies@.len() - refused,
        ),
        all_within(latencies@, made_with(*old(hist)).1) ==> refused == 0,
{
    let mut refused: usize = 0;
    let mut i: usize = 0;
    while i < latencies.len()
        invariant
            i <= latencies@.len(),
            refused <= i,
            made_with(*hist) == made_with(*old(hist)),
            total_count(*hist) == capped(total_count(*old(hist)) + i - refused),
            all_within(latencies@, made_with(*old(hist)).1) ==> refused == 0,
        decreases latencies@.len() - i,
    {
        let value: u64 = sample_of_latency(latencies[i]);
        if !record_sample(hist, value) {
            refused = refused + 1;
        }
        i = i + 1;
    }
    refused
}

/// One histogram for each response class.
pub struct LatencyHistograms {
    pub be_read: LatencyHistogram,
    pub lc_read: LatencyHistogram,
    pub lc_write: LatencyHistogram,
}

impl LatencyHistograms {
    /// The histogram of one class.
    pub open spec fn histogram(&self, kind: ResponseType) -> LatencyHistogram {
        match kind {
            ResponseType::BeRead => self.be_read,
            ResponseType::LcRead => self.lc_read,
            ResponseType::LcWrite => self.lc_write,
        }
    }

    /// The number of samples of one class.
    pub open spec fn count(&self, kind: ResponseType) -> u64 {
        total_count(self.histogram(kind))
    }

    /// The bounds of the histogram of one class.
    pub open spec fn bounds(&self, kind: ResponseType) -> (u64, u64, u8) {
        made_with(self.histogram(kind))
    }

    /// Whether the histogram of each class takes in every 64-bit sample.
    pub open spec fn covers_all(&self) -> bool {
        forall|kind: ResponseType| (#[trigger] self.bounds(kind)).1 == u64::MAX
    }

    /// Three empty histograms over the whole range of latencies, from
    /// `LOWEST_LATENCY` to `u64::MAX`, with `SIG_FIG` significant digits.
    pub fn new() -> (made: LatencyHistograms)
        ensures
            forall|kind: ResponseType| made.count(kind) == 0,
            forall|kind: ResponseType|
                made.bounds(kind) == (LOWEST_LATENCY, u64::MAX, SIG_FIG),
    {
        let be_read: LatencyHistogram = new_histogram(LOWEST_LATENCY, u64::MAX, SIG_FIG).unwrap();
        let lc_read: LatencyHistogram = new_histogram(LOWEST_LATENCY, u64::MAX, SIG_FIG).unwrap();
        let lc_write: LatencyHistogram = new_histogram(LOWEST_LATENCY, u64::MAX, SIG_FIG).unwrap();
        LatencyHistograms { be_read, lc_read, lc_write }
    }

    /// The histogram of one class.
    pub fn get(&self, kind: ResponseType) -> (hist: &LatencyHistogram)
        ensures
            *hist == self.histogram(kind),
    {
        match kind {
            ResponseType::BeRead => &self.be_read,
            ResponseType::LcRead => &self.lc_read,
            ResponseType::LcWrite => &self.lc_write,
        }
    }

    /// The number of samples of one class.
    pub fn len(&self, kind: ResponseType) -> (n: u64)
        ensures
            n == self.count(kind),
    {
        sample_count(self.get(kind))
    }

    /// Records the latencies of one thread, class by class, and returns how
    /// many samples were refused: each class counts the latencies of its
    /// list less those that its histogram refused. Histograms that cover
    /// every sample refuse none.
    pub fn absorb(&mut self, latencies: &Latencies) -> (refused: u128)
        ensures
            forall|kind: ResponseType| final(self).bounds(kind) == old(self).bounds(kind),
            exists|be_read: int, lc_read: int, lc_write: int|
                #![trigger took_in(old(self).be_read, final(self).be_read, latencies@.be_read.len(), be_read), took_in(old(self).lc_read, final(self).lc_read, latencies@.lc_read.len(), lc_read), took_in(old(self).lc_write, final(self).lc_write, latencies@.lc_write.len(), lc_write)]
                be_read + lc_read + lc_write == refused && took_in(
                    old(self).be_read,
                    final(self).be_read,
                    latencies@.be_read.len(),
                    be_read,
                ) && took_in(
                    old(self).lc_read,
                    final(self).lc_read,
                    latencies@.lc_read.len(),
                    lc_read,
                ) && took_in(
                    old(self).lc_write,
                    final(self).lc_write,
                    latencies@.lc_write.len(),
                    lc_write,
                ),
            old(self).covers_all() ==> refused == 0,
            refused == 0 ==> forall|kind: ResponseType|
                final(self).count(kind) == capped(
                    old(self).count(kind) + latencies@.of(kind).len(),
                ),
    {
        let a: usize = record_latencies(&mut self.be_read, &latencies.be_read);
        let b: usize = record_latencies(&mut self.lc_read, &latencies.lc_read);
        let c: usize = record_latencies(&mut self.lc_write, &latencies.lc_write);
        proof {
            assert(old(self).covers_all() ==> a == 0 && b == 0 && c == 0) by {
                if old(self).covers_all() {
                    assert(old(self).bounds(ResponseType::BeRead).1 == u64::MAX);
                    assert(old(self).bounds(ResponseType::LcRead).1 == u64::MAX);
                    assert(old(self).bounds(ResponseType::LcWrite).1 == u64::MAX);
                }
            }
            assert(took_in(old(self).be_read, self.be_read, latencies@.be_read.len(), a as int));
            assert(took_in(old(self).lc_read, self.lc_read, latencies@.lc_read.len(), b as int));
            assert(took_in(
                old(self).lc_write,
                self.lc_write,
                latencies@.lc_write.len(),
                c as int,
            ));
        }
        a as u128 + b as u128 + c as u128
    }
}

/// Whether `after` is what `before` becomes by being offered `offered`
/// samples of which it refuses `refused`: its count grows by the rest.
pub open spec fn took_in(
    before: LatencyHistogram,
    after: LatencyHistogram,
    offered: nat,
    refused: int,
) -> bool {
    0 <= refused <= offered && total_count(after) == capped(
        total_count(before) + offered - refused,
    )
}

} // verus!
