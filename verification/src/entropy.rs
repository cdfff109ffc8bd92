//! Bounded sampling of a byte source, and the byte histogram that an entropy
//! estimate is computed from.
//!
//! However long a source is, at most two windows of it are read: one at its
//! start and, where the source is long enough for the two not to overlap, one
//! at its end.

use vstd::multiset::Multiset;
use vstd::prelude::*;
use vstd::seq_lib::lemma_multiset_commutative;
use vstd::seq_lib::to_multiset_build;
use vstd::slice::slice_subrange;

verus! {

/// Number of bytes read from each end of a source unless configured otherwise.
pub const SAMPLE_WINDOW: u64 = 171072;

/// The window that is actually used on a source of `length` bytes: the whole
/// source where it is shorter than the configured window.
pub open spec fn effective_window(length: u64, window: u64) -> u64 {
    if length < window {
        length
    } else {
        window
    }
}

/// One read of a source: exactly `len` bytes at `offset`.
#[derive(Clone, Copy, Debug, PartialEq, Eq)]
pub struct ReadRequest {
    pub offset: u64,
    pub len: u64,
}

impl ReadRequest {
    /// What a source that holds `data` hands over for the read: the bytes of
    /// the range asked for, as far as the source holds them.
    pub open spec fn served(self, data: Seq<u8>) -> Seq<u8> {
        let from = if self.offset <= data.len() {
            self.offset as int
        } else {
            data.len() as int
        };
        let to = if self.offset + self.len <= data.len() {
            self.offset + self.len
        } else {
            data.len() as int
        };
        data.subrange(from, to)
    }
}

/// The reads that make up the sample of one source.
///
/// The head read takes `window` bytes at offset 0. Where `tail_offset` is
/// `Some(o)`, a second read takes `window` bytes at offset `o`, after the head
/// read.
#[derive(Clone, Copy, Debug)]
pub struct SamplePlan {
    pub window: u64,
    pub tail_offset: Option<u64>,
}

impl SamplePlan {
    /// The plan for a source of `length` bytes under a configured `window`.
    pub open spec fn for_source(length: u64, window: u64) -> SamplePlan {
        let w = effective_window(length, window);
        SamplePlan {
            window: w,
            tail_offset: if length > 2 * w {
                Some((length - w) as u64)
            } else {
                None
            },
        }
    }

    /// The tail read starts behind the head read and ends within `u64`.
    pub open spec fn well_formed(self) -> bool {
        match self.tail_offset {
            Some(offset) => self.window < offset && offset + self.window <= u64::MAX,
            None => true,
        }
    }

    /// Number of bytes that the plan reads in all.
    pub open spec fn sample_len(self) -> nat {
        if self.tail_offset is Some {
            2 * (self.window as nat)
        } else {
            self.window as nat
        }
    }

    /// The head read.
    pub open spec fn head(self) -> ReadRequest {
        ReadRequest { offset: 0, len: self.window }
    }

    /// The tail read, where there is one.
    pub open spec fn tail(self) -> Option<ReadRequest> {
        match self.tail_offset {
            Some(offset) => Some(ReadRequest { offset, len: self.window }),
            None => None,
        }
    }

    /// Whether a source holding `available` bytes can serve every read of
    /// the plan in full. A read of no bytes is served anywhere.
    pub open spec fn fits(self, available: nat) -> bool {
        &&& self.window <= available
        &&& match self.tail_offset {
            Some(offset) => self.window == 0 || offset + self.window <= available,
            None => true,
        }
    }

    /// Plans the sample of a source of `length` bytes.
    pub fn new(length: u64, window: u64) -> (plan: SamplePlan)
        ensures
            plan == Self::for_source(length, window),
            plan.well_formed(),
            plan.fits(length as nat),
    {
        let w: u64 = if length < window {
            length
        } else {
            window
        };
        if length - w > w {
            SamplePlan { window: w, tail_offset: Some(length - w) }
        } else {
            SamplePlan { window: w, tail_offset: None }
        }
    }

    /// Number of bytes that the plan reads in all.
    pub fn sample_size(&self) -> (n: u64)
        requires
            self.well_formed(),
        ensures
            n == self.sample_len(),
    {
        match self.tail_offset {
            Some(_) => self.window + self.window,
            None => self.window,
        }
    }
}

/// A source shorter than the window is read whole by the head read, and no
/// tail read is attempted.
pub proof fn lemma_short_source_read_whole(length: u64, window: u64)
    requires
        length < window,
    ensures
        SamplePlan::for_source(length, window).window == length,
        SamplePlan::for_source(length, window).tail_offset is None,
        SamplePlan::for_source(length, window).sample_len() == length,
{
}

/// A source longer than the window but no longer than two windows gets the
/// head read only, so the sample holds one window of bytes.
pub proof fn lemma_medium_source_head_only(length: u64, window: u64)
    requires
        window < length <= 2 * window,
    ensures
        SamplePlan::for_source(length, window).window == window,
        SamplePlan::for_source(length, window).tail_offset is None,
        SamplePlan::for_source(length, window).sample_len() == window,
{
}

/// A source longer than two windows gets both reads, the tail read ending
/// with the source, so the sample holds two windows of bytes.
pub proof fn lemma_long_source_head_and_tail(length: u64, window: u64)
    requires
        length > 2 * window,
    ensures
        SamplePlan::for_source(length, window).window == window,
        SamplePlan::for_source(length, window).tail_offset == Some((length - window) as u64),
        SamplePlan::for_source(length, window).sample_len() == 2 * window,
{
}

/// Number of distinct values a byte can take.
pub const BYTE_VALUES: usize = 256;

/// How often each byte value occurred in the bytes recorded so far.
///
/// The view is the multiset of the recorded bytes: it keeps how often each
/// value occurred and forgets in which order.
pub struct Histogram {
    counts: Vec<u64>,
    total: u64,
    seen: Ghost<Multiset<u8>>,
}

impl View for Histogram {
    type V = Multiset<u8>;

    closed spec fn view(&self) -> Multiset<u8> {
        self.seen@
    }
}

impl Histogram {
    /// There is one bucket for each byte value, each bucket holds the number
    /// of recorded bytes of its value, and the total is the number of bytes
    /// recorded.
    pub closed spec fn well_formed(&self) -> bool {
        &&& self.counts@.len() == BYTE_VALUES
        &&& forall|i: int|
            0 <= i < BYTE_VALUES ==> #[trigger] self.counts@[i] == self.seen@.count(i as u8)
        &&& self.total == self.seen@.len()
    }

    /// The buckets as they are stored, indexed by byte value.
    pub closed spec fn buckets(&self) -> Seq<u64> {
        self.counts@
    }

    /// The total as it is stored.
    pub closed spec fn recorded(&self) -> u64 {
        self.total
    }

    /// In a well-formed histogram the stored buckets and total are those of
    /// the view.
    pub proof fn lemma_stored_counts(&self)
        requires
            self.well_formed(),
        ensures
            self.buckets().len() == BYTE_VALUES,
            forall|value: u8| #[trigger] self.buckets()[value as int] == self@.count(value),
            self.recorded() == self@.len(),
    {
    }

    /// The histogram of no bytes.
    pub fn new() -> (histogram: Histogram)
        ensures
            histogram.well_formed(),
            histogram@ == Multiset::<u8>::empty(),
    {
        let mut counts: Vec<u64> = Vec::new();
        let mut i: usize = 0;
        while i < BYTE_VALUES
            invariant
                i <= BYTE_VALUES,
                counts@.len() == i,
                forall|j: int| 0 <= j < i ==> #[trigger] counts@[j] == 0,
            decreases BYTE_VALUES - i,
        {
            counts.push(0);
            i = i + 1;
        }
        Histogram { counts, total: 0, seen: Ghost(Multiset::empty()) }
    }

    /// Number of recorded bytes of the given value.
    pub fn count(&self, value: u8) -> (n: u64)
        requires
            self.well_formed(),
        ensures
            n == self@.count(value),
    {
        self.counts[value as usize]
    }

    /// Number of bytes recorded.
    pub fn total(&self) -> (n: u64)
        requires
            self.well_formed(),
        ensures
            n == self@.len(),
    {
        self.total
    }

    /// Adds every byte of `bytes` to the histogram.
    pub fn record(&mut self, bytes: &[u8])
        requires
            old(self).well_formed(),
            old(self)@.len() + bytes@.len() <= u64::MAX,
        ensures
            final(self).well_formed(),
            final(self)@ == old(self)@.add(bytes@.to_multiset()),
    {
        let n: usize = bytes.len();
        let mut i: usize = 0;
        assert(bytes@.take(0).to_multiset() =~= Multiset::<u8>::empty()) by {
            bytes@.take(0).to_multiset_ensures();
        }
        assert(old(self)@.add(Multiset::<u8>::empty()) =~= old(self)@);
        while i < n
            invariant
                n == bytes@.len(),
                i <= n,
                self.well_formed(),
                self@ == old(self)@.add(bytes@.take(i as int).to_multiset()),
                old(self)@.len() + bytes@.len() <= u64::MAX,
            decreases n - i,
        {
            let value: u8 = bytes[i];
            let bucket: usize = value as usize;
            let count: u64 = self.counts[bucket];
            proof {
                assert(bytes@.take(i as int).to_multiset().len() == i) by {
                    bytes@.take(i as int).to_multiset_ensures();
                }
                assert(count == self.seen@.count(value));
                assert(bytes@.take(i + 1) =~= bytes@.take(i as int).push(value));
                to_multiset_build(bytes@.take(i as int), value);
                assert(old(self)@.add(bytes@.take(i as int).to_multiset()).insert(value)
                    =~= old(self)@.add(bytes@.take(i + 1).to_multiset()));
            }
            self.counts.set(bucket, count + 1);
            self.total = self.total + 1;
            self.seen = Ghost(self.seen@.insert(value));
            i = i + 1;
        }
        assert(bytes@.take(n as int) =~= bytes@);
    }
}

/// The bytes that the head read of `plan` takes from `data`.
pub open spec fn head_sample(data: Seq<u8>, plan: SamplePlan) -> Seq<u8> {
    plan.head().served(data)
}

/// The bytes that the tail read of `plan` takes from `data`; none where the
/// plan has no tail read.
pub open spec fn tail_sample(data: Seq<u8>, plan: SamplePlan) -> Seq<u8> {
    match plan.tail() {
        Some(request) => request.served(data),
        None => Seq::empty(),
    }
}

/// All the bytes that `plan` samples from `data`, head first.
pub open spec fn sampled(data: Seq<u8>, plan: SamplePlan) -> Seq<u8> {
    head_sample(data, plan) + tail_sample(data, plan)
}

/// Why a sample could not be taken.
#[derive(Clone, Copy, Debug, PartialEq, Eq)]
pub enum SampleError {
    /// The source ended before the head read was complete.
    ShortHead,
    /// The source ended before the tail read was complete.
    ShortTail,
    /// Bytes were handed in that no read had asked for.
    Surplus,
}

/// Takes the sample of one source, read by read.
///
/// The sampler says which bytes it wants next and is fed exactly those. It
/// never reads itself, so the source can be a file, a device or memory.
pub struct Sampler {
    plan: SamplePlan,
    histogram: Histogram,
    reads: u8,
}

impl Sampler {
    /// The plan that the sampler follows.
    pub closed spec fn plan(&self) -> SamplePlan {
        self.plan
    }

    /// Number of reads that were fed.
    pub closed spec fn reads(&self) -> nat {
        self.reads as nat
    }

    /// The bytes that were fed, as a multiset.
    pub closed spec fn counted(&self) -> Multiset<u8> {
        self.histogram@
    }

    /// The plan is well formed and the histogram holds the reads fed so far,
    /// each of them a full window.
    pub closed spec fn well_formed(&self) -> bool {
        &&& self.plan.well_formed()
        &&& self.histogram.well_formed()
        &&& self.reads <= 2
        &&& self.reads == 2 ==> self.plan.tail_offset is Some
        &&& self.histogram@.len() == if self.reads == 0 {
            0
        } else if self.reads == 1 {
            self.plan.window as int
        } else {
            2 * self.plan.window
        }
    }

    /// The read that is due: the head read first, then the tail read where
    /// the plan has one, then none.
    pub open spec fn pending(&self) -> Option<ReadRequest> {
        if self.reads() == 0 {
            Some(self.plan().head())
        } else if self.reads() == 1 {
            self.plan().tail()
        } else {
            None
        }
    }

    /// What `feed` answers to `fed` bytes.
    pub open spec fn feed_outcome(&self, fed: nat) -> Result<(), SampleError> {
        match self.pending() {
            None => Err(SampleError::Surplus),
            Some(request) => if fed < request.len {
                if self.reads() == 0 {
                    Err(SampleError::ShortHead)
                } else {
                    Err(SampleError::ShortTail)
                }
            } else if fed > request.len {
                Err(SampleError::Surplus)
            } else {
                Ok(())
            },
        }
    }

    /// A sampler for a source of `length` bytes that has read nothing yet.
    pub fn new(length: u64, window: u64) -> (sampler: Sampler)
        ensures
            sampler.well_formed(),
            sampler.plan() == SamplePlan::for_source(length, window),
            sampler.reads() == 0,
            sampler.counted() == Multiset::<u8>::empty(),
    {
        Sampler { plan: SamplePlan::new(length, window), histogram: Histogram::new(), reads: 0 }
    }

    /// The read that is due, if the sample is not complete.
    pub fn next_read(&self) -> (request: Option<ReadRequest>)
        ensures
            request == self.pending(),
    {
        if self.reads == 0 {
            Some(ReadRequest { offset: 0, len: self.plan.window })
        } else if self.reads == 1 {
            match self.plan.tail_offset {
                Some(offset) => Some(ReadRequest { offset, len: self.plan.window }),
                None => None,
            }
        } else {
            None
        }
    }

    /// Takes the bytes of the read that is due.
    ///
    /// Fewer bytes than were asked for are a short read, and an error: the
    /// sample is taken in full or not at all. After an error the sampler is
    /// as it was.
    pub fn feed(&mut self, bytes: &[u8]) -> (outcome: Result<(), SampleError>)
        requires
            old(self).well_formed(),
        ensures
            final(self).well_formed(),
            final(self).plan() == old(self).plan(),
            outcome == old(self).feed_outcome(bytes@.len()),
            outcome is Ok ==> final(self).reads() == old(self).reads() + 1,
            outcome is Ok ==> final(self).counted() == old(self).counted().add(
                bytes@.to_multiset(),
            ),
            outcome is Err ==> final(self).reads() == old(self).reads(),
            outcome is Err ==> final(self).counted() == old(self).counted(),
    {
        let request = match self.next_read() {
            Some(request) => request,
            None => {
                return Err(SampleError::Surplus);
            },
        };
        let fed: usize = bytes.len();
        if (fed as u64) < request.len {
            if self.reads == 0 {
                return Err(SampleError::ShortHead);
            } else {
                return Err(SampleError::ShortTail);
            }
        }
        if fed as u64 > request.len {
            return Err(SampleError::Surplus);
        }
        proof {
            bytes@.to_multiset_ensures();
        }
        self.histogram.record(bytes);
        self.reads = self.reads + 1;
        Ok(())
    }

    /// The histogram of the sample; none while a read is due.
    pub fn finish(self) -> (histogram: Option<Histogram>)
        requires
            self.well_formed(),
        ensures
            histogram is Some <==> self.pending() is None,
            histogram matches Some(h) ==> {
                &&& h.well_formed()
                &&& h@ == self.counted()
                &&& h@.len() == self.plan().sample_len()
            },
    {
        if self.next_read().is_none() {
            Some(self.histogram)
        } else {
            None
        }
    }
}

/// A byte source held in memory, with the length it is declared to have and
/// the window it is sampled with.
pub struct Entropy {
    pub data: Vec<u8>,
    pub length: u64,
    pub window: u64,
}

impl Entropy {
    /// The reads that sampling this source takes.
    pub open spec fn plan(&self) -> SamplePlan {
        SamplePlan::for_source(self.length, self.window)
    }

    /// A source over `data` that is declared `length` bytes long and sampled
    /// with the default window.
    pub fn new_from_vec(data: Vec<u8>, length: u64) -> (source: Entropy)
        ensures
            source.data@ == data@,
            source.length == length,
            source.window == SAMPLE_WINDOW,
    {
        Entropy { data, length, window: SAMPLE_WINDOW }
    }

    /// The same source, sampled with `window` bytes at each end.
    pub fn with_window(self, window: u64) -> (source: Entropy)
        ensures
            source.data@ == self.data@,
            source.length == self.length,
            source.window == window,
    {
        Entropy { data: self.data, length: self.length, window }
    }

    /// Samples the source and counts the sampled bytes: the histogram from
    /// which the Shannon entropy of the source is estimated.
    ///
    /// A read that the source cannot serve in full is an error: the histogram
    /// is that of exactly the planned sample or there is none.
    pub fn shannon(&self) -> (outcome: Result<Histogram, SampleError>)
        ensures
            match outcome {
                Ok(histogram) => {
                    &&& self.plan().fits(self.data@.len())
                    &&& histogram.well_formed()
                    &&& histogram@ == sampled(self.data@, self.plan()).to_multiset()
                    &&& histogram@.len() == self.plan().sample_len()
                },
                Err(SampleError::ShortHead) => self.plan().window > self.data@.len(),
                Err(SampleError::ShortTail) => {
                    &&& self.plan().window <= self.data@.len()
                    &&& !self.plan().fits(self.data@.len())
                },
                Err(SampleError::Surplus) => false,
            },
    {
        let mut sampler = Sampler::new(self.length, self.window);
        let ghost plan = sampler.plan();
        let available: usize = self.data.len();
        let mut fed: Ghost<Seq<u8>> = Ghost(Seq::empty());
        proof {
            assert(fed@.to_multiset() =~= Multiset::<u8>::empty()) by {
                fed@.to_multiset_ensures();
            }
        }
        loop
            invariant
                sampler.well_formed(),
                sampler.plan() == plan,
                plan == self.plan(),
                plan.well_formed(),
                available == self.data@.len(),
                sampler.counted() == fed@.to_multiset(),
                sampler.reads() <= 2,
                sampler.reads() == 0 ==> fed@ == Seq::<u8>::empty(),
                sampler.reads() == 1 ==> fed@ == head_sample(self.data@, plan) && plan.window
                    <= available,
                sampler.reads() == 2 ==> fed@ == sampled(self.data@, plan) && plan.fits(
                    available as nat,
                ),
            ensures
                sampler.pending() is None,
            decreases 2 - sampler.reads(),
        {
            let request = match sampler.next_read() {
                Some(request) => request,
                None => {
                    break;
                },
            };
            // The source hands over what it holds of the bytes asked for.
            let end: u64 = request.offset + request.len;
            let from: usize = if request.offset > available as u64 {
                available
            } else {
                request.offset as usize
            };
            let to: usize = if end > available as u64 {
                available
            } else {
                end as usize
            };
            let bytes = slice_subrange(self.data.as_slice(), from, to);
            assert(bytes@ == request.served(self.data@));
            let ghost before = sampler.reads();
            match sampler.feed(bytes) {
                Ok(()) => {},
                Err(error) => {
                    return Err(error);
                },
            }
            proof {
                lemma_multiset_commutative(fed@, bytes@);
                if before == 0 {
                    assert(fed@ + bytes@ =~= bytes@);
                }
                fed@ = fed@ + bytes@;
            }
        }
        proof {
            if sampler.reads() == 1 {
                assert(sampled(self.data@, plan) =~= head_sample(self.data@, plan));
            }
        }
        match sampler.finish() {
            Some(histogram) => Ok(histogram),
            None => Err(SampleError::Surplus),
        }
    }
}

/// The buckets and the total, from which an estimate is computed, are the
/// same for any two samples that are rearrangements of one another: the order
/// of the sampled bytes does not matter.
pub proof fn lemma_order_does_not_matter(
    first: Seq<u8>,
    second: Seq<u8>,
    of_first: Histogram,
    of_second: Histogram,
)
    requires
        first.to_multiset() == second.to_multiset(),
        of_first.well_formed(),
        of_first@ == first.to_multiset(),
        of_second.well_formed(),
        of_second@ == second.to_multiset(),
    ensures
        of_first.buckets() == of_second.buckets(),
        of_first.recorded() == of_second.recorded(),
{
    assert(of_first.buckets() =~= of_second.buckets());
}

/// A source in which every byte has the same value fills a single bucket,
/// however long it is and whatever the plan: that bucket holds the whole
/// sample and every other bucket is empty.
pub proof fn lemma_constant_source_fills_one_bucket(
    data: Seq<u8>,
    plan: SamplePlan,
    value: u8,
    histogram: Histogram,
)
    requires
        forall|i: int| 0 <= i < data.len() ==> data[i] == value,
        histogram.well_formed(),
        histogram@ == sampled(data, plan).to_multiset(),
    ensures
        histogram@.count(value) == histogram@.len(),
        forall|other: u8| other != value ==> histogram@.count(other) == 0,
        histogram.buckets()[value as int] == histogram.recorded(),
        forall|other: u8| other != value ==> histogram.buckets()[other as int] == 0,
{
    let sample = sampled(data, plan);
    assert forall|i: int| 0 <= i < sample.len() implies sample[i] == value by {
        let head = head_sample(data, plan);
        if i >= head.len() {
            let tail = tail_sample(data, plan);
            assert(sample[i] == tail[i - head.len()]);
        }
    }
    lemma_constant_counts(sample, value);
    sample.to_multiset_ensures();
}

proof fn lemma_constant_counts(sample: Seq<u8>, value: u8)
    requires
        forall|i: int| 0 <= i < sample.len() ==> sample[i] == value,
    ensures
        sample.to_multiset().count(value) == sample.len(),
        forall|other: u8| other != value ==> sample.to_multiset().count(other) == 0,
    decreases sample.len(),
{
    if sample.len() == 0 {
        assert(sample.to_multiset() =~= Multiset::<u8>::empty()) by {
            sample.to_multiset_ensures();
        }
    } else {
        let rest = sample.drop_last();
        lemma_constant_counts(rest, value);
        assert(sample =~= rest.push(value));
        to_multiset_build(rest, value);
    }
}

} // verus!
