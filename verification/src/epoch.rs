//! Epoch counting: a lifetime-like runtime validity tracker.
//!
//! A [`CurrentEpoch`] counter advances monotonically.  Values wrapped in an
//! epoch-guarded holder ([`Eh`]) carry the last [`Epoch`] they must stay
//! valid until, and a [`DeletionQueue`] collects such values and disposes of
//! each one as soon as the counter has moved past its validity bound.

use vstd::prelude::*;
use vstd::pervasive::unreached;
use std::collections::VecDeque;

verus! {

/// Epoch identifier.
/// Epochs are compared with one another to check which is "earlier".
/// Primarily used with [`ValidUntil`] implementations.
#[derive(Clone, Copy, Debug, PartialEq, Eq, Structural, PartialOrd, Ord)]
pub struct Epoch(pub u64);

impl Epoch {
    /// Create a new `Epoch` that never compares as "later" to any other.
    pub fn new() -> (e: Epoch)
        ensures
            e.0 == 0,
    {
        Epoch(0)
    }
}

/// Epoch counter.
/// Place it somewhere where users can access it.
/// This type should not be instantiated more than once per device.
#[derive(Debug)]
pub struct CurrentEpoch(u64);

impl CurrentEpoch {
    /// The current count, as contracts speak of it.
    pub closed spec fn spec_now(&self) -> u64 {
        self.0
    }

    /// Create a new epoch counter, starting at one.
    pub fn new() -> (c: CurrentEpoch)
        ensures
            c.spec_now() == 1,
    {
        CurrentEpoch(1)
    }

    /// Get the current epoch identifier.
    pub fn now(&self) -> (e: Epoch)
        ensures
            e.0 == self.spec_now(),
    {
        Epoch(self.0)
    }

    /// Advance by `count` epochs.
    pub fn advance(&mut self, count: u64)
        requires
            old(self).spec_now() + count <= u64::MAX,
        ensures
            final(self).spec_now() == old(self).spec_now() + count,
    {
        self.0 = self.0 + count;
    }
}

/// A value that must be kept alive until some epoch has passed.
pub trait ValidUntil: Sized {
    /// Encapsulated data, handed back on disposal.
    type Data;

    /// The validity bound, as contracts speak of it.
    spec fn valid_until_spec(&self) -> Epoch;

    /// Get the last epoch this value has to be valid until.
    fn valid_until(&self) -> (e: Epoch)
        ensures
            e == self.valid_until_spec(),
    ;

    /// Try to dispose of this value.  Succeeds exactly when the current
    /// epoch has reached the validity bound; otherwise the value is handed
    /// back unchanged.
    fn dispose(self, current: &CurrentEpoch) -> (r: Result<Self::Data, Self>)
        ensures
            (r is Ok) <==> self.valid_until_spec().0 <= current.spec_now(),
            r matches Err(v) ==> v == self,
    ;
}

/// Check whether `value` is still valid at the given `epoch`.
pub fn is_valid<T: ValidUntil>(value: &T, epoch: Epoch) -> (b: bool)
    ensures
        b == (value.valid_until_spec().0 > epoch.0),
{
    value.valid_until().0 > epoch.0
}

/// Holder that keeps a value alive until an epoch bound has passed.
///
/// The bound starts at zero and can only move forward; the value can be
/// taken back out through [`ValidUntil::dispose`] once the current epoch
/// has caught up with the bound.
#[derive(Debug)]
pub struct Eh<T> {
    value: T,
    valid_until: Epoch,
}

impl<T> Eh<T> {
    /// Wrap a value into an `Eh` with no validity bound yet.
    pub fn new(value: T) -> (e: Eh<T>)
        ensures
            e.valid_until_spec().0 == 0,
            e.spec_value() == value,
    {
        Eh { value, valid_until: Epoch(0) }
    }

    /// The held value, as contracts speak of it.
    pub closed spec fn spec_value(&self) -> T {
        self.value
    }

    /// Extend the validity bound to `epoch` if it is later than the
    /// current bound.
    pub fn make_valid_until(&mut self, epoch: Epoch)
        ensures
            final(self).valid_until_spec().0 == if old(self).valid_until_spec().0 < epoch.0 {
                epoch.0
            } else {
                old(self).valid_until_spec().0
            },
            final(self).spec_value() == old(self).spec_value(),
    {
        if self.valid_until.0 < epoch.0 {
            self.valid_until = epoch;
        }
    }

    /// Read the held value.
    pub fn inner(&self) -> (v: &T)
        ensures
            *v == self.spec_value(),
    {
        &self.value
    }
}

impl<T> ValidUntil for Eh<T> {
    type Data = T;

    closed spec fn valid_until_spec(&self) -> Epoch {
        self.valid_until
    }

    fn valid_until(&self) -> (e: Epoch)
        ensures
            e == self.valid_until_spec(),
    {
        self.valid_until
    }

    fn dispose(self, current: &CurrentEpoch) -> (r: Result<T, Self>)
        ensures
            (r is Ok) <==> self.valid_until_spec().0 <= current.spec_now(),
            r matches Err(v) ==> v == self,
    {
        if self.valid_until.0 <= current.now().0 {
            Ok(self.value)
        } else {
            Err(self)
        }
    }
}

/// A queue that trashes unused [`ValidUntil`] implementors.  `clean` drops
/// every enqueued value whose validity bound has expired.
///
/// Bucket `i` of the queue holds exactly the values valid until epoch
/// `offset + i`; emptied buckets are recycled to avoid reallocation.
pub struct DeletionQueue<T> {
    offset: u64,
    queue: VecDeque<Vec<T>>,
    clean_vecs: Vec<Vec<T>>,
}

impl<T> DeletionQueue<T> where T: ValidUntil {
    /// The epoch that bucket zero answers to, as contracts speak of it.
    pub closed spec fn spec_offset(&self) -> u64 {
        self.offset
    }

    /// The queued buckets, as contracts speak of them.
    pub closed spec fn spec_buckets(&self) -> Seq<Seq<T>> {
        self.queue@.map_values(|v: Vec<T>| v@)
    }

    /// Structural invariant: every value sits in the bucket matching its
    /// validity bound, and every recycled vector is empty.
    pub closed spec fn inv(&self) -> bool {
        &&& forall|i: int, j: int|
            0 <= i < self.queue@.len() && 0 <= j < self.queue@[i]@.len()
                ==> (#[trigger] self.queue@[i]@[j]).valid_until_spec().0 == self.offset + i
        &&& forall|i: int| 0 <= i < self.clean_vecs@.len() ==> (#[trigger] self.clean_vecs@[i])@.len() == 0
    }

    /// Create an empty queue.
    pub fn new() -> (q: DeletionQueue<T>)
        ensures
            q.inv(),
            q.spec_offset() == 0,
            q.spec_buckets().len() == 0,
    {
        DeletionQueue { offset: 0, queue: VecDeque::new(), clean_vecs: Vec::new() }
    }

    /// Add a new value to the queue.
    /// After the value expires it will be disposed of by the next `clean`
    /// call.
    pub fn add(&mut self, value: T)
        requires
            old(self).inv(),
            value.valid_until_spec().0 >= old(self).spec_offset(),
            value.valid_until_spec().0 - old(self).spec_offset() < usize::MAX,
        ensures
            final(self).inv(),
            final(self).spec_offset() == old(self).spec_offset(),
            final(self).spec_buckets().len() == vstd::math::max(
                old(self).spec_buckets().len() as int,
                value.valid_until_spec().0 - old(self).spec_offset() + 1,
            ),
            forall|i: int|
                0 <= i < old(self).spec_buckets().len() && i != value.valid_until_spec().0
                    - old(self).spec_offset() ==> #[trigger] final(self).spec_buckets()[i]
                    == old(self).spec_buckets()[i],
            final(self).spec_buckets()[value.valid_until_spec().0 - old(self).spec_offset()] == (if value.valid_until_spec().0
                - old(self).spec_offset() < old(self).spec_buckets().len() {
                old(self).spec_buckets()[value.valid_until_spec().0 - old(self).spec_offset()]
            } else {
                Seq::<T>::empty()
            }).push(value),
    {
        let vu = value.valid_until();
        let index = (vu.0 - self.offset) as usize;
        while self.queue.len() <= index
            invariant
                self.inv(),
                self.offset == old(self).spec_offset(),
                self.queue@.len() >= old(self).spec_buckets().len(),
                self.queue@.len() <= vstd::math::max(
                    old(self).spec_buckets().len() as int,
                    index + 1,
                ),
                forall|i: int|
                    0 <= i < old(self).spec_buckets().len()
                        ==> (#[trigger] self.queue@[i])@ == old(self).spec_buckets()[i],
                forall|i: int|
                    old(self).spec_buckets().len() <= i < self.queue@.len()
                        ==> (#[trigger] self.queue@[i])@.len() == 0,
            decreases index + 1 - self.queue@.len(),
        {
            let reuse = match self.clean_vecs.pop() {
                Some(v) => v,
                None => Vec::new(),
            };
            self.queue.push_back(reuse);
        }
        let ghost q1 = self.queue@;
        let mut bucket = match self.queue.remove(index) {
            Some(b) => b,
            None => unreached(),
        };
        bucket.push(value);
        self.queue.insert(index, bucket);
        proof {
            assert(self.queue@ =~= q1.update(index as int, bucket));
            assert(self.spec_buckets() =~= q1.map_values(|v: Vec<T>| v@).update(
                index as int,
                bucket@,
            ));
        }
    }

    /// Dispose of all expired enqueued values, i.e. every value with
    /// `value.valid_until() < current.now()`, handing each disposed datum
    /// to `f`.
    pub fn clean<F: FnMut(T::Data)>(&mut self, current: &CurrentEpoch, f: F)
        requires
            old(self).inv(),
            current.spec_now() >= old(self).spec_offset(),
            forall|d: <T as ValidUntil>::Data| call_requires(f, (d,)),
        ensures
            final(self).inv(),
            final(self).spec_offset() == current.spec_now(),
            final(self).spec_buckets().len() == old(self).spec_buckets().len() - vstd::math::min(
                current.spec_now() - old(self).spec_offset(),
                old(self).spec_buckets().len() as int,
            ),
            forall|i: int|
                0 <= i < final(self).spec_buckets().len() ==> #[trigger] final(self).spec_buckets()[i]
                    == old(self).spec_buckets()[i + vstd::math::min(
                    current.spec_now() - old(self).spec_offset(),
                    old(self).spec_buckets().len() as int,
                )],
    {
        let mut f = f;
        let now = current.now();
        let index: u64 = now.0 - self.offset;
        let len = self.queue.len();
        let count: usize = if index < (len as u64) {
            index as usize
        } else {
            len
        };
        let mut k: usize = 0;
        while k < count
            invariant
                0 <= k <= count,
                count <= old(self).spec_buckets().len(),
                count <= index,
                self.offset == old(self).spec_offset(),
                current.spec_now() == old(self).spec_offset() + index,
                self.queue@.len() == old(self).spec_buckets().len() - k,
                forall|i: int|
                    0 <= i < self.queue@.len() ==> (#[trigger] self.queue@[i])@ == old(
                        self,
                    ).spec_buckets()[i + k],
                forall|i: int, j: int|
                    0 <= i < self.queue@.len() && 0 <= j < self.queue@[i]@.len()
                        ==> (#[trigger] self.queue@[i]@[j]).valid_until_spec().0 == self.offset + k
                        + i,
                forall|i: int|
                    0 <= i < self.clean_vecs@.len() ==> (#[trigger] self.clean_vecs@[i])@.len()
                        == 0,
                forall|d: <T as ValidUntil>::Data| call_requires(f, (d,)),
            decreases count - k,
        {
            let mut bucket = match self.queue.pop_front() {
                Some(b) => b,
                None => unreached(),
            };
            while bucket.len() > 0
                invariant
                    forall|j: int|
                        0 <= j < bucket@.len() ==> (#[trigger] bucket@[j]).valid_until_spec().0
                            == old(self).spec_offset() + k,
                    k < count,
                    count <= index,
                    current.spec_now() == old(self).spec_offset() + index,
                    forall|d: <T as ValidUntil>::Data| call_requires(f, (d,)),
                decreases bucket@.len(),
            {
                let value = match bucket.pop() {
                    Some(v) => v,
                    None => unreached(),
                };
                let data = match value.dispose(current) {
                    Ok(d) => d,
                    Err(_) => unreached(),
                };
                f(data);
            }
            self.clean_vecs.push(bucket);
            k = k + 1;
        }
        self.offset = self.offset + index;
    }
}

} // verus!
