//! Interval ends and their four-key record form.

use vstd::prelude::*;

verus! {

/// One end of an interval: closed, open, or absent.
#[derive(Debug, Clone, Copy, PartialEq, Eq)]
pub enum Bound<T> {
    Included(T),
    Excluded(T),
    Unbounded,
}

/// The record form of an interval. `min` and `max` are the open ends,
/// `imin` and `imax` the closed ones; an absent pair means no limit.
#[derive(Debug, Clone, Copy, PartialEq, Eq)]
pub struct SerializedBound<T> {
    pub min: Option<T>,
    pub imin: Option<T>,
    pub max: Option<T>,
    pub imax: Option<T>,
}

/// Why a record names no interval.
#[derive(Debug, Clone, Copy, PartialEq, Eq)]
pub enum BoundError {
    /// Both `min` and `imin` are given.
    BothLower,
    /// Both `max` and `imax` are given.
    BothUpper,
}

/// The (open, closed) pair of optional values that stands for one end.
pub open spec fn unpacked<T>(bound: Bound<T>) -> (Option<T>, Option<T>) {
    match bound {
        Bound::Unbounded => (None, None),
        Bound::Included(val) => (None, Some(val)),
        Bound::Excluded(val) => (Some(val), None),
    }
}

/// The end that an (open, closed) pair stands for, if it stands for one.
pub open spec fn packed<T>(bound: Option<T>, ibound: Option<T>) -> Option<Bound<T>> {
    match (bound, ibound) {
        (None, None) => Some(Bound::Unbounded),
        (Some(val), None) => Some(Bound::Excluded(val)),
        (None, Some(val)) => Some(Bound::Included(val)),
        (Some(_), Some(_)) => None,
    }
}

/// The same end, holding a reference to its value.
pub open spec fn by_ref<T>(bound: &Bound<T>) -> Bound<&T> {
    match bound {
        Bound::Included(val) => Bound::Included(val),
        Bound::Excluded(val) => Bound::Excluded(val),
        Bound::Unbounded => Bound::Unbounded,
    }
}

/// The record of an interval.
pub open spec fn record_of<T>(lower: Bound<T>, upper: Bound<T>) -> SerializedBound<T> {
    SerializedBound {
        min: unpacked(lower).0,
        imin: unpacked(lower).1,
        max: unpacked(upper).0,
        imax: unpacked(upper).1,
    }
}

/// The interval of a record, or the reason it has none. The lower end is
/// looked at first.
pub open spec fn interval_of<T>(record: SerializedBound<T>) -> Result<
    (Bound<T>, Bound<T>),
    BoundError,
> {
    match packed(record.min, record.imin) {
        None => Err(BoundError::BothLower),
        Some(lower) => match packed(record.max, record.imax) {
            None => Err(BoundError::BothUpper),
            Some(upper) => Ok((lower, upper)),
        },
    }
}

pub fn unpack<T>(bound: &Bound<T>) -> (r: (Option<&T>, Option<&T>))
    ensures
        r == unpacked(by_ref(bound)),
{
    match bound {
        Bound::Unbounded => (None, None),
        Bound::Included(val) => (None, Some(val)),
        Bound::Excluded(val) => (Some(val), None),
    }
}

pub fn pack<T>(bound: Option<T>, ibound: Option<T>) -> (r: Option<Bound<T>>)
    ensures
        r == packed(bound, ibound),
{
    match (bound, ibound) {
        (None, None) => Some(Bound::Unbounded),
        (Some(val), None) => Some(Bound::Excluded(val)),
        (None, Some(val)) => Some(Bound::Included(val)),
        (Some(_), Some(_)) => None,
    }
}

impl BoundError {
    /// The sentence shown to the user.
    pub fn message(&self) -> (r: &'static str)
        ensures
            r@ == match *self {
                BoundError::BothLower => "min and imin must not be both specified"@,
                BoundError::BothUpper => "max and imax must not be both specified"@,
            },
    {
        match self {
            BoundError::BothLower => "min and imin must not be both specified",
            BoundError::BothUpper => "max and imax must not be both specified",
        }
    }
}

impl<'a, T> SerializedBound<&'a T> {
    pub fn from_bound(bound: &'a (Bound<T>, Bound<T>)) -> (r: Self)
        ensures
            r == record_of(by_ref(&bound.0), by_ref(&bound.1)),
    {
        let (min, imin) = unpack(&bound.0);
        let (max, imax) = unpack(&bound.1);
        SerializedBound { min, imin, max, imax }
    }
}

impl<T> SerializedBound<T> {
    pub fn into_bound(self) -> (r: Result<(Bound<T>, Bound<T>), BoundError>)
        ensures
            r == interval_of(self),
    {
        let SerializedBound { min, imin, max, imax } = self;
        let lower = match pack(min, imin) {
            Some(lower) => lower,
            None => {
                return Err(BoundError::BothLower);
            },
        };
        let upper = match pack(max, imax) {
            Some(upper) => upper,
            None => {
                return Err(BoundError::BothUpper);
            },
        };
        Ok((lower, upper))
    }
}

/// Every interval is the interval of its own record.
pub proof fn lemma_record_round_trip<T>(lower: Bound<T>, upper: Bound<T>)
    ensures
        interval_of(record_of(lower, upper)) == Ok::<(Bound<T>, Bound<T>), BoundError>(
            (lower, upper),
        ),
{
}

/// A record with an interval is the record of that interval.
pub proof fn lemma_interval_round_trip<T>(record: SerializedBound<T>)
    requires
        interval_of(record) is Ok,
    ensures
        record_of(interval_of(record)->Ok_0.0, interval_of(record)->Ok_0.1) == record,
{
}

} // verus!
