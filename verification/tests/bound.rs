use point_filter::bound::{pack, unpack, Bound, BoundError, SerializedBound};

#[test]
fn unpack_tells_the_kinds_apart() {
    assert_eq!(unpack(&Bound::<i32>::Unbounded), (None, None));
    assert_eq!(unpack(&Bound::Included(3)), (None, Some(&3)));
    assert_eq!(unpack(&Bound::Excluded(3)), (Some(&3), None));
}

#[test]
fn pack_refuses_two_values() {
    assert_eq!(pack::<i32>(None, None), Some(Bound::Unbounded));
    assert_eq!(pack(Some(1), None), Some(Bound::Excluded(1)));
    assert_eq!(pack(None, Some(1)), Some(Bound::Included(1)));
    assert_eq!(pack(Some(1), Some(2)), None);
}

#[test]
fn record_of_an_interval() {
    let interval = (Bound::Included(1), Bound::Excluded(5));
    let record = SerializedBound::from_bound(&interval);
    assert_eq!(record.min, None);
    assert_eq!(record.imin, Some(&1));
    assert_eq!(record.max, Some(&5));
    assert_eq!(record.imax, None);
}

#[test]
fn interval_of_a_record() {
    let record = SerializedBound {
        min: Some(0),
        imin: None,
        max: None,
        imax: Some(9),
    };
    assert_eq!(
        record.into_bound(),
        Ok((Bound::Excluded(0), Bound::Included(9)))
    );
    let open = SerializedBound::<i32> {
        min: None,
        imin: None,
        max: None,
        imax: None,
    };
    assert_eq!(open.into_bound(), Ok((Bound::Unbounded, Bound::Unbounded)));
}

#[test]
fn doubled_ends_are_refused() {
    let lower = SerializedBound {
        min: Some(0),
        imin: Some(0),
        max: Some(1),
        imax: Some(1),
    };
    assert_eq!(lower.into_bound(), Err(BoundError::BothLower));
    let upper = SerializedBound {
        min: Some(0),
        imin: None,
        max: Some(1),
        imax: Some(1),
    };
    assert_eq!(upper.into_bound(), Err(BoundError::BothUpper));
    assert_eq!(
        BoundError::BothLower.message(),
        "min and imin must not be both specified"
    );
    assert_eq!(
        BoundError::BothUpper.message(),
        "max and imax must not be both specified"
    );
}

#[test]
fn record_round_trip() {
    let intervals = [
        (Bound::Unbounded, Bound::Unbounded),
        (Bound::Included(1), Bound::Unbounded),
        (Bound::Excluded(1), Bound::Included(2)),
        (Bound::Unbounded, Bound::Excluded(7)),
    ];
    for interval in intervals {
        let record = SerializedBound::from_bound(&interval);
        let owned = SerializedBound {
            min: record.min.copied(),
            imin: record.imin.copied(),
            max: record.max.copied(),
            imax: record.imax.copied(),
        };
        assert_eq!(owned.into_bound(), Ok(interval));
    }
}
