use bugout::entry_id::XReadEntryId;
use bugout::model::DeserError;

#[test]
fn test_sort() {
    let foo = XReadEntryId {
        millis_time: 2,
        seq_no: 0,
    };
    let bar = XReadEntryId {
        millis_time: 1,
        seq_no: 10,
    };
    let baz = XReadEntryId {
        millis_time: 1,
        seq_no: 1,
    };
    let mut entries = vec![foo, bar, baz];

    entries.sort();
    assert_eq!(entries, vec![baz, bar, foo])
}

#[test]
fn entry_id_reads_its_own_text() {
    let id = XReadEntryId {
        millis_time: 1_518_951_480_106,
        seq_no: 7,
    };
    assert_eq!(id.to_string(), "1518951480106-7");
    assert_eq!(XReadEntryId::from_str("1518951480106-7"), Ok(id));
}

#[test]
fn entry_id_default_is_zero() {
    let id = XReadEntryId::default();
    assert_eq!(id.to_string(), "0-0");
    assert_eq!(XReadEntryId::from_str("0-0"), Ok(id));
}

#[test]
fn entry_id_takes_plus_and_leading_zeros() {
    assert_eq!(
        XReadEntryId::from_str("+007-+0"),
        Ok(XReadEntryId {
            millis_time: 7,
            seq_no: 0
        })
    );
}

#[test]
fn entry_id_limits() {
    assert_eq!(
        XReadEntryId::from_str("18446744073709551615-18446744073709551615"),
        Ok(XReadEntryId {
            millis_time: u64::MAX,
            seq_no: u64::MAX
        })
    );
    assert_eq!(
        XReadEntryId::from_str("18446744073709551616-0"),
        Err(DeserError)
    );
    assert_eq!(
        XReadEntryId::from_str("99999999999999999999999-0"),
        Err(DeserError)
    );
}

#[test]
fn entry_id_rejects_malformed_text() {
    for text in [
        "", "-", "1", "1-", "-1", "1-2-3", "1--2", "a-1", "1-b", " 1-2", "1-2 ", "1_0-2", "+-1",
        "1-+", "１-2",
    ] {
        assert_eq!(XReadEntryId::from_str(text), Err(DeserError), "{:?}", text);
    }
}

#[test]
fn entry_id_order_is_time_then_sequence() {
    let a = XReadEntryId {
        millis_time: 1,
        seq_no: 10,
    };
    let b = XReadEntryId {
        millis_time: 2,
        seq_no: 0,
    };
    assert!(a.precedes(&b));
    assert!(!b.precedes(&a));
    assert!(!a.precedes(&a));
    assert!(a < b);
}
