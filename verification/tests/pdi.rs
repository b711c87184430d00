use ethercrab::error::check_working_counter;
use ethercrab::{Error, IoRanges, PdiSegment, Slave, SlaveIdentity};

#[test]
fn assign_puts_inputs_before_outputs() {
    let io = IoRanges::assign(10, 2, 4);
    assert_eq!(io.input, Some(PdiSegment { bytes: 10..12 }));
    assert_eq!(io.output, Some(PdiSegment { bytes: 12..16 }));
}

#[test]
fn assign_gives_no_segment_where_there_is_no_data() {
    assert_eq!(
        IoRanges::assign(7, 0, 3),
        IoRanges { input: None, output: Some(PdiSegment { bytes: 7..10 }) }
    );
    assert_eq!(
        IoRanges::assign(7, 3, 0),
        IoRanges { input: Some(PdiSegment { bytes: 7..10 }), output: None }
    );
    assert_eq!(IoRanges::assign(7, 0, 0), IoRanges { input: None, output: None });
    assert_eq!(IoRanges::new(), IoRanges { input: None, output: None });
}

#[test]
fn working_counter_sum_of_one_slave() {
    assert_eq!(IoRanges::assign(0, 0, 0).working_counter_sum(), 0);
    assert_eq!(IoRanges::assign(0, 1, 0).working_counter_sum(), 1);
    assert_eq!(IoRanges::assign(0, 0, 1).working_counter_sum(), 2);
    assert_eq!(IoRanges::assign(0, 1, 1).working_counter_sum(), 3);
}

#[test]
fn segment_len_counts_its_bytes() {
    assert_eq!(PdiSegment { bytes: 3..10 }.len(), 7);
    assert_eq!(PdiSegment { bytes: 3..3 }.len(), 0);
    assert_eq!(PdiSegment { bytes: 10..3 }.len(), 0);
}

#[test]
fn a_new_slave_has_no_process_data() {
    let identity = SlaveIdentity { vendor_id: 2, product_id: 0x07d43052, revision: 1, serial: 9 };
    let slave = Slave::new(0x1001, heapless::String::from("EL2004"), identity);
    assert_eq!(slave.configured_address, 0x1001);
    assert_eq!(slave.name.as_str(), "EL2004");
    assert_eq!(slave.identity, identity);
    assert_eq!(*slave.io_segments(), IoRanges { input: None, output: None });
}

#[test]
fn check_working_counter_tells_expected_from_received() {
    assert_eq!(check_working_counter(3, 3, None), Ok(()));
    assert_eq!(
        check_working_counter(3, 2, Some("lrw")),
        Err(Error::WorkingCounter { expected: 3, received: 2, context: Some("lrw") })
    );
    assert_eq!(
        check_working_counter(0, 1, None),
        Err(Error::WorkingCounter { expected: 0, received: 1, context: None })
    );
}
