use ethercrab::{
    Command, ConfigureAction, ConfigureEvent, Error, IoRanges, PdiOffset, PdiSegment, PduError, Slave,
    SlaveConfig, SlaveGroup, SlaveGroupContainer, SlaveGroupRef, SlaveIdentity, MAX_SLAVES,
};

fn slave(address: u16) -> Slave {
    Slave::new(address, heapless::String::from("EL0000"), SlaveIdentity::default())
}

/// Drives a whole walk in which nothing fails: answers every action with the event it asks for.
fn walk<H>(group: &mut SlaveGroupRef<'_, H>, start: u32, sizes: &[(u16, u16)]) -> ConfigureAction {
    let mut action =
        group.configure_from_eeprom(ConfigureEvent::Start(PdiOffset { start_address: start }));
    loop {
        action = match action {
            ConfigureAction::RequestSafeOp { .. } => {
                group.configure_from_eeprom(ConfigureEvent::SafeOpReached)
            }
            ConfigureAction::RunHook { .. } => group.configure_from_eeprom(ConfigureEvent::HookDone),
            ConfigureAction::ReadPdoSizes { slave } => {
                let (input_len, output_len) = sizes[slave];
                group.configure_from_eeprom(ConfigureEvent::PdoSizes { input_len, output_len })
            }
            done => return done,
        };
    }
}

fn segment(start: usize, end: usize) -> Option<PdiSegment> {
    Some(PdiSegment { bytes: start..end })
}

#[test]
fn new_group_is_empty_and_has_its_hook() {
    let group: SlaveGroup<u32, 64> = SlaveGroup::new(17);
    assert_eq!(group.hook(), Some(&17));
    assert!(group.slaves().is_empty());
    assert!(!group.is_configured());
    assert_eq!(group.pdi_len(), 0);
    assert_eq!(group.start_address(), 0);
    assert_eq!(group.group_working_counter(), 0);
    assert_eq!(group.pdi(), &[0u8; 64][..]);
}

#[test]
fn default_group_has_no_hook() {
    let group: SlaveGroup<u32, 8> = SlaveGroup::default();
    assert_eq!(group.hook(), None);
    assert!(group.slaves().is_empty());
    assert_eq!(group.pdi(), &[0u8; 8][..]);
}

#[test]
fn push_keeps_the_order_of_discovery() {
    let mut group: SlaveGroup<(), 64> = SlaveGroup::new(());
    assert_eq!(group.push(slave(0x1000)), Ok(()));
    assert_eq!(group.push(slave(0x1001)), Ok(()));
    assert_eq!(group.push(slave(0x1002)), Ok(()));
    let addresses: Vec<u16> = group.slaves().iter().map(|s| s.configured_address).collect();
    assert_eq!(addresses, vec![0x1000, 0x1001, 0x1002]);
    assert_eq!(group.slaves()[1].name.as_str(), "EL0000");
}

#[test]
fn push_fails_when_the_group_is_full() {
    let mut group: SlaveGroup<(), 64> = SlaveGroup::new(());
    for i in 0..MAX_SLAVES {
        assert_eq!(group.push(slave(0x1000 + i as u16)), Ok(()));
    }
    assert_eq!(group.push(slave(0x2000)), Err(Error::TooManySlaves));
    assert_eq!(group.slaves().len(), MAX_SLAVES);
    assert_eq!(group.slaves()[MAX_SLAVES - 1].configured_address, 0x1000 + 15);
}

#[test]
fn push_takes_the_process_data_of_a_slave_away() {
    let mut group: SlaveGroup<(), 64> = SlaveGroup::new(());
    let mut s = slave(0x1000);
    s.config = SlaveConfig { io: IoRanges { input: segment(100, 200), output: segment(0, 1) } };
    assert_eq!(group.push(s), Ok(()));
    assert_eq!(*group.slaves()[0].io_segments(), IoRanges { input: None, output: None });
    assert_eq!(group.group_working_counter(), 0);
}

#[test]
fn scenario_one_slave_fits() {
    let mut group: SlaveGroup<(), 64> = SlaveGroup::new(());
    group.push(slave(0x1000)).unwrap();
    let done = walk(&mut group.as_mut_ref(), 0, &[(2, 4)]);
    assert_eq!(done, ConfigureAction::Done(PdiOffset { start_address: 6 }));
    assert!(group.is_configured());
    assert_eq!(group.pdi_len(), 6);
    assert_eq!(group.group_working_counter(), 3);
    let io = group.slaves()[0].io_segments();
    assert_eq!(io.input, segment(0, 2));
    assert_eq!(io.output, segment(2, 6));
}

#[test]
fn scenario_second_slave_does_not_fit() {
    let mut group: SlaveGroup<(), 64> = SlaveGroup::new(());
    group.push(slave(0x1000)).unwrap();
    group.push(slave(0x1001)).unwrap();
    let failed = walk(&mut group.as_mut_ref(), 0, &[(2, 4), (20, 40)]);
    assert_eq!(
        failed,
        ConfigureAction::Failed(Error::PdiTooLong { desired: 64, required: 66 })
    );
    assert!(!group.is_configured());
    assert_eq!(group.pdi_len(), 0);
    assert_eq!(group.group_working_counter(), 0);
    for s in group.slaves() {
        assert_eq!(*s.io_segments(), IoRanges { input: None, output: None });
    }
    assert!(matches!(group.io(0), Some((None, None))));
    assert!(matches!(group.io(1), Some((None, None))));
}

#[test]
fn the_image_may_be_filled_to_the_last_byte() {
    let mut group: SlaveGroup<(), 64> = SlaveGroup::new(());
    group.push(slave(0x1000)).unwrap();
    group.push(slave(0x1001)).unwrap();
    let done = walk(&mut group.as_mut_ref(), 0, &[(2, 4), (18, 40)]);
    assert_eq!(done, ConfigureAction::Done(PdiOffset { start_address: 64 }));
    assert_eq!(group.pdi_len(), 64);
    assert_eq!(group.slaves()[1].io_segments().output, segment(24, 64));
}

#[test]
fn a_slave_that_does_not_fit_fails_the_walk_only_at_its_end() {
    let mut group: SlaveGroup<(), 8> = SlaveGroup::new(());
    group.push(slave(0x1000)).unwrap();
    group.push(slave(0x1001)).unwrap();
    let mut g = group.as_mut_ref();
    g.configure_from_eeprom(ConfigureEvent::Start(PdiOffset { start_address: 0 }));
    g.configure_from_eeprom(ConfigureEvent::SafeOpReached);
    g.configure_from_eeprom(ConfigureEvent::HookDone);
    let next = g.configure_from_eeprom(ConfigureEvent::PdoSizes { input_len: 10, output_len: 0 });
    assert_eq!(next, ConfigureAction::RequestSafeOp { slave: 1 });
    g.configure_from_eeprom(ConfigureEvent::SafeOpReached);
    g.configure_from_eeprom(ConfigureEvent::HookDone);
    let end = g.configure_from_eeprom(ConfigureEvent::PdoSizes { input_len: 1, output_len: 2 });
    assert_eq!(end, ConfigureAction::Failed(Error::PdiTooLong { desired: 8, required: 13 }));
}

#[test]
fn a_group_without_slaves_is_configured_at_once() {
    let mut group: SlaveGroup<(), 64> = SlaveGroup::new(());
    let action = group
        .as_mut_ref()
        .configure_from_eeprom(ConfigureEvent::Start(PdiOffset { start_address: 0x100 }));
    assert_eq!(action, ConfigureAction::Done(PdiOffset { start_address: 0x100 }));
    assert!(group.is_configured());
    assert_eq!(group.pdi_len(), 0);
    assert_eq!(group.group_working_counter(), 0);
    assert_eq!(group.start_address(), 0x100);
}

#[test]
fn the_walk_asks_for_safe_op_hook_and_sizes_in_turn() {
    let mut group: SlaveGroup<(), 64> = SlaveGroup::new(());
    group.push(slave(0x1000)).unwrap();
    group.push(slave(0x1001)).unwrap();
    let mut g = group.as_mut_ref();
    let start = ConfigureEvent::Start(PdiOffset { start_address: 0 });
    assert_eq!(g.configure_from_eeprom(start), ConfigureAction::RequestSafeOp { slave: 0 });
    assert_eq!(
        g.configure_from_eeprom(ConfigureEvent::SafeOpReached),
        ConfigureAction::RunHook { slave: 0 }
    );
    assert_eq!(
        g.configure_from_eeprom(ConfigureEvent::HookDone),
        ConfigureAction::ReadPdoSizes { slave: 0 }
    );
    assert_eq!(
        g.configure_from_eeprom(ConfigureEvent::PdoSizes { input_len: 1, output_len: 1 }),
        ConfigureAction::RequestSafeOp { slave: 1 }
    );
    assert_eq!(
        g.configure_from_eeprom(ConfigureEvent::SafeOpReached),
        ConfigureAction::RunHook { slave: 1 }
    );
    assert_eq!(
        g.configure_from_eeprom(ConfigureEvent::HookDone),
        ConfigureAction::ReadPdoSizes { slave: 1 }
    );
    assert_eq!(
        g.configure_from_eeprom(ConfigureEvent::PdoSizes { input_len: 1, output_len: 1 }),
        ConfigureAction::Done(PdiOffset { start_address: 4 })
    );
}

#[test]
fn a_group_without_a_hook_never_asks_for_it() {
    let mut group: SlaveGroup<(), 64> = SlaveGroup::default();
    group.push(slave(0x1000)).unwrap();
    let mut g = group.as_mut_ref();
    g.configure_from_eeprom(ConfigureEvent::Start(PdiOffset { start_address: 0 }));
    assert_eq!(
        g.configure_from_eeprom(ConfigureEvent::SafeOpReached),
        ConfigureAction::ReadPdoSizes { slave: 0 }
    );
    assert_eq!(
        g.configure_from_eeprom(ConfigureEvent::PdoSizes { input_len: 3, output_len: 0 }),
        ConfigureAction::Done(PdiOffset { start_address: 3 })
    );
    assert_eq!(g.hook(), None);
}

#[test]
fn pdi_len_is_the_sum_of_the_sizes_and_ranges_do_not_overlap() {
    let sizes = [(2u16, 4u16), (0, 3), (5, 0), (0, 0), (1, 1)];
    let mut group: SlaveGroup<(), 64> = SlaveGroup::new(());
    for i in 0..sizes.len() {
        group.push(slave(0x1000 + i as u16)).unwrap();
    }
    let done = walk(&mut group.as_mut_ref(), 0, &sizes);
    assert_eq!(done, ConfigureAction::Done(PdiOffset { start_address: 16 }));
    assert_eq!(group.pdi_len(), 16);

    let expected = [
        (segment(0, 2), segment(2, 6)),
        (None, segment(6, 9)),
        (segment(9, 14), None),
        (None, None),
        (segment(14, 15), segment(15, 16)),
    ];
    let mut covered = [0u8; 16];
    for (s, (input, output)) in group.slaves().iter().zip(expected) {
        assert_eq!(s.io_segments().input, input);
        assert_eq!(s.io_segments().output, output);
        for seg in [&s.io_segments().input, &s.io_segments().output].into_iter().flatten() {
            for byte in seg.bytes.clone() {
                covered[byte] += 1;
            }
        }
    }
    assert_eq!(covered, [1u8; 16]);
}

#[test]
fn the_working_counter_counts_one_for_inputs_and_two_for_outputs() {
    let sizes = [(2u16, 4u16), (0, 3), (5, 0), (0, 0)];
    let mut group: SlaveGroup<(), 64> = SlaveGroup::new(());
    for i in 0..sizes.len() {
        group.push(slave(0x1000 + i as u16)).unwrap();
    }
    walk(&mut group.as_mut_ref(), 0, &sizes);
    assert_eq!(group.group_working_counter(), 3 + 2 + 1);
    let sum: u16 = group.slaves().iter().map(|s| s.io_segments().working_counter_sum()).sum();
    assert_eq!(group.group_working_counter(), sum);
}

#[test]
fn a_second_walk_starts_from_nothing() {
    let mut group: SlaveGroup<(), 64> = SlaveGroup::new(());
    group.push(slave(0x1000)).unwrap();
    walk(&mut group.as_mut_ref(), 0, &[(2, 4)]);
    let done = walk(&mut group.as_mut_ref(), 0x40, &[(1, 0)]);
    assert_eq!(done, ConfigureAction::Done(PdiOffset { start_address: 0x41 }));
    assert_eq!(group.group_working_counter(), 1);
    assert_eq!(group.pdi_len(), 1);
    assert_eq!(group.start_address(), 0x40);
    assert_eq!(group.slaves()[0].io_segments().input, segment(0, 1));
    assert_eq!(group.slaves()[0].io_segments().output, None);
}

#[test]
fn the_offset_is_handed_from_group_to_group() {
    let mut groups: [SlaveGroup<(), 32>; 2] = [SlaveGroup::new(()), SlaveGroup::new(())];
    groups[0].push(slave(0x1000)).unwrap();
    groups[1].push(slave(0x1001)).unwrap();
    assert_eq!(groups.num_groups(), 2);

    let first = walk(&mut groups.group(0).unwrap(), 0, &[(2, 4)]);
    let ConfigureAction::Done(offset) = first else { panic!("the first group is configured") };
    let second = walk(&mut groups.group(1).unwrap(), offset.start_address, &[(8, 0)]);
    assert_eq!(second, ConfigureAction::Done(PdiOffset { start_address: 14 }));

    assert!(groups.group(2).is_none());
    assert_eq!(groups[0].start_address(), 0);
    assert_eq!(groups[0].pdi_len(), 6);
    assert_eq!(groups[1].start_address(), 6);
    assert_eq!(groups[1].pdi_len(), 8);
    assert_eq!(groups[1].slaves()[0].io_segments().input, segment(0, 8));
    assert_eq!(groups[1].group_working_counter(), 1);
}

#[test]
fn a_reference_shows_the_slaves_and_the_hook_of_its_group() {
    let mut group: SlaveGroup<&'static str, 32> = SlaveGroup::new("hook");
    group.push(slave(0x1234)).unwrap();
    let g = group.as_mut_ref();
    assert_eq!(g.hook(), Some(&"hook"));
    assert_eq!(g.slaves().len(), 1);
    assert_eq!(g.slaves()[0].configured_address, 0x1234);
}

#[test]
fn a_failure_on_the_bus_ends_the_walk_and_clears_the_group() {
    let mut group: SlaveGroup<(), 64> = SlaveGroup::new(());
    group.push(slave(0x1000)).unwrap();
    group.push(slave(0x1001)).unwrap();
    let mut g = group.as_mut_ref();
    g.configure_from_eeprom(ConfigureEvent::Start(PdiOffset { start_address: 0 }));
    g.configure_from_eeprom(ConfigureEvent::SafeOpReached);
    g.configure_from_eeprom(ConfigureEvent::HookDone);
    g.configure_from_eeprom(ConfigureEvent::PdoSizes { input_len: 2, output_len: 2 });
    let failed = g.configure_from_eeprom(ConfigureEvent::Failed(Error::StateTransition));
    assert_eq!(failed, ConfigureAction::Failed(Error::StateTransition));
    assert!(!group.is_configured());
    assert_eq!(group.group_working_counter(), 0);
    assert_eq!(*group.slaves()[0].io_segments(), IoRanges { input: None, output: None });
    // The walk is over: what the driver reports now belongs to no walk.
    assert_eq!(
        group.as_mut_ref().configure_from_eeprom(ConfigureEvent::SafeOpReached),
        ConfigureAction::Failed(Error::Internal)
    );
}

#[test]
fn an_event_that_the_walk_does_not_wait_for_ends_it() {
    let mut group: SlaveGroup<(), 64> = SlaveGroup::new(());
    group.push(slave(0x1000)).unwrap();
    let mut g = group.as_mut_ref();
    g.configure_from_eeprom(ConfigureEvent::Start(PdiOffset { start_address: 0 }));
    let action = g.configure_from_eeprom(ConfigureEvent::PdoSizes { input_len: 1, output_len: 1 });
    assert_eq!(action, ConfigureAction::Failed(Error::Internal));
    assert_eq!(
        g.configure_from_eeprom(ConfigureEvent::SafeOpReached),
        ConfigureAction::Failed(Error::Internal)
    );
    assert!(!group.is_configured());
}

#[test]
fn an_event_without_a_walk_leaves_a_configured_group_as_it_is() {
    let mut group: SlaveGroup<(), 64> = SlaveGroup::new(());
    group.push(slave(0x1000)).unwrap();
    walk(&mut group.as_mut_ref(), 0, &[(2, 4)]);
    for event in [
        ConfigureEvent::SafeOpReached,
        ConfigureEvent::HookDone,
        ConfigureEvent::PdoSizes { input_len: 9, output_len: 9 },
        ConfigureEvent::Failed(Error::Timeout),
    ] {
        assert_eq!(
            group.as_mut_ref().configure_from_eeprom(event),
            ConfigureAction::Failed(Error::Internal)
        );
    }
    assert!(group.is_configured());
    assert_eq!(group.pdi_len(), 6);
    assert_eq!(group.group_working_counter(), 3);
    assert_eq!(group.slaves()[0].io_segments().output, segment(2, 6));
}

#[test]
fn an_image_that_leaves_the_address_space_is_refused() {
    let mut group: SlaveGroup<(), 64> = SlaveGroup::new(());
    group.push(slave(0x1000)).unwrap();
    walk(&mut group.as_mut_ref(), 0, &[(2, 4)]);
    let start = ConfigureEvent::Start(PdiOffset { start_address: u32::MAX - 63 });
    assert_eq!(
        group.as_mut_ref().configure_from_eeprom(start),
        ConfigureAction::Failed(Error::AddressOverflow)
    );
    assert!(!group.is_configured());
    assert_eq!(group.pdi_len(), 0);

    let done = walk(&mut group.as_mut_ref(), u32::MAX - 64, &[(60, 4)]);
    assert_eq!(done, ConfigureAction::Done(PdiOffset { start_address: u32::MAX }));
}

#[test]
fn the_largest_slaves_do_not_overflow_the_walk() {
    let mut group: SlaveGroup<(), 64> = SlaveGroup::new(());
    for i in 0..MAX_SLAVES {
        group.push(slave(i as u16)).unwrap();
    }
    let sizes = [(u16::MAX, u16::MAX); MAX_SLAVES];
    let failed = walk(&mut group.as_mut_ref(), 0, &sizes);
    assert_eq!(
        failed,
        ConfigureAction::Failed(Error::PdiTooLong { desired: 64, required: 16 * 2 * 65535 })
    );
}

#[test]
fn io_hands_out_the_slices_of_a_slave() {
    let mut group: SlaveGroup<(), 16> = SlaveGroup::new(());
    group.push(slave(0x1000)).unwrap();
    group.push(slave(0x1001)).unwrap();
    walk(&mut group.as_mut_ref(), 0, &[(2, 4), (3, 1)]);
    let image: Vec<u8> = (10..26).collect();
    assert_eq!(group.tx_rx(Ok((&image, 6))), Ok(()));

    let (input, output) = group.io(0).unwrap();
    assert_eq!(input.unwrap(), &[10, 11]);
    assert_eq!(output.unwrap(), &mut [12, 13, 14, 15]);
    let (input, output) = group.io(1).unwrap();
    assert_eq!(input.unwrap(), &[16, 17, 18]);
    let output = output.unwrap();
    assert_eq!(output, &mut [19]);
    output[0] = 0xaa;
    assert_eq!(group.pdi()[9], 0xaa);
    assert_eq!(&group.pdi()[..9], &image[..9]);
    assert_eq!(&group.pdi()[10..], &image[10..]);
}

#[test]
fn io_has_no_slice_for_a_direction_without_data() {
    let mut group: SlaveGroup<(), 16> = SlaveGroup::new(());
    for i in 0..3 {
        group.push(slave(0x1000 + i)).unwrap();
    }
    walk(&mut group.as_mut_ref(), 0, &[(2, 0), (0, 3), (0, 0)]);
    assert!(matches!(group.io(0), Some((Some(&[0, 0]), None))));
    assert!(matches!(group.io(1), Some((None, Some(&mut [0, 0, 0])))));
    assert!(matches!(group.io(2), Some((None, None))));
}

#[test]
fn io_knows_no_slave_behind_the_last() {
    let mut group: SlaveGroup<(), 16> = SlaveGroup::new(());
    group.push(slave(0x1000)).unwrap();
    walk(&mut group.as_mut_ref(), 0, &[(2, 4)]);
    assert!(group.io(1).is_none());
    assert!(group.io(usize::MAX).is_none());
}

#[test]
fn io_of_a_group_that_is_not_configured_has_no_slices() {
    let mut group: SlaveGroup<(), 16> = SlaveGroup::new(());
    group.push(slave(0x1000)).unwrap();
    assert!(matches!(group.io(0), Some((None, None))));
    // In the middle of a walk the first slave has its ranges, but the group is not ready.
    let mut g = group.as_mut_ref();
    g.configure_from_eeprom(ConfigureEvent::Start(PdiOffset { start_address: 0 }));
    assert!(matches!(group.io(0), Some((None, None))));
}

#[test]
fn io_twice_in_a_row_sees_the_same_bytes() {
    let mut group: SlaveGroup<(), 16> = SlaveGroup::new(());
    group.push(slave(0x1000)).unwrap();
    walk(&mut group.as_mut_ref(), 0, &[(2, 4)]);
    let image: Vec<u8> = (1..17).collect();
    group.tx_rx(Ok((&image, 3))).unwrap();

    let first: (Vec<u8>, Vec<u8>) = {
        let (i, o) = group.io(0).unwrap();
        (i.unwrap().to_vec(), o.unwrap().to_vec())
    };
    let second: (Vec<u8>, Vec<u8>) = {
        let (i, o) = group.io(0).unwrap();
        (i.unwrap().to_vec(), o.unwrap().to_vec())
    };
    assert_eq!(first, (vec![1, 2], vec![3, 4, 5, 6]));
    assert_eq!(first, second);
    assert_eq!(group.pdi(), &image[..]);
}

#[test]
fn what_is_written_to_the_outputs_is_sent_with_the_next_exchange() {
    let mut group: SlaveGroup<(), 8> = SlaveGroup::new(());
    group.push(slave(0x1000)).unwrap();
    walk(&mut group.as_mut_ref(), 0, &[(2, 4)]);
    {
        let (_, output) = group.io(0).unwrap();
        output.unwrap().copy_from_slice(&[1, 2, 3, 4]);
    }
    assert_eq!(group.pdi(), &[0, 0, 1, 2, 3, 4, 0, 0]);
    let (_, output) = group.io(0).unwrap();
    assert_eq!(output.unwrap(), &mut [1, 2, 3, 4]);
}

#[test]
fn scenario_wrong_working_counter() {
    let mut group: SlaveGroup<(), 8> = SlaveGroup::new(());
    group.push(slave(0x1000)).unwrap();
    walk(&mut group.as_mut_ref(), 0, &[(2, 4)]);
    assert_eq!(group.group_working_counter(), 3);
    let received = [9u8, 8, 7, 6, 5, 4, 3, 2];
    assert_eq!(
        group.tx_rx(Ok((&received, 2))),
        Err(Error::WorkingCounter {
            expected: 3,
            received: 2,
            context: Some("group working counter")
        })
    );
    assert_eq!(group.pdi(), &received);
    assert!(group.is_configured());
}

#[test]
fn tx_rx_takes_the_response_into_the_image() {
    let mut group: SlaveGroup<(), 8> = SlaveGroup::new(());
    group.push(slave(0x1000)).unwrap();
    walk(&mut group.as_mut_ref(), 0, &[(2, 4)]);
    let received = [1u8, 2, 3, 4, 5, 6, 7, 8];
    assert_eq!(group.tx_rx(Ok((&received, 3))), Ok(()));
    assert_eq!(group.pdi(), &received);
}

#[test]
fn tx_rx_hands_a_failed_exchange_on_and_keeps_the_image() {
    let mut group: SlaveGroup<(), 8> = SlaveGroup::new(());
    group.push(slave(0x1000)).unwrap();
    walk(&mut group.as_mut_ref(), 0, &[(2, 4)]);
    group.tx_rx(Ok((&[7u8; 8], 3))).unwrap();
    assert_eq!(group.tx_rx(Err(Error::Timeout)), Err(Error::Timeout));
    assert_eq!(group.tx_rx(Err(Error::NoAvailableFrames)), Err(Error::NoAvailableFrames));
    assert_eq!(group.pdi(), &[7u8; 8]);
}

#[test]
fn tx_rx_refuses_a_response_of_another_length() {
    let mut group: SlaveGroup<(), 8> = SlaveGroup::new(());
    group.push(slave(0x1000)).unwrap();
    walk(&mut group.as_mut_ref(), 0, &[(2, 4)]);
    group.tx_rx(Ok((&[7u8; 8], 3))).unwrap();
    assert_eq!(group.tx_rx(Ok((&[1u8; 7], 3))), Err(Error::Pdu(PduError::Decode)));
    assert_eq!(group.tx_rx(Ok((&[1u8; 9], 3))), Err(Error::Pdu(PduError::Decode)));
    assert_eq!(group.pdi(), &[7u8; 8]);
}

#[test]
fn the_exchange_is_one_logical_read_write_of_the_whole_image() {
    let mut group: SlaveGroup<(), 8> = SlaveGroup::new(());
    group.push(slave(0x1000)).unwrap();
    walk(&mut group.as_mut_ref(), 0x0100_0000, &[(2, 4)]);
    group.io(0).unwrap().1.unwrap().copy_from_slice(&[1, 2, 3, 4]);
    let (command, address, data) = group.lrw_request();
    assert_eq!(command, Command::ReadWrite);
    assert_eq!(address, 0x0100_0000);
    assert_eq!(data, &[0, 0, 1, 2, 3, 4, 0, 0]);
}
