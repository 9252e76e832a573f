use kernel::boot::start_other_harts;
use kernel::dtb::parse;
use kernel::dtb::Device;
use kernel::dtb::Hart;
use kernel::dtb::MachineMeta;

#[test]
fn empty_description() {
    let meta = MachineMeta::new();
    assert_eq!(meta.phys_mem_start(), 0);
    assert_eq!(meta.phys_mem_size(), 0);
    assert_eq!(meta.hart_count(), 0);
    assert_eq!(meta.device_count(), 0);
}

#[test]
fn parse_of_nothing() {
    let meta = parse(&vec![], &vec![], &vec![]).unwrap();
    assert_eq!(meta.phys_mem_start(), 0);
    assert_eq!(meta.phys_mem_size(), 0);
    assert_eq!(meta.hart_count(), 0);
    assert_eq!(meta.device_count(), 0);
}

#[test]
fn parse_takes_the_last_memory_region() {
    let meta = parse(
        &vec![(0x4000_0000, Some(0x1000)), (0x8000_0000, Some(0x800_0000))],
        &vec![0],
        &vec![],
    )
    .unwrap();
    assert_eq!(meta.phys_mem_start(), 0x8000_0000);
    assert_eq!(meta.phys_mem_size(), 0x800_0000);
}

#[test]
fn parse_lists_cores_and_devices_in_order() {
    let meta = parse(
        &vec![(0x8000_0000, Some(0x800_0000))],
        &vec![0, 1, 5, 3],
        &vec![
            Some((0x1000_8000, Some(0x1000))),
            None,
            Some((0x1000_7000, Some(0x200))),
            None,
            Some((0x1000_1000, Some(0x1000))),
        ],
    )
    .unwrap();
    assert_eq!(meta.hart_count(), 4);
    assert_eq!(meta.hart(0), Hart { hartid: 0, plic_context: 0 });
    assert_eq!(meta.hart(2), Hart { hartid: 5, plic_context: 0 });
    assert_eq!(meta.hart(3), Hart { hartid: 3, plic_context: 0 });
    assert_eq!(meta.device_count(), 3);
    assert_eq!(meta.device(0), Device { base_address: 0x1000_8000, size: 0x1000 });
    assert_eq!(meta.device(1), Device { base_address: 0x1000_7000, size: 0x200 });
    assert_eq!(meta.device(2), Device { base_address: 0x1000_1000, size: 0x1000 });
}

#[test]
fn parse_refuses_a_region_without_a_size() {
    assert!(parse(&vec![(0x8000_0000, None)], &vec![], &vec![]).is_none());
    assert!(parse(&vec![(0x8000_0000, None), (0x9000_0000, Some(1))], &vec![], &vec![]).is_none());
    assert!(parse(&vec![], &vec![], &vec![None, Some((0x1000, None))]).is_none());
}

#[test]
fn parse_refuses_what_ends_past_the_address_range() {
    assert!(parse(&vec![(usize::MAX, Some(1))], &vec![], &vec![]).is_none());
    assert!(parse(&vec![(usize::MAX, Some(0))], &vec![], &vec![]).is_some());
    assert!(parse(&vec![], &vec![], &vec![Some((usize::MAX - 1, Some(2)))]).is_none());
    assert!(parse(&vec![(usize::MAX, Some(1)), (0, Some(1))], &vec![], &vec![]).is_some());
}

#[test]
fn parse_takes_sixteen_cores_and_devices_and_no_more() {
    let cores: Vec<usize> = (0..16).collect();
    let mut nodes: Vec<Option<(usize, Option<usize>)>> = Vec::new();
    for i in 0..16usize {
        nodes.push(Some((0x1000_0000 + i * 0x1000, Some(0x1000))));
        nodes.push(None);
    }
    let meta = parse(&vec![], &cores, &nodes).unwrap();
    assert_eq!(meta.hart_count(), 16);
    assert_eq!(meta.device_count(), 16);
    assert_eq!(meta.hart(15).hartid, 15);
    assert_eq!(meta.device(15).base_address, 0x1000_f000);
    let more_cores: Vec<usize> = (0..17).collect();
    assert!(parse(&vec![], &more_cores, &vec![]).is_none());
    nodes.push(None);
    assert!(parse(&vec![], &cores, &nodes).is_some());
    nodes.push(Some((0x2000_0000, Some(0x1000))));
    assert!(parse(&vec![], &cores, &nodes).is_none());
}

#[test]
fn other_harts_are_all_but_the_one_that_booted() {
    let meta = parse(&vec![], &vec![10, 11, 12, 13], &vec![]).unwrap();
    assert_eq!(start_other_harts(&meta, 0), vec![1, 2, 3]);
    assert_eq!(start_other_harts(&meta, 2), vec![0, 1, 3]);
    assert_eq!(start_other_harts(&meta, 3), vec![0, 1, 2]);
    assert_eq!(start_other_harts(&meta, 4), vec![0, 1, 2, 3]);
    let alone = parse(&vec![], &vec![0], &vec![]).unwrap();
    assert_eq!(start_other_harts(&alone, 0), Vec::<usize>::new());
    assert_eq!(start_other_harts(&MachineMeta::new(), 0), Vec::<usize>::new());
}
