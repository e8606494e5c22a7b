use vm_memory::{Bytes, GuestAddress, GuestMemory, GuestMemoryMmap, GuestMemoryRegion, MmapRegion};
use vm_snapshot::error::SnapshotError;
use vm_snapshot::ram::{
    clone_and_patch_dirty_pages_img, enable_dirty_tracking, extent_of_ranges,
    guest_addr_to_file_offset, image_len, is_mapped, is_readable, layout_from_memory,
    layout_from_ranges, memory_blocks, memory_extent, patch_dirty_blocks, read_dirty_block, read_error,
    restore_pages_img, write_sparse_pages_img, write_whole_pages_img, DirtyBlock, ImagePlan, Patch, RamExtent, RamLayout,
    RamRegion, RegionMapping, RestoredRegions,
    COPY_BLOCK_SIZE,
};

fn memory() -> GuestMemoryMmap {
    GuestMemoryMmap::from_ranges(&[(GuestAddress(0x1000), 0x1000), (GuestAddress(0x4000), 0x2000)])
        .unwrap()
}

fn layout() -> RamLayout {
    RamLayout {
        regions: vec![
            RamRegion { guest_addr: 0x1000, size: 0x1000, file_offset: 0 },
            RamRegion { guest_addr: 0x4000, size: 0x2000, file_offset: 0x1000 },
        ],
    }
}

fn write_image(mem: &GuestMemoryMmap, plan: &ImagePlan, previous: Option<Vec<u8>>) -> Vec<u8> {
    let mut image = match (plan.new_len, previous) {
        (Some(len), None) => vec![0; len as usize],
        (None, Some(previous)) => previous,
        other => panic!("{other:?}"),
    };
    for patch in &plan.patches {
        let bytes = read_dirty_block(mem, patch).unwrap();
        let at = patch.file_offset as usize;
        if image.len() < at + bytes.len() {
            image.resize(at + bytes.len(), 0);
        }
        image[at..at + bytes.len()].copy_from_slice(&bytes);
    }
    image
}

fn whole(mem: &GuestMemoryMmap) -> Vec<u8> {
    let mut bytes = Vec::new();
    for (start, len) in enable_dirty_tracking(mem) {
        let mut part = vec![0; len as usize];
        mem.read_slice(&mut part, GuestAddress(start)).unwrap();
        bytes.extend(part);
    }
    bytes
}

#[test]
fn regions_stand_one_after_the_other() {
    assert_eq!(layout_from_memory(&memory()), layout());
    assert_eq!(layout_from_ranges(&vec![(0x1000, 0x1000), (0x4000, 0x2000)]), layout());
    assert_eq!(layout_from_ranges(&vec![]), RamLayout { regions: vec![] });
}

#[test]
fn tracked_ranges_are_those_of_the_memory() {
    assert_eq!(enable_dirty_tracking(&memory()), vec![(0x1000, 0x1000), (0x4000, 0x2000)]);
}

#[test]
fn addresses_have_their_place_in_the_image() {
    let layout = layout();
    let cases = [
        (0xfff, None),
        (0x1000, Some(0)),
        (0x1fff, Some(0xfff)),
        (0x2000, None),
        (0x3fff, None),
        (0x4000, Some(0x1000)),
        (0x5fff, Some(0x2fff)),
        (0x6000, None),
        (u64::MAX, None),
    ];
    for (addr, offset) in cases {
        assert_eq!(guest_addr_to_file_offset(&layout, addr), offset);
    }
}

#[test]
fn the_first_region_that_holds_an_address_counts() {
    let layout = RamLayout {
        regions: vec![
            RamRegion { guest_addr: 0x1000, size: 0, file_offset: 7 },
            RamRegion { guest_addr: 0x1000, size: 0x10, file_offset: 100 },
            RamRegion { guest_addr: 0x1000, size: 0x20, file_offset: 200 },
        ],
    };
    assert_eq!(guest_addr_to_file_offset(&layout, 0x1008), Some(108));
    assert_eq!(guest_addr_to_file_offset(&layout, 0x1018), Some(224));
}

#[test]
fn a_region_beyond_the_address_may_end_anywhere() {
    let layout = RamLayout {
        regions: vec![
            RamRegion { guest_addr: 0x9000, size: u64::MAX, file_offset: 0 },
            RamRegion { guest_addr: 0x1000, size: 0x10, file_offset: u64::MAX - 1 },
        ],
    };
    assert_eq!(guest_addr_to_file_offset(&layout, 0x1001), Some(u64::MAX));
}

#[test]
fn no_two_addresses_share_a_place_and_every_place_is_taken() {
    let layout = layout();
    let mut taken = vec![false; image_len(&layout) as usize];
    for addr in 0..0x7000 {
        if let Some(offset) = guest_addr_to_file_offset(&layout, addr) {
            assert!(!taken[offset as usize]);
            taken[offset as usize] = true;
        }
    }
    assert!(taken.iter().all(|taken| *taken));
}

#[test]
fn an_image_reaches_to_the_furthest_region() {
    assert_eq!(image_len(&layout()), 0x3000);
    assert_eq!(image_len(&RamLayout { regions: vec![] }), 0);
    let swapped = RamLayout {
        regions: vec![
            RamRegion { guest_addr: 0, size: 0x10, file_offset: 0x100 },
            RamRegion { guest_addr: 0x10, size: 0x20, file_offset: 0 },
        ],
    };
    assert_eq!(image_len(&swapped), 0x110);
}

#[test]
fn extents_are_sums_and_lowest_addresses() {
    assert_eq!(memory_extent(&memory()), RamExtent { total_ram: 0x3000, ram_base: 0x1000 });
    assert_eq!(
        extent_of_ranges(&vec![(0x4000, 5), (0x1000, 7)]),
        RamExtent { total_ram: 12, ram_base: 0x1000 }
    );
    assert_eq!(extent_of_ranges(&vec![]), RamExtent { total_ram: 0, ram_base: u64::MAX });
}

#[test]
fn blocks_outside_the_memory_are_left_out() {
    let blocks = vec![
        DirtyBlock { guest_addr: 0x5000, size: 0x800 },
        DirtyBlock { guest_addr: 0x2000, size: 0x800 },
        DirtyBlock { guest_addr: 0x1000, size: 0x800 },
    ];
    assert_eq!(
        patch_dirty_blocks(&layout(), &blocks),
        vec![
            Patch { guest_addr: 0x5000, size: 0x800, file_offset: 0x2000 },
            Patch { guest_addr: 0x1000, size: 0x800, file_offset: 0 },
        ]
    );
}

#[test]
fn blocks_are_read_from_the_memory() {
    let mem = memory();
    mem.write_slice(&[1, 2, 3, 4], GuestAddress(0x4010)).unwrap();
    assert!(is_readable(&mem));
    let patch = Patch { guest_addr: 0x4010, size: 4, file_offset: 0x1010 };
    assert_eq!(read_dirty_block(&mem, &patch), Ok(vec![1, 2, 3, 4]));
    let empty = Patch { guest_addr: 0x2000, size: 0, file_offset: 0 };
    assert_eq!(read_dirty_block(&mem, &empty), Ok(vec![]));
}

#[test]
fn a_block_may_span_regions_that_touch() {
    let mem: GuestMemoryMmap =
        GuestMemoryMmap::from_ranges(&[(GuestAddress(0), 0x1000), (GuestAddress(0x1000), 0x1000)])
            .unwrap();
    mem.write_slice(&[9; 8], GuestAddress(0xffc)).unwrap();
    let patch = Patch { guest_addr: 0xffc, size: 8, file_offset: 0xffc };
    assert_eq!(read_dirty_block(&mem, &patch), Ok(vec![9; 8]));
}

#[test]
fn a_block_that_leaves_the_memory_cannot_be_read() {
    let patch = Patch { guest_addr: 0x1ff0, size: 0x20, file_offset: 0xff0 };
    assert_eq!(
        read_dirty_block(&memory(), &patch),
        Err(SnapshotError::Io(
            "read dirty block 0x1ff0: PartialBuffer { expected: 32, completed: 16 }".to_string()
        ))
    );
    let patch = Patch { guest_addr: 0x2000, size: 1, file_offset: 0 };
    assert_eq!(
        read_dirty_block(&memory(), &patch),
        Err(SnapshotError::Io(
            "read dirty block 0x2000: InvalidGuestAddress(GuestAddress(8192))".to_string()
        ))
    );
}

#[test]
fn read_errors_name_the_block() {
    assert_eq!(
        read_error(0xab000, "why"),
        SnapshotError::Io("read dirty block 0xab000: why".to_string())
    );
}

#[test]
fn a_sparse_image_is_planned_in_full() {
    let blocks = vec![DirtyBlock { guest_addr: 0x4000, size: 0x1000 }];
    assert_eq!(
        write_sparse_pages_img(&memory(), &blocks),
        ImagePlan {
            layout: layout(),
            new_len: Some(0x3000),
            patches: vec![Patch { guest_addr: 0x4000, size: 0x1000, file_offset: 0x1000 }],
        }
    );
}

#[test]
fn a_cloned_image_keeps_its_length() {
    assert_eq!(
        clone_and_patch_dirty_pages_img(&memory(), &vec![]),
        ImagePlan { layout: layout(), new_len: None, patches: vec![] }
    );
}

#[test]
fn images_hold_the_memory_and_give_it_back() {
    let mem = memory();
    mem.write_slice(&[5; 0x100], GuestAddress(0x1800)).unwrap();
    let first = vec![DirtyBlock { guest_addr: 0x1000, size: 0x1000 }];
    let image = write_image(&mem, &write_sparse_pages_img(&mem, &first), None);
    assert_eq!(image, whole(&mem));

    mem.write_slice(&[6; 0x100], GuestAddress(0x5000)).unwrap();
    mem.write_slice(&[7; 4], GuestAddress(0x1800)).unwrap();
    let since = vec![
        DirtyBlock { guest_addr: 0x5000, size: 0x1000 },
        DirtyBlock { guest_addr: 0x1000, size: 0x1000 },
    ];
    let plan = clone_and_patch_dirty_pages_img(&mem, &since);
    for patch in &plan.patches {
        assert!(patch.file_offset + patch.size <= image_len(&plan.layout));
    }
    let image = write_image(&mem, &plan, Some(image));
    assert_eq!(image, whole(&mem));

    let mut restored = RestoredRegions::new();
    for mapping in restore_pages_img(&plan.layout) {
        let region: MmapRegion = MmapRegion::new(mapping.size).unwrap();
        assert!(is_mapped(&region));
        restored.add_region(region, mapping.guest_addr).unwrap();
    }
    let restored = restored.finish().unwrap();
    for mapping in restore_pages_img(&plan.layout) {
        let at = mapping.file_offset as usize;
        restored
            .write_slice(&image[at..at + mapping.size], GuestAddress(mapping.guest_addr))
            .unwrap();
    }
    assert_eq!(layout_from_memory(&restored), plan.layout);
    assert_eq!(whole(&restored), whole(&mem));
}

#[test]
fn mappings_follow_the_layout() {
    assert_eq!(
        restore_pages_img(&layout()),
        vec![
            RegionMapping { guest_addr: 0x1000, size: 0x1000, file_offset: 0 },
            RegionMapping { guest_addr: 0x4000, size: 0x2000, file_offset: 0x1000 },
        ]
    );
}

#[test]
fn restored_regions_make_a_memory() {
    let mut regions = RestoredRegions::new();
    assert_eq!(regions.add_region(MmapRegion::new(0x2000).unwrap(), 0x1000), Ok(()));
    assert_eq!(regions.add_region(MmapRegion::new(0x1000).unwrap(), 0x3000), Ok(()));
    let mem = regions.finish().unwrap();
    let ranges: Vec<(u64, u64)> = mem.iter().map(|r| (r.start_addr().0, r.len())).collect();
    assert_eq!(ranges, vec![(0x1000, 0x2000), (0x3000, 0x1000)]);
}

#[test]
fn a_region_must_end_within_the_address_space() {
    let mut regions = RestoredRegions::new();
    assert_eq!(
        regions.add_region(MmapRegion::new(0x1000).unwrap(), u64::MAX - 0xfff),
        Err(SnapshotError::Io("invalid guest region".to_string()))
    );
    assert_eq!(regions.add_region(MmapRegion::new(0x1000).unwrap(), u64::MAX - 0x1000), Ok(()));
}

#[test]
fn regions_out_of_order_make_no_memory() {
    let cases = [
        (vec![], "NoMemoryRegion"),
        (vec![0x4000, 0x1000], "UnsortedMemoryRegions"),
        (vec![0x1000, 0x1800], "MemoryRegionOverlap"),
        (vec![0x1000, 0x1800, 0], "MemoryRegionOverlap"),
        (vec![0x1000, 0x1000], "MemoryRegionOverlap"),
    ];
    for (starts, message) in cases {
        let mut regions = RestoredRegions::new();
        for start in starts {
            regions.add_region(MmapRegion::new(0x1000).unwrap(), start).unwrap();
        }
        match regions.finish() {
            Err(error) => assert_eq!(error, SnapshotError::Io(message.to_string())),
            Ok(_) => panic!("{message}"),
        }
    }
}

#[test]
fn a_whole_image_holds_all_of_memory() {
    let mem = memory();
    mem.write_slice(&[5; 0x100], GuestAddress(0x1800)).unwrap();
    mem.write_slice(&[6; 0x100], GuestAddress(0x5000)).unwrap();
    let plan = write_whole_pages_img(&mem);
    assert_eq!(plan.layout, layout());
    assert_eq!(plan.new_len, Some(0x3000));
    assert_eq!(write_image(&mem, &plan, None), whole(&mem));
}

#[test]
fn memory_is_cut_into_blocks() {
    let size = COPY_BLOCK_SIZE;
    assert_eq!(
        memory_blocks(&vec![(0x1000, 2 * size + 5), (8 * size, 0), (9 * size, 3)]),
        vec![
            DirtyBlock { guest_addr: 0x1000, size },
            DirtyBlock { guest_addr: 0x1000 + size, size },
            DirtyBlock { guest_addr: 0x1000 + 2 * size, size: 5 },
            DirtyBlock { guest_addr: 9 * size, size: 3 },
        ]
    );
}

#[test]
fn the_order_and_the_number_of_blocks_do_not_matter() {
    let mem = memory();
    mem.write_slice(&[5; 0x1000], GuestAddress(0x1000)).unwrap();
    mem.write_slice(&[6; 0x800], GuestAddress(0x4400)).unwrap();
    let a = DirtyBlock { guest_addr: 0x1000, size: 0x1000 };
    let b = DirtyBlock { guest_addr: 0x4000, size: 0x1000 };
    let once = write_image(&mem, &write_sparse_pages_img(&mem, &vec![a, b]), None);
    let often = write_image(&mem, &write_sparse_pages_img(&mem, &vec![b, a, b, a]), None);
    assert_eq!(once, often);
    let again = clone_and_patch_dirty_pages_img(&mem, &vec![a, b]);
    assert_eq!(write_image(&mem, &again, Some(once.clone())), once);
}

#[test]
fn a_file_of_any_length_is_patched_alike() {
    let mem = memory();
    mem.write_slice(&[5; 0x1000], GuestAddress(0x1000)).unwrap();
    mem.write_slice(&[6; 0x800], GuestAddress(0x4400)).unwrap();
    let a = DirtyBlock { guest_addr: 0x1000, size: 0x1000 };
    let b = DirtyBlock { guest_addr: 0x4000, size: 0x1000 };
    let plan = clone_and_patch_dirty_pages_img(&mem, &vec![a, b]);
    let other = clone_and_patch_dirty_pages_img(&mem, &vec![b, a, a]);
    for (len, expected) in [(0, 0x2000), (0x1800, 0x2000), (0x3000, 0x3000), (0x5000, 0x5000)] {
        let before = vec![7; len];
        let once = write_image(&mem, &plan, Some(before.clone()));
        assert_eq!(once.len(), expected);
        assert_eq!(once, write_image(&mem, &other, Some(before)));
        assert_eq!(once, write_image(&mem, &plan, Some(once.clone())));
        assert_eq!(once[..0x2000], whole(&mem)[..0x2000]);
        assert!(once[0x2000..].iter().all(|byte| *byte == 7));
    }
}
