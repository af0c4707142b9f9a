use kernel::frames::{FrameAllocator, PAGE_SIZE};
use kernel::paging::{init_paging, PageTable, PageTables, PagingError, PAGE_USER, PAGE_WRITABLE};
use kernel::uefi::{BootInfo, EFI_MEMORY_DESCRIPTOR};

fn desc(ty: u32, start: u64, pages: u64) -> EFI_MEMORY_DESCRIPTOR {
    EFI_MEMORY_DESCRIPTOR { Type: ty, PhysicalStart: start, VirtualStart: 0, NumberOfPages: pages, Attribute: 0 }
}

fn boot_info() -> BootInfo {
    BootInfo {
        framebuffer_base: 0xFD00_0000,
        framebuffer_size: 0x40_0000,
        horizontal_resolution: 1024,
        vertical_resolution: 768,
        pixels_per_scanline: 1024,
        pixel_format: 1,
        memory_map: 0,
        memory_map_size: 0,
        descriptor_size: 48,
        descriptor_version: 1,
    }
}

#[test]
fn boot_first_frames_scenario() {
    let info = boot_info();
    let mut fa = FrameAllocator::new(&info, vec![desc(7, 0x100000, 4096)]);
    let frames: Vec<u64> = (0..5).map(|_| fa.allocate_frame().unwrap()).collect();
    assert_eq!(frames, vec![0x100000, 0x101000, 0x102000, 0x103000, 0x104000]);
}

#[test]
fn boot_identity_map_scenario() {
    let info = boot_info();
    let mut fa = FrameAllocator::new(&info, vec![desc(7, 0x100000, 4096)]);
    let tables = init_paging(&info, &mut fa).unwrap();
    assert_eq!(tables.root(), 0x100000);
    for addr in [0x100000u64, 0x1FF000, 0x10FF000, 0xFD00_0000, 0xFD3F_F000] {
        let leaf = tables.translate(addr).unwrap();
        assert_eq!(leaf & 0x000F_FFFF_FFFF_F000, addr);
        assert_eq!(leaf & 7, 7);
    }
    assert_eq!(tables.translate(0x1100000), Some(0));
    assert_eq!(tables.translate(0x4000_0000), None);
}

#[test]
fn frames_skip_other_types_and_run_out() {
    let info = boot_info();
    let map = vec![desc(7, 0x1000, 2), desc(3, 0x10000, 4), desc(7, 0x20000, 1)];
    let mut fa = FrameAllocator::new(&info, map.clone());
    let mut got = Vec::new();
    while let Some(f) = fa.allocate_frame() {
        got.push(f);
    }
    assert_eq!(got, vec![0x1000, 0x2000, 0x20000]);
    for f in &got {
        assert!(map.iter().any(|d| d.Type == 7 && d.PhysicalStart <= *f && *f < d.PhysicalStart + d.NumberOfPages * PAGE_SIZE));
    }
    for w in got.windows(2) {
        assert!(w[0] < w[1]);
    }
    assert_eq!(fa.allocate_frame(), None);
}

#[test]
fn frame_zero_is_never_handed_out() {
    let info = boot_info();
    let mut fa = FrameAllocator::new(&info, vec![desc(7, 0, 3), desc(7, 0x5000, 1)]);
    assert_eq!(fa.allocate_frame(), Some(0x1000));
    assert_eq!(fa.allocate_frame(), Some(0x2000));
    assert_eq!(fa.allocate_frame(), Some(0x5000));
    assert_eq!(fa.allocate_frame(), None);
}

#[test]
fn exhausting_every_conventional_page() {
    let info = boot_info();
    let map = vec![desc(7, 0x1000, 3), desc(2, 0x8000, 2), desc(7, 0x9000, 2)];
    let mut fa = FrameAllocator::new(&info, map);
    for _ in 0..5 {
        assert!(fa.allocate_frame().is_some());
    }
    assert_eq!(fa.allocate_frame(), None);
}

#[test]
fn map_page_walk_and_existing_tables() {
    let info = boot_info();
    let mut fa = FrameAllocator::new(&info, vec![desc(7, 0x100000, 64)]);
    let mut pt = PageTables::new(&mut fa).unwrap();
    pt.map_page(0x40_0000, 0x9000, PAGE_WRITABLE | PAGE_USER, &mut fa).unwrap();
    assert_eq!(pt.table_count(), 4);
    assert_eq!(pt.translate(0x40_0000), Some(0x9000 | 7));
    pt.map_page(0x40_1000, 0xA000, PAGE_WRITABLE, &mut fa).unwrap();
    assert_eq!(pt.table_count(), 4);
    assert_eq!(pt.translate(0x40_1000), Some(0xA000 | 3));
    assert_eq!(pt.translate(0x40_0000), Some(0x9000 | 7));
    let (root, pml4) = pt.table(0);
    assert_eq!(root, 0x100000);
    assert_eq!(pml4.entries[0], 0x101000 | 7);
}

#[test]
fn map_page_out_of_frames() {
    let info = boot_info();
    let mut fa = FrameAllocator::new(&info, vec![desc(7, 0x100000, 2)]);
    let mut pt = PageTables::new(&mut fa).unwrap();
    let r = pt.map_page(0x1000, 0x1000, PAGE_WRITABLE, &mut fa);
    assert_eq!(r, Err(PagingError::OutOfMemory));
}

#[test]
fn unaligned_frame_is_refused() {
    let info = boot_info();
    let mut fa = FrameAllocator::new(&info, vec![desc(7, 0x100800, 2)]);
    assert!(matches!(PageTables::new(&mut fa), Err(PagingError::UnusableFrame)));
}

#[test]
fn zeroed_table() {
    let mut t = PageTable { entries: [5u64; 512] };
    t.zero();
    assert!(t.entries.iter().all(|e| *e == 0));
}

#[test]
fn map_page_with_all_tables_takes_no_frame() {
    let info = boot_info();
    let mut fa = FrameAllocator::new(&info, vec![desc(7, 0x100000, 5)]);
    let mut pt = PageTables::new(&mut fa).unwrap();
    pt.map_page(0x40_0000, 0x9000, PAGE_WRITABLE | PAGE_USER, &mut fa).unwrap();
    pt.map_page(0x40_2000, 0xB000, PAGE_WRITABLE | PAGE_USER, &mut fa).unwrap();
    assert_eq!(fa.allocate_frame(), Some(0x104000));
    assert_eq!(fa.allocate_frame(), None);
}

#[test]
fn other_memory_types_stay_unmapped() {
    let mut info = boot_info();
    info.framebuffer_base = 0x80_0000;
    info.framebuffer_size = 0x2000;
    let map = vec![desc(7, 0x100000, 16), desc(8, 0x400000, 4), desc(4, 0x1000, 1)];
    let mut fa = FrameAllocator::new(&info, map);
    let tables = init_paging(&info, &mut fa).unwrap();
    let present = |a: u64| tables.translate(a).map(|e| e & 1 == 1).unwrap_or(false);
    assert!(present(0x100000));
    assert!(present(0x1000));
    assert!(present(0x80_1000));
    assert!(!present(0x400000));
    assert!(!present(0x2000));
    assert!(!present(0x80_2000));
}
