use disk_emu::{check_transfer, close_step, status_code, zero_block, CloseStep, DiskError, Geometry, Transfer};

/// A store held in memory, driven the way a file-backed device drives its file.
fn create(block_size: i64, block_count: i64) -> (Geometry, Vec<u8>) {
    let g = Geometry::new(b"disk.img", block_size, block_count).unwrap();
    let zero = zero_block(&g);
    let mut store: Vec<u8> = Vec::new();
    for _ in 0..block_count {
        store.extend_from_slice(&zero);
    }
    (g, store)
}

fn write(store: &mut Vec<u8>, g: &Geometry, begin: i64, count: i64, src: &[u8]) -> Result<i64, DiskError> {
    let mut t: Transfer = check_transfer(g, begin, count, src.len())?;
    let mut pos = t.offset() as usize;
    let mut staging = t.staging_buffer();
    while !t.is_complete() {
        t.stage_next(src, &mut staging);
        store[pos..pos + staging.len()].copy_from_slice(&staging);
        pos += staging.len();
    }
    Ok(t.blocks_done())
}

fn read(store: &[u8], g: &Geometry, begin: i64, count: i64, dst: &mut [u8]) -> Result<i64, DiskError> {
    let mut t: Transfer = check_transfer(g, begin, count, dst.len())?;
    let mut pos = t.offset() as usize;
    let mut staging = t.staging_buffer();
    while !t.is_complete() {
        let n = staging.len();
        staging.copy_from_slice(&store[pos..pos + n]);
        t.place_next(&staging, dst);
        pos += n;
    }
    Ok(t.blocks_done())
}

#[test]
fn geometry_accepts_positive_dimensions() {
    let g = Geometry::new(b"img", 512, 4).unwrap();
    assert_eq!(g.block_size, 512);
    assert_eq!(g.block_count, 4);
    assert_eq!(g.byte_len(), 2048);
}

#[test]
fn geometry_rejects_bad_arguments() {
    assert_eq!(Geometry::new(b"img", 0, 4), Err(DiskError::InvalidArgument));
    assert_eq!(Geometry::new(b"img", -8, 4), Err(DiskError::InvalidArgument));
    assert_eq!(Geometry::new(b"img", 512, 0), Err(DiskError::InvalidArgument));
    assert_eq!(Geometry::new(b"img", 512, -1), Err(DiskError::InvalidArgument));
    assert_eq!(Geometry::new(b"", 512, 4), Err(DiskError::InvalidArgument));
    assert_eq!(Geometry::new(b"img", i64::MAX, 2), Err(DiskError::InvalidArgument));
    assert_eq!(Geometry::from_dims(1 << 32, 1 << 31), Err(DiskError::InvalidArgument));
    assert!(Geometry::from_dims(1, i64::MAX).is_ok());
}

#[test]
fn transfer_starts_at_block_offset() {
    let g = Geometry::from_dims(512, 8).unwrap();
    let t = check_transfer(&g, 3, 2, 1024).unwrap();
    assert_eq!(t.offset(), 1536);
    assert_eq!(t.blocks_done(), 0);
    assert!(!t.is_complete());
}

#[test]
fn transfer_errors() {
    let g = Geometry::from_dims(16, 2).unwrap();
    assert!(matches!(check_transfer(&g, -1, 1, 16), Err(DiskError::InvalidArgument)));
    assert!(matches!(check_transfer(&g, 0, 0, 0), Err(DiskError::InvalidArgument)));
    assert!(matches!(check_transfer(&g, 0, -3, 0), Err(DiskError::InvalidArgument)));
    assert!(matches!(check_transfer(&g, 1, 2, 32), Err(DiskError::OutOfRange)));
    assert!(matches!(check_transfer(&g, i64::MAX, 1, 16), Err(DiskError::OutOfRange)));
    assert!(matches!(check_transfer(&g, 0, 2, 31), Err(DiskError::InvalidArgument)));
    assert!(check_transfer(&g, 0, 2, 32).is_ok());
    assert!(check_transfer(&g, 1, 1, 16).is_ok());
}

#[test]
fn stage_next_copies_each_block_in_order() {
    let g = Geometry::from_dims(4, 4).unwrap();
    let src: Vec<u8> = (0u8..8).collect();
    let mut t = check_transfer(&g, 2, 2, src.len()).unwrap();
    let mut staging = t.staging_buffer();
    assert_eq!(staging, vec![0u8; 4]);
    t.stage_next(&src, &mut staging);
    assert_eq!(staging, vec![0, 1, 2, 3]);
    assert_eq!(t.blocks_done(), 1);
    t.stage_next(&src, &mut staging);
    assert_eq!(staging, vec![4, 5, 6, 7]);
    assert!(t.is_complete());
    assert_eq!(t.blocks_done(), 2);
}

#[test]
fn place_next_fills_each_slot() {
    let g = Geometry::from_dims(3, 2).unwrap();
    let mut dst = vec![9u8; 6];
    let mut t = check_transfer(&g, 0, 2, dst.len()).unwrap();
    t.place_next(&[1, 2, 3], &mut dst);
    assert_eq!(dst, vec![1, 2, 3, 9, 9, 9]);
    t.place_next(&[4, 5, 6], &mut dst);
    assert_eq!(dst, vec![1, 2, 3, 4, 5, 6]);
    assert!(t.is_complete());
}

#[test]
fn zero_block_has_block_size_zero_bytes() {
    let g = Geometry::from_dims(7, 3).unwrap();
    assert_eq!(zero_block(&g), vec![0u8; 7]);
}

#[test]
fn fresh_device_reads_zero() {
    let (g, store) = create(8, 5);
    assert_eq!(store.len(), 40);
    for b in 0..5 {
        let mut dst = vec![0xFFu8; 8];
        assert_eq!(read(&store, &g, b, 1, &mut dst), Ok(1));
        assert_eq!(dst, vec![0u8; 8]);
    }
    let mut all = vec![1u8; 40];
    assert_eq!(read(&store, &g, 0, 5, &mut all), Ok(5));
    assert_eq!(all, vec![0u8; 40]);
}

#[test]
fn write_then_read_round_trip() {
    let (g, mut store) = create(4, 6);
    let buf: Vec<u8> = (10u8..22).collect();
    assert_eq!(write(&mut store, &g, 2, 3, &buf), Ok(3));
    assert_eq!(store.len(), 24);
    let mut back = vec![0u8; 12];
    assert_eq!(read(&store, &g, 2, 3, &mut back), Ok(3));
    assert_eq!(back, buf);
    assert_eq!(&store[..8], &[0u8; 8]);
    assert_eq!(&store[20..], &[0u8; 4]);
}

#[test]
fn out_of_range_leaves_store_unchanged() {
    let (g, mut store) = create(4, 3);
    let buf = vec![5u8; 8];
    assert_eq!(write(&mut store, &g, 2, 2, &buf), Err(DiskError::OutOfRange));
    let mut dst = vec![0u8; 8];
    assert_eq!(read(&store, &g, 2, 2, &mut dst), Err(DiskError::OutOfRange));
    assert_eq!(store, vec![0u8; 12]);
}

#[test]
fn bad_begin_or_count_is_invalid_argument() {
    let (g, mut store) = create(4, 3);
    let buf = vec![5u8; 4];
    let mut dst = vec![0u8; 4];
    assert_eq!(write(&mut store, &g, -1, 1, &buf), Err(DiskError::InvalidArgument));
    assert_eq!(read(&store, &g, -1, 1, &mut dst), Err(DiskError::InvalidArgument));
    assert_eq!(write(&mut store, &g, 0, 0, &[]), Err(DiskError::InvalidArgument));
    assert_eq!(read(&store, &g, 0, 0, &mut []), Err(DiskError::InvalidArgument));
    assert_eq!(store, vec![0u8; 12]);
}

#[test]
fn close_without_device_reports_failure() {
    let step = close_step(false);
    assert_eq!(step, CloseStep::NothingToClose);
    assert_eq!(step.status(), -1);
    let step = close_step(true);
    assert_eq!(step, CloseStep::Release);
    assert_eq!(step.status(), 0);
}

#[test]
fn status_codes() {
    assert_eq!(status_code(Ok(3)), 3);
    assert_eq!(status_code(Err(DiskError::InvalidArgument)), -1);
    assert_eq!(status_code(Err(DiskError::OutOfRange)), -1);
    assert_eq!(status_code(Err(DiskError::IoFailure)), -1);
}

#[test]
fn scenario_middle_blocks_written() {
    let (g, mut store) = create(512, 4);
    let buf = vec![0xABu8; 1024];
    assert_eq!(write(&mut store, &g, 1, 2, &buf), Ok(2));
    let mut all = vec![0u8; 2048];
    assert_eq!(read(&store, &g, 0, 4, &mut all), Ok(4));
    assert!(all[..512].iter().all(|&b| b == 0));
    assert!(all[512..1536].iter().all(|&b| b == 0xAB));
    assert!(all[1536..].iter().all(|&b| b == 0));
}

#[test]
fn scenario_write_past_end_refused() {
    let (g, mut store) = create(16, 2);
    let buf = vec![0x11u8; 32];
    assert_eq!(write(&mut store, &g, 1, 2, &buf), Err(DiskError::OutOfRange));
    let mut block = vec![0xFFu8; 16];
    assert_eq!(read(&store, &g, 1, 1, &mut block), Ok(1));
    assert_eq!(block, vec![0u8; 16]);
}
