use winpipe::buffer::{BufferDelta, BufferManager, DeltaRegion, MirrorBuffer};

#[test]
fn test_mirror_buffer_update() {
    let mut buffer = MirrorBuffer::new(1, 100, 100, 4, 400);

    // Create test data
    let data = vec![0xFF; buffer.size()];
    buffer.update(&data);

    assert_eq!(buffer.data[0], 0xFF);
    assert!(buffer.prev_data.is_some());
}

#[test]
fn test_delta_calculation() {
    let mut buffer = MirrorBuffer::new(1, 10, 10, 4, 40);

    // Initial state (all zeros from prev_data = None)
    let initial = vec![0u8; buffer.size()];
    buffer.update(&initial);

    // Modify some data
    let mut modified = initial.clone();
    modified[0..40].fill(0xFF); // First row
    buffer.update(&modified);

    let delta = buffer.calculate_delta();
    assert!(delta.is_some());

    let delta = delta.unwrap();
    assert!(!delta.regions.is_empty());
}

#[test]
fn new_buffer_is_blank() {
    let buffer = MirrorBuffer::new(9, 3, 2, 4, 16);
    assert_eq!(buffer.id, 9);
    assert_eq!(buffer.width, 3);
    assert_eq!(buffer.height, 2);
    assert_eq!(buffer.bpp, 4);
    assert_eq!(buffer.stride, 16);
    assert_eq!(buffer.data, vec![0u8; 32]);
    assert_eq!(buffer.size(), 32);
    assert!(buffer.prev_data.is_none());
    assert!(buffer.dirty_regions.is_empty());
    let empty = MirrorBuffer::new(1, 0, 0, 4, 0);
    assert_eq!(empty.size(), 0);
}

#[test]
fn from_data_keeps_the_pixels() {
    let buffer = MirrorBuffer::from_data(2, 1, 2, 3, 4, vec![1, 2, 3, 4, 5, 6, 7, 8]);
    assert_eq!(buffer.id, 2);
    assert_eq!(buffer.width, 1);
    assert_eq!(buffer.height, 2);
    assert_eq!(buffer.bpp, 3);
    assert_eq!(buffer.stride, 4);
    assert_eq!(buffer.data, vec![1, 2, 3, 4, 5, 6, 7, 8]);
    assert_eq!(buffer.size(), 8);
    assert!(buffer.prev_data.is_none());
}

#[test]
fn update_copies_as_much_as_fits() {
    let mut buffer = MirrorBuffer::from_data(1, 2, 1, 2, 4, vec![1, 2, 3, 4]);
    buffer.update(&[9, 8]);
    assert_eq!(buffer.data, vec![9, 8, 3, 4]);
    assert_eq!(buffer.prev_data, Some(vec![1, 2, 3, 4]));
    buffer.update(&[5, 5, 5, 5, 5, 5]);
    assert_eq!(buffer.data, vec![5, 5, 5, 5]);
    assert_eq!(buffer.prev_data, Some(vec![9, 8, 3, 4]));
    buffer.update(&[]);
    assert_eq!(buffer.data, vec![5, 5, 5, 5]);
    assert_eq!(buffer.prev_data, Some(vec![5, 5, 5, 5]));
}

#[test]
fn update_region_writes_rows_at_their_place() {
    // 4 by 3 pixels of one octet, rows 6 octets apart
    let mut buffer = MirrorBuffer::new(1, 4, 3, 1, 6);
    buffer.update_region(1, 1, 2, 2, &[1, 2, 3, 4]);
    assert_eq!(
        buffer.data,
        vec![
            0, 0, 0, 0, 0, 0, //
            0, 1, 2, 0, 0, 0, //
            0, 3, 4, 0, 0, 0,
        ]
    );
    assert_eq!(buffer.dirty_regions.len(), 1);
    assert_eq!(buffer.dirty_regions[0].x, 1);
    assert_eq!(buffer.dirty_regions[0].y, 1);
    assert_eq!(buffer.dirty_regions[0].width, 2);
    assert_eq!(buffer.dirty_regions[0].height, 2);
    assert!(buffer.prev_data.is_none());
}

#[test]
fn update_region_leaves_out_rows_below_the_buffer() {
    let mut buffer = MirrorBuffer::new(1, 2, 2, 1, 2);
    // three rows from row 1 on: only the first lies within the buffer
    buffer.update_region(0, 1, 2, 3, &[1, 2, 3, 4, 5, 6]);
    assert_eq!(buffer.data, vec![0, 0, 1, 2]);
    // a region that starts below the buffer writes nothing, and is recorded
    buffer.update_region(0, 5, 2, 1, &[7, 7]);
    assert_eq!(buffer.data, vec![0, 0, 1, 2]);
    assert_eq!(buffer.dirty_regions.len(), 2);
}

#[test]
fn update_region_cuts_rows_short() {
    let mut buffer = MirrorBuffer::new(1, 4, 2, 1, 4);
    // the second row of the region has only one octet of data
    buffer.update_region(0, 0, 2, 2, &[1, 2, 3]);
    assert_eq!(buffer.data, vec![1, 2, 0, 0, 3, 0, 0, 0]);
    // a row that would run past the end of the buffer stops there
    buffer.update_region(2, 1, 4, 1, &[9, 9, 9, 9]);
    assert_eq!(buffer.data, vec![1, 2, 0, 0, 3, 0, 9, 9]);
}

#[test]
fn clear_dirty_forgets_the_regions() {
    let mut buffer = MirrorBuffer::new(1, 2, 2, 1, 2);
    buffer.update_region(0, 0, 1, 1, &[1]);
    buffer.update_region(1, 1, 1, 1, &[2]);
    assert_eq!(buffer.dirty_regions.len(), 2);
    buffer.clear_dirty();
    assert!(buffer.dirty_regions.is_empty());
    assert_eq!(buffer.data, vec![1, 0, 0, 2]);
}

#[test]
fn no_delta_without_a_comparable_frame() {
    let mut buffer = MirrorBuffer::new(1, 2, 2, 1, 2);
    assert!(buffer.calculate_delta().is_none());
    buffer.prev_data = Some(vec![1, 2, 3]);
    assert!(buffer.calculate_delta().is_none());
}

#[test]
fn no_delta_without_a_change() {
    let mut buffer = MirrorBuffer::new(1, 2, 2, 1, 2);
    buffer.update(&[1, 2, 3, 4]);
    buffer.update(&[1, 2, 3, 4]);
    assert!(buffer.calculate_delta().is_none());
}

#[test]
fn padding_between_rows_does_not_count() {
    // 2 pixels of one octet per row, rows 4 octets apart
    let mut buffer = MirrorBuffer::new(1, 2, 2, 1, 4);
    buffer.update(&[1, 2, 0, 0, 3, 4, 0, 0]);
    buffer.update(&[1, 2, 9, 9, 3, 4, 9, 9]);
    assert!(buffer.calculate_delta().is_none());
}

#[test]
fn delta_holds_one_region_per_run_of_changed_rows() {
    // 2 by 6 pixels of one octet, rows 3 octets apart
    let mut buffer = MirrorBuffer::new(4, 2, 6, 1, 3);
    buffer.update(&[0; 18]);
    let mut next = vec![0u8; 18];
    // rows 1 and 2 change, and row 5
    next[3] = 1;
    next[4] = 2;
    next[7] = 3;
    next[15] = 4;
    next[16] = 5;
    buffer.update(&next);

    let delta = buffer.calculate_delta().unwrap();
    assert_eq!(delta.buffer_id, 4);
    assert_eq!(delta.regions.len(), 2);
    assert_eq!(delta.regions[0].x, 0);
    assert_eq!(delta.regions[0].y, 1);
    assert_eq!(delta.regions[0].width, 2);
    assert_eq!(delta.regions[0].height, 2);
    assert_eq!(delta.regions[0].data, vec![1, 2, 0, 3]);
    assert_eq!(delta.regions[1].x, 0);
    assert_eq!(delta.regions[1].y, 5);
    assert_eq!(delta.regions[1].width, 2);
    assert_eq!(delta.regions[1].height, 1);
    assert_eq!(delta.regions[1].data, vec![4, 5]);
    assert_eq!(delta.total_bytes, 6);
    // the buffer is as it was
    assert_eq!(buffer.data, next);
    assert_eq!(buffer.prev_data, Some(vec![0u8; 18]));
}

#[test]
fn delta_of_a_wholly_changed_buffer_is_one_region() {
    let mut buffer = MirrorBuffer::new(1, 2, 3, 2, 4);
    buffer.update(&[0; 12]);
    buffer.update(&[1; 12]);
    let delta = buffer.calculate_delta().unwrap();
    assert_eq!(delta.regions.len(), 1);
    assert_eq!(delta.regions[0].y, 0);
    assert_eq!(delta.regions[0].height, 3);
    assert_eq!(delta.regions[0].data, vec![1; 12]);
    assert_eq!(delta.total_bytes, 12);
}

#[test]
fn applying_a_delta_brings_the_mirror_up_to_date() {
    let mut source = MirrorBuffer::new(1, 3, 4, 1, 3);
    let mut mirror = MirrorBuffer::new(1, 3, 4, 1, 3);
    source.update(&[0; 12]);
    let next = vec![0, 0, 0, 1, 2, 3, 0, 0, 0, 4, 5, 6];
    source.update(&next);
    let delta = source.calculate_delta().unwrap();
    assert_eq!(delta.regions.len(), 2);
    mirror.update_region(0, 0, 1, 1, &[0]);
    assert_eq!(mirror.dirty_regions.len(), 1);
    mirror.apply_delta(&delta);
    assert_eq!(mirror.data, next);
    assert!(mirror.dirty_regions.is_empty());
}

#[test]
fn apply_delta_writes_the_regions_in_order() {
    let mut buffer = MirrorBuffer::new(1, 2, 2, 1, 2);
    let delta = BufferDelta {
        buffer_id: 1,
        regions: vec![
            DeltaRegion { x: 0, y: 0, width: 2, height: 2, data: vec![1, 2, 3, 4] },
            DeltaRegion { x: 1, y: 0, width: 1, height: 1, data: vec![9] },
        ],
        total_bytes: 5,
    };
    buffer.apply_delta(&delta);
    assert_eq!(buffer.data, vec![1, 9, 3, 4]);
    assert!(buffer.dirty_regions.is_empty());
}

#[test]
fn manager_creates_finds_and_removes() {
    let mut manager = BufferManager::new();
    assert_eq!(manager.count(), 0);
    assert_eq!(manager.total_memory(), 0);
    assert!(manager.get(1).is_none());

    manager.create(1, 2, 2, 4, 8);
    manager.create(2, 1, 1, 4, 4);
    assert_eq!(manager.count(), 2);
    assert_eq!(manager.total_memory(), 20);
    let first = manager.get(1).unwrap();
    assert_eq!(first.id, 1);
    assert_eq!(first.width, 2);
    assert_eq!(first.stride, 8);
    assert_eq!(first.data, vec![0u8; 16]);
    assert_eq!(manager.get(2).unwrap().size(), 4);
    assert!(manager.get(3).is_none());

    // creating again under the same id replaces the buffer
    manager.create(2, 1, 2, 4, 4);
    assert_eq!(manager.count(), 2);
    assert_eq!(manager.total_memory(), 24);

    let removed = manager.remove(1).unwrap();
    assert_eq!(removed.id, 1);
    assert_eq!(removed.size(), 16);
    assert!(manager.remove(1).is_none());
    assert_eq!(manager.count(), 1);
    assert_eq!(manager.total_memory(), 8);
    assert_eq!(BufferManager::default().count(), 0);
}

#[test]
fn manager_hands_out_buffers_for_writing() {
    let mut manager = BufferManager::new();
    manager.create(5, 2, 1, 1, 2);
    assert!(manager.get_mut(6).is_none());
    {
        let buffer = manager.get_mut(5).unwrap();
        buffer.update(&[7, 8]);
    }
    let buffer = manager.get(5).unwrap();
    assert_eq!(buffer.data, vec![7, 8]);
    assert_eq!(buffer.prev_data, Some(vec![0, 0]));
    assert_eq!(manager.count(), 1);
}
