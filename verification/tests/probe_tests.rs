use zot_cell::probe::{
    chase, chase_buffer, chase_step, thrash_burst, touch_pages, touched_block, CHASE_BUFFER_BYTES,
    CHASE_HOPS,
};

#[test]
fn chase_buffer_layout() {
    let buf = chase_buffer();
    assert_eq!(buf.len(), CHASE_BUFFER_BYTES);
    assert_eq!(buf[0], 64);
    assert_eq!(buf[64], 128);
    assert_eq!(buf[128], 192);
    assert_eq!(buf[192], 0);
    assert_eq!(buf[1], 0);
    assert_eq!(buf[CHASE_BUFFER_BYTES - 64], 0);
}

#[test]
fn chase_step_goes_to_the_next_line() {
    let buf = chase_buffer();
    assert_eq!(chase_step(&buf, 0), 64);
    assert_eq!(chase_step(&buf, 192), 256);
    assert_eq!(chase_step(&buf, CHASE_BUFFER_BYTES - 64), 0);
}

#[test]
fn chase_visits_lines_in_order() {
    let buf = chase_buffer();
    assert_eq!(chase(&buf, 0), 0);
    assert_eq!(chase(&buf, 3), 192);
    assert_eq!(chase(&buf, 16384), 0);
    assert_eq!(chase(&buf, 16385), 64);
    assert_eq!(chase(&buf, CHASE_HOPS), 0);
}

#[test]
fn allocation_probe_touches_each_page() {
    let block = touched_block();
    assert_eq!(block.len(), 65536);
    assert_eq!(block[0], 1);
    assert_eq!(block[4096], 1);
    assert_eq!(block[61440], 1);
    assert_eq!(block[1], 0);
    assert_eq!(block[4095], 0);
    assert_eq!(block.iter().filter(|&&b| b == 1).count(), 16);
}

#[test]
fn touch_pages_leaves_other_bytes() {
    let mut v = vec![7u8; 5000];
    touch_pages(&mut v);
    assert_eq!(v[0], 1);
    assert_eq!(v[4096], 1);
    assert_eq!(v[1], 7);
    assert_eq!(v[4999], 7);
    let mut empty: Vec<u8> = Vec::new();
    touch_pages(&mut empty);
    assert!(empty.is_empty());
}

#[test]
fn thrash_increments_generated_indices() {
    let mut d = vec![0u8; 10];
    assert_eq!(thrash_burst(&mut d, 7, 1), 0);
    assert_eq!(d[0], 1);
    let mut e = vec![0u8; 10];
    assert_eq!(thrash_burst(&mut e, 7, 3), 0);
    assert_eq!(e, vec![2, 0, 0, 0, 0, 1, 0, 0, 0, 0]);
}

#[test]
fn thrash_wraps_bytes() {
    let mut d = vec![255u8; 1];
    assert_eq!(thrash_burst(&mut d, 0, 1), 0);
    assert_eq!(d[0], 0);
}

#[test]
fn thrash_without_rounds_changes_nothing() {
    let mut d = vec![3u8; 4];
    assert_eq!(thrash_burst(&mut d, 99, 0), 99);
    assert_eq!(d, vec![3u8; 4]);
}
