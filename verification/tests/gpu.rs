use spmm::error::MatError;
use spmm::gpu::{
    advance, assemble_result, decode_entries, entries_buffer_bytes, GpuEvent, GpuStage, MapJoin,
    COUNTER_BYTES, ENTRY_BYTES,
};

fn le(x: u32) -> Vec<u8> {
    vec![x as u8, (x >> 8) as u8, (x >> 16) as u8, (x >> 24) as u8]
}

fn record(row: u32, col: u32, bits: u32) -> Vec<u8> {
    let mut v = le(row);
    v.extend(le(col));
    v.extend(le(bits));
    v
}

#[test]
fn record_layout_is_twelve_bytes() {
    assert_eq!(ENTRY_BYTES, 12);
    assert_eq!(COUNTER_BYTES, 4);
    assert_eq!(record(1, 2, 3).len(), ENTRY_BYTES);
    assert_eq!(entries_buffer_bytes(5), Some(60));
    assert_eq!(entries_buffer_bytes(usize::MAX), None);
}

#[test]
fn decode_reads_little_endian_fields() {
    let mut bytes = record(7, 1, 0x01020304);
    bytes.extend(record(0x00010000, 0xFFFFFFFF, 0));
    let ents = decode_entries(&bytes, 2);
    assert_eq!(ents.len(), 2);
    assert_eq!((ents[0].row, ents[0].col, ents[0].val_bits), (7, 1, 0x01020304));
    assert_eq!((ents[1].row, ents[1].col, ents[1].val_bits), (0x00010000, 0xFFFFFFFF, 0));
}

#[test]
fn assemble_reads_count_and_entries() {
    // counter starts at one: a raw value of 3 means two emitted records
    let counter = le(3);
    let mut data = record(0, 1, 11);
    data.extend(record(1, 0, 22));
    data.extend(record(0, 0, 0)); // unused capacity
    let g = assemble_result(&counter, &data, 3, (2, 2)).unwrap();
    assert_eq!(g.shape, (2, 2));
    assert_eq!(g.data, vec![(0, 1, 11), (1, 0, 22)]);
}

#[test]
fn assemble_rejects_inconsistent_readback() {
    let shape = (2, 2);
    // counter region too short
    assert_eq!(
        assemble_result(&vec![1, 0], &record(0, 0, 0), 1, shape).unwrap_err(),
        MatError::DeviceFailure
    );
    // a zero counter cannot arise from a cursor that starts at one
    assert_eq!(
        assemble_result(&le(0), &record(0, 0, 0), 1, shape).unwrap_err(),
        MatError::DeviceFailure
    );
    // more records than the predicted capacity
    assert_eq!(
        assemble_result(&le(3), &record(0, 0, 0), 1, shape).unwrap_err(),
        MatError::DeviceFailure
    );
    // data region length disagrees with the capacity
    assert_eq!(
        assemble_result(&le(2), &record(0, 0, 0), 2, shape).unwrap_err(),
        MatError::DeviceFailure
    );
    // a coordinate outside the result shape
    assert_eq!(
        assemble_result(&le(2), &record(5, 0, 0), 1, shape).unwrap_err(),
        MatError::DeviceFailure
    );
}

#[test]
fn stage_machine_happy_path() {
    let mut s = GpuStage::Uninitialized;
    for e in [
        GpuEvent::DeviceAcquired,
        GpuEvent::BuffersUploaded,
        GpuEvent::Submitted,
        GpuEvent::MappingsReady,
        GpuEvent::ResultAssembled,
    ] {
        s = advance(s, e).unwrap();
    }
    assert_eq!(s, GpuStage::Done);
}

#[test]
fn stage_machine_failures() {
    assert_eq!(
        advance(GpuStage::Uninitialized, GpuEvent::DeviceRejected).unwrap_err(),
        MatError::ResourceUnavailable
    );
    assert_eq!(
        advance(GpuStage::Dispatched, GpuEvent::MappingFailed).unwrap_err(),
        MatError::DeviceFailure
    );
    // out of order: nothing may be submitted before buffers are loaded
    assert_eq!(
        advance(GpuStage::DeviceReady, GpuEvent::Submitted).unwrap_err(),
        MatError::DeviceFailure
    );
}

#[test]
fn mapping_join_requires_both_signals() {
    let mut j = MapJoin::new();
    assert!(!j.ready());
    j.signal_counter();
    assert!(!j.ready());
    j.signal_data();
    assert!(j.ready());
}
