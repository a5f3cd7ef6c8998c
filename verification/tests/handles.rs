use mirage_kernel::field_handle::{
    ActivationDescriptor, ExecutionDescriptor, FieldCellHandle, StreamingDescriptor, StreamingEligibility,
};
use mirage_kernel::pool::{Handle, LocalUuid, RuntimeDirectory};

#[test]
fn field_cell_handle_from_grid() {
    let h = FieldCellHandle::from_grid(2, 3, 10);
    assert_eq!(h.index(), 32);
}

#[test]
fn from_legacy_chunk_idx_is_identity() {
    let h = FieldCellHandle::from_legacy_chunk_idx(42);
    assert_eq!(h.index(), 42);
    assert_eq!(h.as_chunk_idx(), 42);
}

#[test]
fn streaming_descriptor_from_legacy() {
    let sd = StreamingDescriptor::from_legacy(7, 3);
    assert_eq!(sd.field_handle.index(), 7);
    assert_eq!(sd.oasis_page_id, 3);
}

#[test]
fn field_cell_handle_ordering() {
    let a = FieldCellHandle::new(5);
    let b = FieldCellHandle::new(10);
    assert!(a < b);
}

#[test]
fn field_cell_handle_conversions() {
    let a: FieldCellHandle = 9usize.into();
    let b: FieldCellHandle = 9u32.into();
    assert_eq!(a, b);
    let legacy = Handle::new(11, 4);
    assert_eq!(FieldCellHandle::from_legacy_handle(&legacy).index(), 11);
    assert_eq!(FieldCellHandle::new((1usize << 32) + 5).as_chunk_idx(), 5);
}

#[test]
fn registered_handle_resolves_to_its_record() {
    let mut dir = RuntimeDirectory::new(16);
    let h0 = dir.register_entity(LocalUuid([1u8; 16]), 10, 20, 30);
    let h1 = dir.register_entity(LocalUuid([2u8; 16]), 11, 21, 31);
    assert_eq!(h0.index(), 0);
    assert_eq!(h1.index(), 1);
    assert_eq!(h0.generation(), 1);
    let m0 = dir.get_mapping(h0).unwrap();
    assert_eq!((m0.page_id, m0.chunk_idx, m0.slot_idx, m0.generation, m0.is_alive), (10, 20, 30, 1, true));
    let m1 = dir.get_mapping(h1).unwrap();
    assert_eq!((m1.page_id, m1.chunk_idx, m1.slot_idx), (11, 21, 31));
}

#[test]
fn stale_or_unknown_handles_do_not_resolve() {
    let mut dir = RuntimeDirectory::new(4);
    let h = dir.register_entity(LocalUuid::zero(), 1, 2, 3);
    assert!(dir.get_mapping(Handle::new(h.index(), 2)).is_none());
    assert!(dir.get_mapping(Handle::new(5, 1)).is_none());
    assert!(dir.get_mapping(Handle::none()).is_none());
    // Re-registering the same UUID issues a fresh record.
    let h2 = dir.register_entity(LocalUuid::zero(), 4, 5, 6);
    assert_eq!(h2.index(), 1);
    assert_eq!(dir.get_mapping(h).unwrap().page_id, 1);
    assert_eq!(dir.get_mapping(h2).unwrap().page_id, 4);
}

#[test]
fn streaming_eligibility_none_below_prefetch() {
    let e = StreamingEligibility::classify(0.01f32.to_bits());
    assert_eq!(e, StreamingEligibility::Ineligible);
}

#[test]
fn streaming_eligibility_prefetch_in_range() {
    let e = StreamingEligibility::classify(0.05f32.to_bits());
    assert_eq!(e, StreamingEligibility::PrefetchEligible);
}

#[test]
fn streaming_eligibility_resident_above_threshold() {
    let e = StreamingEligibility::classify(0.40f32.to_bits());
    assert_eq!(e, StreamingEligibility::ResidentEligible);
}

#[test]
fn streaming_eligibility_thresholds_are_inclusive() {
    assert_eq!(StreamingEligibility::classify(0.03f32.to_bits()), StreamingEligibility::PrefetchEligible);
    assert_eq!(StreamingEligibility::classify(0.35f32.to_bits()), StreamingEligibility::ResidentEligible);
    assert_eq!(StreamingEligibility::classify(f32::NAN.to_bits()), StreamingEligibility::Ineligible);
    assert_eq!(StreamingEligibility::classify((-1.0f32).to_bits()), StreamingEligibility::Ineligible);
}

#[test]
fn activation_descriptor_is_copy() {
    let d = ActivationDescriptor { cell_index: 3, execution_probability: 0.7f32.to_bits(), activation: 0.6f32.to_bits() };
    let d2 = d;
    assert_eq!(d2.cell_index, 3);
}

#[test]
fn execution_descriptor_is_copy() {
    let d = ExecutionDescriptor { cell_index: 5, priority: 0.8f32.to_bits(), deadline_frame: 100, is_prefetch_hint: false };
    let d2 = d;
    assert_eq!(d2.cell_index, 5);
}
