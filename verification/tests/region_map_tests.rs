use mirage_kernel::delta::FieldDeltaMask;
use mirage_kernel::region_map::{
    classify_region, RegionMap, RegionShadowValidator, ACTIVE_THRESHOLD, DORMANT_THRESHOLD,
    HOT_THRESHOLD,
};
use mirage_kernel::regions::RegionActivityState;
use mirage_kernel::validation::{DifferentialRegionMode, RegionParityReport};

/// Refresh every region of `map` (or the listed ones) from `field`: peak and
/// active count from the library's scan, mean summed here in `f32`.
fn refresh_regions(map: &mut RegionMap, field: &[f32], only: Option<&[usize]>) {
    let probs: Vec<u32> = field.iter().map(|p| p.to_bits()).collect();
    let all: Vec<usize> = (0..map.region_count()).collect();
    let indices = only.unwrap_or(&all);
    for &idx in indices {
        let (peak, active, scanned) = map.scan_region(idx, &probs);
        let region = *map.get(idx).unwrap();
        let cells = region.bounds.iter_cells();
        let mut sum = 0.0f32;
        for &c in &cells[..scanned] {
            sum += field[c];
        }
        let count = region.bounds.cell_count();
        let mean = if count > 0 { sum / count as f32 } else { 0.0 };
        map.apply_region_stats(idx, mean.to_bits(), peak, active);
    }
}

#[test]
fn region_thresholds_are_the_documented_values() {
    assert_eq!(DORMANT_THRESHOLD, 0.02f32.to_bits());
    assert_eq!(ACTIVE_THRESHOLD, 0.15f32.to_bits());
    assert_eq!(HOT_THRESHOLD, 0.5f32.to_bits());
}

#[test]
fn region_map_creation_4x4_field() {
    let map = RegionMap::new(4, 4);
    assert_eq!(map.region_count(), 1);
}

#[test]
fn region_map_16x16_field() {
    let map = RegionMap::new(16, 16);
    assert_eq!(map.region_count(), 4);
    assert_eq!(map.region_grid_dims(), (2, 2));
}

#[test]
fn dormant_field_all_dormant_regions() {
    let field = vec![0.0f32; 256];
    let mut map = RegionMap::new(16, 16);
    refresh_regions(&mut map, &field, None);
    let stats = map.activity_stats();
    assert_eq!(stats.dormant, 4);
    assert_eq!(stats.active, 0);
}

#[test]
fn hot_cell_makes_region_active() {
    let mut field = vec![0.0f32; 256];
    field[0] = 0.8;
    let mut map = RegionMap::new(16, 16);
    refresh_regions(&mut map, &field, None);
    assert_eq!(map.get(0).unwrap().activity, RegionActivityState::Hot);
}

#[test]
fn region_for_cell_correct() {
    let map = RegionMap::new(16, 16);
    assert_eq!(map.region_for_cell(0), 0);
    assert_eq!(map.region_for_cell(9), 1);
    assert_eq!(map.region_for_cell(128 + 8), 3);
}

#[test]
fn iter_active_filters_dormant() {
    let mut field = vec![0.0f32; 256];
    field[8] = 0.6;
    let mut map = RegionMap::new(16, 16);
    refresh_regions(&mut map, &field, None);
    let active = map.iter_active();
    assert_eq!(active.len(), 1);
    assert_eq!(active[0].region_idx, 1);
}

#[test]
fn region_bounds_cut_at_the_field_edge() {
    let map = RegionMap::new(10, 3);
    assert_eq!(map.region_grid_dims(), (2, 1));
    let last = map.get(1).unwrap();
    assert_eq!((last.bounds.x_start, last.bounds.x_end, last.bounds.y_start, last.bounds.y_end), (8, 10, 0, 3));
    assert_eq!(last.bounds.cell_count(), 6);
    assert!(map.get(2).is_none());
}

#[test]
fn classification_tiers() {
    let b = |x: f32| x.to_bits();
    assert_eq!(classify_region(b(0.6), 0, b(0.0)), RegionActivityState::Hot);
    assert_eq!(classify_region(b(0.5), 1, b(0.0)), RegionActivityState::Active);
    assert_eq!(classify_region(b(0.1), 0, b(0.03)), RegionActivityState::Warming);
    assert_eq!(classify_region(b(0.1), 0, b(0.02)), RegionActivityState::Dormant);
    assert_eq!(classify_region(f32::NAN.to_bits(), 0, f32::NAN.to_bits()), RegionActivityState::Dormant);
}

#[test]
fn warming_region_and_streaming_eligibility() {
    let mut field = vec![0.0f32; 256];
    for c in (0usize..8).chain(16..24) {
        field[c] = 0.1;
    }
    let mut map = RegionMap::new(16, 16);
    refresh_regions(&mut map, &field, None);
    assert_eq!(map.get(0).unwrap().activity, RegionActivityState::Warming);
    assert_eq!(map.iter_streaming_eligible().len(), 1);
    assert!(map.iter_active().is_empty());
    assert!(!map.cell_is_dormant(0));
    assert!(map.cell_is_dormant(8));
    assert!(map.cell_is_dormant(10_000));
}

#[test]
fn changed_regions_lists_each_region_once() {
    let map = RegionMap::new(16, 16);
    let mut mask = FieldDeltaMask::new(256);
    for c in [0usize, 1, 9, 130, 255] {
        mask.set(c);
    }
    let mut regions = map.changed_regions(&mask, 256);
    regions.sort();
    assert_eq!(regions, vec![0, 1, 2, 3]);
    let mut cut = map.changed_regions(&mask, 100);
    cut.sort();
    assert_eq!(cut, vec![0, 1]);
}

#[test]
fn region_shadow_validation_detects_divergence() {
    let mut field = vec![0.0f32; 256];
    field[8] = 0.6;
    let mut authoritative = RegionMap::new(16, 16);
    refresh_regions(&mut authoritative, &field, None);

    let mut validator = RegionShadowValidator::new(16, 16);
    validator.record_parity(&authoritative);
    assert!(validator.last_report.is_none());
    validator.enable_shadow();
    assert_eq!(validator.mode, DifferentialRegionMode::ShadowValidation);

    // Sparse refresh of the changed regions only.
    let mut mask = FieldDeltaMask::new(256);
    mask.set(8);
    let changed = validator.shadow_region_map.changed_regions(&mask, 256);
    refresh_regions(&mut validator.shadow_region_map, &field, Some(&changed));
    validator.record_parity(&authoritative);
    let r = validator.last_report.clone().unwrap();
    assert_eq!(r.region_transitions_checked, 4);
    assert_eq!(r.mismatched_region_states, 0);
    assert!(r.active_region_count_match && r.dormant_region_count_match && r.hot_region_count_match);
    assert_eq!(validator.validation_report.consecutive_passes, 1);

    // The field moves but the shadow grid is not told: divergence.
    field[130] = 0.9;
    refresh_regions(&mut authoritative, &field, None);
    validator.record_parity(&authoritative);
    let r2 = validator.last_report.clone().unwrap();
    assert_eq!(r2.mismatched_region_states, 1);
    assert!(r2.severe_divergence && !r2.hot_region_count_match);
    assert_eq!(validator.validation_report.severe_divergence_events, 1);
    let direct = RegionParityReport::compare(&validator.shadow_region_map, &authoritative);
    assert_eq!(direct.mismatched_region_states, 1);
}

#[test]
fn region_scan_depends_only_on_region_cells() {
    let map = RegionMap::new(16, 8);
    let mut p = vec![0.0f32.to_bits(); 128];
    let mut q = p.clone();
    p[3] = 0.9f32.to_bits();
    q[3] = 0.9f32.to_bits();
    q[12] = 0.8f32.to_bits();
    assert_eq!(map.scan_region(0, &p), map.scan_region(0, &q));
    assert_ne!(map.scan_region(1, &p), map.scan_region(1, &q));
}
