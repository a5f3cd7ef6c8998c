use mirage_kernel::delta::FieldDeltaMask;
use mirage_kernel::emission::{EmissionGate, EmissionRequest, EMIT_GATE, MAX_EMIT_PER_TICK};
use mirage_kernel::validation::{EmissionParityReport, EmissionShadowValidator};

fn gate_value() -> f32 {
    f32::from_bits(EMIT_GATE)
}

/// Probabilities of a `width * height` field, all equal to `prob`.
fn field_with_probability(width: usize, height: usize, prob: f32) -> Vec<f32> {
    vec![prob; width * height]
}

fn bits(field: &[f32]) -> Vec<u32> {
    field.iter().map(|p| p.to_bits()).collect()
}

/// Cells whose probability moved by more than `epsilon` since `prev`.
fn delta_from_snap(prev: &[f32], after: &[f32], epsilon: f32) -> FieldDeltaMask {
    let n = after.len();
    let mut mask = FieldDeltaMask::new(n);
    for i in 0..n {
        let p = if i < prev.len() { prev[i] } else { 0.0 };
        if (after[i] - p).abs() > epsilon {
            mask.set(i);
        }
    }
    mask
}

fn delta_from_zero(after: &[f32], epsilon: f32) -> FieldDeltaMask {
    delta_from_snap(&vec![0.0f32; after.len()], after, epsilon)
}

fn run(validator: &mut EmissionShadowValidator, field: &[f32], mask: &FieldDeltaMask, auth: &[EmissionRequest]) -> EmissionParityReport {
    validator.validate_tick(&bits(field), mask, auth).unwrap()
}

#[test]
fn gate_constant_is_five_hundredths() {
    assert_eq!(EMIT_GATE, 0.05f32.to_bits());
}

#[test]
fn dormant_field_emits_nothing() {
    let field = field_with_probability(8, 8, 0.0);
    let mut gate = EmissionGate::new();
    assert_eq!(gate.collect(&bits(&field)).len(), 0);
}

#[test]
fn hot_field_emits_up_to_budget() {
    let field = field_with_probability(16, 16, 1.0);
    let mut gate = EmissionGate::new();
    let requests = gate.collect(&bits(&field));
    assert!(requests.len() <= MAX_EMIT_PER_TICK);
    assert_eq!(requests.len(), MAX_EMIT_PER_TICK);
}

#[test]
fn gate_filters_below_threshold() {
    let field = field_with_probability(4, 4, gate_value() - 0.001);
    let mut gate = EmissionGate::new();
    assert_eq!(gate.collect(&bits(&field)).len(), 0);
}

#[test]
fn emission_requests_are_probability_ordered() {
    let field: Vec<f32> = (0..16).map(|i| if i % 2 == 0 { 0.9 } else { 0.1 }).collect();
    let mut gate = EmissionGate::new();
    let requests = gate.collect(&bits(&field));
    for r in requests {
        assert!(f32::from_bits(r.probability) > gate_value());
    }
}

#[test]
fn cell_index_matches_field_position() {
    let mut field = field_with_probability(4, 4, 0.0);
    field[5] = 1.0;
    let mut gate = EmissionGate::new();
    let requests = gate.collect(&bits(&field));
    assert_eq!(requests.len(), 1);
    assert_eq!(requests[0].cell_index, 5);
}

#[test]
fn newly_crossing_gate_appears_in_both() {
    let mut field = field_with_probability(4, 4, 0.0);
    field[3] = gate_value() + 0.1;
    let mask = delta_from_zero(&field, 0.001);
    let mut auth_gate = EmissionGate::new();
    let mut shadow_val = EmissionShadowValidator::new();
    shadow_val.enable_shadow();
    let auth = auth_gate.collect(&bits(&field)).to_vec();
    let report = run(&mut shadow_val, &field, &mask, &auth);
    assert!(report.all_passed);
    assert_eq!(report.authoritative_count, 1);
    assert_eq!(report.differential_count, 1);
}

#[test]
fn still_eligible_cells_persist_in_differential() {
    let mut field = field_with_probability(4, 4, 0.0);
    field[0] = 0.9;
    let mask1 = delta_from_zero(&field, 0.001);
    let mut auth_gate = EmissionGate::new();
    let mut shadow_val = EmissionShadowValidator::new();
    shadow_val.enable_shadow();
    let auth1 = auth_gate.collect(&bits(&field)).to_vec();
    assert!(run(&mut shadow_val, &field, &mask1, &auth1).all_passed);
    let empty_mask = FieldDeltaMask::new(16);
    let auth2 = auth_gate.collect(&bits(&field)).to_vec();
    assert!(run(&mut shadow_val, &field, &empty_mask, &auth2).all_passed);
}

#[test]
fn cells_dropping_below_gate_are_cleared() {
    let mut field = field_with_probability(4, 4, 0.0);
    field[2] = 0.8;
    let mask1 = delta_from_zero(&field, 0.001);
    let mut auth_gate = EmissionGate::new();
    let mut shadow_val = EmissionShadowValidator::new();
    shadow_val.enable_shadow();
    let a1 = auth_gate.collect(&bits(&field)).to_vec();
    shadow_val.validate_tick(&bits(&field), &mask1, &a1);
    let prev = field.clone();
    field[2] = 0.001;
    let mask2 = delta_from_snap(&prev, &field, 0.001);
    let a2 = auth_gate.collect(&bits(&field)).to_vec();
    let r2 = run(&mut shadow_val, &field, &mask2, &a2);
    assert!(r2.all_passed);
    assert_eq!(r2.authoritative_count, 0);
    assert_eq!(r2.differential_count, 0);
}

#[test]
fn oscillating_threshold_cells() {
    let mut auth_gate = EmissionGate::new();
    let mut shadow_val = EmissionShadowValidator::new();
    shadow_val.enable_shadow();
    let high = gate_value() + 0.05;
    let low = gate_value() - 0.01;
    let mut field = field_with_probability(4, 4, 0.0);
    let mut prev = field.clone();
    for tick in 0..10 {
        field[7] = if tick % 2 == 0 { high } else { low };
        let mask = delta_from_snap(&prev, &field, 0.001);
        let auth = auth_gate.collect(&bits(&field)).to_vec();
        let r = run(&mut shadow_val, &field, &mask, &auth);
        assert!(r.all_passed, "tick {tick} oscillation: {:?}", r);
        prev = field.clone();
    }
}

#[test]
fn budget_truncation_parity() {
    let field = field_with_probability(16, 16, 0.9);
    let mask = delta_from_zero(&field, 0.001);
    let mut auth_gate = EmissionGate::new();
    let mut shadow_val = EmissionShadowValidator::new();
    shadow_val.enable_shadow();
    let auth = auth_gate.collect(&bits(&field)).to_vec();
    let r = run(&mut shadow_val, &field, &mask, &auth);
    assert_eq!(r.authoritative_count, MAX_EMIT_PER_TICK);
    assert_eq!(r.differential_count, MAX_EMIT_PER_TICK);
    assert_eq!(r.authoritative_count, r.differential_count);
}

#[test]
fn deterministic_ordering_parity_unique_probs() {
    let field: Vec<f32> = (0..16).map(|i| gate_value() + 0.01 * (i as f32 + 1.0)).collect();
    let mask = delta_from_zero(&field, 0.001);
    let mut auth_gate = EmissionGate::new();
    let mut shadow_val = EmissionShadowValidator::new();
    shadow_val.enable_shadow();
    let auth = auth_gate.collect(&bits(&field)).to_vec();
    let r = run(&mut shadow_val, &field, &mask, &auth);
    assert!(r.all_passed);
    assert_eq!(r.order_mismatches, 0);
}

#[test]
fn zero_changed_cells_no_eligible() {
    let field = field_with_probability(4, 4, 0.0);
    let empty_mask = FieldDeltaMask::new(16);
    let mut auth_gate = EmissionGate::new();
    let mut shadow_val = EmissionShadowValidator::new();
    shadow_val.enable_shadow();
    let auth = auth_gate.collect(&bits(&field)).to_vec();
    assert_eq!(auth.len(), 0);
    let r = run(&mut shadow_val, &field, &empty_mask, &auth);
    assert!(r.all_passed);
    assert_eq!(r.authoritative_count, 0);
    assert_eq!(r.differential_count, 0);
}

#[test]
fn large_sparse_workload_parity() {
    let mut field = field_with_probability(16, 16, 0.0);
    for &i in &[10usize, 50, 100, 150, 200] {
        field[i] = 0.9;
    }
    let mask = delta_from_zero(&field, 0.001);
    let mut auth_gate = EmissionGate::new();
    let mut shadow_val = EmissionShadowValidator::new();
    shadow_val.enable_shadow();
    let auth = auth_gate.collect(&bits(&field)).to_vec();
    let r = run(&mut shadow_val, &field, &mask, &auth);
    assert!(r.all_passed);
    assert_eq!(r.authoritative_count, 5);
    assert_eq!(r.differential_count, 5);
}

#[test]
fn long_running_eligibility_persistence() {
    let mut field = field_with_probability(4, 4, 0.0);
    field[1] = 0.8;
    let mut auth_gate = EmissionGate::new();
    let mut shadow_val = EmissionShadowValidator::new();
    shadow_val.enable_shadow();
    let mask1 = delta_from_zero(&field, 0.001);
    let a1 = auth_gate.collect(&bits(&field)).to_vec();
    shadow_val.validate_tick(&bits(&field), &mask1, &a1);
    let empty_mask = FieldDeltaMask::new(16);
    for tick in 2..=50 {
        let auth = auth_gate.collect(&bits(&field)).to_vec();
        let r = run(&mut shadow_val, &field, &empty_mask, &auth);
        assert!(r.all_passed, "tick {tick}: {:?}", r);
    }
    assert_eq!(shadow_val.validation_report.ticks_passed, 50);
    assert_eq!(shadow_val.validation_report.ticks_failed, 0);
    assert_eq!(shadow_val.validation_report.consecutive_passes, 50);
}

#[test]
fn disabled_validator_returns_none() {
    let field = field_with_probability(4, 4, 0.0);
    let empty_mask = FieldDeltaMask::new(16);
    let mut validator = EmissionShadowValidator::new();
    assert!(validator.validate_tick(&bits(&field), &empty_mask, &[]).is_none());
}

// ---------------------------------------------------------------------
// Own checks
// ---------------------------------------------------------------------

fn req(cell_index: usize, p: f32) -> EmissionRequest {
    EmissionRequest { cell_index, probability: p.to_bits() }
}

#[test]
fn compare_counts_multiset_differences() {
    let auth = vec![req(3, 0.9), req(1, 0.5), req(1, 0.5), req(7, 0.2)];
    let diff = vec![req(1, 0.5), req(9, 0.3), req(3, 0.9)];
    let r = EmissionParityReport::compare(&auth, &diff);
    assert_eq!((r.authoritative_count, r.differential_count), (4, 3));
    // auth has one extra 1 and the 7; diff has the 9.
    assert_eq!(r.missing_from_differential, 2);
    assert_eq!(r.extra_in_differential, 1);
    // Ranked: auth 3,1,1,7 ; diff 3,1,9 -> position 2 differs.
    assert_eq!(r.order_mismatches, 1);
    assert!(!r.all_passed);
}

#[test]
fn compare_ranks_ties_by_cell_index() {
    let auth = vec![req(5, 0.5), req(2, 0.5)];
    let diff = vec![req(2, 0.5), req(5, 0.5)];
    let r = EmissionParityReport::compare(&auth, &diff);
    assert!(r.all_passed);
    let swapped = vec![req(2, 0.4), req(5, 0.5)];
    let r2 = EmissionParityReport::compare(&auth, &swapped);
    assert_eq!((r2.missing_from_differential, r2.extra_in_differential), (0, 0));
    assert_eq!(r2.order_mismatches, 2);
}

#[test]
fn compare_cuts_inputs_to_the_budget() {
    let auth: Vec<EmissionRequest> = (0..200).map(|i| req(i, 0.5)).collect();
    let diff: Vec<EmissionRequest> = (0..128).map(|i| req(i, 0.5)).collect();
    let r = EmissionParityReport::compare(&auth, &diff);
    assert_eq!((r.authoritative_count, r.differential_count), (128, 128));
    assert!(r.all_passed);
}

#[test]
fn budget_keeps_highest_probabilities() {
    let field: Vec<f32> = (0..200).map(|i| 0.1 + 0.004 * i as f32).collect();
    let mut gate = EmissionGate::new();
    let out = gate.collect(&bits(&field)).to_vec();
    assert_eq!(out.len(), MAX_EMIT_PER_TICK);
    let mut cells: Vec<usize> = out.iter().map(|r| r.cell_index).collect();
    cells.sort();
    assert_eq!(cells, (72..200).collect::<Vec<usize>>());
    assert_eq!(gate.pending_count(), MAX_EMIT_PER_TICK);
}

#[test]
fn sparse_scan_carries_unchanged_eligible_cells_after_changed_ones() {
    let mut field = field_with_probability(4, 4, 0.0);
    field[9] = 0.7;
    let mut gate = EmissionGate::new();
    let m1 = delta_from_zero(&field, 0.001);
    assert_eq!(gate.collect_from_changed(&bits(&field), &m1).len(), 1);
    field[2] = 0.6;
    let mut m2 = FieldDeltaMask::new(16);
    m2.set(2);
    let out: Vec<usize> = gate.collect_from_changed(&bits(&field), &m2).iter().map(|r| r.cell_index).collect();
    assert_eq!(out, vec![2, 9]);
    // An unchanged cell that fell below `EMIT_GATE` is dropped for good.
    field[9] = 0.0;
    let out2: Vec<usize> = gate.collect_from_changed(&bits(&field), &FieldDeltaMask::new(16)).iter().map(|r| r.cell_index).collect();
    assert_eq!(out2, vec![2]);
    field[9] = 0.7;
    let out3: Vec<usize> = gate.collect_from_changed(&bits(&field), &FieldDeltaMask::new(16)).iter().map(|r| r.cell_index).collect();
    assert_eq!(out3, vec![2]);
}

#[test]
fn nan_probability_never_emits() {
    let mut field = field_with_probability(2, 2, 0.0);
    field[1] = f32::NAN;
    let mut gate = EmissionGate::new();
    assert_eq!(gate.collect(&bits(&field)).len(), 0);
}

#[test]
fn sparse_history_emits_what_a_full_scan_emits() {
    let mut field = vec![0.0f32; 32];
    let mut gate = EmissionGate::new();
    let mut prev = field.clone();
    let steps: [&[(usize, f32)]; 4] = [
        &[(1, 0.9), (7, 0.3), (20, 0.06)],
        &[(7, 0.01), (9, 0.5)],
        &[(20, 0.05), (31, 1.0)],
        &[(1, 0.04), (2, 0.7)],
    ];
    for step in steps.iter() {
        for &(i, p) in step.iter() {
            field[i] = p;
        }
        let mut mask = FieldDeltaMask::new(field.len());
        for i in 0..field.len() {
            if field[i].to_bits() != prev[i].to_bits() {
                mask.set(i);
            }
        }
        let mut sparse: Vec<(usize, u32)> =
            gate.collect_from_changed(&bits(&field), &mask).iter().map(|r| (r.cell_index, r.probability)).collect();
        let mut full: Vec<(usize, u32)> =
            EmissionGate::new().collect(&bits(&field)).iter().map(|r| (r.cell_index, r.probability)).collect();
        sparse.sort();
        full.sort();
        assert_eq!(sparse, full);
        prev = field.clone();
    }
    let last: Vec<usize> = {
        let mut g = EmissionGate::new();
        g.collect(&bits(&field)).iter().map(|r| r.cell_index).collect()
    };
    assert_eq!(last, vec![2, 9, 31]);
}
