use llm_utils::map_to_range_scaled;

fn mapped(min: u32, max: u32, target: u32) -> f32 {
    map_to_range_scaled(min, max, target) as f32 / 100.0
}

#[test]
fn test_target_at_min() {
    assert_eq!(mapped(0, 100, 0), 0.0);
    assert_eq!(mapped(10, 20, 0), 10.0);
}

#[test]
fn test_target_at_max() {
    assert_eq!(mapped(0, 100, 100), 100.0);
    assert_eq!(mapped(10, 20, 100), 20.0);
}

#[test]
fn test_target_in_middle() {
    assert_eq!(mapped(0, 100, 50), 50.0);
    assert_eq!(mapped(10, 20, 50), 15.0);
    assert_eq!(mapped(0, 1, 50), 0.5);
}

#[test]
fn test_target_out_of_bounds() {
    assert_eq!(mapped(0, 100, 3000), 100.0);
    assert_eq!(mapped(0, 100, 200), 100.0);
    assert_eq!(mapped(10, 20, 200), 20.0);
}

#[test]
fn test_zero_range() {
    assert_eq!(mapped(10, 10, 50), 10.0);
    assert_eq!(mapped(5, 5, 100), 5.0);
}

#[test]
fn test_negative_behavior_not_applicable() {
    assert_eq!(mapped(0, 100, 0), 0.0);
}

#[test]
fn test_scaled_values_are_exact() {
    assert_eq!(map_to_range_scaled(0, 1, 50), 50);
    assert_eq!(map_to_range_scaled(10, 20, 50), 1500);
    assert_eq!(map_to_range_scaled(0, 100, 101), 10000);
    assert_eq!(map_to_range_scaled(3, 7, 25), 400);
}
