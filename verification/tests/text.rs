use route_guide::geo::Point;

fn text(latitude: i32, longitude: i32) -> String {
    Point { latitude, longitude }.to_text()
}

fn with_floats(latitude: i32, longitude: i32) -> String {
    format!("({}, {})", latitude as f64 / 1e7, longitude as f64 / 1e7)
}

#[test]
fn point_is_written_in_decimal_degrees() {
    assert_eq!(text(409146138, -746188906), "(40.9146138, -74.6188906)");
    assert_eq!(text(410248224, -747127767), "(41.0248224, -74.7127767)");
}

#[test]
fn whole_degrees_have_no_fraction() {
    assert_eq!(text(0, 0), "(0, 0)");
    assert_eq!(text(10000000, -10000000), "(1, -1)");
    assert_eq!(text(1200000000, -900000000), "(120, -90)");
}

#[test]
fn trailing_zeros_are_left_out() {
    assert_eq!(text(405000000, -740100000), "(40.5, -74.01)");
    assert_eq!(text(1000, -1000), "(0.0001, -0.0001)");
}

#[test]
fn small_fractions_keep_their_leading_zeros() {
    assert_eq!(text(1, -1), "(0.0000001, -0.0000001)");
    assert_eq!(text(5, 10000005), "(0.0000005, 1.0000005)");
    assert_eq!(text(9999999, -9999999), "(0.9999999, -0.9999999)");
}

#[test]
fn extreme_coordinates_are_written_in_full() {
    assert_eq!(text(i32::MAX, i32::MIN), "(214.7483647, -214.7483648)");
}

#[test]
fn text_agrees_with_floating_point_formatting() {
    let mut seed: u64 = 0x2545_F491_4F6C_DD1D;
    for _ in 0..200_000 {
        seed = seed.wrapping_mul(6364136223846793005).wrapping_add(1442695040888963407);
        let latitude = (seed >> 32) as i32;
        seed = seed.wrapping_mul(6364136223846793005).wrapping_add(1442695040888963407);
        let longitude = (seed >> 32) as i32;
        assert_eq!(text(latitude, longitude), with_floats(latitude, longitude));
    }
}

#[test]
fn text_agrees_with_floating_point_formatting_near_round_values() {
    let mut bases: Vec<i64> = vec![0, i32::MAX as i64, i32::MIN as i64];
    let mut power: i64 = 1;
    for _ in 0..10 {
        for digit in 1..10 {
            bases.push(digit * power);
            bases.push(-digit * power);
        }
        power *= 10;
    }
    for base in bases.iter() {
        for offset in -1000i64..=1000 {
            let value = base + offset;
            if value < i32::MIN as i64 || value > i32::MAX as i64 {
                continue;
            }
            let raw = value as i32;
            assert_eq!(text(raw, -raw.max(-i32::MAX)), with_floats(raw, -raw.max(-i32::MAX)));
        }
    }
}
