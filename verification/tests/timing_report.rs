use rust_o_mapper::map::{format_micros, stop_timer_and_get_formatted_time};

#[test]
fn formats_microseconds_as_seconds() {
    assert_eq!(format_micros(0), "0.000000");
    assert_eq!(format_micros(1_000_005), "1.000005");
    assert_eq!(format_micros(999_999), "0.999999");
    assert_eq!(format_micros(123_456_789), "123.456789");
    for m in [0u64, 7, 1_000_000, 59_000_123, 4_294_967_295_000_000] {
        let seconds: u32 = (m / 1_000_000) as u32;
        assert_eq!(format_micros(m), format!("{}.{:06}", seconds, m % 1_000_000));
    }
}

#[test]
fn accumulates_the_total_time() {
    let mut total: u64 = 10;
    let text = stop_timer_and_get_formatted_time(2_500_000, &mut total);
    assert_eq!(text, "2.500000");
    assert_eq!(total, 2_500_010);
    let text = stop_timer_and_get_formatted_time(1, &mut total);
    assert_eq!(text, "0.000001");
    assert_eq!(total, 2_500_011);
}
