use mcquery::ping::PingMeasurement;

#[test]
fn milliseconds_split_into_seconds_and_nanoseconds() {
    assert_eq!(PingMeasurement::from_millis(0), PingMeasurement { secs: 0, nanos: 0 });
    assert_eq!(PingMeasurement::from_millis(999), PingMeasurement { secs: 0, nanos: 999_000_000 });
    assert_eq!(PingMeasurement::from_millis(1000), PingMeasurement { secs: 1, nanos: 0 });
    assert_eq!(
        PingMeasurement::from_millis(u64::MAX),
        PingMeasurement { secs: 18_446_744_073_709_551, nanos: 615_000_000 }
    );
}

#[test]
fn elapsed_time_is_the_difference_of_two_readings() {
    assert_eq!(PingMeasurement::between(10, 10), PingMeasurement { secs: 0, nanos: 0 });
    assert_eq!(
        PingMeasurement::between(1_000, 2_500_001_000),
        PingMeasurement { secs: 2, nanos: 500_000_000 }
    );
    assert_eq!(
        PingMeasurement::between(0, u64::MAX),
        PingMeasurement { secs: 18_446_744_073, nanos: 709_551_615 }
    );
}

#[test]
fn a_clock_that_ran_backwards_measures_zero() {
    assert_eq!(PingMeasurement::between(11, 10), PingMeasurement { secs: 0, nanos: 0 });
}
