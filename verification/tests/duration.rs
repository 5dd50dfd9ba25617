use kube_cel::duration::format_cel_duration;

#[test]
fn durations_keep_every_fraction_digit() {
    assert_eq!(format_cel_duration(1_234_567), "1.234567ms");
    assert_eq!(format_cel_duration(1_500_000), "1.5ms");
    assert_eq!(format_cel_duration(2_000_000), "2ms");
    assert_eq!(format_cel_duration(1_500), "1.5µs");
    assert_eq!(format_cel_duration(250), "250ns");
    assert_eq!(format_cel_duration(0), "0s");
    assert_eq!(format_cel_duration(-1_500_000), "-1.5ms");
    assert_eq!(format_cel_duration(3_600_000_000_000), "1h0m0s");
    assert_eq!(format_cel_duration(1_500_000_000), "1.5s");
}
