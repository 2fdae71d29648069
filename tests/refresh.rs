use cpu_panel::refresh::{hz_between, hz_to_str, RateMeter, RefreshCounter, COUNTER_MODULUS};

#[test]
fn rates_from_counter_readings() {
    let readings = [0u32, 0, 5, 5, 12];
    let mut meter = RateMeter::new(readings[0]);
    let hz: Vec<u32> = readings[1..].iter().map(|&c| meter.sample(c)).collect();
    assert_eq!(hz, vec![0, 5, 0, 7]);
}

#[test]
fn wrapped_counter_gives_zero() {
    assert_eq!(hz_between(COUNTER_MODULUS - 3, 4), 0);
    assert_eq!(hz_between(100, 160), 60);
}

#[test]
fn counter_ticks_by_one() {
    let mut c = RefreshCounter::new();
    assert_eq!(c.value(), 0);
    for _ in 0..61 {
        c.tick();
    }
    assert_eq!(c.value(), 61);
}

#[test]
fn overlay_text() {
    assert_eq!(hz_to_str(60), b"60 Hz".to_vec());
    assert_eq!(hz_to_str(7), b"7 Hz".to_vec());
    assert_eq!(hz_to_str(0), b"0 Hz".to_vec());
    assert_eq!(hz_to_str(1200), b"1200 Hz".to_vec());
    assert_eq!(hz_to_str(u32::MAX), b"4294967295 Hz".to_vec());
}
