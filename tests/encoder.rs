use microcontroller::motor::{
    drive_duties, AnalogRotaryEncoder, Avg, DcMotor, Differential, DifferentialQuadratureAnalogInput,
    DifferentialQuadratureSamples, MinMax, Mode,
};

#[test]
fn average_does_not_overflow() {
    assert_eq!(<u16 as Avg>::avg(65535, 65535), 65535);
    assert_eq!(<u16 as Avg>::avg(0, 65535), 32767);
    assert_eq!(<u16 as Avg>::avg(100, 201), 150);
}

#[test]
fn tracker_widens_and_classifies() {
    let mut t = MinMax::new(100);
    assert!(!t.update(100));
    // window [100, 200], threshold 150
    assert!(t.update(200));
    assert!(!t.update(120));
    assert!(t.update(160));
    assert!(!t.update(150));
    assert!(t.update(151));
}

#[test]
fn samples_inside_window_never_move_threshold() {
    let mut t = MinMax::new(100);
    t.update(200);
    for _ in 0..3 {
        for v in 100u16..=200 {
            assert_eq!(t.update(v), v > 150);
        }
    }
}

#[test]
fn rising_edge_with_channel_two_high_counts_up() {
    let mut e = AnalogRotaryEncoder::new(32767);
    e.update((0, 0));
    assert_eq!(e.peek(), 0);
    e.update((65535, 65535));
    assert_eq!(e.peek(), 1);
}

#[test]
fn rising_edge_with_channel_two_low_counts_down() {
    let mut e = AnalogRotaryEncoder::new(32767);
    e.update((0, 0));
    e.update((65535, 0));
    assert_eq!(e.peek(), -1);
}

#[test]
fn channel_one_staying_high_counts_once() {
    let mut e = AnalogRotaryEncoder::new(32767);
    e.update((65535, 65535));
    e.update((65535, 65535));
    e.update((65535, 0));
    assert_eq!(e.peek(), 1);
}

#[test]
fn read_consumes_the_count() {
    let mut e = AnalogRotaryEncoder::new(32767);
    for _ in 0..3 {
        e.update((0, 0));
        e.update((65535, 65535));
    }
    assert_eq!(e.peek(), 3);
    assert_eq!(e.read(), 3);
    assert_eq!(e.peek(), 0);
    assert_eq!(e.read(), 0);
}

struct OneShot {
    samples: Option<DifferentialQuadratureSamples<u16>>,
}

impl DifferentialQuadratureAnalogInput<u16> for OneShot {
    fn read_nb(&mut self) -> Option<DifferentialQuadratureSamples<u16>> {
        self.samples.take()
    }
}

#[test]
fn differential_routes_pairs_to_their_encoders() {
    let mut d = Differential {
        left: DcMotor { out: (), encoder: AnalogRotaryEncoder::new(32767) },
        right: DcMotor { out: (), encoder: AnalogRotaryEncoder::new(32767) },
        input: OneShot { samples: Some(DifferentialQuadratureSamples::from_scan([0, 0, 0, 0])) },
    };
    d.update();
    d.input.samples = Some(DifferentialQuadratureSamples::from_scan([65535, 65535, 65535, 0]));
    d.update();
    // nothing new: the encoders keep their counts
    d.update();
    assert_eq!(d.left.encoder.peek(), 1);
    assert_eq!(d.right.encoder.peek(), -1);
}

#[test]
fn scan_buffer_order() {
    let s = DifferentialQuadratureSamples::from_scan([1, 2, 3, 4]);
    assert_eq!(s.left, (1, 2));
    assert_eq!(s.right, (3, 4));
}

#[test]
fn free_mode_drives_one_channel() {
    assert_eq!(drive_duties(300, 1000, Mode::Free), (0, 300));
    assert_eq!(drive_duties(-300, 1000, Mode::Free), (300, 0));
    assert_eq!(drive_duties(0, 1000, Mode::Free), (0, 0));
    assert_eq!(drive_duties(-1000, 1000, Mode::Free), (1000, 0));
}

#[test]
fn brake_mode_offsets_from_full_scale() {
    assert_eq!(drive_duties(300, 1000, Mode::Brake), (1000, 700));
    assert_eq!(drive_duties(-300, 1000, Mode::Brake), (700, 1000));
    assert_eq!(drive_duties(0, 1000, Mode::Brake), (1000, 1000));
    assert_eq!(drive_duties(1000, 1000, Mode::Brake), (1000, 0));
}

#[test]
fn route_none_leaves_encoders() {
    let mut d = Differential {
        left: DcMotor { out: (), encoder: AnalogRotaryEncoder::new(32767) },
        right: DcMotor { out: (), encoder: AnalogRotaryEncoder::new(32767) },
        input: OneShot { samples: None },
    };
    d.route(Some(DifferentialQuadratureSamples::from_scan([0, 0, 0, 0])));
    d.route(None);
    d.route(Some(DifferentialQuadratureSamples::from_scan([65535, 0, 65535, 65535])));
    assert_eq!(d.left.encoder.peek(), -1);
    assert_eq!(d.right.encoder.peek(), 1);
}
