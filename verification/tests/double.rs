use dns_agent::double::{capped_ceiling, capped_nanos, seconds, Double};

fn double(value: f64) -> Double {
    if value == 0.0 {
        return Double::zero();
    }
    let bits = value.to_bits();
    Double {
        mantissa: (bits & 0xf_ffff_ffff_ffff) | 0x10_0000_0000_0000,
        exponent: ((bits >> 52) & 0x7ff) as i64 - 1075,
    }
}

struct Random(u64);

impl Random {
    fn next(&mut self) -> u64 {
        self.0 ^= self.0 << 13;
        self.0 ^= self.0 >> 7;
        self.0 ^= self.0 << 17;
        self.0
    }

    fn value(&mut self) -> f64 {
        let mantissa = (self.next() >> 11) as f64;
        mantissa * 2f64.powi((self.next() % 160) as i32 - 130)
    }
}

#[test]
fn numbers_have_one_form() {
    assert_eq!(Double::whole(0), Double { mantissa: 0, exponent: 0 });
    assert_eq!(Double::whole(1), Double { mantissa: 1 << 52, exponent: -52 });
    assert_eq!(Double::whole(1 << 60), double((1u64 << 60) as f64));
    assert_eq!(Double::ratio(1, 1_000_000_000), double(1.0e-9));
    assert_eq!(Double::ratio(3, 2), double(1.5));
}

#[test]
fn operations_round_as_the_machine_does() {
    let mut random = Random(0x9e37_79b9_7f4a_7c15);
    for _ in 0..20_000 {
        let (a, b) = (random.value(), random.value());
        let (x, y) = (double(a), double(b));
        assert_eq!(x.times(y), double(a * b), "{a} * {b}");
        if b > 0.0 {
            assert_eq!(x.over(y), double(a / b), "{a} / {b}");
        }
        assert_eq!(x.plus(y), double(a + b), "{a} + {b}");
        assert_eq!(x.at_most(y), a <= b);
        assert_eq!(x.least(y), double(a.min(b)));
        let (large, small) = if a >= b { (a, b) } else { (b, a) };
        assert_eq!(double(large).minus(double(small)), double(large - small));
        let n = random.next() >> (random.next() % 60);
        assert_eq!(Double::whole(n.into()), double(n as f64));
    }
}

#[test]
fn times_round_as_the_machine_does() {
    let mut random = Random(0x1234_5678_9abc_def1);
    for _ in 0..20_000 {
        let nanos = random.next() >> (random.next() % 63);
        let duration = std::time::Duration::from_nanos(nanos);
        assert_eq!(seconds(nanos.into()), double(duration.as_secs_f64()), "{nanos}");
        let value = (random.next() >> 11) as f64 * 2f64.powi((random.next() % 90) as i32 - 85);
        if value < 1.0e19 {
            let expected = std::time::Duration::from_secs_f64(value).as_nanos();
            assert_eq!(capped_nanos(double(value), u128::MAX), expected, "{value}");
        }
        assert_eq!(capped_ceiling(double(value)), value.ceil() as u64, "{value}");
    }
    assert_eq!(capped_nanos(Double::whole(3), 5), 5);
    assert_eq!(capped_ceiling(Double::whole(1 << 70)), u64::MAX);
}
