use adaptive_concurrency::number::binary64::Binary64;

fn number(x: f64) -> Binary64 {
    Binary64::from_bits(x.to_bits())
}

fn float(x: Binary64) -> f64 {
    f64::from_bits(x.to_bits())
}

struct Source(u64);

impl Source {
    fn next(&mut self) -> u64 {
        self.0 ^= self.0 << 13;
        self.0 ^= self.0 >> 7;
        self.0 ^= self.0 << 17;
        self.0
    }

    fn number(&mut self) -> f64 {
        let bits = self.next();
        match self.next() % 6 {
            // any exponent
            0 => f64::from_bits(bits),
            // near one
            1 => f64::from_bits((bits & 0x800f_ffff_ffff_ffff) | ((1013 + self.next() % 20) << 52)),
            // an integer
            2 => (bits >> (self.next() % 64)) as f64,
            // subnormal
            3 => f64::from_bits(bits & 0x800f_ffff_ffff_ffff),
            // few significant digits
            4 => f64::from_bits(bits & 0xffff_f000_0000_0000),
            _ => special(bits),
        }
    }
}

fn special(i: u64) -> f64 {
    let all = [
        0.0,
        -0.0,
        1.0,
        -1.0,
        0.5,
        f64::MAX,
        f64::MIN,
        f64::MIN_POSITIVE,
        f64::EPSILON,
        f64::INFINITY,
        f64::NEG_INFINITY,
        f64::NAN,
        5e-324,
        9007199254740991.0,
        9007199254740992.0,
        18446744073709551615.0,
        0.49999999999999994,
        4503599627370495.5,
    ];
    all[(i % all.len() as u64) as usize]
}

fn same(soft: Binary64, hard: f64, what: &str) {
    if hard.is_nan() {
        assert!(float(soft).is_nan(), "{}: {:?}", what, soft);
    } else {
        assert_eq!(soft.to_bits(), hard.to_bits(), "{}: {:?} for {:?}", what, float(soft), hard);
    }
}

#[test]
fn arithmetic_agrees_with_the_hardware() {
    let mut source = Source(0x1234_5678_9abc_def1);
    for _ in 0..60_000 {
        let x = source.number();
        let y = source.number();
        same(number(x).plus(number(y)), x + y, "sum");
        same(number(x).times(number(y)), x * y, "product");
        same(number(x).over(number(y)), x / y, "quotient");
        assert_eq!(number(x).below(number(y)), x < y, "{} < {}", x, y);
        assert_eq!(number(x).at_most(number(y)), x <= y, "{} <= {}", x, y);
    }
}

#[test]
fn near_cancellation_agrees_with_the_hardware() {
    let mut source = Source(77);
    for _ in 0..60_000 {
        let x = source.number();
        let y = f64::from_bits((-x).to_bits().wrapping_add(source.next() % 5).wrapping_sub(2));
        same(number(x).plus(number(y)), x + y, "sum");
        let far = x * 2f64.powi((source.next() % 140) as i32);
        same(number(far).plus(number(-x)), far - x, "far difference");
        same(number(far).plus(number(x)), far + x, "far sum");
    }
}

#[test]
fn whole_numbers_agree_with_the_hardware() {
    let mut source = Source(0xfeed_beef);
    for _ in 0..60_000 {
        let x = source.number();
        assert_eq!(number(x).truncate(), x as u64, "truncate {}", x);
        assert_eq!(number(x).round_up(), x.ceil() as u64, "round up {}", x);
        assert_eq!(number(x).round(), x.round() as u64, "round {}", x);
        let half = (source.next() >> (12 + source.next() % 40)) as f64 + 0.5;
        assert_eq!(number(half).round(), half.round() as u64, "round {}", half);
        let n = source.next() >> (source.next() % 64);
        same(Binary64::from_u64(n), n as f64, "from integer");
    }
}

#[test]
fn roots_agree_with_the_hardware() {
    let mut source = Source(5);
    for n in 0..3000u32 {
        same(Binary64::root_of(n), (n as f64).sqrt(), "root");
    }
    for _ in 0..20_000 {
        let n = (source.next() as u32) >> (source.next() % 32);
        same(Binary64::root_of(n), (n as f64).sqrt(), "root");
        let square = (n >> 16) * (n >> 16);
        assert_eq!(float(Binary64::root_of(square)), (n >> 16) as f64);
    }
    same(Binary64::root_of(u32::MAX), (u32::MAX as f64).sqrt(), "root");
}

#[test]
fn ratios_are_decimal_literals() {
    same(Binary64::from_ratio(25, 100), 0.25, "0.25");
    same(Binary64::from_ratio(9, 10), 0.9, "0.9");
    same(Binary64::from_ratio(2, 1), 2.0, "2.0");
    same(Binary64::from_ratio(7, 10), 0.7, "0.7");
    same(Binary64::from_ratio(95, 100), 0.95, "0.95");
    same(Binary64::from_ratio(8, 10), 0.8, "0.8");
    same(Binary64::from_ratio(2, 10), 0.2, "0.2");
    same(Binary64::from_ratio(1, 2), 0.5, "0.5");
    same(Binary64::from_ratio(0, 3), 0.0, "0.0");
}

#[test]
fn clamping_keeps_what_is_inside() {
    let low = number(0.5);
    let high = number(2.0);
    same(number(0.4).clamp(low, high), 0.5, "below");
    same(number(2.5).clamp(low, high), 2.0, "above");
    same(number(1.5).clamp(low, high), 1.5, "inside");
    same(number(f64::INFINITY).clamp(low, high), 2.0, "infinite");
    same(number(f64::NAN).clamp(low, high), f64::NAN, "not a number");
}
