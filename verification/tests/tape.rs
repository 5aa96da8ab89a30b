use interp_test::error::ExecError;
use interp_test::opcode::Operation;
use interp_test::tape::Tape;
use interp_test::value::{bits_eq, bits_lt, Value};

#[test]
fn reads_advance_and_end_with_out_of_range() {
    let words = [10u64, 20, 30];
    let mut tape = Tape::new(&words, words.len());
    assert_eq!(tape.len(), 3);
    assert_eq!(tape.save(), 0);
    assert_eq!(tape.read(), Ok(10));
    assert_eq!(tape.peek(), Ok(20));
    assert_eq!(tape.get_next(), Ok(10));
    assert_eq!(tape.get_next_float(), Ok(20));
    assert_eq!(tape.read(), Ok(30));
    assert_eq!(tape.peek(), Err(ExecError::OutOfRange));
    assert_eq!(tape.get_next(), Ok(30));
    assert_eq!(tape.save(), 3);
    assert_eq!(tape.get_next(), Err(ExecError::OutOfRange));
    assert_eq!(tape.get_next_float(), Err(ExecError::OutOfRange));
    assert_eq!(tape.read(), Err(ExecError::OutOfRange));
    assert_eq!(tape.save(), 3);
}

#[test]
fn size_limits_what_is_read() {
    let words = [10u64, 20, 30];
    let mut tape = Tape::new(&words, 1);
    assert_eq!(tape.len(), 1);
    assert_eq!(tape.get_next(), Ok(10));
    assert_eq!(tape.get_next(), Err(ExecError::OutOfRange));
    let tape = Tape::new(&words, 100);
    assert_eq!(tape.len(), 3);
    let mut empty = Tape::new(&[], 0);
    assert_eq!(empty.get_next(), Err(ExecError::OutOfRange));
    assert_eq!(empty.peek(), Err(ExecError::OutOfRange));
}

#[test]
fn save_restore_move_and_skip() {
    let words = [10u64, 20, 30, 40];
    let mut tape = Tape::new(&words, words.len());
    tape.skip(1);
    let mark = tape.save();
    assert_eq!(mark, 1);
    assert_eq!(tape.get_next(), Ok(20));
    assert_eq!(tape.get_next(), Ok(30));
    tape.restore(mark);
    assert_eq!(tape.get_next(), Ok(20));
    tape.move_to(3);
    assert_eq!(tape.get_next(), Ok(40));
    tape.move_to(0);
    tape.skip(2);
    assert_eq!(tape.get_next(), Ok(30));
    tape.move_to(9);
    assert_eq!(tape.save(), 9);
    assert_eq!(tape.get_next(), Err(ExecError::OutOfRange));
    assert_eq!(tape.save(), 9);
    tape.skip(0);
    assert_eq!(tape.save(), 9);
}

#[test]
fn two_words_make_one_wide_number() {
    let words = [0x1111_2222_3333_4444u64, 0xAAAA_BBBB_CCCC_DDDD, 5];
    let mut tape = Tape::new(&words, words.len());
    assert_eq!(tape.get_next_u128(), Ok(0xAAAA_BBBB_CCCC_DDDD_1111_2222_3333_4444u128));
    assert_eq!(tape.save(), 2);
    assert_eq!(tape.get_next_u128(), Err(ExecError::OutOfRange));
    assert_eq!(tape.save(), 2);
    assert_eq!(tape.get_next(), Ok(5));
    assert_eq!(tape.get_next_u128(), Err(ExecError::OutOfRange));
}

#[test]
fn words_are_read_as_operations() {
    let words = [4u64, 0, 1003, 77];
    let mut tape = Tape::new(&words, words.len());
    assert_eq!(tape.get_next_func(), Ok(Operation::Var));
    assert_eq!(tape.get_next_func(), Err(ExecError::InvalidOpcode));
    assert_eq!(tape.save(), 2);
    assert_eq!(tape.get_next_func(), Ok(Operation::LoopMarker));
    assert_eq!(tape.get_next_func(), Err(ExecError::InvalidOpcode));
    assert_eq!(tape.get_next_func(), Err(ExecError::OutOfRange));
    assert_eq!(tape.save(), 4);
}

#[test]
fn truthy_is_true_for_one_only() {
    assert!(!Value::Nil.truthy());
    assert!(Value::Boolean(true).truthy());
    assert!(!Value::Boolean(false).truthy());
    assert!(Value::Float(1.0f64.to_bits()).truthy());
    assert!(!Value::Float(0.0f64.to_bits()).truthy());
    assert!(!Value::Float(2.0f64.to_bits()).truthy());
    assert!(!Value::Float((-1.0f64).to_bits()).truthy());
    assert!(!Value::Float(f64::NAN.to_bits()).truthy());
    assert!(!Value::Float(1.0000000000000002f64.to_bits()).truthy());
    assert!(!Value::Float(0.9999999999999999f64.to_bits()).truthy());
    for f in [0.0, 1.0, 2.0, -1.0, 0.5, f64::INFINITY, f64::NAN] {
        assert_eq!(Value::Float(f.to_bits()).truthy(), f == 1.0);
    }
}

#[test]
fn values_compare_as_numbers() {
    assert_eq!(Value::Nil, Value::Nil);
    assert_eq!(Value::Boolean(true), Value::Boolean(true));
    assert_ne!(Value::Boolean(true), Value::Boolean(false));
    assert_ne!(Value::Nil, Value::Boolean(false));
    assert_ne!(Value::Boolean(false), Value::Float(0));
    assert_eq!(Value::Float(0.0f64.to_bits()), Value::Float((-0.0f64).to_bits()));
    assert_ne!(Value::Float(f64::NAN.to_bits()), Value::Float(f64::NAN.to_bits()));
    assert_eq!(Value::Float(2.5f64.to_bits()), Value::Float(2.5f64.to_bits()));
}

#[test]
fn bit_patterns_order_like_the_numbers() {
    let mut values = vec![
        0.0,
        -0.0,
        1.0,
        -1.0,
        f64::INFINITY,
        f64::NEG_INFINITY,
        f64::NAN,
        -f64::NAN,
        f64::MAX,
        f64::MIN,
        f64::MIN_POSITIVE,
        5e-324,
        -5e-324,
        f64::EPSILON,
    ];
    let mut x = 0x9E37_79B9_7F4A_7C15u64;
    for _ in 0..200 {
        x ^= x << 13;
        x ^= x >> 7;
        x ^= x << 17;
        values.push(f64::from_bits(x));
    }
    for &a in &values {
        assert_eq!(interp_test::value::bits_are_nan(a.to_bits()), a.is_nan());
        for &b in &values {
            assert_eq!(bits_eq(a.to_bits(), b.to_bits()), a == b, "{a} == {b}");
            assert_eq!(bits_lt(a.to_bits(), b.to_bits()), a < b, "{a} < {b}");
        }
    }
}

#[derive(Debug, Clone, Copy, PartialEq, PartialOrd)]
enum Plain {
    Nil,
    Boolean(bool),
    Float(f64),
}

#[test]
fn values_are_ordered_by_variant_then_content() {
    let plain = [
        Plain::Nil,
        Plain::Boolean(false),
        Plain::Boolean(true),
        Plain::Float(0.0),
        Plain::Float(-0.0),
        Plain::Float(1.5),
        Plain::Float(-1.5),
        Plain::Float(f64::NAN),
        Plain::Float(f64::INFINITY),
        Plain::Float(f64::NEG_INFINITY),
    ];
    let value = |p: Plain| match p {
        Plain::Nil => Value::Nil,
        Plain::Boolean(b) => Value::Boolean(b),
        Plain::Float(f) => Value::Float(f.to_bits()),
    };
    for a in plain {
        for b in plain {
            let (x, y) = (value(a), value(b));
            assert_eq!(x.partial_cmp(&y), a.partial_cmp(&b), "{a:?} {b:?}");
            assert_eq!(x == y, a == b, "{a:?} {b:?}");
            assert_eq!(x < y, a < b, "{a:?} {b:?}");
            assert_eq!(x <= y, a <= b, "{a:?} {b:?}");
            assert_eq!(x > y, a > b, "{a:?} {b:?}");
            assert_eq!(x >= y, a >= b, "{a:?} {b:?}");
        }
    }
}
