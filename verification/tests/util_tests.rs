use shootr::util::clamp;
use shootr::util::elapsed_ms;
use shootr::util::SeqIdGen;
use shootr::util::Timestamp;

#[test]
fn one_elapsed_ms() {
    let a = Timestamp { ms: 0 };
    let b = Timestamp { ms: 1 };
    assert_eq!(1, elapsed_ms(a, b).unwrap());
}

#[test]
fn one_elapsed_second() {
    let a = Timestamp { ms: 0 };
    let b = Timestamp { ms: 1000 };
    assert_eq!(1000, elapsed_ms(a, b).unwrap());
}

#[test]
fn no_elapsed_time() {
    let a = Timestamp { ms: 1000 };
    assert_eq!(0, elapsed_ms(a, a).unwrap());
}

#[test]
fn negative_elapsed_time() {
    let a = Timestamp { ms: 1000 };
    let b = Timestamp { ms: 0 };
    assert!(elapsed_ms(a, b).is_err());
}

#[test]
fn clamp_in_range() {
    let res = clamp(1, 0, 2);
    assert_eq!(1, res);
}

#[test]
fn clamp_min() {
    let res = clamp(-2, -2, 2);
    assert_eq!(-2, res);
}

#[test]
fn clamp_max() {
    let res = clamp(0, -2, 0);
    assert_eq!(0, res);
}

#[test]
fn clamp_less_than_min() {
    let res = clamp(-1, 0, 2);
    assert_eq!(0, res);
}

#[test]
fn clamp_more_than_max() {
    let res = clamp(999, 9, 10);
    assert_eq!(10, res);
}

#[test]
fn tick_ids_increase() {
    let mut gen = SeqIdGen::new();
    assert_eq!(0, gen.gen());
    assert_eq!(1, gen.gen());
    assert_eq!(2, gen.gen());
    let defaulted = SeqIdGen::default();
    assert_eq!(0, defaulted.next);
}
