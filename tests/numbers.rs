use rox::number::Num;

fn chars(s: &str) -> Vec<char> {
    s.chars().collect()
}

fn text(n: &Num) -> String {
    n.text().into_iter().collect()
}

#[test]
fn parse_forms() {
    assert_eq!(Num::parse(&chars("5")), Some(Num::Ratio { num: 5, den: 1 }));
    assert_eq!(Num::parse(&chars("-2.25")), Some(Num::Ratio { num: -9, den: 4 }));
    assert_eq!(Num::parse(&chars("+.5")), Some(Num::Ratio { num: 1, den: 2 }));
    assert_eq!(Num::parse(&chars("3.")), Some(Num::Ratio { num: 3, den: 1 }));
    assert_eq!(Num::parse(&chars(".")), None);
    assert_eq!(Num::parse(&chars("")), None);
    assert_eq!(Num::parse(&chars("1e3")), None);
    assert_eq!(Num::parse(&chars(" 1")), None);
}

#[test]
fn reduced_results() {
    let half = Num::Ratio { num: 1, den: 2 };
    let third = Num::Ratio { num: 1, den: 3 };
    assert_eq!(half.add(&half), Some(Num::Ratio { num: 1, den: 1 }));
    assert_eq!(half.sub(&third), Some(Num::Ratio { num: 1, den: 6 }));
    assert_eq!(half.mul(&third), Some(Num::Ratio { num: 1, den: 6 }));
    assert_eq!(half.div(&third), Some(Num::Ratio { num: 3, den: 2 }));
}

#[test]
fn special_values() {
    let one = Num::Ratio { num: 1, den: 1 };
    let zero = Num::zero();
    assert_eq!(one.div(&zero), Some(Num::Infinity));
    assert_eq!(Num::Infinity.add(&Num::NegInfinity), Some(Num::NaN));
    assert_eq!(Num::Infinity.mul(&zero), Some(Num::NaN));
    assert_eq!(one.div(&Num::Infinity), Some(Num::Ratio { num: 0, den: 1 }));
    assert!(Num::NegInfinity.num_lt(&one));
    assert!(!Num::NaN.num_eq(&Num::NaN));
}

#[test]
fn overflow_is_reported() {
    let big = Num::Ratio { num: i64::MAX, den: 1 };
    assert_eq!(big.add(&big), None);
    assert_eq!(big.mul(&big), None);
}

#[test]
fn text_forms() {
    assert_eq!(text(&Num::Ratio { num: 3, den: 1 }), "3");
    assert_eq!(text(&Num::Ratio { num: -7, den: 2 }), "-3.5");
    assert_eq!(text(&Num::Ratio { num: 2, den: 3 }), "0.6666666666666666");
    assert_eq!(text(&Num::NaN), "NaN");
    assert_eq!(text(&Num::NegInfinity), "-inf");
}

#[test]
fn equality_is_by_value() {
    assert!(Num::Ratio { num: 2, den: 4 }.num_eq(&Num::Ratio { num: 1, den: 2 }));
}
