use lox::number::Number;

fn n(written: &[u8], places: usize) -> Number {
    Number::from_decimal(&written.to_vec(), places)
}

fn as_float(x: &Number) -> f64 {
    let (negative, numer, denom) = x.parts();
    let text = |digits: &Vec<u8>| -> String {
        if digits.is_empty() {
            "0".to_string()
        } else {
            digits.iter().map(|d| (b'0' + d) as char).collect()
        }
    };
    let value = text(&numer).parse::<f64>().unwrap() / text(&denom).parse::<f64>().unwrap();
    if negative {
        -value
    } else {
        value
    }
}

#[test]
fn decimal_value() {
    assert_eq!(as_float(&n(&[1, 2, 5], 1)), 12.5);
    assert_eq!(as_float(&n(&[1, 2, 5], 3)), 0.125);
    assert_eq!(as_float(&n(&[], 0)), 0.0);
    assert_eq!(as_float(&n(&[0, 0, 7], 0)), 7.0);
}

#[test]
fn sum_and_difference() {
    assert!(n(&[9, 9], 0).plus(&n(&[1], 0)).equals(&n(&[1, 0, 0], 0)));
    assert!(n(&[1], 1).plus(&n(&[2], 1)).equals(&n(&[3], 1)));
    assert!(n(&[1, 0, 0], 0).minus(&n(&[1], 0)).equals(&n(&[9, 9], 0)));
    assert!(n(&[1], 0).minus(&n(&[3], 0)).equals(&n(&[2], 0).negated()));
    assert_eq!(as_float(&n(&[1], 0).minus(&n(&[3], 0))), -2.0);
    assert!(n(&[5], 0).minus(&n(&[5], 0)).is_zero());
}

#[test]
fn product_and_quotient() {
    assert!(n(&[1, 2], 0).times(&n(&[1, 2], 0)).equals(&n(&[1, 4, 4], 0)));
    assert!(n(&[1, 5], 1).times(&n(&[2], 0).negated()).equals(&n(&[3], 0).negated()));
    assert!(n(&[7], 0).divided_by(&n(&[2], 0)).unwrap().equals(&n(&[3, 5], 1)));
    assert!(n(&[1], 0)
        .divided_by(&n(&[3], 0))
        .unwrap()
        .times(&n(&[3], 0))
        .equals(&n(&[1], 0)));
    assert!(n(&[6], 0)
        .divided_by(&n(&[3], 0).negated())
        .unwrap()
        .equals(&n(&[2], 0).negated()));
}

#[test]
fn division_by_zero_has_no_quotient() {
    assert!(n(&[1], 0).divided_by(&n(&[0], 0)).is_none());
    assert!(n(&[1], 0).divided_by(&n(&[0, 0], 1)).is_none());
    assert!(n(&[0], 0).divided_by(&n(&[1], 0)).unwrap().is_zero());
}

#[test]
fn order() {
    assert!(n(&[1], 0).less_than(&n(&[2], 0)));
    assert!(!n(&[2], 0).less_than(&n(&[2], 0)));
    assert!(!n(&[3], 0).less_than(&n(&[2], 0)));
    assert!(n(&[3], 0).negated().less_than(&n(&[2], 0)));
    assert!(n(&[3], 0).negated().less_than(&n(&[2], 0).negated()));
    assert!(n(&[3, 3], 2).less_than(&n(&[1], 0).divided_by(&n(&[3], 0)).unwrap()));
    assert!(n(&[1], 0).negated().is_negative());
    assert!(!n(&[0], 0).negated().is_negative());
    assert!(!n(&[1], 0).is_negative());
}

#[test]
fn equal_numbers_may_be_written_differently() {
    assert!(n(&[1, 0], 1).equals(&n(&[1], 0)));
    assert!(n(&[5], 1).equals(&n(&[1], 0).divided_by(&n(&[2], 0)).unwrap()));
    assert!(n(&[0], 0).equals(&n(&[0], 0).negated()));
    assert!(!n(&[1], 0).equals(&n(&[1], 0).negated()));
}

#[test]
fn parts_are_compact() {
    let sum = n(&[1], 1).plus(&n(&[2], 1));
    let (negative, numer, denom) = sum.parts();
    assert!(!negative);
    assert_eq!(numer, vec![3]);
    assert_eq!(denom, vec![1, 0]);
    let copy = sum.clone();
    assert!(copy.equals(&sum));
}

#[test]
fn many_additions_stay_fast() {
    let step = n(&[1], 1);
    let mut total = n(&[0], 0);
    for _ in 0..2000 {
        total = total.plus(&step);
    }
    assert!(total.equals(&n(&[2, 0, 0], 0)));
}

#[test]
fn text_of_whole_numbers() {
    assert_eq!(n(&[0], 0).to_text(), "0");
    assert_eq!(n(&[], 0).to_text(), "0");
    assert_eq!(n(&[0, 0, 7], 0).to_text(), "7");
    assert_eq!(n(&[1, 0, 0], 0).to_text(), "100");
    assert_eq!(n(&[1, 0, 0], 0).negated().to_text(), "-100");
    assert_eq!(n(&[0], 0).negated().to_text(), "0");
    assert_eq!(n(&[5, 0], 1).to_text(), "5");
    assert_eq!(n(&[9, 9], 0).plus(&n(&[1], 0)).to_text(), "100");
}

#[test]
fn text_of_fractions() {
    assert_eq!(n(&[1, 2, 5], 1).to_text(), "12.5");
    assert_eq!(n(&[1, 2, 5], 3).to_text(), "0.125");
    assert_eq!(n(&[1, 0, 5], 2).to_text(), "1.05");
    assert_eq!(n(&[5], 1).negated().to_text(), "-0.5");
    assert_eq!(n(&[1], 0).divided_by(&n(&[3], 0)).unwrap().to_text(), "0.3333333333333333");
    assert_eq!(n(&[2], 0).divided_by(&n(&[3], 0)).unwrap().to_text(), "0.6666666666666666");
    assert_eq!(n(&[1], 0).divided_by(&n(&[7], 0)).unwrap().to_text(), "0.1428571428571428");
    assert_eq!(n(&[2, 2], 0).divided_by(&n(&[7], 0)).unwrap().to_text(), "3.1428571428571428");
}

#[test]
fn text_is_cut_after_sixteen_places() {
    assert_eq!(n(&[1], 16).to_text(), "0.0000000000000001");
    assert_eq!(n(&[1], 17).to_text(), "0.0000000000000000");
    assert_eq!(n(&[1, 2, 3, 4, 5, 6, 7, 8, 9, 0, 1, 2, 3, 4, 5, 6, 7, 8, 9], 18).to_text(), "1.2345678901234567");
}
