use pattern_maker::binomial;

#[test]
fn test_binomial() {
    assert_eq!(binomial(3, 1), 3);
    assert_eq!(binomial(1, 1), 1);
    assert_eq!(binomial(3, 2), 3);
    assert_eq!(binomial(5, 2), 10);
    assert_eq!(binomial(8, 4), 70);
    assert_eq!(binomial(4, 4), 1);
    assert_eq!(binomial(7, 2), 21);
}

#[test]
fn test_binomial_edges() {
    assert_eq!(binomial(0, 0), 1);
    assert_eq!(binomial(1, 0), 1);
    assert_eq!(binomial(10, 0), 1);
    assert_eq!(binomial(10, 10), 1);
}

#[test]
fn test_binomial_large() {
    assert_eq!(binomial(10, 3), 120);
    assert_eq!(binomial(30, 15), 155117520);
    assert_eq!(binomial(32, 16), 601080390);
}
