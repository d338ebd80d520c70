use orderbook::fibonacci::fibonacci;

#[test]
fn fibonacci_first_terms() {
    let terms: Vec<u64> = (0..10).map(fibonacci).collect();
    assert_eq!(terms, vec![0, 1, 1, 2, 3, 5, 8, 13, 21, 34]);
}

#[test]
fn fibonacci_larger_term() {
    assert_eq!(fibonacci(30), 832040);
}
