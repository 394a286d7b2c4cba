use abe_bench::policy::Connective;
use abe_bench::policy::decimal;
use abe_bench::policy::generate;

#[test]
fn decimal_renders_digits() {
    assert_eq!(decimal(0), "0");
    assert_eq!(decimal(7), "7");
    assert_eq!(decimal(10), "10");
    assert_eq!(decimal(120), "120");
    assert_eq!(decimal(u64::MAX), "18446744073709551615");
}

#[test]
fn single_literal_ignores_connective() {
    assert_eq!(generate(1, Connective::And, "attribute"), "\"attribute0\"");
    assert_eq!(generate(1, Connective::Or, "attribute"), "\"attribute0\"");
    assert_eq!(generate(1, Connective::Or, "a"), "\"a0\"");
}

#[test]
fn three_literals_or() {
    assert_eq!(generate(3, Connective::Or, "a"), "(\"a0\" or (\"a1\" or \"a2\"))");
}

#[test]
fn three_literals_and() {
    assert_eq!(
        generate(3, Connective::And, "attribute"),
        "(\"attribute0\" and (\"attribute1\" and \"attribute2\"))"
    );
}

#[test]
fn five_literals_shape_counts() {
    let s = generate(5, Connective::And, "attribute");
    assert_eq!(s.chars().filter(|&c| c == '"').count(), 10);
    assert_eq!(s.matches(" and ").count(), 4);
    assert_eq!(s.chars().filter(|&c| c == '(').count(), 4);
    assert_eq!(s.chars().filter(|&c| c == ')').count(), 4);
    assert!(s.ends_with("))))"));
    let t = generate(5, Connective::Or, "attribute");
    assert_eq!(t.matches(" or ").count(), 4);
    assert_eq!(t.chars().filter(|&c| c == '"').count(), 10);
}

#[test]
fn matches_handwritten_policy_loop() {
    // the same string an index-by-index string builder produces
    let a: u64 = 4;
    let mut policy = String::from("(\"attribute0\"");
    for i in 1..(a - 1) {
        policy.push_str(&format!(" or (\"attribute{}\"", i));
    }
    policy.push_str(&format!(" or \"attribute{}\"", a - 1));
    for _ in 1..a {
        policy.push(')');
    }
    assert_eq!(generate(a, Connective::Or, "attribute"), policy);
}
