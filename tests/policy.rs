use rabe::parser::{parse_policy, tokenize, Token};
use rabe::policy::{calc_pruned, Policy};
use rabe::tools::{contains, is_subset, usize_to_fr};
use rabe::scalar::Scalar;

fn attributes(names: &[&str]) -> Vec<String> {
    names.iter().map(|n| String::from(*n)).collect()
}

fn satisfied(policy: &Policy, attrs: &[&str]) -> bool {
    calc_pruned(&attributes(attrs), policy).0
}

#[test]
fn parses_gates_and_leaves() {
    let p = parse_policy(r#"{"OR": [{"ATT": "X"}, {"AND": [{"ATT": "Y"}, {"ATT": "Z"}]}]}"#).unwrap();
    match p {
        Policy::Or(l, r) => {
            assert!(matches!(*l, Policy::Leaf(ref a) if a == "X"));
            match *r {
                Policy::And(a, b) => {
                    assert!(matches!(*a, Policy::Leaf(ref n) if n == "Y"));
                    assert!(matches!(*b, Policy::Leaf(ref n) if n == "Z"));
                },
                _ => panic!("expected an AND"),
            }
        },
        _ => panic!("expected an OR"),
    }
}

#[test]
fn parses_negation_and_compact_text() {
    let p = parse_policy("{\"NOT\":{\"ATT\":\"B\"}}").unwrap();
    assert!(matches!(p, Policy::Not(ref a) if a == "B"));
    assert!(p.contains_negation());
    let q = parse_policy(" \n{\"ATT\" :\t\"with space\"}\r\n").unwrap();
    assert!(matches!(q, Policy::Leaf(ref a) if a == "with space"));
}

#[test]
fn refuses_malformed_text() {
    assert!(parse_policy("joking-around?").is_none());
    assert!(parse_policy("").is_none());
    assert!(parse_policy(r#"{"ATT": "A"} {"ATT": "B"}"#).is_none());
    assert!(parse_policy(r#"{"ATT": "A""#).is_none());
    assert!(parse_policy(r#"{"AND": [{"ATT": "A"}, {"ATT": "B"}, {"ATT": "C"}]}"#).is_none());
    assert!(parse_policy(r#"{"XOR": [{"ATT": "A"}, {"ATT": "B"}]}"#).is_none());
    assert!(parse_policy(r#"{"NOT": {"ATT": "A"}"#).is_none());
    assert!(parse_policy(r#"{"name": "and", "children": [{"name": "A"}, {"name": "B"}]}"#).is_none());
}

#[test]
fn tokenizes_punctuation_and_names() {
    let t = tokenize(r#" {"ATT": "A b"} "#).unwrap();
    assert_eq!(t.len(), 5);
    assert!(matches!(t[0], Token::Open));
    assert!(matches!(t[1], Token::Text(ref s) if s == "ATT"));
    assert!(matches!(t[2], Token::Colon));
    assert!(matches!(t[3], Token::Text(ref s) if s == "A b"));
    assert!(matches!(t[4], Token::Close));
    assert!(tokenize("{x}").is_none());
    assert!(tokenize("\"open").is_none());
}

#[test]
fn traverse_policies() {
    let policy1 = parse_policy(r#"{"AND": [{"ATT": "A"}, {"ATT": "B"}]}"#).unwrap();
    let policy2 = parse_policy(r#"{"OR": [{"ATT": "A"}, {"ATT": "B"}]}"#).unwrap();
    let policy3 = parse_policy(r#"{"AND": [{"OR": [{"ATT": "C"}, {"ATT": "D"}]}, {"ATT": "B"}]}"#).unwrap();
    assert_eq!(satisfied(&policy1, &["X", "Y"]), false);
    assert_eq!(satisfied(&policy1, &["A", "B"]), true);
    assert_eq!(satisfied(&policy1, &["C", "D"]), false);
    assert_eq!(satisfied(&policy1, &["A", "B", "C", "D"]), true);
    assert_eq!(satisfied(&policy2, &["A", "B"]), true);
    assert_eq!(satisfied(&policy2, &["C", "D"]), false);
    assert_eq!(satisfied(&policy2, &["A", "B", "C", "D"]), true);
    assert_eq!(satisfied(&policy3, &["A", "B"]), false);
    assert_eq!(satisfied(&policy3, &["C", "D"]), false);
    assert_eq!(satisfied(&policy3, &["A", "B", "C", "D"]), true);
}

#[test]
fn labels_of_leaves() {
    let p = parse_policy(r#"{"AND": [{"NOT": {"ATT": "A"}}, {"ATT": "B"}]}"#).unwrap();
    assert_eq!(p.labels(), attributes(&["!A", "B"]));
}

#[test]
fn contains_and_subset() {
    let data = attributes(&["A", "B"]);
    assert!(contains(&data, &String::from("B")));
    assert!(!contains(&data, &String::from("C")));
    assert!(is_subset(&attributes(&["B", "A"]), &data));
    assert!(is_subset(&Vec::new(), &data));
    assert!(!is_subset(&attributes(&["A", "C"]), &data));
}

#[test]
fn usize_scalar() {
    assert!(usize_to_fr(42).equals(&Scalar::from_u64(42)));
    assert!(usize_to_fr(0).equals(&Scalar::zero()));
}
