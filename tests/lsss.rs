use rabe::lsss::{calc_coefficients, calc_coefficients_str, calc_pruned_str, gen_shares, gen_shares_str};
use rabe::parser::parse_policy;
use rabe::policy::{calc_pruned, calc_pruned_tags};
use rabe::scalar::Scalar;

fn attributes(names: &[&str]) -> Vec<String> {
    names.iter().map(|n| String::from(*n)).collect()
}

fn pruned_sum(policy: &str, attrs: &[&str], secret: &Scalar) -> Option<Scalar> {
    let p = parse_policy(policy).unwrap();
    let shares = gen_shares(secret, &p);
    let coeffs = calc_coefficients(&p);
    let (ok, list) = calc_pruned_tags(&attributes(attrs), &p);
    if !ok {
        return None;
    }
    let mut sum = Scalar::zero();
    for label in list.iter() {
        let share = shares.iter().find(|s| &s.0 == label).unwrap().1;
        let coeff = coeffs.iter().find(|c| &c.0 == label).unwrap().1;
        assert!(coeff.equals(&Scalar::one()));
        sum = sum.add(&share);
    }
    Some(sum)
}

#[test]
fn shares_reconstruct_the_secret() {
    let secret = Scalar::random();
    let cases: Vec<(&str, Vec<&str>)> = vec![
        (r#"{"AND": [{"ATT": "C"}, {"ATT": "B"}]}"#, vec!["A", "B", "C"]),
        (r#"{"OR": [{"ATT": "X"}, {"ATT": "B"}]}"#, vec!["A", "B", "C"]),
        (r#"{"OR": [{"ATT": "X"}, {"AND": [{"ATT": "Y"}, {"ATT": "Z"}]}]}"#, vec!["A", "Y", "Z"]),
        (
            r#"{"AND": [{"OR": [{"ATT": "A"}, {"ATT": "B"}]}, {"AND": [{"ATT": "C"}, {"ATT": "D"}]}]}"#,
            vec!["B", "C", "D"],
        ),
        (r#"{"AND": [{"ATT": "A"}, {"ATT": "A"}]}"#, vec!["A"]),
        (
            r#"{"OR": [{"AND": [{"ATT": "A"}, {"ATT": "B"}]}, {"AND": [{"ATT": "A"}, {"ATT": "C"}]}]}"#,
            vec!["A", "C"],
        ),
    ];
    for (policy, attrs) in cases {
        let sum = pruned_sum(policy, &attrs, &secret).unwrap();
        assert!(sum.equals(&secret), "policy {}", policy);
    }
}

#[test]
fn unsatisfied_policy_prunes_to_nothing() {
    let p = parse_policy(r#"{"OR": [{"ATT": "X"}, {"ATT": "Y"}]}"#).unwrap();
    let (ok, list) = calc_pruned(&attributes(&["A", "B"]), &p);
    assert!(!ok);
    assert!(list.is_empty());
}

#[test]
fn or_prefers_left_side() {
    let p = parse_policy(r#"{"OR": [{"ATT": "A"}, {"ATT": "B"}]}"#).unwrap();
    let (ok, list) = calc_pruned(&attributes(&["A", "B"]), &p);
    assert!(ok);
    assert_eq!(list, vec![String::from("A")]);
}

#[test]
fn and_lists_both_sides_in_order() {
    let p = parse_policy(r#"{"AND": [{"ATT": "C"}, {"ATT": "B"}]}"#).unwrap();
    let (ok, list) = calc_pruned(&attributes(&["A", "B", "C"]), &p);
    assert!(ok);
    assert_eq!(list, attributes(&["C", "B"]));
}

#[test]
fn negated_leaf_prunes_with_mark() {
    let p = parse_policy(r#"{"AND": [{"ATT": "A"}, {"NOT": {"ATT": "B"}}]}"#).unwrap();
    let (ok, list) = calc_pruned(&attributes(&["A"]), &p);
    assert!(ok);
    assert_eq!(list, attributes(&["A", "!B"]));
    let (ok, _) = calc_pruned(&attributes(&["A", "B"]), &p);
    assert!(!ok);
    let shares = gen_shares(&Scalar::one(), &p);
    let labels: Vec<&str> = shares.iter().map(|s| s.0.as_str()).collect();
    assert_eq!(labels, vec!["L:A", "R:!B"]);
    let (ok, tags) = calc_pruned_tags(&attributes(&["A"]), &p);
    assert!(ok);
    assert_eq!(tags, attributes(&["L:A", "R:!B"]));
}

#[test]
fn or_shares_are_equal() {
    let secret = Scalar::from_u64(7);
    let p = parse_policy(r#"{"OR": [{"ATT": "A"}, {"ATT": "B"}]}"#).unwrap();
    let shares = gen_shares(&secret, &p);
    assert_eq!(shares.len(), 2);
    assert!(shares[0].1.equals(&secret));
    assert!(shares[1].1.equals(&secret));
}

#[test]
fn and_shares_add_up() {
    let secret = Scalar::from_u64(7);
    let p = parse_policy(r#"{"AND": [{"ATT": "A"}, {"ATT": "B"}]}"#).unwrap();
    let shares = gen_shares(&secret, &p);
    assert_eq!(shares.len(), 2);
    assert!(shares[0].1.add(&shares[1].1).equals(&secret));
}

#[test]
fn coefficients_are_one_per_leaf() {
    let p = parse_policy(r#"{"OR": [{"ATT": "X"}, {"AND": [{"ATT": "Y"}, {"ATT": "Z"}]}]}"#).unwrap();
    let coeffs = calc_coefficients(&p);
    let labels: Vec<&str> = coeffs.iter().map(|c| c.0.as_str()).collect();
    assert_eq!(labels, vec!["L:X", "RL:Y", "RR:Z"]);
    assert!(coeffs.iter().all(|c| c.1.equals(&Scalar::one())));
}

#[test]
fn text_entry_points_parse_first() {
    let policy = r#"{"AND": [{"ATT": "C"}, {"ATT": "B"}]}"#;
    let (ok, list) = calc_pruned_str(&attributes(&["A", "B", "C"]), policy).unwrap();
    assert!(ok);
    assert_eq!(list, attributes(&["L:C", "R:B"]));
    let (ok, list) = calc_pruned_str(&attributes(&["A"]), policy).unwrap();
    assert!(!ok);
    assert!(list.is_empty());
    assert!(calc_pruned_str(&attributes(&["A"]), "not a policy").is_none());

    let secret = Scalar::from_u64(99);
    let shares = gen_shares_str(&secret, policy).unwrap();
    let labels: Vec<&str> = shares.iter().map(|s| s.0.as_str()).collect();
    assert_eq!(labels, vec!["L:C", "R:B"]);
    assert!(shares[0].1.add(&shares[1].1).equals(&secret));
    assert!(gen_shares_str(&secret, "{").is_none());

    let coeffs = calc_coefficients_str(policy).unwrap();
    assert_eq!(coeffs.len(), 2);
    assert!(calc_coefficients_str("[]").is_none());
}
