use list_comments::order::id_less;
use list_comments::reactions::{tally, user_reactions, Reaction};

fn r(c: &str, u: &str, t: &str) -> Reaction {
    Reaction { comment_id: c.to_string(), user_id: u.to_string(), reaction_type: t.to_string() }
}

fn sample() -> Vec<Reaction> {
    vec![r("C1", "U2", "like"), r("C1", "U1", "like"), r("C2", "U1", "wow")]
}

#[test]
fn tally_counts_matching_pairs() {
    let rs = sample();
    assert_eq!(tally(&rs, &"C1".to_string(), &"like".to_string()), 2);
    assert_eq!(tally(&rs, &"C2".to_string(), &"like".to_string()), 0);
    assert_eq!(tally(&rs, &"C2".to_string(), &"wow".to_string()), 1);
}

#[test]
fn acting_user_reactions() {
    let rs = sample();
    let v = user_reactions(&rs, &"C1".to_string(), &Some("U1".to_string()));
    assert_eq!(v, vec!["like".to_string()]);
    let w = user_reactions(&rs, &"C2".to_string(), &Some("U1".to_string()));
    assert_eq!(w, vec!["wow".to_string()]);
}

#[test]
fn anonymous_has_no_own_reactions() {
    let rs = sample();
    assert!(user_reactions(&rs, &"C1".to_string(), &None).is_empty());
    assert_eq!(tally(&rs, &"C1".to_string(), &"like".to_string()), 2);
}

#[test]
fn duplicate_reactions_kept() {
    let rs = vec![r("C1", "U1", "like"), r("C1", "U1", "like")];
    let v = user_reactions(&rs, &"C1".to_string(), &Some("U1".to_string()));
    assert_eq!(v, vec!["like".to_string(), "like".to_string()]);
    assert_eq!(tally(&rs, &"C1".to_string(), &"like".to_string()), 2);
}

#[test]
fn identifiers_order() {
    assert!(id_less(&"C1".to_string(), &"C2".to_string()));
    assert!(!id_less(&"C2".to_string(), &"C1".to_string()));
    assert!(id_less(&"C".to_string(), &"C1".to_string()));
    assert!(!id_less(&"C1".to_string(), &"C1".to_string()));
}
