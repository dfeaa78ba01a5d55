use list_comments::identity::user_key;
use list_comments::pipeline::assemble;
use list_comments::reactions::{tallies, Reaction};
use list_comments::skeleton::{aggregate_reactions, load_comments, AssemblyError, CommentRecord};
use list_comments::tree::{author_ids, project_users, root_order, serialize_tree, CommentTree, UserEntry, UserRecord};

fn rec(id: &str, user: &str, body: &str, parent: Option<&str>) -> CommentRecord {
    CommentRecord {
        id: id.to_string(),
        user_id: user.to_string(),
        body: body.to_string(),
        replies_to: parent.map(|p| p.to_string()),
    }
}

fn react(c: &str, u: &str, t: &str) -> Reaction {
    Reaction { comment_id: c.to_string(), user_id: u.to_string(), reaction_type: t.to_string() }
}

fn profile(id: &str, name: &str) -> UserRecord {
    UserRecord { id: id.to_string(), name: name.to_string(), picture_url: format!("https://pics/{}", id) }
}

fn users_of(ids: &[&str]) -> Vec<UserEntry> {
    project_users(&ids.iter().map(|i| profile(i, &format!("name {}", i))).collect())
}

fn shape(t: &CommentTree) -> String {
    let kids: Vec<String> = t.replies.iter().map(shape).collect();
    format!("{}({})", t.id, kids.join(","))
}

fn render(ts: &[CommentTree]) -> String {
    ts.iter().map(shape).collect::<Vec<String>>().join(";")
}

#[test]
fn end_to_end_example() {
    let recs = vec![rec("C1", "U1", "hi", None), rec("C2", "U2", "hello", Some("C1"))];
    let rs = vec![react("C1", "U2", "like"), react("C1", "U1", "like")];
    let users = users_of(&["U1", "U2"]);
    let out = assemble(&recs, &users, &rs, &Some("U1".to_string())).ok().unwrap();
    assert_eq!(out.len(), 1);
    let c1 = &out[0];
    assert_eq!(c1.id, "C1");
    assert_eq!(c1.body, "hi");
    assert_eq!(c1.user.name, "name U1");
    assert_eq!(c1.reactions.len(), 1);
    assert_eq!(c1.reactions[0].reaction_type, "like");
    assert_eq!(c1.reactions[0].count, 2);
    assert_eq!(c1.user_reactions, vec!["like".to_string()]);
    assert_eq!(c1.replies.len(), 1);
    let c2 = &c1.replies[0];
    assert_eq!(c2.id, "C2");
    assert_eq!(c2.body, "hello");
    assert_eq!(c2.user.picture_url, "https://pics/U2");
    assert!(c2.reactions.is_empty());
    assert!(c2.user_reactions.is_empty());
    assert!(c2.replies.is_empty());
}

#[test]
fn missing_user_fails_at_serialization() {
    let recs = vec![rec("C1", "U1", "hi", None), rec("C2", "U9", "x", Some("C1"))];
    let users = users_of(&["U1"]);
    let s = load_comments(&recs).ok().unwrap();
    match serialize_tree(&s, &users) {
        Err(AssemblyError::MissingUser(u)) => assert_eq!(u, "U9"),
        _ => panic!("expected a missing user"),
    }
    assert!(matches!(assemble(&recs, &users, &vec![], &None), Err(AssemblyError::MissingUser(_))));
}

#[test]
fn reply_to_absent_comment_fails() {
    let recs = vec![rec("C1", "U1", "hi", None), rec("C2", "U1", "x", Some("C7"))];
    match load_comments(&recs) {
        Err(AssemblyError::MissingParent(p)) => assert_eq!(p, "C7"),
        _ => panic!("expected a missing parent"),
    }
}

#[test]
fn reply_before_its_parent_fails() {
    let recs = vec![rec("C2", "U1", "x", Some("C1")), rec("C1", "U1", "hi", None)];
    assert!(matches!(load_comments(&recs), Err(AssemblyError::MissingParent(_))));
}

#[test]
fn duplicate_identifier_fails() {
    let recs = vec![rec("C1", "U1", "a", None), rec("C1", "U2", "b", None)];
    match load_comments(&recs) {
        Err(AssemblyError::DuplicateComment(d)) => assert_eq!(d, "C1"),
        _ => panic!("expected a duplicate"),
    }
}

#[test]
fn empty_batch_gives_empty_tree() {
    let out = assemble(&vec![], &vec![], &vec![react("C1", "U1", "like")], &None).ok().unwrap();
    assert!(out.is_empty());
}

#[test]
fn roots_in_identifier_order_replies_in_input_order() {
    let recs = vec![
        rec("b", "U1", "", None),
        rec("a", "U1", "", None),
        rec("b2", "U1", "", Some("b")),
        rec("b1", "U1", "", Some("b")),
        rec("x", "U1", "", Some("b1")),
        rec("c", "U1", "", None),
    ];
    let s = load_comments(&recs).ok().unwrap();
    assert_eq!(root_order(&s), vec![1, 0, 5]);
    let out = serialize_tree(&s, &users_of(&["U1"])).ok().unwrap();
    assert_eq!(render(&out), "a();b(b2(),b1(x()));c()");
}

#[test]
fn same_input_same_output() {
    let recs = vec![rec("C1", "U1", "hi", None), rec("C2", "U2", "hello", Some("C1")), rec("C0", "U2", "", None)];
    let rs = vec![react("C2", "U1", "wow"), react("C1", "U1", "like"), react("C2", "U2", "wow")];
    let users = users_of(&["U1", "U2"]);
    let a = assemble(&recs, &users, &rs, &Some("U1".to_string())).ok().unwrap();
    let b = assemble(&recs, &users, &rs, &Some("U1".to_string())).ok().unwrap();
    assert_eq!(render(&a), render(&b));
    assert_eq!(render(&a), "C0();C1(C2())");
    assert_eq!(a[1].replies[0].reactions[0].count, b[1].replies[0].reactions[0].count);
    assert_eq!(a[1].replies[0].reactions[0].count, 2);
    assert_eq!(a[1].replies[0].user_reactions, vec!["wow".to_string()]);
}

#[test]
fn anonymous_request_counts_only() {
    let recs = vec![rec("C1", "U1", "hi", None)];
    let rs = vec![react("C1", "U1", "like"), react("C1", "U2", "like"), react("C1", "U1", "sad")];
    let out = assemble(&recs, &users_of(&["U1"]), &rs, &None).ok().unwrap();
    assert!(out[0].user_reactions.is_empty());
    assert_eq!(out[0].reactions.len(), 2);
    assert_eq!(out[0].reactions[0].count, 2);
    assert_eq!(out[0].reactions[1].reaction_type, "sad");
    assert_eq!(out[0].reactions[1].count, 1);
}

#[test]
fn reactions_on_unknown_comments_dropped() {
    let recs = vec![rec("C1", "U1", "hi", None)];
    let rs = vec![react("C9", "U1", "like"), react("C1", "U1", "like")];
    let mut s = load_comments(&recs).ok().unwrap();
    aggregate_reactions(&mut s, &rs, &Some("U1".to_string()));
    assert_eq!(s.nodes.len(), 1);
    assert_eq!(s.nodes[0].reactions[0].count, 1);
    assert_eq!(s.nodes[0].user_reactions, vec!["like".to_string()]);
}

#[test]
fn tallies_in_first_appearance_order() {
    let rs = vec![react("C1", "U1", "wow"), react("C1", "U2", "like"), react("C1", "U3", "wow")];
    let ts = tallies(&rs, &"C1".to_string());
    assert_eq!(ts.len(), 2);
    assert_eq!((ts[0].reaction_type.as_str(), ts[0].count), ("wow", 2));
    assert_eq!((ts[1].reaction_type.as_str(), ts[1].count), ("like", 1));
}

#[test]
fn user_key_from_token() {
    assert_eq!(user_key(&"abc:secret".to_string(), ':'), Some("USER_abc".to_string()));
    assert_eq!(user_key(&"abc".to_string(), ':'), Some("USER_abc".to_string()));
    assert_eq!(user_key(&":secret".to_string(), ':'), None);
    assert_eq!(user_key(&"".to_string(), ':'), None);
}

#[test]
fn authors_are_distinct() {
    let recs = vec![rec("C1", "U1", "", None), rec("C2", "U2", "", Some("C1")), rec("C3", "U1", "", None)];
    let s = load_comments(&recs).ok().unwrap();
    assert_eq!(author_ids(&s), vec!["U1".to_string(), "U2".to_string()]);
}

#[test]
fn profiles_projected() {
    let t = project_users(&vec![profile("U1", "Ann")]);
    assert_eq!(t.len(), 1);
    assert_eq!(t[0].id, "U1");
    assert_eq!(t[0].user.name, "Ann");
    assert_eq!(t[0].user.picture_url, "https://pics/U1");
}

#[test]
fn new_skeleton_is_empty() {
    let s = list_comments::skeleton::Skeleton::new();
    assert!(s.nodes.is_empty());
    assert!(serialize_tree(&s, &vec![]).ok().unwrap().is_empty());
}
