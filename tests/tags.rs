use openfairdb::entities::{ModeratedTag, Organization};
use openfairdb::error::{Error, ParameterError};
use openfairdb::moderation::moderation_decision;
use openfairdb::tags::{contains_tag, prepare_tag_list, tags_diff};

#[test]
fn test_tag_diff() {
    let x = tags_diff(&[], &["b".into()]);
    assert_eq!(x.added, vec!["b"]);
    assert!(x.deleted.is_empty());

    let x = tags_diff(&["a".into()], &[]);
    assert!(x.added.is_empty());
    assert_eq!(x.deleted, vec!["a"]);

    let x = tags_diff(&["a".into()], &["b".into()]);
    assert_eq!(x.added, vec!["b"]);
    assert_eq!(x.deleted, vec!["a"]);

    let x = tags_diff(&["a".into(), "b".into()], &["b".into()]);
    assert!(x.added.is_empty());
    assert_eq!(x.deleted, vec!["a"]);
}

#[test]
fn tag_diff_keeps_list_order() {
    let old: Vec<String> = vec!["c".into(), "a".into(), "x".into()];
    let new: Vec<String> = vec!["z".into(), "x".into(), "b".into()];
    let d = tags_diff(&old, &new);
    assert_eq!(d.added, vec!["z", "b"]);
    assert_eq!(d.deleted, vec!["c", "a"]);
    // the old tags less the deleted ones, with the added ones, are the new tags
    let mut rebuilt: Vec<String> = old.iter().filter(|t| !d.deleted.contains(t)).cloned().collect();
    rebuilt.extend(d.added.iter().cloned());
    rebuilt.sort();
    let mut expected = new.clone();
    expected.sort();
    assert_eq!(rebuilt, expected);
}

#[test]
fn contains_tag_compares_whole_strings() {
    let v: Vec<String> = vec!["ab".into(), "c".into()];
    assert!(contains_tag(&v, &"c".to_string()));
    assert!(!contains_tag(&v, &"a".to_string()));
}

#[test]
fn prepare_tag_list_normalizes() {
    let tags = prepare_tag_list(&["Foo bar", "#baz", "foo", "  ", "a#b", "BAR\tQux"]);
    assert_eq!(tags, vec!["ab", "bar", "baz", "foo", "qux"]);
}

#[test]
fn prepare_tag_list_of_nothing_is_empty() {
    assert!(prepare_tag_list(&[]).is_empty());
    assert!(prepare_tag_list(&["", " \n ", "#", "##"]).is_empty());
}

#[test]
fn prepare_tag_list_is_idempotent_on_examples() {
    let once = prepare_tag_list(&["Zeta #Alpha", "beta alpha", "ÄRGER"]);
    assert_eq!(once, vec!["alpha", "beta", "zeta", "ärger"]);
    let refs: Vec<&str> = once.iter().map(|s| s.as_str()).collect();
    assert_eq!(prepare_tag_list(&refs), once);
}

#[test]
fn prepare_tag_list_ignores_input_order() {
    let a = prepare_tag_list(&["b a", "C"]);
    let b = prepare_tag_list(&["c", "A B", "a"]);
    assert_eq!(a, b);
}

fn policy(org: &str, label: &str, add: bool, remove: bool, auth: bool) -> (String, ModeratedTag) {
    (
        org.into(),
        ModeratedTag {
            label: label.into(),
            allows_add: add,
            allows_remove: remove,
            requires_authorization: auth,
        },
    )
}

fn policies() -> Vec<(String, ModeratedTag)> {
    vec![
        policy("org1", "tag1", false, true, false),
        policy("org3", "tag2", true, false, true),
        policy("org2", "tag2", true, true, true),
        policy("org2", "tag3", true, true, true),
    ]
}

fn s(v: &[&str]) -> Vec<String> {
    v.iter().map(|x| x.to_string()).collect()
}

#[test]
fn adding_a_forbidden_tag_fails() {
    let r = moderation_decision(&policies(), &s(&[]), &s(&["tag1"]), None);
    assert_eq!(r, Err(Error::Parameter(ParameterError::ModeratedTag)));
    let r = moderation_decision(&policies(), &s(&["x"]), &s(&["a", "tag2", "tag1", "x"]), None);
    assert_eq!(r, Err(Error::Parameter(ParameterError::ModeratedTag)));
}

#[test]
fn removing_a_forbidden_tag_fails() {
    let r = moderation_decision(&policies(), &s(&["tag2"]), &s(&[]), None);
    assert_eq!(r, Err(Error::Parameter(ParameterError::ModeratedTag)));
}

#[test]
fn approvers_are_sorted_and_deduplicated() {
    let r = moderation_decision(&policies(), &s(&[]), &s(&["tag3", "tag2", "x"]), None);
    assert_eq!(r, Ok(s(&["org2", "org3"])));
}

#[test]
fn unmoderated_change_needs_no_approval() {
    let r = moderation_decision(&policies(), &s(&["a", "b"]), &s(&["b", "c"]), None);
    assert_eq!(r, Ok(vec![]));
    let r = moderation_decision(&policies(), &s(&["tag1"]), &s(&["tag1", "c"]), None);
    assert_eq!(r, Ok(vec![]));
}

fn org(id: &str, labels: &[&str]) -> Organization {
    Organization {
        id: id.into(),
        name: id.into(),
        api_token: "token".into(),
        moderated_tags: labels
            .iter()
            .map(|l| ModeratedTag {
                label: l.to_string(),
                allows_add: false,
                allows_remove: false,
                requires_authorization: false,
            })
            .collect(),
    }
}

#[test]
fn organization_is_exempt_from_its_own_policies() {
    let o = org("org1", &["tag1"]);
    let r = moderation_decision(&policies(), &s(&[]), &s(&["tag1"]), Some(&o));
    assert_eq!(r, Ok(vec![]));
    let o2 = org("org2", &["tag2", "tag3"]);
    let r = moderation_decision(&policies(), &s(&[]), &s(&["tag2", "tag3"]), Some(&o2));
    assert_eq!(r, Ok(s(&["org3"])));
}

#[test]
fn organization_is_not_exempt_from_other_policies() {
    let mut p = policies();
    p.push(policy("org4", "tag1", false, true, false));
    let o = org("org1", &["tag1"]);
    let r = moderation_decision(&p, &s(&[]), &s(&["tag1"]), Some(&o));
    assert_eq!(r, Err(Error::Parameter(ParameterError::ModeratedTag)));
    let other = org("org9", &["tag1"]);
    let r = moderation_decision(&policies(), &s(&[]), &s(&["tag1"]), Some(&other));
    assert_eq!(r, Err(Error::Parameter(ParameterError::ModeratedTag)));
}
