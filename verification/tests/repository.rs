use artifact_catalog::repository::{Artifact, ArtifactRepository};

fn add(repo: &mut ArtifactRepository, name: &str, description: Option<&str>, tags: &[&str]) -> u64 {
    repo.create(
        name.to_string(),
        description.map(|d| d.to_string()),
        tags.iter().map(|t| t.to_string()).collect(),
        "fast".to_string(),
        None,
    )
}

fn names(items: &[Artifact]) -> Vec<String> {
    items.iter().map(|a| a.name.clone()).collect()
}

#[test]
fn fresh_repository_is_empty() {
    let mut repo = ArtifactRepository::new();
    assert!(repo.list().is_empty());
    assert!(repo.search("").is_empty());
    assert!(repo.search("gold").is_empty());
    assert!(!repo.delete(1));
}

#[test]
fn ids_start_at_one_and_increase() {
    let mut repo = ArtifactRepository::new();
    let a = add(&mut repo, "amulet", None, &[]);
    let b = add(&mut repo, "bowl", None, &[]);
    let c = add(&mut repo, "coin", None, &[]);
    assert_eq!(a, 1);
    assert_eq!(b, 2);
    assert_eq!(c, 3);
}

#[test]
fn ids_are_not_reused_after_delete() {
    let mut repo = ArtifactRepository::new();
    let a = add(&mut repo, "amulet", None, &[]);
    assert!(repo.delete(a));
    let b = add(&mut repo, "bowl", None, &[]);
    assert!(b > a);
    assert_eq!(b, 2);
}

#[test]
fn created_record_holds_the_given_fields() {
    let mut repo = ArtifactRepository::new();
    let id = repo.create(
        "amphora".to_string(),
        Some("two-handled jar".to_string()),
        vec!["pottery".to_string(), "greek".to_string()],
        "thorough".to_string(),
        Some("base64payload".to_string()),
    );
    let items = repo.list();
    assert_eq!(items.len(), 1);
    let a = &items[0];
    assert_eq!(a.id, id);
    assert_eq!(a.name, "amphora");
    assert_eq!(a.description.as_deref(), Some("two-handled jar"));
    assert_eq!(a.tags, vec!["pottery".to_string(), "greek".to_string()]);
    assert_eq!(a.tier, "thorough");
    assert_eq!(a.thumbnail, None);
    assert_eq!(a.image_data.as_deref(), Some("base64payload"));
    assert!(a.uploaded_at.is_some());
    assert_eq!(a.analyzed_at, None);
    assert_eq!(a.confidence, None);
}

#[test]
fn uploaded_at_is_a_seconds_dot_millis_stamp() {
    let mut repo = ArtifactRepository::new();
    add(&mut repo, "amulet", None, &[]);
    let items = repo.list();
    let stamp = items[0].uploaded_at.clone().unwrap();
    assert!(stamp.ends_with('Z'));
    let body = &stamp[..stamp.len() - 1];
    let (secs, millis) = body.split_once('.').unwrap();
    assert!(!secs.is_empty());
    assert!(secs.chars().all(|c| c.is_ascii_digit()));
    assert_eq!(millis.len(), 3);
    assert!(millis.chars().all(|c| c.is_ascii_digit()));
}

#[test]
fn list_returns_a_snapshot_unaffected_by_later_mutations() {
    let mut repo = ArtifactRepository::new();
    add(&mut repo, "amulet", None, &[]);
    let before = repo.list();
    assert_eq!(before.len(), 1);

    add(&mut repo, "bowl", None, &[]);
    assert_eq!(before.len(), 1);
    assert_eq!(before[0].name, "amulet");
    assert_eq!(repo.list().len(), 2);

    repo.delete(1);
    assert_eq!(before.len(), 1);
    assert_eq!(before[0].name, "amulet");
    assert_eq!(repo.list().len(), 1);
}

#[test]
fn empty_query_equals_list() {
    let mut repo = ArtifactRepository::new();
    add(&mut repo, "amulet", None, &["gold"]);
    add(&mut repo, "bowl", None, &["clay"]);
    assert_eq!(names(&repo.search("")), names(&repo.list()));
}

#[test]
fn whitespace_only_query_equals_list() {
    let mut repo = ArtifactRepository::new();
    add(&mut repo, "amulet", None, &[]);
    add(&mut repo, "bowl", None, &[]);
    assert_eq!(names(&repo.search("   \t\n ")), names(&repo.list()));
}

#[test]
fn search_matches_name_description_and_tags() {
    let mut repo = ArtifactRepository::new();
    add(&mut repo, "Golden Idol", None, &[]);
    add(&mut repo, "bowl", Some("a golden rim"), &[]);
    add(&mut repo, "coin", None, &["gold", "currency"]);
    add(&mut repo, "shard", Some("plain clay"), &["pottery"]);

    let hits = repo.search("gold");
    assert_eq!(
        names(&hits),
        vec!["Golden Idol".to_string(), "bowl".to_string(), "coin".to_string()]
    );
}

#[test]
fn search_is_case_insensitive_both_ways() {
    let mut repo = ArtifactRepository::new();
    add(&mut repo, "Golden Idol", None, &[]);
    add(&mut repo, "coin", None, &["GOLD"]);
    let upper = repo.search("GoLd");
    let lower = repo.search("gold");
    assert_eq!(names(&upper), names(&lower));
    assert_eq!(upper.len(), 2);
}

#[test]
fn search_trims_the_query_before_matching() {
    let mut repo = ArtifactRepository::new();
    add(&mut repo, "Golden Idol", None, &[]);
    add(&mut repo, "bowl", None, &[]);
    assert_eq!(names(&repo.search("  gold  ")), vec!["Golden Idol".to_string()]);
}

#[test]
fn search_with_no_match_is_empty() {
    let mut repo = ArtifactRepository::new();
    add(&mut repo, "amulet", None, &["gold"]);
    assert!(repo.search("obsidian").is_empty());
}

#[test]
fn delete_is_idempotent() {
    let mut repo = ArtifactRepository::new();
    let a = add(&mut repo, "amulet", None, &[]);
    add(&mut repo, "bowl", None, &[]);
    assert_eq!(repo.list().len(), 2);

    assert!(repo.delete(a));
    assert_eq!(repo.list().len(), 1);

    assert!(!repo.delete(a));
    assert_eq!(repo.list().len(), 1);
    assert_eq!(repo.list()[0].name, "bowl");
}

#[test]
fn delete_of_unknown_id_reports_not_found() {
    let mut repo = ArtifactRepository::new();
    add(&mut repo, "amulet", None, &[]);
    assert!(!repo.delete(999));
    assert_eq!(repo.list().len(), 1);
}

#[test]
fn delete_keeps_the_order_of_the_rest() {
    let mut repo = ArtifactRepository::new();
    add(&mut repo, "amulet", None, &[]);
    let b = add(&mut repo, "bowl", None, &[]);
    add(&mut repo, "coin", None, &[]);
    assert!(repo.delete(b));
    assert_eq!(names(&repo.list()), vec!["amulet".to_string(), "coin".to_string()]);
}
