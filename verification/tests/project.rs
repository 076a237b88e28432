use paj::project::{
    direct_candidates, entry_matches, is_pruned, root_named, search_roots, settle_candidates,
    Project, ProjectError, ResolvePlan,
};
use tempfile::tempdir;

fn project(id: &str, root: &str) -> Project {
    Project {
        id: id.to_owned(),
        root: root.to_owned(),
    }
}

#[test]
fn discover_uses_canonical_directory_outside_git_repository() {
    let directory = tempdir().expect("temporary directory should be created");
    let canonical = directory
        .path()
        .canonicalize()
        .expect("temporary directory should resolve");

    let project = Project::discover(canonical.to_string_lossy().into_owned(), None);

    assert_eq!(project.root, canonical.to_string_lossy());
    assert_eq!(
        project.id,
        Project::for_root(canonical.to_string_lossy().into_owned()).id
    );
}

#[test]
fn discover_returns_stable_id_for_same_directory() {
    let directory = tempdir().expect("temporary directory should be created");
    let root = directory.path().to_string_lossy().into_owned();
    let first = Project::discover(root.clone(), None);

    let second = Project::discover(root, None);

    assert_eq!(first.id, second.id);
}

#[test]
fn project_id_is_the_first_sixteen_blake3_hex_digits_of_the_root() {
    let project = Project::for_root("/project".to_owned());

    let expected = blake3::hash(b"/project").to_hex().to_string();
    assert_eq!(project.id, expected[..16]);
    assert_eq!(project.id.len(), 16);
}

#[test]
fn different_roots_get_different_ids() {
    assert_ne!(
        Project::for_root("/one".to_owned()).id,
        Project::for_root("/two".to_owned()).id
    );
}

#[test]
fn resolve_rejects_a_blank_reference() {
    assert_eq!(
        Project::resolve("  \t", "", Some("/home/me".to_owned())),
        Err(ProjectError::EmptyReference)
    );
    assert_eq!(
        Project::resolve_in(" ", vec![project("a", "/a")]),
        Err(ProjectError::EmptyReference)
    );
}

#[test]
fn resolve_defaults_to_the_development_directory() {
    let plan = Project::resolve(" example ", "  ", Some("/home/me".to_owned()))
        .expect("reference should be accepted");

    assert_eq!(
        plan,
        ResolvePlan {
            reference: "example".to_owned(),
            roots: vec!["/home/me/Development".to_owned()],
        }
    );
}

#[test]
fn search_roots_expand_home_and_drop_empty_entries() {
    let roots = search_roots(" ~/code , /srv/work,,~, ~other ", Some("/home/me".to_owned()));

    assert_eq!(
        roots,
        vec![
            "/home/me/code".to_owned(),
            "/srv/work".to_owned(),
            "/home/me".to_owned(),
            "~other".to_owned(),
        ]
    );
}

#[test]
fn search_roots_without_home_drop_home_relative_entries() {
    assert_eq!(
        search_roots("~/code,/srv", None),
        vec!["/srv".to_owned()]
    );
    assert!(search_roots("", None).is_empty());
}

#[test]
fn search_roots_join_absolute_rest_as_given() {
    assert_eq!(
        search_roots("~//abs", Some("/home/me".to_owned())),
        vec!["/abs".to_owned()]
    );
    assert_eq!(
        search_roots("~/", Some("/home/me/".to_owned())),
        vec!["/home/me/".to_owned()]
    );
}

#[test]
fn resolve_in_finds_the_single_project() {
    let result = Project::resolve_in("example", vec![project("id", "/team/example")]);

    assert_eq!(result, Ok(project("id", "/team/example")));
}

#[test]
fn resolve_in_reports_no_match() {
    assert_eq!(
        Project::resolve_in(" missing ", vec![]),
        Err(ProjectError::NotFound("missing".to_owned()))
    );
}

#[test]
fn resolve_in_deduplicates_projects_with_the_same_root() {
    let result = Project::resolve_in(
        "example",
        vec![
            project("id", "/repo"),
            project("id", "/repo"),
            project("id", "/repo"),
        ],
    );

    assert_eq!(result, Ok(project("id", "/repo")));
}

#[test]
fn resolve_in_reports_ambiguous_roots_in_order() {
    let result = Project::resolve_in(
        "example",
        vec![
            project("a", "/one/example"),
            project("b", "/two/example"),
            project("a", "/one/example"),
        ],
    );

    assert_eq!(
        result,
        Err(ProjectError::Ambiguous {
            reference: "example".to_owned(),
            candidates: vec!["/one/example".to_owned(), "/two/example".to_owned()],
        })
    );
}

#[test]
fn recursive_search_prunes_dependency_directories() {

    for name in [".git", "node_modules", ".direnv", "target"] {
        assert!(is_pruned(name), "{name} should be pruned");
    }
    for name in ["src", "git", "targets", ".github"] {
        assert!(!is_pruned(name), "{name} should not be pruned");
    }
}

#[test]
fn entries_match_by_name_or_relative_suffix() {

    let relative = vec!["team".to_owned(), "example".to_owned()];
    assert!(entry_matches("example", &relative, "example"));
    assert!(entry_matches("example", &relative, "team/example"));
    assert!(entry_matches("example", &relative, "team//example/"));
    assert!(!entry_matches("example", &relative, "other/example"));
    assert!(!entry_matches("example", &relative, "/team/example"));
    assert!(!entry_matches("example", &relative, "a/team/example"));
}

#[test]
fn roots_match_by_directory_name() {

    assert!(root_named("/home/me/example", "example"));
    assert!(root_named("/home/me/example/", "example"));
    assert!(!root_named("/home/me/example", "me"));
    assert!(!root_named("/", "example"));
    assert!(!root_named("/home/..", ".."));
}

#[test]
fn discover_takes_the_git_work_tree_root() {
    let project = Project::discover("/repo/sub/dir".to_owned(), Some("/repo".to_owned()));

    assert_eq!(project, Project::for_root("/repo".to_owned()));
}

#[test]
fn direct_candidates_check_the_path_then_each_root() {
    let roots = vec!["/dev/example".to_owned(), "/dev".to_owned(), "/src".to_owned()];

    assert_eq!(
        direct_candidates("example", false, &roots, &[false, true, false].to_vec()),
        vec!["/dev/example", "/dev/example"]
    );
    assert_eq!(
        direct_candidates("/abs/example", true, &roots, &[false, false, true].to_vec()),
        vec!["/abs/example", "/abs/example"]
    );
    assert_eq!(
        direct_candidates("/abs/example", false, &roots, &[false, false, false].to_vec()),
        Vec::<String>::new()
    );
    assert_eq!(
        direct_candidates("team/example", false, &roots, &[false, true, false].to_vec()),
        vec!["/dev/team/example"]
    );
}

#[test]
fn direct_matches_take_precedence_over_recursive_ones() {
    let direct = vec!["/dev/example".to_owned()];
    let found = vec!["/dev/a/example".to_owned(), "/dev/b/example".to_owned()];

    assert_eq!(settle_candidates(direct.clone(), found.clone()), direct);
    assert_eq!(settle_candidates(Vec::new(), found.clone()), found);
}
