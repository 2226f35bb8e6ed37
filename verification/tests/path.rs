use hosts_hook::path::{same_component, same_path};
use hosts_hook::{normalize_path, PathComponent};

fn name(s: &str) -> PathComponent {
    PathComponent::Normal(s.to_string())
}

#[test]
fn drops_current_directory_entries() {
    let path = vec![PathComponent::RootDir, name("a"), PathComponent::CurDir, name("b")];
    assert_eq!(normalize_path(&path), vec![PathComponent::RootDir, name("a"), name("b")]);
    let relative = vec![PathComponent::CurDir, name("a")];
    assert_eq!(normalize_path(&relative), vec![name("a")]);
}

#[test]
fn resolves_parent_entries() {
    let path = vec![
        PathComponent::RootDir,
        name("a"),
        name("b"),
        PathComponent::ParentDir,
        name("c"),
        PathComponent::ParentDir,
        PathComponent::ParentDir,
        name("d"),
    ];
    assert_eq!(normalize_path(&path), vec![PathComponent::RootDir, name("d")]);
}

#[test]
fn parent_of_the_root_is_the_root() {
    let path = vec![PathComponent::RootDir, PathComponent::ParentDir, PathComponent::ParentDir, name("a")];
    assert_eq!(normalize_path(&path), vec![PathComponent::RootDir, name("a")]);
}

#[test]
fn leading_parent_entries_of_a_relative_path_are_dropped() {
    let path = vec![PathComponent::ParentDir, name("a"), PathComponent::ParentDir, PathComponent::ParentDir, name("b")];
    assert_eq!(normalize_path(&path), vec![name("b")]);
}

#[test]
fn keeps_a_prefix_and_its_root() {
    let path = vec![
        PathComponent::Prefix("C:".to_string()),
        PathComponent::RootDir,
        name("x"),
        PathComponent::ParentDir,
        PathComponent::ParentDir,
        name("y"),
    ];
    assert_eq!(
        normalize_path(&path),
        vec![PathComponent::Prefix("C:".to_string()), PathComponent::RootDir, name("y")]
    );
    let bare = vec![PathComponent::Prefix("C:".to_string()), PathComponent::ParentDir];
    assert_eq!(normalize_path(&bare), vec![PathComponent::Prefix("C:".to_string())]);
}

#[test]
fn empty_and_plain_paths_stay_as_they_are() {
    assert_eq!(normalize_path(&[]), Vec::<PathComponent>::new());
    let plain = vec![PathComponent::RootDir, name("proj"), name("sub")];
    assert_eq!(normalize_path(&plain), plain);
}

#[test]
fn normalizing_twice_changes_nothing() {
    let path = vec![name("a"), PathComponent::CurDir, PathComponent::ParentDir, PathComponent::ParentDir, name("b"), name("c"), PathComponent::ParentDir];
    let once = normalize_path(&path);
    assert_eq!(once, vec![name("b")]);
    assert_eq!(normalize_path(&once), once);
}

#[test]
fn compares_components_and_paths() {
    assert!(same_component(&name("a"), &name("a")));
    assert!(!same_component(&name("a"), &name("b")));
    assert!(!same_component(&name("a"), &PathComponent::Prefix("a".to_string())));
    assert!(same_component(&PathComponent::RootDir, &PathComponent::RootDir));
    assert!(!same_component(&PathComponent::CurDir, &PathComponent::ParentDir));
    assert!(same_path(&[PathComponent::RootDir, name("a")], &[PathComponent::RootDir, name("a")]));
    assert!(!same_path(&[PathComponent::RootDir, name("a")], &[PathComponent::RootDir]));
    assert!(!same_path(&[name("a"), name("b")], &[name("a"), name("c")]));
    assert!(same_path(&[], &[]));
}

#[test]
fn duplicate_copies_a_component() {
    for c in [name("x"), PathComponent::RootDir, PathComponent::CurDir, PathComponent::ParentDir, PathComponent::Prefix("D:".to_string())] {
        assert_eq!(c.duplicate(), c);
    }
}
