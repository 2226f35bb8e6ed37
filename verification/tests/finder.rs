use hosts_hook::address::Address;
use hosts_hook::finder::{
    candidate_filenames, find_by_hostname, read_file, HostsFile, HostsUpwardFinder, Search,
};
use hosts_hook::PathComponent;

fn dir(names: &[&str]) -> Vec<PathComponent> {
    let mut path = vec![PathComponent::RootDir];
    for n in names {
        path.push(PathComponent::Normal(n.to_string()));
    }
    path
}

fn file(at: &[&str], name: &str, lines: &[&str]) -> HostsFile {
    HostsFile {
        dir: dir(at),
        name: name.to_string(),
        lines: lines.iter().map(|l| l.to_string()).collect(),
    }
}

fn query(cwd: &[PathComponent], hostname: &str, env: Option<&str>, files: &[HostsFile]) -> Option<Address> {
    HostsUpwardFinder::new(cwd).find(hostname, env, files)
}

fn drive(mut search: Search, files: &[HostsFile], probed: &mut Vec<String>) -> Option<Address> {
    while let Some((d, name)) = search.candidate() {
        probed.push(format!("{}:{}", d.len(), name));
        let contents = read_file(files, d, name);
        search.advance(contents);
    }
    search.result()
}

#[test]
fn candidate_names_without_a_tag() {
    assert_eq!(candidate_filenames(None), vec!["hosts".to_string(), ".hosts".to_string()]);
}

#[test]
fn candidate_names_with_a_tag() {
    assert_eq!(
        candidate_filenames(Some("staging")),
        vec![
            "hosts.staging".to_string(),
            ".hosts.staging".to_string(),
            "hosts".to_string(),
            ".hosts".to_string()
        ]
    );
}

#[test]
fn finder_yields_each_ancestor_once() {
    let cwd = dir(&["proj", "sub"]);
    let mut finder = HostsUpwardFinder::new(&cwd);
    assert_eq!(finder.next(), Some(&dir(&["proj", "sub"])[..]));
    assert_eq!(finder.next(), Some(&dir(&["proj"])[..]));
    assert_eq!(finder.next(), Some(&dir(&[])[..]));
    assert_eq!(finder.next(), None);
    assert_eq!(finder.next(), None);
}

#[test]
fn finder_on_relative_and_empty_paths() {
    let relative = vec![PathComponent::Normal("a".to_string())];
    let mut finder = HostsUpwardFinder::new(&relative);
    assert_eq!(finder.next(), Some(&relative[..]));
    assert_eq!(finder.next(), Some(&[][..]));
    assert_eq!(finder.next(), None);
    let mut empty = HostsUpwardFinder::new(&[]);
    assert_eq!(empty.next(), Some(&[][..]));
    assert_eq!(empty.next(), None);
    let prefix = vec![PathComponent::Prefix("C:".to_string())];
    let mut bare = HostsUpwardFinder::new(&prefix);
    assert_eq!(bare.next(), Some(&prefix[..]));
    assert_eq!(bare.next(), None);
}

#[test]
fn override_in_parent_directory_is_found() {
    let files = vec![file(&["proj"], "hosts", &["10.0.0.5 svc.local"])];
    let cwd = dir(&["proj", "sub"]);
    assert_eq!(query(&cwd, "svc.local", None, &files), Some(Address::V4([10, 0, 0, 5])));
    assert_eq!(query(&cwd, "other.local", None, &files), None);
}

#[test]
fn tagged_file_wins_in_the_same_directory() {
    let files = vec![
        file(&["proj"], "hosts", &["10.0.0.5 svc.local"]),
        file(&["proj"], "hosts.staging", &["10.0.0.9 svc.local"]),
    ];
    let cwd = dir(&["proj"]);
    assert_eq!(query(&cwd, "svc.local", Some("staging"), &files), Some(Address::V4([10, 0, 0, 9])));
    assert_eq!(query(&cwd, "svc.local", None, &files), Some(Address::V4([10, 0, 0, 5])));
    assert_eq!(query(&cwd, "svc.local", Some("prod"), &files), Some(Address::V4([10, 0, 0, 5])));
}

#[test]
fn nearer_directory_wins_over_tagged_ancestor() {
    let files = vec![
        file(&["proj"], "hosts.staging", &["10.0.0.9 svc.local"]),
        file(&["proj", "sub"], "hosts", &["10.0.0.5 svc.local"]),
    ];
    let cwd = dir(&["proj", "sub"]);
    assert_eq!(query(&cwd, "svc.local", Some("staging"), &files), Some(Address::V4([10, 0, 0, 5])));
}

#[test]
fn candidate_order_within_a_directory() {
    let all = vec![
        file(&["p"], ".hosts", &["10.0.0.4 h"]),
        file(&["p"], "hosts", &["10.0.0.3 h"]),
        file(&["p"], ".hosts.dev", &["10.0.0.2 h"]),
        file(&["p"], "hosts.dev", &["10.0.0.1 h"]),
    ];
    let cwd = dir(&["p"]);
    assert_eq!(query(&cwd, "h", Some("dev"), &all), Some(Address::V4([10, 0, 0, 1])));
    assert_eq!(query(&cwd, "h", Some("dev"), &all[..3]), Some(Address::V4([10, 0, 0, 2])));
    assert_eq!(query(&cwd, "h", Some("dev"), &all[..2]), Some(Address::V4([10, 0, 0, 3])));
    assert_eq!(query(&cwd, "h", Some("dev"), &all[..1]), Some(Address::V4([10, 0, 0, 4])));
    assert_eq!(query(&cwd, "h", None, &all), Some(Address::V4([10, 0, 0, 3])));
    assert_eq!(query(&cwd, "h", Some("dev"), &[]), None);
}

#[test]
fn a_file_without_a_match_does_not_stop_the_walk() {
    let files = vec![
        file(&["proj", "sub"], "hosts", &["# nothing here", "", "10.0.0.1 unrelated"]),
        file(&["proj"], "hosts", &["10.0.0.5 svc.local"]),
    ];
    let cwd = dir(&["proj", "sub"]);
    assert_eq!(query(&cwd, "svc.local", None, &files), Some(Address::V4([10, 0, 0, 5])));
}

#[test]
fn comment_only_file_behaves_as_absent() {
    let with = vec![
        file(&["proj", "sub"], "hosts", &["# 10.0.0.9 svc.local", "", "#"]),
        file(&[], ".hosts", &["10.0.0.5 svc.local"]),
    ];
    let without = vec![file(&[], ".hosts", &["10.0.0.5 svc.local"])];
    let cwd = dir(&["proj", "sub"]);
    for host in ["svc.local", "other.local"] {
        assert_eq!(query(&cwd, host, None, &with), query(&cwd, host, None, &without));
    }
    assert_eq!(query(&cwd, "svc.local", None, &with), Some(Address::V4([10, 0, 0, 5])));
}

#[test]
fn files_below_or_beside_the_walk_are_not_seen() {
    let files = vec![
        file(&["proj", "sub", "deeper"], "hosts", &["10.0.0.1 svc.local"]),
        file(&["other"], "hosts", &["10.0.0.2 svc.local"]),
    ];
    assert_eq!(query(&dir(&["proj", "sub"]), "svc.local", None, &files), None);
}

#[test]
fn repeated_queries_return_the_same_address() {
    let files = vec![
        file(&["proj"], "hosts", &["10.0.0.5 svc.local"]),
        file(&[], "hosts", &["10.0.0.6 root.local"]),
    ];
    let cwd = dir(&["proj", "sub"]);
    for host in ["svc.local", "root.local", "none.local"] {
        let first = query(&cwd, host, None, &files);
        for _ in 0..3 {
            assert_eq!(query(&cwd, host, None, &files), first);
        }
    }
    assert_eq!(query(&cwd, "root.local", None, &files), Some(Address::V4([10, 0, 0, 6])));
}

#[test]
fn find_leaves_the_finder_above_the_deciding_directory() {
    let files = vec![file(&["proj"], "hosts", &["10.0.0.5 svc.local"])];
    let cwd = dir(&["proj", "sub"]);
    let mut finder = HostsUpwardFinder::new(&cwd);
    assert_eq!(finder.find("svc.local", None, &files), Some(Address::V4([10, 0, 0, 5])));
    assert_eq!(finder.next(), Some(&dir(&[])[..]));
    let mut missed = HostsUpwardFinder::new(&cwd);
    assert_eq!(missed.find("other.local", None, &files), None);
    assert_eq!(missed.next(), None);
}

#[test]
fn search_probes_nearest_first_and_stops_at_a_hit() {
    let files = vec![file(&["proj"], ".hosts", &["10.0.0.5 svc.local"])];
    let cwd = dir(&["proj", "sub"]);
    let mut probed = Vec::new();
    let found = drive(find_by_hostname(&cwd, "svc.local", Some("qa")), &files, &mut probed);
    assert_eq!(found, Some(Address::V4([10, 0, 0, 5])));
    assert_eq!(
        probed,
        vec![
            "3:hosts.qa", "3:.hosts.qa", "3:hosts", "3:.hosts", "2:hosts.qa", "2:.hosts.qa",
            "2:hosts", "2:.hosts"
        ]
    );
}

#[test]
fn search_probes_every_candidate_on_a_miss() {
    let cwd = dir(&["a"]);
    let mut probed = Vec::new();
    let found = drive(find_by_hostname(&cwd, "svc.local", None), &[], &mut probed);
    assert_eq!(found, None);
    assert_eq!(probed, vec!["2:hosts", "2:.hosts", "1:hosts", "1:.hosts"]);
}

#[test]
fn search_ignores_reports_once_it_is_over() {
    let cwd = dir(&[]);
    let mut search = find_by_hostname(&cwd, "h", None);
    let hit = vec!["10.0.0.1 h".to_string()];
    let other = vec!["10.0.0.2 h".to_string()];
    assert_eq!(search.result(), None);
    search.advance(Some(&hit));
    assert_eq!(search.result(), Some(Address::V4([10, 0, 0, 1])));
    assert!(search.candidate().is_none());
    search.advance(Some(&other));
    assert_eq!(search.result(), Some(Address::V4([10, 0, 0, 1])));
    let mut done = find_by_hostname(&cwd, "h", None);
    done.advance(None);
    done.advance(None);
    assert!(done.candidate().is_none());
    done.advance(Some(&hit));
    assert_eq!(done.result(), None);
}

#[test]
fn first_entry_of_a_listing_counts() {
    let files = vec![
        file(&["p"], "hosts", &["10.0.0.1 h"]),
        file(&["p"], "hosts", &["10.0.0.2 h"]),
    ];
    assert_eq!(read_file(&files, &dir(&["p"]), "hosts"), Some(&files[0].lines[..]));
    assert_eq!(read_file(&files, &dir(&["p"]), ".hosts"), None);
    assert_eq!(read_file(&files, &dir(&["q"]), "hosts"), None);
    assert_eq!(query(&dir(&["p"]), "h", None, &files), Some(Address::V4([10, 0, 0, 1])));
}

#[test]
fn scenario_override_in_project_directory() {
    let files = vec![file(&["proj"], "hosts", &["10.0.0.5 svc.local"])];
    let cwd = dir(&["proj", "sub"]);
    assert_eq!(query(&cwd, "svc.local", None, &files), Some(Address::V4([10, 0, 0, 5])));
    assert_eq!(query(&cwd, "other.local", None, &files), None);
}

#[test]
fn scenario_staging_environment() {
    let files = vec![
        file(&["proj"], "hosts.staging", &["10.0.0.9 svc.local"]),
        file(&["proj"], "hosts", &["10.0.0.5 svc.local"]),
    ];
    for cwd in [dir(&["proj"]), dir(&["proj", "sub"])] {
        assert_eq!(
            query(&cwd, "svc.local", Some("staging"), &files),
            Some(Address::V4([10, 0, 0, 9]))
        );
    }
}
