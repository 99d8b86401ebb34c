use unity_updater::updater::Updater;
use unity_updater::versions::is_version_name;
use unity_updater::versions::DirEntryInfo;

fn dir(name: &str) -> DirEntryInfo {
    DirEntryInfo { name: name.to_string(), is_dir: true }
}

fn file(name: &str) -> DirEntryInfo {
    DirEntryInfo { name: name.to_string(), is_dir: false }
}

#[test]
fn discovery_filters_correctly() {
    let entries = vec![dir("2022.3.5f1"), dir("notaversion"), dir("2021.1.0a3")];
    let found = Updater::find_avaible_unity_versions(Ok(entries)).unwrap();
    assert_eq!(found.len(), 2);
    assert!(found.contains(&"2022.3.5f1".to_string()));
    assert!(found.contains(&"2021.1.0a3".to_string()));
}

#[test]
fn discovery_keeps_listing_order() {
    let entries = vec![dir("2021.1.0a3"), dir("x"), dir("2022.3.5f1")];
    let found = Updater::find_avaible_unity_versions(Ok(entries)).unwrap();
    assert_eq!(found, vec!["2021.1.0a3".to_string(), "2022.3.5f1".to_string()]);
}

#[test]
fn discovery_skips_plain_files() {
    let entries = vec![file("2022.3.5f1"), dir("2021.1.0a3")];
    let found = Updater::find_avaible_unity_versions(Ok(entries)).unwrap();
    assert_eq!(found, vec!["2021.1.0a3".to_string()]);
}

#[test]
fn discovery_propagates_root_failure() {
    let error = Updater::find_avaible_unity_versions(Err("root is not a directory".to_string()))
        .unwrap_err();
    assert_eq!(error.message, "root is not a directory");
    assert_eq!(error.message_text(), "root is not a directory");
}

#[test]
fn discovery_of_empty_listing_is_empty() {
    let found = Updater::find_avaible_unity_versions(Ok(Vec::new())).unwrap();
    assert!(found.is_empty());
}

#[test]
fn version_names_accepted() {
    assert!(is_version_name("2022.3.5f1"));
    assert!(is_version_name("2021.1.0a3"));
    assert!(is_version_name("2022.3.5F10"));
    assert!(is_version_name("1999.12.345b6789"));
}

#[test]
fn version_names_accept_edge_shapes() {
    assert!(is_version_name("0000.0.0a0"));
    assert!(is_version_name("2022.3.5f01"));
}

#[test]
fn version_names_reject_non_ascii_tails() {
    assert!(!is_version_name("2022.3.5f1\u{2713}"));
    assert!(!is_version_name("2022.3.5\u{e9}1"));
}

#[test]
fn version_names_rejected() {
    assert!(!is_version_name(""));
    assert!(!is_version_name("notaversion"));
    assert!(!is_version_name("202.3.5f1"));
    assert!(!is_version_name("20223.5f1"));
    assert!(!is_version_name("2022.3.5f"));
    assert!(!is_version_name("2022.3.f1"));
    assert!(!is_version_name("2022..5f1"));
    assert!(!is_version_name("2022.3.5f1x"));
    assert!(!is_version_name("x2022.3.5f1"));
    assert!(!is_version_name("2022.3.5.1"));
    assert!(!is_version_name("2022 3.5f1"));
}
