use astrocommunity_cli::astrocommunity::{Astrocommunity, Platform};
use astrocommunity_cli::error::Failure;
use astrocommunity_cli::file_system::FileSystem;
use astrocommunity_cli::path::join;

fn platform(appname: Option<&str>, macos: bool, home: Option<&str>, data: Option<&str>) -> Platform {
    Platform {
        appname: appname.map(|s| s.to_string()),
        macos,
        home_dir: home.map(|s| s.to_string()),
        data_local_dir: data.map(|s| s.to_string()),
    }
}

#[test]
fn checkout_stands_below_the_local_data() {
    let linux = platform(None, false, Some("/home/u"), Some("/home/u/.local/share"));
    assert_eq!(
        Astrocommunity::find_astrocommunity_folder(&linux),
        Ok("/home/u/.local/share/nvim/lazy/astrocommunity".to_string())
    );
    let named = platform(Some("astro"), false, None, Some("/data/"));
    assert_eq!(
        Astrocommunity::find_astrocommunity_folder(&named),
        Ok("/data/astro/lazy/astrocommunity".to_string())
    );
}

#[test]
fn checkout_stands_below_the_home_on_macos() {
    let mac = platform(None, true, Some("/Users/u"), None);
    assert_eq!(
        Astrocommunity::find_astrocommunity_folder(&mac),
        Ok("/Users/u/.local/share/nvim/lazy/astrocommunity".to_string())
    );
    let named = platform(Some("astro"), true, Some("/Users/u"), Some("/elsewhere"));
    assert_eq!(
        Astrocommunity::find_astrocommunity_folder(&named),
        Ok("/Users/u/.local/share/astro/lazy/astrocommunity".to_string())
    );
}

#[test]
fn unknown_directory_cannot_be_resolved() {
    let mac = platform(None, true, None, Some("/data"));
    assert_eq!(Astrocommunity::find_astrocommunity_folder(&mac), Err(Failure::Resolution));
    let linux = platform(Some("astro"), false, Some("/home/u"), None);
    assert_eq!(Astrocommunity::find_astrocommunity_folder(&linux), Err(Failure::Resolution));
    assert_eq!(FileSystem::lock_file(&mac), Err(Failure::Resolution));
    assert_eq!(FileSystem::lock_file(&linux), Err(Failure::Resolution));
}

#[test]
fn plugin_folders_stand_in_the_checkout() {
    assert_eq!(
        Astrocommunity::plugins_folder("/data/nvim/lazy/astrocommunity"),
        "/data/nvim/lazy/astrocommunity/lua/astrocommunity"
    );
}

#[test]
fn lock_file_stands_in_the_default_application_folder() {
    let linux = platform(Some("astro"), false, None, Some("/data"));
    assert_eq!(FileSystem::lock_file(&linux), Ok("/data/nvim/lazy-lock.json".to_string()));
    let mac = platform(None, true, Some("/Users/u"), None);
    assert_eq!(
        FileSystem::lock_file(&mac),
        Ok("/Users/u/.local/share/nvim/lazy-lock.json".to_string())
    );
}

#[test]
fn join_puts_one_separator_between() {
    assert_eq!(join("a", "b"), "a/b");
    assert_eq!(join("a/", "b"), "a/b");
    assert_eq!(join("", "b"), "b");
    assert_eq!(join("a", ""), "a/");
    assert_eq!(join("a", "/b"), "/b");
    assert_eq!(join("a/b", "c/d"), "a/b/c/d");
}

#[test]
fn pinned_commit_is_the_reference() {
    let lock = r#"{"astrocommunity": {"branch": "main", "commit": "0a1b2c3d"}, "lazy.nvim": {"commit": "ffff"}}"#;
    assert_eq!(
        FileSystem::new(Some(lock)),
        Ok(FileSystem { astrocommunity_hash: "0a1b2c3d".to_string() })
    );
}

#[test]
fn unpinned_catalog_is_listed_at_the_latest_revision() {
    let latest = Ok(FileSystem { astrocommunity_hash: "HEAD".to_string() });
    assert_eq!(FileSystem::new(None), latest);
    assert_eq!(FileSystem::new(Some(r#"{"astrocommunity": {"commit": null}}"#)), latest);
    assert_eq!(FileSystem::new(Some(r#"{"astrocommunity": {"branch": "main"}}"#)), latest);
    assert_eq!(FileSystem::new(Some(r#"{"lazy.nvim": {"commit": "ffff"}}"#)), latest);
    assert_eq!(FileSystem::new(Some("[]")), latest);
}

#[test]
fn lock_file_that_is_no_document_is_malformed() {
    assert_eq!(FileSystem::new(Some("{\"astrocommunity\": ")), Err(Failure::Parse));
    assert_eq!(FileSystem::new(Some("")), Err(Failure::Parse));
}

#[test]
fn reference_of_a_lock_document() {
    let document: serde_json::Value =
        serde_json::from_str(r#"{"astrocommunity": {"commit": "abc"}}"#).unwrap();
    assert_eq!(FileSystem::reference(&document), "abc");
    let other: serde_json::Value = serde_json::from_str(r#"{"astrocommunity": 3}"#).unwrap();
    assert_eq!(FileSystem::reference(&other), "HEAD");
}
