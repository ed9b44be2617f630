use astrocommunity_cli::astrocommunity::{parse_folders, Astrocommunity, PluginInfo};
use astrocommunity_cli::catalog::{collect, insert};
use astrocommunity_cli::error::Failure;
use astrocommunity_cli::file_system::FileSystem;
use astrocommunity_cli::git_operations::{
    github_api_tree_recursive, has_two_pieces, keep_deep, listing_paths, parse,
    parse_directories, parse_directory, parse_plugin_info, tree_url, GitOperations,
};
use astrocommunity_cli::pattern::strip_each;

fn plugin(group: &str, name: &str) -> PluginInfo {
    PluginInfo { group: group.to_string(), name: name.to_string() }
}

fn strings(items: &[&str]) -> Vec<String> {
    items.iter().map(|s| s.to_string()).collect()
}

#[test]
fn many_paths_of_one_plugin_give_one_entry() {
    let raw = strings(&[
        "lua/astrocommunity/pack/rust/init.lua",
        "lua/astrocommunity/pack/rust/README.md",
        "lua/astrocommunity/pack/rust/extra.lua",
        "lua/astrocommunity/pack/rust/init.lua",
    ]);
    assert_eq!(parse(&raw).unwrap(), vec![plugin("pack", "rust")]);
}

#[test]
fn catalog_is_ordered_by_group_then_name() {
    let raw = strings(&[
        "lua/astrocommunity/pack/rust/init.lua",
        "lua/astrocommunity/color/zen/init.lua",
        "lua/astrocommunity/pack/go/init.lua",
        "lua/astrocommunity/color/abc/init.lua",
        "lua/astrocommunity/pack/go/README.md",
    ]);
    assert_eq!(
        parse(&raw).unwrap(),
        vec![
            plugin("color", "abc"),
            plugin("color", "zen"),
            plugin("pack", "go"),
            plugin("pack", "rust"),
        ]
    );
}

#[test]
fn reserved_folder_yields_nothing() {
    let raw = strings(&["lua/astrocommunity/.github/workflows/ci.yml"]);
    assert_eq!(parse(&raw).unwrap(), Vec::<PluginInfo>::new());
}

#[test]
fn file_directly_in_a_group_yields_nothing() {
    let raw = strings(&["lua/astrocommunity/pack/init.lua", "README.md", "lua/astrocommunity"]);
    assert_eq!(parse(&raw).unwrap(), Vec::<PluginInfo>::new());
}

#[test]
fn empty_listing_gives_empty_catalog() {
    assert_eq!(parse(&Vec::new()).unwrap(), Vec::<PluginInfo>::new());
}

#[test]
fn path_that_ends_in_a_separator_keeps_its_folder() {
    let raw = strings(&["lua/astrocommunity/pack/rust/"]);
    assert_eq!(parse(&raw).unwrap(), vec![plugin("pack", "rust")]);
}

#[test]
fn folder_needs_two_pieces_that_are_not_empty() {
    assert_eq!(parse_plugin_info("pack".to_string()), None);
    assert_eq!(parse_plugin_info("".to_string()), None);
    assert_eq!(parse_plugin_info("pack/".to_string()), None);
    assert_eq!(parse_plugin_info("/rust".to_string()), None);
    assert_eq!(parse_plugin_info("pack//rust".to_string()), None);
    assert_eq!(parse_plugin_info("pack/rust".to_string()), Some(plugin("pack", "rust")));
    assert_eq!(parse_plugin_info("pack/rust/extra".to_string()), Some(plugin("pack", "rust")));
}

#[test]
fn directory_loses_the_root_prefix_at_its_start() {
    assert_eq!(parse_directory("lua/astrocommunity/pack/rust"), Some(plugin("pack", "rust")));
    assert_eq!(parse_directory("lua/astrocommunity/pack/rust/snippets"), Some(plugin("pack", "rust")));
    assert_eq!(parse_directory("pack/lua/astrocommunity/rust"), Some(plugin("pack", "lua")));
    assert_eq!(parse_directory("pack/rust"), Some(plugin("pack", "rust")));
    assert_eq!(parse_directory("lua/astrocommunity/pack"), None);
    assert_eq!(parse_directory("lua/astrocommunity/.github/workflows"), None);
    assert_eq!(parse_directory("lua/astrocommunity/pack/.github"), None);
}

#[test]
fn catalog_root_is_no_plugin() {
    assert_eq!(parse_directory("lua/astrocommunity"), None);
    assert_eq!(parse_directory("lua/astrocommunity/"), None);
    assert_eq!(parse_directory("lua/astrocommunity/lua/astrocommunity"), None);
    assert_eq!(parse_directory("lua/astrocommunity/lua/astrocommunity/"), None);
    assert_eq!(parse_directory(""), None);
    assert_eq!(
        parse_directories(&strings(&["lua/astrocommunity"])),
        Vec::<PluginInfo>::new()
    );
}

#[test]
fn record_of_a_group_directory_yields_nothing() {
    assert_eq!(parse(&strings(&["lua/astrocommunity/pack"])).unwrap(), Vec::<PluginInfo>::new());
}

#[test]
fn file_directly_in_the_root_yields_nothing() {
    assert_eq!(
        parse(&strings(&["lua/astrocommunity/init.lua"])).unwrap(),
        Vec::<PluginInfo>::new()
    );
}

#[test]
fn listing_with_the_records_of_directories() {
    let raw = strings(&[
        "README.md",
        "lua",
        "lua/astrocommunity",
        "lua/astrocommunity/init.lua",
        "lua/astrocommunity/pack",
        "lua/astrocommunity/pack/rust",
        "lua/astrocommunity/pack/rust/init.lua",
        ".github/workflows/ci.yml",
    ]);
    assert_eq!(parse(&raw).unwrap(), vec![plugin("pack", "rust")]);
}

#[test]
fn paths_with_two_pieces_behind_the_prefix_are_kept() {
    assert!(has_two_pieces("lua/astrocommunity/pack/rust"));
    assert!(has_two_pieces("lua/astrocommunity/pack/"));
    assert!(has_two_pieces("a/b"));
    assert!(!has_two_pieces("lua/astrocommunity/pack"));
    assert!(!has_two_pieces("lua/astrocommunity/"));
    assert!(!has_two_pieces("README.md"));
    assert!(!has_two_pieces(""));
    assert_eq!(
        keep_deep(&strings(&["lua/astrocommunity/a", "lua/astrocommunity/a/b", "c", "d/e"])),
        strings(&["lua/astrocommunity/a/b", "d/e"])
    );
    assert_eq!(keep_deep(&Vec::new()), Vec::<String>::new());
}

#[test]
fn response_with_tree_is_parsed() {
    let body = br#"{"sha":"abc","tree":[{"path":"lua/astrocommunity/pack/rust/init.lua","type":"blob"},{"path":"README.md"},{"path":"lua/astrocommunity/pack/rust/README.md"}]}"#;
    let catalog = GitOperations::parse_response(body.to_vec()).unwrap();
    assert_eq!(catalog, vec![plugin("pack", "rust")]);
}

#[test]
fn response_that_is_no_document_is_malformed() {
    assert_eq!(GitOperations::parse_response(b"{\"tree\": [".to_vec()), Err(Failure::Parse));
    assert_eq!(GitOperations::parse_response(Vec::new()), Err(Failure::Parse));
}

#[test]
fn response_without_listing_is_malformed() {
    assert_eq!(GitOperations::parse_response(b"{}".to_vec()), Err(Failure::Parse));
    assert_eq!(GitOperations::parse_response(b"{\"tree\": 3}".to_vec()), Err(Failure::Parse));
    assert_eq!(
        GitOperations::parse_response(b"{\"tree\": [{\"mode\": \"1\"}]}".to_vec()),
        Err(Failure::Parse)
    );
    assert_eq!(
        GitOperations::parse_response(b"{\"tree\": [{\"path\": 7}]}".to_vec()),
        Err(Failure::Parse)
    );
    assert_eq!(GitOperations::parse_response(b"[]".to_vec()), Err(Failure::Parse));
}

#[test]
fn response_with_empty_tree_gives_empty_catalog() {
    assert_eq!(GitOperations::parse_response(b"{\"tree\": []}".to_vec()), Ok(Vec::new()));
}

#[test]
fn listing_paths_keep_the_order_of_the_items() {
    let document: serde_json::Value =
        serde_json::from_str(r#"{"tree":[{"path":"b"},{"path":"a"},{"path":"b"}]}"#).unwrap();
    assert_eq!(listing_paths(&document), Some(strings(&["b", "a", "b"])));
    let other: serde_json::Value = serde_json::from_str(r#"{"tree":{"path":"b"}}"#).unwrap();
    assert_eq!(listing_paths(&other), None);
}

#[test]
fn failure_status_is_surfaced() {
    let operations = GitOperations::new();
    let body = b"{\"tree\": []}".to_vec();
    assert_eq!(
        operations.get_astrocommunity_tree(404, body.clone()),
        Err(Failure::Network { status: 404 })
    );
    assert_eq!(
        operations.get_astrocommunity_tree(199, body.clone()),
        Err(Failure::Network { status: 199 })
    );
    assert_eq!(
        operations.get_astrocommunity_tree(300, body.clone()),
        Err(Failure::Network { status: 300 })
    );
    assert_eq!(operations.get_astrocommunity_tree(200, body.clone()), Ok(Vec::new()));
    assert_eq!(operations.get_astrocommunity_tree(299, body), Ok(Vec::new()));
}

#[test]
fn fallback_reads_the_remote_listing() {
    let body = br#"{"tree":[{"path":"lua/astrocommunity/pack/rust/init.lua"}]}"#.to_vec();
    assert_eq!(Astrocommunity::fallback(200, body.clone()), Ok(vec![plugin("pack", "rust")]));
    assert_eq!(Astrocommunity::fallback(500, body), Err(Failure::Network { status: 500 }));
}

#[test]
fn tree_url_holds_the_reference() {
    assert_eq!(
        tree_url("HEAD"),
        "https://api.github.com/repos/AstroNvim/astrocommunity/git/trees/HEAD?recursive=1"
    );
    assert_eq!(
        tree_url("0a1b2c"),
        "https://api.github.com/repos/AstroNvim/astrocommunity/git/trees/0a1b2c?recursive=1"
    );
    let pinned = FileSystem::new(Some(r#"{"astrocommunity": {"commit": "0a1b2c"}}"#)).unwrap();
    assert_eq!(github_api_tree_recursive(&pinned), tree_url("0a1b2c"));
    assert_eq!(github_api_tree_recursive(&FileSystem::new(None).unwrap()), tree_url("HEAD"));
}

#[test]
fn local_scan_names_group_and_plugin() {
    let folders = strings(&[
        "/home/u/.local/share/nvim/lazy/astrocommunity/lua/astrocommunity/pack/rust",
        "/home/u/.local/share/nvim/lazy/astrocommunity/lua/astrocommunity/color/zen",
        "/home/u/.local/share/nvim/lazy/astrocommunity/lua/astrocommunity/pack/rust",
    ]);
    assert_eq!(
        Astrocommunity::new().get_plugins(&folders).unwrap(),
        vec![plugin("color", "zen"), plugin("pack", "rust")]
    );
}

#[test]
fn local_scan_passes_over_paths_without_two_pieces() {
    let folders = strings(&["/data/lua/astrocommunity/pack", "/data/lua/astrocommunity/"]);
    assert_eq!(Astrocommunity::new().get_plugins(&folders).unwrap(), Vec::<PluginInfo>::new());
    assert_eq!(Astrocommunity::new().get_plugins(&Vec::new()).unwrap(), Vec::<PluginInfo>::new());
}

#[test]
fn insert_keeps_order_and_skips_what_is_there() {
    let mut catalog = Vec::new();
    insert(&mut catalog, plugin("pack", "rust"));
    insert(&mut catalog, plugin("color", "zen"));
    insert(&mut catalog, plugin("pack", "go"));
    insert(&mut catalog, plugin("pack", "rust"));
    insert(&mut catalog, plugin("pack", "rusty"));
    assert_eq!(
        catalog,
        vec![
            plugin("color", "zen"),
            plugin("pack", "go"),
            plugin("pack", "rust"),
            plugin("pack", "rusty"),
        ]
    );
}

#[test]
fn collect_passes_over_empty_places() {
    let found = vec![Some(plugin("b", "x")), None, Some(plugin("a", "y")), Some(plugin("b", "x"))];
    assert_eq!(collect(&found), vec![plugin("a", "y"), plugin("b", "x")]);
    assert_eq!(collect(&vec![None, None]), Vec::<PluginInfo>::new());
}

#[test]
fn directories_of_one_plugin_give_one_entry() {
    let directories = strings(&[
        "lua/astrocommunity/pack/rust",
        "lua/astrocommunity/pack/rust/snippets",
        "lua/astrocommunity/pack",
        "lua/astrocommunity/.github/workflows",
        "lua/astrocommunity/color/zen",
        "lua/astrocommunity/pack/rust",
    ]);
    assert_eq!(parse_directories(&directories), vec![plugin("color", "zen"), plugin("pack", "rust")]);
    assert_eq!(parse_directories(&Vec::new()), Vec::<PluginInfo>::new());
}

#[test]
fn folders_name_plugins_by_their_first_two_pieces() {
    let folders = strings(&["pack/rust", "pack", "color/zen/inner", "", "pack/rust"]);
    assert_eq!(parse_folders(&folders), vec![plugin("color", "zen"), plugin("pack", "rust")]);
}

#[test]
fn file_name_is_cut_off_each_path() {
    let paths = strings(&["a/b/c.lua", "a/b/", "plain", "", "/x", "a\nb/c"]);
    assert_eq!(
        strip_each("/[^/]+$", &paths),
        Ok(strings(&["a/b", "a/b/", "plain", "", "", "a\nb"]))
    );
}

#[test]
fn everything_up_to_the_plugin_folders_is_cut_off() {
    let paths = strings(&[
        "/data/lua/astrocommunity/pack/rust",
        "lua/astrocommunity/lua/astrocommunity/x",
        "elsewhere/pack",
    ]);
    assert_eq!(
        strip_each(".*lua/astrocommunity/", &paths),
        Ok(strings(&["pack/rust", "x", "elsewhere/pack"]))
    );
}

#[test]
fn pattern_that_is_turned_down_fails() {
    assert_eq!(strip_each("(", &strings(&["a"])), Err(Failure::Pattern));
    assert_eq!(strip_each("(", &Vec::new()), Err(Failure::Pattern));
}

#[test]
fn catalog_order_is_the_order_of_the_entries() {
    let raw = strings(&[
        "lua/astrocommunity/pack/rust/init.lua",
        "lua/astrocommunity/Pack/rust/init.lua",
        "lua/astrocommunity/pack/Rust/init.lua",
        "lua/astrocommunity/pack/rust-tools/init.lua",
        "lua/astrocommunity/pack/r/init.lua",
        "lua/astrocommunity/p/z/init.lua",
        "lua/astrocommunity/pack-x/a/init.lua",
    ]);
    let catalog = parse(&raw).unwrap();
    let mut sorted = catalog.clone();
    sorted.sort();
    assert_eq!(catalog, sorted);
    assert_eq!(catalog.len(), 7);
    assert_eq!(catalog[0], plugin("Pack", "rust"));
    assert_eq!(catalog[1], plugin("p", "z"));
    assert_eq!(catalog[6], plugin("pack-x", "a"));
}
