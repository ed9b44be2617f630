use astrocommunity_cli::astrocommunity::PluginInfo;
use astrocommunity_cli::error::Failure;
use astrocommunity_cli::fzf::{candidates, find_label, select, Fzf};
use astrocommunity_cli::git_operations::parse;
use astrocommunity_cli::render::render_import_statements;

fn plugin(group: &str, name: &str) -> PluginInfo {
    PluginInfo { group: group.to_string(), name: name.to_string() }
}

#[test]
fn label_is_name_then_group_in_brackets() {
    assert_eq!(plugin("pack", "nvim-lsp").to_string(), "nvim-lsp [pack]");
    assert_eq!(plugin("", "").to_string(), " []");
}

#[test]
fn candidates_are_one_label_per_line() {
    let catalog = vec![plugin("pack", "nvim-lsp"), plugin("editor-support", "telescope")];
    assert_eq!(candidates(&catalog), "nvim-lsp [pack]\ntelescope [editor-support]");
    assert_eq!(candidates(&catalog[..1]), "nvim-lsp [pack]");
    assert_eq!(candidates(&[]), "");
}

#[test]
fn scenario_from_listing_to_import_statement() {
    let raw = vec![
        "lua/astrocommunity/pack/nvim-lsp/init.lua".to_string(),
        "lua/astrocommunity/pack/nvim-lsp/README.md".to_string(),
        "lua/astrocommunity/editor-support/telescope/init.lua".to_string(),
    ];
    let catalog = parse(&raw).unwrap();
    assert_eq!(catalog.len(), 2);
    assert!(catalog.contains(&plugin("pack", "nvim-lsp")));
    assert!(catalog.contains(&plugin("editor-support", "telescope")));
    assert_eq!(catalog, vec![plugin("editor-support", "telescope"), plugin("pack", "nvim-lsp")]);
    assert_eq!(candidates(&catalog), "telescope [editor-support]\nnvim-lsp [pack]");

    let shown = vec![plugin("pack", "nvim-lsp"), plugin("editor-support", "telescope")];
    assert_eq!(candidates(&shown), "nvim-lsp [pack]\ntelescope [editor-support]");

    let selected = select("nvim-lsp [pack]\n", &catalog).unwrap();
    assert_eq!(selected, vec![plugin("pack", "nvim-lsp")]);
    assert_eq!(select("nvim-lsp [pack]\n", &shown).unwrap(), selected);
    assert_eq!(
        render_import_statements(&selected),
        "{ import = \"astrocommunity.pack.nvim-lsp\", enable = true },\n"
    );
}

#[test]
fn unknown_line_fails_the_selection() {
    let catalog = vec![plugin("pack", "nvim-lsp"), plugin("editor-support", "telescope")];
    assert_eq!(
        select("unknown-plugin [ghost]", &catalog),
        Err(Failure::SelectionIntegrity { line: "unknown-plugin [ghost]".to_string() })
    );
    assert_eq!(
        select("nvim-lsp [pack]\nunknown-plugin [ghost]\n", &catalog),
        Err(Failure::SelectionIntegrity { line: "unknown-plugin [ghost]".to_string() })
    );
}

#[test]
fn first_unknown_line_is_reported() {
    let catalog = vec![plugin("pack", "nvim-lsp")];
    assert_eq!(
        select("\nnvim-lsp [pack]\n\nfirst\nsecond\n", &catalog),
        Err(Failure::SelectionIntegrity { line: "first".to_string() })
    );
    assert_eq!(
        select("nvim-lsp [pack] ", &catalog),
        Err(Failure::SelectionIntegrity { line: "nvim-lsp [pack] ".to_string() })
    );
}

#[test]
fn empty_output_selects_nothing() {
    let catalog = vec![plugin("pack", "nvim-lsp")];
    assert_eq!(select("", &catalog), Ok(Vec::new()));
    assert_eq!(select("\n\n", &catalog), Ok(Vec::new()));
    assert_eq!(select("", &[]), Ok(Vec::new()));
    assert_eq!(
        select("x", &[]),
        Err(Failure::SelectionIntegrity { line: "x".to_string() })
    );
}

#[test]
fn selection_keeps_the_order_of_the_lines() {
    let catalog = vec![plugin("a", "one"), plugin("b", "two"), plugin("c", "three")];
    let selected = select("three [c]\n\none [a]\nthree [c]\n", &catalog).unwrap();
    assert_eq!(selected, vec![plugin("c", "three"), plugin("a", "one"), plugin("c", "three")]);
    for chosen in selected.iter() {
        assert!(catalog.contains(chosen));
    }
}

#[test]
fn each_label_finds_its_own_entry() {
    let catalog = vec![
        plugin("color", "abc"),
        plugin("color", "zen"),
        plugin("pack", "abc"),
        plugin("pack", "rust"),
    ];
    for (place, entry) in catalog.iter().enumerate() {
        assert_eq!(find_label(&catalog, &entry.to_string()), Some(place));
        assert_eq!(select(&entry.to_string(), &catalog), Ok(vec![entry.clone()]));
    }
    assert_eq!(find_label(&catalog, "abc"), None);
    assert_eq!(find_label(&catalog, "abc [color] "), None);
}

#[test]
fn entries_that_share_a_label_give_the_first() {
    let catalog = vec![plugin("b [c", "a"), plugin("c", "a [b")];
    assert_eq!(catalog[0].to_string(), catalog[1].to_string());
    assert_eq!(find_label(&catalog, "a [b [c]"), Some(0));
    assert_eq!(select("a [b [c]", &catalog), Ok(vec![plugin("b [c", "a")]));
}

#[test]
fn missing_selector_is_named() {
    assert_eq!(
        Fzf::new(None),
        Err(Failure::SelectorUnavailable { executable: "fzf".to_string() })
    );
    let fzf = Fzf::new(Some("/usr/bin/fzf".to_string())).unwrap();
    assert_eq!(fzf.program, "/usr/bin/fzf");
    assert!(fzf.input.is_empty());
    assert!(fzf.output.is_empty());
}

#[test]
fn selector_is_started_for_several_choices() {
    assert_eq!(
        Fzf::arguments(),
        vec!["-m".to_string(), "--height=20".to_string(), "--layout=reverse-list".to_string()]
    );
    assert_eq!(Fzf::executable(false), "fzf");
    assert_eq!(Fzf::executable(true), "fzf.exe");
}

#[test]
fn exchange_with_the_selector() {
    let catalog = vec![plugin("pack", "nvim-lsp"), plugin("editor-support", "telescope")];
    let mut fzf = Fzf::new(Some("fzf".to_string())).unwrap();
    assert_eq!(fzf.write_to_stdin(candidates(&catalog).as_bytes()), Ok(()));
    assert_eq!(fzf.input, b"nvim-lsp [pack]\ntelescope [editor-support]".to_vec());
    assert_eq!(fzf.write_to_stdin(b"\n"), Ok(()));
    assert_eq!(fzf.input, b"nvim-lsp [pack]\ntelescope [editor-support]\n".to_vec());
    fzf.receive("telescope [editor-");
    fzf.receive("support]\n");
    assert_eq!(fzf.output, "telescope [editor-support]\n");
    assert_eq!(
        fzf.get_selected_plugins(&catalog),
        Ok(vec![plugin("editor-support", "telescope")])
    );
    assert_eq!(fzf.output, "");
    assert_eq!(fzf.get_selected_plugins(&catalog), Ok(Vec::new()));
    assert_eq!(fzf.program, "fzf");
}

#[test]
fn output_is_read_once() {
    let mut fzf = Fzf::new(Some("fzf".to_string())).unwrap();
    fzf.receive("one [a]\n");
    assert_eq!(fzf.read_from_stdout(), Ok("one [a]\n".to_string()));
    assert_eq!(fzf.read_from_stdout(), Ok(String::new()));
}

#[test]
fn unknown_line_from_the_selector_fails_the_exchange() {
    let catalog = vec![plugin("pack", "nvim-lsp")];
    let mut fzf = Fzf::new(Some("fzf".to_string())).unwrap();
    fzf.receive("unknown-plugin [ghost]\n");
    assert_eq!(
        fzf.get_selected_plugins(&catalog),
        Err(Failure::SelectionIntegrity { line: "unknown-plugin [ghost]".to_string() })
    );
}

#[test]
fn candidates_read_back_select_the_whole_catalog() {
    let catalog = vec![
        plugin("color", "abc"),
        plugin("color", "zen"),
        plugin("pack", "abc"),
        plugin("pack", "rust"),
    ];
    assert_eq!(select(&candidates(&catalog), &catalog), Ok(catalog.clone()));
    let with_break = format!("{}\n", candidates(&catalog));
    assert_eq!(select(&with_break, &catalog), Ok(catalog.clone()));
    assert_eq!(select(&candidates(&[]), &[]), Ok(Vec::new()));
}

#[test]
fn selector_that_does_not_start_is_unavailable() {
    let found = Fzf::new(Some("/usr/bin/fzf".to_string())).unwrap();
    assert_eq!(
        found.started(false),
        Err(Failure::SelectorUnavailable { executable: "fzf".to_string() })
    );
    let found = Fzf::new(Some("/usr/bin/fzf".to_string())).unwrap();
    let running = found.started(true).unwrap();
    assert_eq!(running.program, "/usr/bin/fzf");
    assert!(running.input.is_empty());
    assert!(running.output.is_empty());
}
