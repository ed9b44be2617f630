use astrocommunity_cli::astrocommunity::PluginInfo;
use astrocommunity_cli::error::Failure;
use astrocommunity_cli::opts::{Cli, Commands, NewArgs, NewPlugin, Output};
use astrocommunity_cli::render::{
    render_import_statements, render_unrolled_source, source_path, source_paths,
};

fn plugin(group: &str, name: &str) -> PluginInfo {
    PluginInfo { group: group.to_string(), name: name.to_string() }
}

fn options(copy_to_clipboard: bool, output: bool, unroll: bool) -> Cli {
    Cli { copy_to_clipboard, output, unroll, commands: None }
}

#[test]
fn one_import_statement_per_selected_plugin() {
    let selection = vec![plugin("pack", "rust"), plugin("color", "zen"), plugin("pack", "rust")];
    assert_eq!(
        render_import_statements(&selection),
        "{ import = \"astrocommunity.pack.rust\", enable = true },\n\
         { import = \"astrocommunity.color.zen\", enable = true },\n\
         { import = \"astrocommunity.pack.rust\", enable = true },\n"
    );
}

#[test]
fn empty_selection_renders_nothing() {
    assert_eq!(render_import_statements(&[]), "");
    assert_eq!(render_unrolled_source("/c", &[], &Vec::new()), Ok(String::new()));
}

#[test]
fn rendering_twice_gives_the_same_bytes() {
    let selection = vec![plugin("pack", "rust"), plugin("color", "zen")];
    let first = render_import_statements(&selection);
    let second = render_import_statements(&selection.clone());
    assert_eq!(first.as_bytes(), second.as_bytes());
}

#[test]
fn source_stands_below_the_checkout() {
    assert_eq!(
        source_path("/data/nvim/lazy/astrocommunity", &plugin("pack", "rust")),
        "/data/nvim/lazy/astrocommunity/lua/astrocommunity/pack/rust/init.lua"
    );
    assert_eq!(
        source_path("checkout/", &plugin("pack", "rust")),
        "checkout/lua/astrocommunity/pack/rust/init.lua"
    );
    assert_eq!(
        source_paths("/c", &[plugin("a", "b"), plugin("c", "d")]),
        vec![
            "/c/lua/astrocommunity/a/b/init.lua".to_string(),
            "/c/lua/astrocommunity/c/d/init.lua".to_string(),
        ]
    );
    assert_eq!(source_paths("/c", &[]), Vec::<String>::new());
}

#[test]
fn unrolled_source_ends_each_plugin_with_a_line_break() {
    let selection = vec![plugin("pack", "rust"), plugin("color", "zen")];
    let sources = vec![Some("return {}".to_string()), Some("-- zen\n".to_string())];
    assert_eq!(
        render_unrolled_source("/c", &selection, &sources),
        Ok("return {}\n-- zen\n\n".to_string())
    );
}

#[test]
fn missing_source_names_the_file() {
    let selection = vec![plugin("pack", "rust"), plugin("color", "zen"), plugin("pack", "go")];
    let sources = vec![Some("return {}".to_string()), None, None];
    assert_eq!(
        render_unrolled_source("/c", &selection, &sources),
        Err(Failure::Io { path: "/c/lua/astrocommunity/color/zen/init.lua".to_string() })
    );
    let short = vec![Some("return {}".to_string())];
    assert_eq!(
        render_unrolled_source("/c", &selection, &short),
        Err(Failure::Io { path: "/c/lua/astrocommunity/color/zen/init.lua".to_string() })
    );
}

#[test]
fn clipboard_comes_before_plain_output() {
    assert_eq!(options(true, true, false).ouput_to_prefered("x"), Output::Clipboard("x".to_string()));
    assert_eq!(options(true, false, false).ouput_to_prefered("x"), Output::Clipboard("x".to_string()));
    assert_eq!(options(false, true, false).ouput_to_prefered("x"), Output::Stdout("x".to_string()));
    assert_eq!(
        options(false, false, true).ouput_to_prefered("x"),
        Output::Highlighted("x".to_string())
    );
}

#[test]
fn unroll_is_done_only_where_asked_for() {
    let selection = vec![plugin("pack", "rust")];
    let sources = vec![Some("return {}".to_string())];
    assert_eq!(options(false, true, false).unroll_code("/c", &selection, &sources), Ok(None));
    assert_eq!(options(false, true, false).unroll_code("/c", &selection, &vec![None]), Ok(None));
    assert_eq!(
        options(false, true, true).unroll_code("/c", &selection, &sources),
        Ok(Some(Output::Stdout("return {}\n".to_string())))
    );
    assert_eq!(
        options(true, false, true).unroll_code("/c", &selection, &sources),
        Ok(Some(Output::Clipboard("return {}\n".to_string())))
    );
    assert_eq!(
        options(false, false, true).unroll_code("/c", &selection, &vec![None]),
        Err(Failure::Io { path: "/c/lua/astrocommunity/pack/rust/init.lua".to_string() })
    );
}

#[test]
fn new_plugin_is_a_folder_with_two_files() {
    let expected = NewPlugin {
        directory: "community/pack/rust".to_string(),
        source_file: "community/pack/rust/init.lua".to_string(),
        readme_file: "community/pack/rust/README.md".to_string(),
    };
    let made = options(false, false, false).create_new_plugin("community", "pack", "rust");
    assert_eq!(made, expected);
    assert_eq!(made.message(), "Created new plugin at community/pack/rust");
}

#[test]
fn new_plugin_is_made_only_on_command() {
    assert_eq!(options(false, false, false).new_plugin(), None);
    let run = Cli {
        copy_to_clipboard: false,
        output: false,
        unroll: false,
        commands: Some(Commands::New {
            astrocommunity_path: "/repo/lua/astrocommunity/".to_string(),
            group: "pack".to_string(),
            name: "rust".to_string(),
        }),
    };
    assert_eq!(
        run.new_plugin(),
        Some(NewPlugin {
            directory: "/repo/lua/astrocommunity/pack/rust".to_string(),
            source_file: "/repo/lua/astrocommunity/pack/rust/init.lua".to_string(),
            readme_file: "/repo/lua/astrocommunity/pack/rust/README.md".to_string(),
        })
    );
    let named = NewArgs { group: "pack".to_string(), name: "rust".to_string() };
    assert_eq!(named.group, "pack");
    assert_eq!(named.name, "rust");
}

#[test]
fn failures_describe_themselves() {
    assert_eq!(Failure::Resolution.message(), "could not locate the local catalog");
    assert_eq!(Failure::Io { path: "/x".to_string() }.message(), "could not access /x");
    assert_eq!(
        Failure::SelectorUnavailable { executable: "fzf".to_string() }.message(),
        "could not find fzf, is it installed?"
    );
    assert_eq!(
        Failure::SelectionIntegrity { line: "a [b]".to_string() }.message(),
        "the selector returned an unknown entry: a [b]"
    );
    assert_eq!(
        Failure::Network { status: 404 }.message(),
        "the remote listing answered with status 404"
    );
    assert_eq!(Failure::Parse.message(), "malformed document");
    assert_eq!(Failure::Pattern.message(), "invalid pattern");
}
