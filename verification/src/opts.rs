//! The options of one run, and what they decide: where a text goes, whether
//! the selected plugins are unrolled, and what a new plugin is made of.

use crate::astrocommunity::PluginInfo;
use crate::error::Failure;
use crate::path::{join, joined};
use crate::render::{render_unrolled_source, source_location, sources_for, unrolled, SOURCE_FILE};
use vstd::prelude::*;
use vstd::string::StringExecFns;

verus! {

/// The file, in a plugin's folder, that describes it.
pub const README_FILE: &'static str = "README.md";

/// The options of one run.
#[derive(Debug, PartialEq, Eq)]
pub struct Cli {
    /// Copy the text to the clipboard.
    pub copy_to_clipboard: bool,
    /// Print the text as it is, without highlighting.
    pub output: bool,
    /// Hand out the source of the selected plugins as well.
    pub unroll: bool,
    /// What to do in place of a selection.
    pub commands: Option<Commands>,
}

/// What a run can do in place of a selection.
#[derive(Debug, PartialEq, Eq)]
pub enum Commands {
    /// Create a new, empty plugin.
    New {
        /// The folder that holds the groups.
        astrocommunity_path: String,
        /// The group of the plugin.
        group: String,
        /// The name of the plugin.
        name: String,
    },
}

/// The group and the name of a plugin to create.
#[derive(Debug, PartialEq, Eq)]
pub struct NewArgs {
    pub group: String,
    pub name: String,
}

/// Where a text is to go.
#[derive(Debug, PartialEq, Eq)]
pub enum Output {
    /// To the clipboard.
    Clipboard(String),
    /// To the standard output, as it is.
    Stdout(String),
    /// To the standard output, highlighted.
    Highlighted(String),
}

/// What a new plugin is made of: its folder, and the two empty files in it.
#[derive(Debug, PartialEq, Eq)]
pub struct NewPlugin {
    pub directory: String,
    pub source_file: String,
    pub readme_file: String,
}

impl NewPlugin {
    /// The plugin `name` of `group` below `path` has its folder there, and
    /// its files in that folder.
    pub open spec fn is_for(self, path: Seq<char>, group: Seq<char>, name: Seq<char>) -> bool {
        &&& self.directory@ == joined(joined(path, group), name)
        &&& self.source_file@ == joined(self.directory@, SOURCE_FILE@)
        &&& self.readme_file@ == joined(self.directory@, README_FILE@)
    }

    /// What the user is told once the plugin is there.
    pub fn message(&self) -> (text: String)
        ensures
            text@ == "Created new plugin at "@ + self.directory@,
    {
        let mut text = String::from_str("Created new plugin at ");
        text.append(self.directory.as_str());
        text
    }
}

impl Cli {
    /// `output` is where these options send `text`: the clipboard where that
    /// is asked for, else the standard output as it is where that is asked
    /// for, else the standard output with highlighting.
    pub open spec fn sends(&self, text: Seq<char>, output: Output) -> bool {
        if self.copy_to_clipboard {
            output matches Output::Clipboard(sent) && sent@ == text
        } else if self.output {
            output matches Output::Stdout(sent) && sent@ == text
        } else {
            output matches Output::Highlighted(sent) && sent@ == text
        }
    }

    /// Where `import_statement` is to go.
    pub fn ouput_to_prefered(&self, import_statement: &str) -> (output: Output)
        ensures
            self.sends(import_statement@, output),
    {
        if self.copy_to_clipboard {
            Output::Clipboard(String::from_str(import_statement))
        } else if self.output {
            Output::Stdout(String::from_str(import_statement))
        } else {
            Output::Highlighted(String::from_str(import_statement))
        }
    }

    /// What is to be created for the plugin `name` of `group` below `path`.
    pub fn create_new_plugin(&self, path: &str, group: &str, name: &str) -> (plugin: NewPlugin)
        ensures
            plugin.is_for(path@, group@, name@),
    {
        let directory = join(join(path, group).as_str(), name);
        let source_file = join(directory.as_str(), SOURCE_FILE);
        let readme_file = join(directory.as_str(), README_FILE);
        NewPlugin { directory, source_file, readme_file }
    }

    /// The plugin that this run is asked to create, if it is asked to create
    /// one.
    pub fn new_plugin(&self) -> (plugin: Option<NewPlugin>)
        ensures
            match self.commands {
                Some(Commands::New { astrocommunity_path, group, name }) => plugin matches Some(
                    new,
                ) && new.is_for(astrocommunity_path@, group@, name@),
                None => plugin is None,
            },
    {
        match &self.commands {
            Some(Commands::New { astrocommunity_path, group, name }) => Some(
                self.create_new_plugin(astrocommunity_path.as_str(), group.as_str(), name.as_str()),
            ),
            None => None,
        }
    }

    /// Where the source of the selected plugins is to go, if it is asked
    /// for. `sources` holds, place by place, what was read for each plugin;
    /// where one is missing the failure names the file that was not there.
    pub fn unroll_code(
        &self,
        root: &str,
        plugins: &[PluginInfo],
        sources: &Vec<Option<String>>,
    ) -> (outcome: Result<Option<Output>, Failure>)
        ensures
            !self.unroll ==> outcome matches Ok(None),
            self.unroll ==> match unrolled(sources_for(plugins@.len(), sources@)) {
                Ok(code) => outcome matches Ok(Some(output)) && self.sends(code, output),
                Err(place) => outcome matches Err(Failure::Io { path }) && 0 <= place
                    < plugins.len() && path@ == source_location(root@, plugins[place]@),
            },
    {
        if !self.unroll {
            return Ok(None);
        }
        match render_unrolled_source(root, plugins, sources) {
            Ok(code) => Ok(Some(self.ouput_to_prefered(code.as_str()))),
            Err(failure) => Err(failure),
        }
    }
}

} // verus!
