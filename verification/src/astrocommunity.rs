//! Plugin entries and their display labels.

use crate::catalog::{collect, is_catalog, options};
use crate::error::Failure;
use crate::git_operations::{outcome_of_answer, parse_plugin_info, plugin_of_folder, GitOperations};
use crate::path::{join, joined};
use crate::pattern::{accepted, replaced_each, strip_each};
use crate::text::texts;
use vstd::prelude::*;
use vstd::std_specs::cmp::PartialEqSpecImpl;
use vstd::string::StringExecFns;

verus! {

/// What identifies a plugin: the name of its group folder and the name of
/// its own folder.
pub struct Entry {
    pub group: Seq<char>,
    pub name: Seq<char>,
}

/// One discoverable plugin.
#[derive(Debug, Hash, Eq, PartialOrd, Ord)]
pub struct PluginInfo {
    pub group: String,
    pub name: String,
}

impl View for PluginInfo {
    type V = Entry;

    open spec fn view(&self) -> Entry {
        Entry { group: self.group@, name: self.name@ }
    }
}

impl Clone for PluginInfo {
    fn clone(&self) -> (copy: Self)
        ensures
            copy@ == self@,
    {
        PluginInfo { group: self.group.clone(), name: self.name.clone() }
    }
}

impl PartialEq for PluginInfo {
    fn eq(&self, other: &Self) -> (same: bool) {
        self.group == other.group && self.name == other.name
    }
}

impl PartialEqSpecImpl for PluginInfo {
    open spec fn obeys_eq_spec() -> bool {
        true
    }

    open spec fn eq_spec(&self, other: &Self) -> bool {
        self.group@ == other.group@ && self.name@ == other.name@
    }
}

/// The label under which an entry is shown and chosen: its name, then its
/// group in square brackets.
pub open spec fn label(entry: Entry) -> Seq<char> {
    entry.name + " ["@ + entry.group + "]"@
}

/// The entries that a sequence of plugins stands for.
pub open spec fn entries(plugins: Seq<PluginInfo>) -> Seq<Entry> {
    Seq::new(plugins.len(), |i: int| plugins[i]@)
}

impl Entry {
    /// Neither the group nor the name is empty.
    pub open spec fn well_formed(self) -> bool {
        self.group.len() > 0 && self.name.len() > 0
    }
}

/// Each of the entries has a group and a name.
pub open spec fn all_well_formed(catalog: Seq<Entry>) -> bool {
    forall|i: int| 0 <= i < catalog.len() ==> (#[trigger] catalog[i]).well_formed()
}

impl PluginInfo {
    /// The display label of this plugin.
    pub fn to_string(&self) -> (shown: String)
        ensures
            shown@ == label(self@),
    {
        let mut shown = self.name.clone();
        shown.append(" [");
        shown.append(self.group.as_str());
        shown.append("]");
        shown
    }
}

/// The application name that is used where the platform names none.
pub const DEFAULT_APPNAME: &'static str = "nvim";

/// Where, below the home directory, the application data stands on macOS.
pub const HOME_DATA_SUBPATH: &'static str = ".local/share/";

/// Where, below the application data, the catalog checkout stands.
pub const CHECKOUT_SUBPATH: &'static str = "lazy/astrocommunity";

/// Where, below the checkout, the plugin folders stand.
pub const PLUGINS_SUBPATH: &'static str = "lua/astrocommunity";

/// How deep below the plugin folders a plugin stands: its group, then itself.
pub const PLUGIN_DEPTH: usize = 2;

/// Matches a scanned path up to and including the plugin folders.
pub const PLUGINS_PREFIX_PATTERN: &'static str = ".*lua/astrocommunity/";

/// What the platform tells about the user: the application name it was
/// asked to use, whether it is macOS, and the user's directories as far as
/// they can be determined.
#[derive(Debug, PartialEq, Eq)]
pub struct Platform {
    pub appname: Option<String>,
    pub macos: bool,
    pub home_dir: Option<String>,
    pub data_local_dir: Option<String>,
}

impl Platform {
    /// The application name: the one asked for, or the default.
    pub open spec fn application(self) -> Seq<char> {
        match self.appname {
            Some(name) => name@,
            None => DEFAULT_APPNAME@,
        }
    }

    /// The folder of the application's data: on macOS below the home
    /// directory, elsewhere below the local data directory. There is none
    /// where the platform cannot name the directory it stands in.
    pub open spec fn local_folder(self) -> Option<Seq<char>> {
        if self.macos {
            match self.home_dir {
                Some(home) => Some(joined(home@, HOME_DATA_SUBPATH@ + self.application())),
                None => None,
            }
        } else {
            match self.data_local_dir {
                Some(data) => Some(joined(data@, self.application())),
                None => None,
            }
        }
    }

    /// The folder of the catalog checkout.
    pub open spec fn checkout_folder(self) -> Option<Seq<char>> {
        match self.local_folder() {
            Some(folder) => Some(joined(folder, CHECKOUT_SUBPATH@)),
            None => None,
        }
    }
}

/// Some of the folders names the plugin `e`.
pub open spec fn scanned(folders: Seq<Seq<char>>, e: Entry) -> bool {
    exists|i: int| 0 <= i < folders.len() && #[trigger] plugin_of_folder(folders[i]) == Some(e)
}

/// A catalog of the folders: the plugins that they name, each once, in
/// order of group and name.
pub open spec fn is_catalog_of_folders(catalog: Seq<Entry>, folders: Seq<Seq<char>>) -> bool {
    &&& is_catalog(catalog)
    &&& forall|e: Entry| catalog.contains(e) <==> scanned(folders, e)
}

/// Each entry of a catalog of folders has a group and a name.
pub proof fn lemma_scanned_entries_are_well_formed(catalog: Seq<Entry>, folders: Seq<Seq<char>>)
    requires
        is_catalog_of_folders(catalog, folders),
    ensures
        all_well_formed(catalog),
{
    assert forall|k: int| 0 <= k < catalog.len() implies (#[trigger] catalog[k]).well_formed() by {
        assert(catalog.contains(catalog[k]));
        assert(scanned(folders, catalog[k]));
    }
}

/// The folders, relative to the plugin folders, of the paths that a scan
/// has found: each path without what `pattern` matches.
pub open spec fn folders_of(pattern: Seq<char>, paths: Seq<Seq<char>>) -> Seq<Seq<char>> {
    replaced_each(pattern, paths, Seq::<char>::empty())
}

/// The catalog of the folders: the plugin that each names by its first two
/// pieces, each plugin once, in order of group and name. Folders that name
/// no plugin are passed over.
pub fn parse_folders(folders: &Vec<String>) -> (catalog: Vec<PluginInfo>)
    ensures
        is_catalog_of_folders(entries(catalog@), texts(folders@)),
        all_well_formed(entries(catalog@)),
{
    let ghost given = texts(folders@);
    let mut found: Vec<Option<PluginInfo>> = Vec::new();
    let mut at: usize = 0;
    while at < folders.len()
        invariant
            at <= folders.len(),
            given == texts(folders@),
            found.len() == at,
            forall|i: int| 0 <= i < at ==> options(found@)[i] == plugin_of_folder(given[i]),
        decreases folders.len() - at,
    {
        let ghost before = found@;
        found.push(parse_plugin_info(folders[at].clone()));
        proof {
            assert(given[at as int] == folders[at as int]@);
            assert forall|i: int| 0 <= i <= at implies options(found@)[i] == plugin_of_folder(
                given[i],
            ) by {
                if i < at {
                    assert(found@[i] == before[i]);
                    assert(options(found@)[i] == options(before)[i]);
                }
            }
        }
        at += 1;
    }
    let catalog = collect(&found);
    proof {
        assert forall|e: Entry| entries(catalog@).contains(e) <==> scanned(given, e) by {
            if options(found@).contains(Some(e)) {
                let i = choose|i: int| 0 <= i < found.len() && options(found@)[i] == Some(e);
                assert(plugin_of_folder(given[i]) == Some(e));
            }
            if scanned(given, e) {
                let i = choose|i: int|
                    0 <= i < given.len() && #[trigger] plugin_of_folder(given[i]) == Some(e);
                assert(options(found@)[i] == Some(e));
            }
        }
        lemma_scanned_entries_are_well_formed(entries(catalog@), given);
    }
    catalog
}

/// The local catalog checkout.
#[derive(Debug, Clone, Copy)]
pub struct Astrocommunity;

impl Astrocommunity {
    /// A handle on the local catalog checkout.
    pub fn new() -> (community: Self) {
        Astrocommunity
    }

    /// The catalog of a local checkout, from the paths found two levels
    /// below its plugin folders: of each path, what stands behind the plugin
    /// folders names the plugin. This succeeds exactly where the expression
    /// engine accepts the pattern of what stands before them.
    pub fn get_plugins(self, folders: &Vec<String>) -> (outcome: Result<Vec<PluginInfo>, Failure>)
        ensures
            outcome is Ok <==> accepted(PLUGINS_PREFIX_PATTERN@),
            match outcome {
                Ok(catalog) => {
                    &&& is_catalog_of_folders(
                        entries(catalog@),
                        folders_of(PLUGINS_PREFIX_PATTERN@, texts(folders@)),
                    )
                    &&& all_well_formed(entries(catalog@))
                },
                Err(failure) => failure is Pattern,
            },
    {
        match strip_each(PLUGINS_PREFIX_PATTERN, folders) {
            Ok(relative) => Ok(parse_folders(&relative)),
            Err(failure) => Err(failure),
        }
    }

    /// The folder of the application's data, below which the checkout stands.
    fn find_astronvim_local_folder(platform: &Platform) -> (outcome: Result<String, Failure>)
        ensures
            match platform.local_folder() {
                Some(folder) => outcome matches Ok(found) && found@ == folder,
                None => outcome matches Err(Failure::Resolution),
            },
    {
        let appname: &str = match &platform.appname {
            Some(name) => name.as_str(),
            None => DEFAULT_APPNAME,
        };
        if platform.macos {
            match &platform.home_dir {
                Some(home) => {
                    let mut below = String::from_str(HOME_DATA_SUBPATH);
                    below.append(appname);
                    Ok(join(home.as_str(), below.as_str()))
                },
                None => Err(Failure::Resolution),
            }
        } else {
            match &platform.data_local_dir {
                Some(data) => Ok(join(data.as_str(), appname)),
                None => Err(Failure::Resolution),
            }
        }
    }

    /// The folder of the local catalog checkout. It cannot be resolved where
    /// the platform does not name the directory that the data stands in.
    pub fn find_astrocommunity_folder(platform: &Platform) -> (outcome: Result<String, Failure>)
        ensures
            match platform.checkout_folder() {
                Some(folder) => outcome matches Ok(found) && found@ == folder,
                None => outcome matches Err(Failure::Resolution),
            },
    {
        match Self::find_astronvim_local_folder(platform) {
            Ok(folder) => Ok(join(folder.as_str(), CHECKOUT_SUBPATH)),
            Err(failure) => Err(failure),
        }
    }

    /// The folder of a checkout that holds the plugin folders.
    pub fn plugins_folder(checkout: &str) -> (folder: String)
        ensures
            folder@ == joined(checkout@, PLUGINS_SUBPATH@),
    {
        join(checkout, PLUGINS_SUBPATH)
    }

    /// The catalog of the remote listing, for use where no local checkout is
    /// found.
    pub fn fallback(status: u16, body: Vec<u8>) -> (outcome: Result<Vec<PluginInfo>, Failure>)
        ensures
            outcome_of_answer(status, body@, outcome),
    {
        let git_ops = GitOperations::new();
        git_ops.get_astrocommunity_tree(status, body)
    }
}

} // verus!
