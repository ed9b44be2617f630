//! The remote listing: where it is fetched from, and how its paths become
//! the catalog.

use crate::astrocommunity::{all_well_formed, entries, Entry, PluginInfo};
use crate::catalog::{
    collect, is_catalog, lemma_catalog_has_no_duplicates, lemma_catalog_unique, options,
};
use crate::error::Failure;
use crate::file_system::FileSystem;
use crate::json::{
    document_of_bytes, elements, elements_of, member, member_of, read_bytes, string, string_of,
};
use crate::pattern::{accepted, replaced_each, replaced_first, strip_each};
use crate::text::{
    after_prefix, contains, equal, occurs_in, segments, split, strip_prefix, texts,
};
use vstd::prelude::*;
use vstd::string::StringExecFns;

verus! {

/// Where the plugin folders stand in the repository.
pub const REPO_PATH_PREFIX: &'static str = "lua/astrocommunity/";

/// The pattern of a path's last component, with the separator before it.
pub const FILE_NAME_PATTERN: &'static str = "/[^/]+$";

/// Folders that hold this marker belong to tooling, not to plugins.
pub const RESERVED_MARKER: &'static str = ".github";

/// The reference that stands for the latest revision.
pub const LATEST: &'static str = "HEAD";

/// The member of the listing document that holds its items.
pub const TREE_FIELD: &'static str = "tree";

/// The member of a listing item that holds its path.
pub const PATH_FIELD: &'static str = "path";

/// The plugin that the pieces of a folder path name: the first two, where
/// there are two and neither is empty.
pub open spec fn plugin_of_segments(parts: Seq<Seq<char>>) -> Option<Entry> {
    if parts.len() >= 2 && parts[0].len() > 0 && parts[1].len() > 0 {
        Some(Entry { group: parts[0], name: parts[1] })
    } else {
        None
    }
}

/// The plugin that a folder path, relative to the catalog root, names.
pub open spec fn plugin_of_folder(folder: Seq<char>) -> Option<Entry> {
    plugin_of_segments(segments(folder, '/'))
}

/// What is left of a path once the catalog root prefix is taken off its
/// start.
pub open spec fn relative(path: Seq<char>) -> Seq<char> {
    after_prefix(path, REPO_PATH_PREFIX@)
}

/// The folder is the catalog root itself: nothing, or the catalog root
/// prefix with or without the separator that ends it.
pub open spec fn is_root(folder: Seq<char>) -> bool {
    folder.len() == 0 || folder == REPO_PATH_PREFIX@ || folder + seq!['/'] == REPO_PATH_PREFIX@
}

/// A folder that yields no plugin whatever its pieces: the catalog root, or
/// one that holds the reserved marker.
pub open spec fn is_reserved(folder: Seq<char>) -> bool {
    is_root(folder) || occurs_in(RESERVED_MARKER@, folder)
}

/// The plugin that a directory of the repository belongs to: the catalog
/// root prefix is taken off its start, the root and reserved folders are
/// dropped, and the first two pieces of what is left name the plugin.
pub open spec fn plugin_of_directory(directory: Seq<char>) -> Option<Entry> {
    let folder = relative(directory);
    if is_reserved(folder) {
        None
    } else {
        plugin_of_folder(folder)
    }
}

/// The path has at least two pieces behind the catalog root prefix.
pub open spec fn is_deep(path: Seq<char>) -> bool {
    segments(relative(path), '/').len() >= 2
}

/// The paths of a listing that can belong to a plugin: those with at least
/// two pieces behind the catalog root prefix, in order.
pub open spec fn deep_paths(paths: Seq<Seq<char>>) -> Seq<Seq<char>>
    decreases paths.len(),
{
    if paths.len() == 0 {
        Seq::<Seq<char>>::empty()
    } else if is_deep(paths.last()) {
        deep_paths(paths.drop_last()).push(paths.last())
    } else {
        deep_paths(paths.drop_last())
    }
}

/// Some directory of the listing belongs to the plugin `e`.
pub open spec fn listed(directories: Seq<Seq<char>>, e: Entry) -> bool {
    exists|i: int|
        0 <= i < directories.len() && #[trigger] plugin_of_directory(directories[i]) == Some(e)
}

/// A catalog of the listing: the plugins that its directories belong to,
/// each once, in order of group and name.
pub open spec fn is_catalog_of(catalog: Seq<Entry>, directories: Seq<Seq<char>>) -> bool {
    &&& is_catalog(catalog)
    &&& forall|e: Entry| catalog.contains(e) <==> listed(directories, e)
}

/// The directories of the paths of a listing: each path without its file
/// name, which `pattern` matches.
pub open spec fn directories_of(pattern: Seq<char>, paths: Seq<Seq<char>>) -> Seq<Seq<char>> {
    replaced_each(pattern, paths, Seq::<char>::empty())
}

/// A catalog of the paths of a listing: the catalog of the directories of
/// those paths that have at least two pieces behind the catalog root prefix.
pub open spec fn is_catalog_of_paths(
    catalog: Seq<Entry>,
    pattern: Seq<char>,
    paths: Seq<Seq<char>>,
) -> bool {
    is_catalog_of(catalog, directories_of(pattern, deep_paths(paths)))
}

/// The paths that are kept are paths of the listing with at least two
/// pieces behind the prefix, and each such path is kept.
pub proof fn lemma_deep_paths(paths: Seq<Seq<char>>)
    ensures
        forall|j: int|
            0 <= j < deep_paths(paths).len() ==> is_deep(#[trigger] deep_paths(paths)[j])
                && paths.contains(deep_paths(paths)[j]),
        forall|i: int|
            0 <= i < paths.len() && is_deep(#[trigger] paths[i]) ==> deep_paths(paths).contains(
                paths[i],
            ),
    decreases paths.len(),
{
    if paths.len() > 0 {
        let most = paths.drop_last();
        let kept = deep_paths(paths);
        lemma_deep_paths(most);
        assert forall|j: int| 0 <= j < kept.len() implies is_deep(#[trigger] kept[j])
            && paths.contains(kept[j]) by {
            if j < deep_paths(most).len() {
                assert(kept[j] == deep_paths(most)[j]);
                let i = choose|i: int| 0 <= i < most.len() && most[i] == kept[j];
                assert(paths[i] == kept[j]);
            } else {
                assert(kept[j] == paths[paths.len() - 1]);
            }
        }
        assert forall|i: int| 0 <= i < paths.len() && is_deep(#[trigger] paths[i]) implies kept.contains(
            paths[i],
        ) by {
            if i < most.len() {
                assert(most[i] == paths[i]);
                let j = choose|j: int|
                    0 <= j < deep_paths(most).len() && deep_paths(most)[j] == most[i];
                assert(kept[j] == paths[i]);
            } else {
                assert(kept[kept.len() - 1] == paths[i]);
            }
        }
    }
}

/// A path with fewer than two pieces behind the catalog root prefix yields
/// nothing: every entry of a listing's catalog comes from a path of the
/// listing that has at least two, through the directory of that path.
pub proof fn lemma_entry_comes_from_deep_path(
    catalog: Seq<Entry>,
    pattern: Seq<char>,
    paths: Seq<Seq<char>>,
    k: int,
)
    requires
        is_catalog_of_paths(catalog, pattern, paths),
        0 <= k < catalog.len(),
    ensures
        exists|i: int|
            0 <= i < paths.len() && is_deep(#[trigger] paths[i]) && plugin_of_directory(
                replaced_first(pattern, paths[i], Seq::<char>::empty()),
            ) == Some(catalog[k]),
{
    let kept = deep_paths(paths);
    let directories = directories_of(pattern, kept);
    let e = catalog[k];
    assert(catalog.contains(e));
    let j = choose|j: int|
        0 <= j < directories.len() && #[trigger] plugin_of_directory(directories[j]) == Some(e);
    lemma_deep_paths(paths);
    assert(is_deep(kept[j]) && paths.contains(kept[j]));
    let i = choose|i: int| 0 <= i < paths.len() && paths[i] == kept[j];
    assert(is_deep(paths[i]));
}

/// However many paths of a listing lead to one plugin, the catalog of the
/// listing holds that plugin at exactly one place.
pub proof fn lemma_plugin_of_paths_listed_once(
    catalog: Seq<Entry>,
    pattern: Seq<char>,
    paths: Seq<Seq<char>>,
    i: int,
    e: Entry,
)
    requires
        is_catalog_of_paths(catalog, pattern, paths),
        0 <= i < paths.len(),
        is_deep(paths[i]),
        plugin_of_directory(replaced_first(pattern, paths[i], Seq::<char>::empty())) == Some(e),
    ensures
        exists|k: int|
            0 <= k < catalog.len() && catalog[k] == e && forall|j: int|
                0 <= j < catalog.len() && catalog[j] == e ==> j == k,
{
    let kept = deep_paths(paths);
    let directories = directories_of(pattern, kept);
    lemma_deep_paths(paths);
    assert(kept.contains(paths[i]));
    let j = choose|j: int| 0 <= j < kept.len() && kept[j] == paths[i];
    assert(plugin_of_directory(directories[j]) == Some(e));
    assert(listed(directories, e));
    lemma_plugin_listed_once(catalog, directories, e);
}

/// Taking a path with fewer than two pieces behind the prefix out of a
/// listing changes nothing of its catalog.
pub proof fn lemma_shallow_path_changes_nothing(paths: Seq<Seq<char>>, j: int)
    requires
        0 <= j < paths.len(),
        !is_deep(paths[j]),
    ensures
        deep_paths(paths.remove(j)) == deep_paths(paths),
    decreases paths.len(),
{
    if j == paths.len() - 1 {
        assert(paths.remove(j) == paths.drop_last());
    } else {
        let fewer = paths.remove(j);
        assert(fewer.drop_last() == paths.drop_last().remove(j));
        assert(fewer.last() == paths.last());
        lemma_shallow_path_changes_nothing(paths.drop_last(), j);
    }
}

/// A listing of which no path has two pieces behind the prefix has the empty
/// catalog.
pub proof fn lemma_shallow_listing_is_empty(
    catalog: Seq<Entry>,
    pattern: Seq<char>,
    paths: Seq<Seq<char>>,
)
    requires
        is_catalog_of_paths(catalog, pattern, paths),
        forall|i: int| 0 <= i < paths.len() ==> !is_deep(#[trigger] paths[i]),
    ensures
        catalog.len() == 0,
{
    if catalog.len() > 0 {
        lemma_entry_comes_from_deep_path(catalog, pattern, paths, 0);
    }
}

/// A listing has one catalog.
pub proof fn lemma_catalog_of_is_unique(a: Seq<Entry>, b: Seq<Entry>, directories: Seq<Seq<char>>)
    requires
        is_catalog_of(a, directories),
        is_catalog_of(b, directories),
    ensures
        a == b,
{
    lemma_catalog_unique(a, b);
}

/// However many directories of a listing belong to one plugin, the catalog
/// of the listing holds that plugin at exactly one place.
pub proof fn lemma_plugin_listed_once(catalog: Seq<Entry>, directories: Seq<Seq<char>>, e: Entry)
    requires
        is_catalog_of(catalog, directories),
        listed(directories, e),
    ensures
        exists|k: int|
            0 <= k < catalog.len() && catalog[k] == e && forall|j: int|
                0 <= j < catalog.len() && catalog[j] == e ==> j == k,
{
    lemma_catalog_has_no_duplicates(catalog);
    assert(catalog.contains(e));
    let k = choose|k: int| 0 <= k < catalog.len() && catalog[k] == e;
    assert(forall|j: int| 0 <= j < catalog.len() && catalog[j] == e ==> j == k);
}

/// Each entry of a listing's catalog has a group and a name.
pub proof fn lemma_listed_entries_are_well_formed(catalog: Seq<Entry>, directories: Seq<Seq<char>>)
    requires
        is_catalog_of(catalog, directories),
    ensures
        all_well_formed(catalog),
{
    assert forall|k: int| 0 <= k < catalog.len() implies (#[trigger] catalog[k]).well_formed() by {
        lemma_catalog_entry_has_two_pieces(catalog, directories, k);
    }
}

/// Each entry of a listing's catalog comes from a directory of the listing
/// whose folder has at least two pieces, and holds the first two of them,
/// neither of them empty.
pub proof fn lemma_catalog_entry_has_two_pieces(
    catalog: Seq<Entry>,
    directories: Seq<Seq<char>>,
    k: int,
)
    requires
        is_catalog_of(catalog, directories),
        0 <= k < catalog.len(),
    ensures
        catalog[k].well_formed(),
        exists|i: int|
            0 <= i < directories.len() && {
                let folder = relative(#[trigger] directories[i]);
                let parts = segments(folder, '/');
                &&& !is_reserved(folder)
                &&& parts.len() >= 2
                &&& catalog[k].group == parts[0]
                &&& catalog[k].name == parts[1]
            },
{
    let e = catalog[k];
    assert(catalog.contains(e));
    let i = choose|i: int|
        0 <= i < directories.len() && #[trigger] plugin_of_directory(directories[i]) == Some(e);
    let folder = relative(directories[i]);
    assert(plugin_of_folder(folder) == Some(e));
}

/// The address of the recursive tree listing at `reference`.
pub open spec fn tree_address(reference: Seq<char>) -> Seq<char> {
    "https://api.github.com/repos/AstroNvim/astrocommunity/git/trees/"@ + reference
        + "?recursive=1"@
}

/// The address of the recursive tree listing at `reference`, a commit hash
/// or the name of the latest revision.
pub fn tree_url(reference: &str) -> (url: String)
    ensures
        url@ == tree_address(reference@),
{
    let mut url = String::from_str(
        "https://api.github.com/repos/AstroNvim/astrocommunity/git/trees/",
    );
    url.append(reference);
    url.append("?recursive=1");
    url
}

/// The address of the recursive tree listing at the revision that the local
/// files ask for.
pub fn github_api_tree_recursive(files: &FileSystem) -> (url: String)
    ensures
        url@ == tree_address(files.astrocommunity_hash@),
{
    tree_url(files.astrocommunity_hash.as_str())
}

/// The plugin that a folder path names: its first two pieces as group and
/// name, if it has two and neither is empty.
pub fn parse_plugin_info(path: String) -> (plugin: Option<PluginInfo>)
    ensures
        match plugin {
            Some(p) => plugin_of_folder(path@) == Some(p@) && p@.well_formed(),
            None => plugin_of_folder(path@) is None,
        },
{
    let parts = split(path.as_str(), '/');
    proof {
        assert(texts(parts@).len() == parts.len());
    }
    if parts.len() < 2 {
        return None;
    }
    proof {
        assert(texts(parts@)[0] == parts[0]@);
        assert(texts(parts@)[1] == parts[1]@);
    }
    if parts[0].as_str().is_empty() || parts[1].as_str().is_empty() {
        return None;
    }
    Some(PluginInfo { group: parts[0].clone(), name: parts[1].clone() })
}

/// Whether a folder is the catalog root or holds the reserved marker.
fn reserved(folder: &str) -> (held: bool)
    ensures
        held == is_reserved(folder@),
{
    if folder.is_empty() || equal(folder, REPO_PATH_PREFIX) {
        return true;
    }
    proof {
        reveal_strlit("/");
        assert("/"@ =~= seq!['/']);
    }
    let mut closed = String::from_str(folder);
    closed.append("/");
    equal(closed.as_str(), REPO_PATH_PREFIX) || contains(folder, RESERVED_MARKER)
}

/// The plugin that a directory of the repository belongs to.
pub fn parse_directory(directory: &str) -> (plugin: Option<PluginInfo>)
    ensures
        match plugin {
            Some(p) => plugin_of_directory(directory@) == Some(p@) && p@.well_formed(),
            None => plugin_of_directory(directory@) is None,
        },
{
    let folder = strip_prefix(directory, REPO_PATH_PREFIX);
    if reserved(folder.as_str()) {
        None
    } else {
        parse_plugin_info(folder)
    }
}

/// Whether a path has at least two pieces behind the catalog root prefix.
pub fn has_two_pieces(path: &str) -> (deep: bool)
    ensures
        deep == is_deep(path@),
{
    let rest = strip_prefix(path, REPO_PATH_PREFIX);
    let parts = split(rest.as_str(), '/');
    proof {
        assert(texts(parts@).len() == parts.len());
    }
    parts.len() >= 2
}

/// The paths of a listing that have at least two pieces behind the catalog
/// root prefix, in order.
pub fn keep_deep(raw_paths: &Vec<String>) -> (kept: Vec<String>)
    ensures
        texts(kept@) == deep_paths(texts(raw_paths@)),
{
    let ghost given = texts(raw_paths@);
    let mut kept: Vec<String> = Vec::new();
    let mut at: usize = 0;
    proof {
        assert(given.subrange(0, 0) =~= Seq::<Seq<char>>::empty());
        assert(texts(kept@) =~= Seq::<Seq<char>>::empty());
    }
    while at < raw_paths.len()
        invariant
            at <= raw_paths.len(),
            given == texts(raw_paths@),
            texts(kept@) == deep_paths(given.subrange(0, at as int)),
        decreases raw_paths.len() - at,
    {
        let ghost before = texts(kept@);
        proof {
            let next = given.subrange(0, at + 1);
            assert(next.drop_last() == given.subrange(0, at as int));
            assert(next.last() == raw_paths[at as int]@);
        }
        if has_two_pieces(raw_paths[at].as_str()) {
            kept.push(raw_paths[at].clone());
            proof {
                assert(texts(kept@) =~= before.push(raw_paths[at as int]@));
            }
        }
        at += 1;
    }
    proof {
        assert(given.subrange(0, at as int) == given);
    }
    kept
}

/// The catalog of the directories of a listing: the plugin that each
/// belongs to, each plugin once, in order of group and name.
pub fn parse_directories(directories: &Vec<String>) -> (catalog: Vec<PluginInfo>)
    ensures
        is_catalog_of(entries(catalog@), texts(directories@)),
        all_well_formed(entries(catalog@)),
{
    let ghost given = texts(directories@);
    let mut found: Vec<Option<PluginInfo>> = Vec::new();
    let mut at: usize = 0;
    while at < directories.len()
        invariant
            at <= directories.len(),
            given == texts(directories@),
            found.len() == at,
            forall|i: int| 0 <= i < at ==> options(found@)[i] == plugin_of_directory(given[i]),
        decreases directories.len() - at,
    {
        let ghost before = found@;
        found.push(parse_directory(directories[at].as_str()));
        proof {
            assert(given[at as int] == directories[at as int]@);
            assert forall|i: int| 0 <= i <= at implies options(found@)[i] == plugin_of_directory(
                given[i],
            ) by {
                if i < at {
                    assert(found@[i] == before[i]);
                    assert(options(found@)[i] == options(before)[i]);
                }
            }
        }
        at += 1;
    }
    let catalog = collect(&found);
    proof {
        assert forall|e: Entry| entries(catalog@).contains(e) <==> listed(given, e) by {
            if options(found@).contains(Some(e)) {
                let i = choose|i: int| 0 <= i < found.len() && options(found@)[i] == Some(e);
                assert(plugin_of_directory(given[i]) == Some(e));
            }
            if listed(given, e) {
                let i = choose|i: int|
                    0 <= i < given.len() && #[trigger] plugin_of_directory(given[i]) == Some(e);
                assert(options(found@)[i] == Some(e));
            }
        }
        lemma_listed_entries_are_well_formed(entries(catalog@), given);
    }
    catalog
}

/// The catalog of a listing. Paths with fewer than two pieces behind the
/// catalog root prefix yield nothing. Of each other path the file name is cut
/// off and the prefix is taken off the start; what is left names a plugin by
/// its first two pieces, unless it is the root or reserved. Each plugin is
/// listed once, in order of group and name. This succeeds exactly where the
/// expression engine accepts the pattern of file names.
pub fn parse(raw_paths: &Vec<String>) -> (outcome: Result<Vec<PluginInfo>, Failure>)
    ensures
        outcome is Ok <==> accepted(FILE_NAME_PATTERN@),
        match outcome {
            Ok(catalog) => {
                &&& is_catalog_of_paths(entries(catalog@), FILE_NAME_PATTERN@, texts(raw_paths@))
                &&& all_well_formed(entries(catalog@))
            },
            Err(failure) => failure is Pattern,
        },
{
    let kept = keep_deep(raw_paths);
    match strip_each(FILE_NAME_PATTERN, &kept) {
        Ok(directories) => Ok(parse_directories(&directories)),
        Err(failure) => Err(failure),
    }
}

/// The path of one item of the listing, where it has one that is a string.
pub open spec fn path_of_item(item: serde_json::Value) -> Option<Seq<char>> {
    match member_of(item, PATH_FIELD@) {
        Some(path) => string_of(path),
        None => None,
    }
}

/// The paths of the items, if each item has one.
pub open spec fn paths_of_items(items: Seq<serde_json::Value>) -> Option<Seq<Seq<char>>> {
    if forall|i: int| 0 <= i < items.len() ==> (#[trigger] path_of_item(items[i])) is Some {
        Some(Seq::new(items.len(), |i: int| path_of_item(items[i])->0))
    } else {
        None
    }
}

/// The paths that a listing document holds: those of the items of its tree,
/// if it has a tree and each item of it has a path.
pub open spec fn paths_of_document(document: serde_json::Value) -> Option<Seq<Seq<char>>> {
    match member_of(document, TREE_FIELD@) {
        Some(tree) => match elements_of(tree) {
            Some(items) => paths_of_items(items),
            None => None,
        },
        None => None,
    }
}

/// The paths that the response holds, if it is a listing document.
pub open spec fn paths_of_response(response: Seq<u8>) -> Option<Seq<Seq<char>>> {
    match document_of_bytes(response) {
        Some(document) => paths_of_document(document),
        None => None,
    }
}

/// The paths of a listing document, in the order of its items.
pub fn listing_paths(document: &serde_json::Value) -> (paths: Option<Vec<String>>)
    ensures
        match paths {
            Some(found) => paths_of_document(*document) == Some(texts(found@)),
            None => paths_of_document(*document) is None,
        },
{
    let tree = match member(document, TREE_FIELD) {
        Some(tree) => tree,
        None => {
            return None;
        },
    };
    let items = match elements(tree) {
        Some(items) => items,
        None => {
            return None;
        },
    };
    let mut found: Vec<String> = Vec::new();
    let mut at: usize = 0;
    while at < items.len()
        invariant
            at <= items.len(),
            found.len() == at,
            member_of(*document, TREE_FIELD@) == Some(*tree),
            elements_of(*tree) == Some(items@),
            forall|i: int|
                0 <= i < at ==> (#[trigger] path_of_item(items@[i])) == Some(found@[i]@),
        decreases items.len() - at,
    {
        let path = match member(&items[at], PATH_FIELD) {
            Some(path) => path,
            None => {
                assert(path_of_item(items@[at as int]) is None);
                return None;
            },
        };
        let text = match string(path) {
            Some(text) => text,
            None => {
                assert(path_of_item(items@[at as int]) is None);
                return None;
            },
        };
        found.push(text.to_string());
        at += 1;
    }
    proof {
        assert(paths_of_items(items@) is Some);
        assert(paths_of_items(items@)->0 =~= texts(found@));
    }
    Some(found)
}

/// What reading a response body comes to: a body that is no listing document
/// is malformed; otherwise the outcome is that of parsing its paths, which
/// succeeds exactly where the pattern of file names is accepted.
pub open spec fn outcome_of_response(
    response: Seq<u8>,
    outcome: Result<Vec<PluginInfo>, Failure>,
) -> bool {
    match paths_of_response(response) {
        None => outcome matches Err(Failure::Parse),
        Some(paths) => {
            &&& outcome is Ok <==> accepted(FILE_NAME_PATTERN@)
            &&& match outcome {
                Ok(catalog) => {
                    &&& is_catalog_of_paths(entries(catalog@), FILE_NAME_PATTERN@, paths)
                    &&& all_well_formed(entries(catalog@))
                },
                Err(failure) => failure is Pattern,
            }
        },
    }
}

/// What the answer of the remote listing comes to: a status outside 200 to
/// 299 is a failure that carries the status; otherwise the outcome is that
/// of reading the body.
pub open spec fn outcome_of_answer(
    status: u16,
    body: Seq<u8>,
    outcome: Result<Vec<PluginInfo>, Failure>,
) -> bool {
    if 200 <= status < 300 {
        outcome_of_response(body, outcome)
    } else {
        outcome matches Err(Failure::Network { status: carried }) && carried == status
    }
}

/// The remote listing.
#[derive(Debug, Clone, Copy)]
pub struct GitOperations;

impl GitOperations {
    /// A handle on the remote listing.
    pub fn new() -> (operations: Self) {
        GitOperations
    }

    /// The catalog that the answer of the remote listing holds.
    pub fn get_astrocommunity_tree(&self, status: u16, body: Vec<u8>) -> (outcome: Result<
        Vec<PluginInfo>,
        Failure,
    >)
        ensures
            outcome_of_answer(status, body@, outcome),
    {
        if status < 200 || status >= 300 {
            Err(Failure::Network { status })
        } else {
            Self::parse_response(body)
        }
    }

    /// The catalog that a response body holds.
    pub fn parse_response(response: Vec<u8>) -> (outcome: Result<Vec<PluginInfo>, Failure>)
        ensures
            outcome_of_response(response@, outcome),
    {
        let document = match read_bytes(response.as_slice()) {
            Ok(document) => document,
            Err(_) => {
                return Err(Failure::Parse);
            },
        };
        match listing_paths(&document) {
            Some(raw_paths) => parse(&raw_paths),
            None => Err(Failure::Parse),
        }
    }
}

} // verus!
