//! What is handed to the user: the import statements of a selection, and the
//! source of the selected plugins.

use crate::astrocommunity::{entries, Entry, PluginInfo};
use crate::error::Failure;
use crate::path::{join, joined};
use vstd::prelude::*;
use vstd::string::StringExecFns;

verus! {

/// The file, in a plugin's folder, that holds its source.
pub const SOURCE_FILE: &'static str = "init.lua";

/// The statement that enables one plugin, on a line of its own.
pub open spec fn import_line(entry: Entry) -> Seq<char> {
    "{ import = \"astrocommunity."@ + entry.group + "."@ + entry.name + "\", enable = true },\n"@
}

/// The statements that enable the selected plugins, in selection order.
pub open spec fn import_statements(selection: Seq<Entry>) -> Seq<char>
    decreases selection.len(),
{
    if selection.len() == 0 {
        Seq::<char>::empty()
    } else {
        import_statements(selection.drop_last()) + import_line(selection.last())
    }
}

/// Rendering is a function of the selection: the same entries in the same
/// order give the same text, and so the same bytes.
pub proof fn lemma_render_is_repeatable(first: Seq<PluginInfo>, second: Seq<PluginInfo>)
    requires
        entries(first) == entries(second),
    ensures
        import_statements(entries(first)) == import_statements(entries(second)),
        vstd::utf8::encode_utf8(import_statements(entries(first))) == vstd::utf8::encode_utf8(
            import_statements(entries(second)),
        ),
{
}

/// Where the source of a plugin stands, relative to the checkout.
pub open spec fn relative_source(entry: Entry) -> Seq<char> {
    "lua/astrocommunity/"@ + entry.group + "/"@ + entry.name + "/init.lua"@
}

/// Where the source of a plugin stands in the checkout at `root`.
pub open spec fn source_location(root: Seq<char>, entry: Entry) -> Seq<char> {
    joined(root, relative_source(entry))
}

/// The source of each selected plugin, each followed by a line break, as
/// far as the sources are at hand: the text, or the place of the first that
/// is missing.
pub open spec fn unrolled(sources: Seq<Option<Seq<char>>>) -> Result<Seq<char>, int>
    decreases sources.len(),
{
    if sources.len() == 0 {
        Ok(Seq::<char>::empty())
    } else {
        match unrolled(sources.drop_last()) {
            Ok(text) => match sources.last() {
                Some(source) => Ok(text + source + seq!['\n']),
                None => Err(sources.len() - 1),
            },
            Err(place) => Err(place),
        }
    }
}

/// The source that is at hand for the plugin at `place`: none where the
/// sources end before it.
pub open spec fn source_at(sources: Seq<Option<String>>, place: int) -> Option<Seq<char>> {
    if 0 <= place < sources.len() {
        match sources[place] {
            Some(source) => Some(source@),
            None => None,
        }
    } else {
        None
    }
}

/// The sources at hand for a selection of `count` plugins, place by place.
pub open spec fn sources_for(count: nat, sources: Seq<Option<String>>) -> Seq<Option<Seq<char>>> {
    Seq::new(count, |place: int| source_at(sources, place))
}

/// The statements that enable the selected plugins, one line for each, in
/// the order of the selection.
pub fn render_import_statements(selection: &[PluginInfo]) -> (text: String)
    ensures
        text@ == import_statements(entries(selection@)),
{
    let mut text = String::new();
    let mut at: usize = 0;
    proof {
        assert(entries(selection@).subrange(0, 0) =~= Seq::<Entry>::empty());
    }
    while at < selection.len()
        invariant
            at <= selection.len(),
            text@ == import_statements(entries(selection@).subrange(0, at as int)),
        decreases selection.len() - at,
    {
        proof {
            let next = entries(selection@).subrange(0, at + 1);
            assert(next.drop_last() == entries(selection@).subrange(0, at as int));
            assert(next.last() == selection[at as int]@);
        }
        text.append("{ import = \"astrocommunity.");
        text.append(selection[at].group.as_str());
        text.append(".");
        text.append(selection[at].name.as_str());
        text.append("\", enable = true },\n");
        at += 1;
    }
    assert(entries(selection@).subrange(0, at as int) == entries(selection@));
    text
}

/// Where the source of `plugin` stands in the checkout at `root`.
pub fn source_path(root: &str, plugin: &PluginInfo) -> (path: String)
    ensures
        path@ == source_location(root@, plugin@),
{
    let mut below = String::from_str("lua/astrocommunity/");
    below.append(plugin.group.as_str());
    below.append("/");
    below.append(plugin.name.as_str());
    below.append("/init.lua");
    join(root, below.as_str())
}

/// Where the sources of the selected plugins stand, place by place.
pub fn source_paths(root: &str, selection: &[PluginInfo]) -> (paths: Vec<String>)
    ensures
        paths.len() == selection.len(),
        forall|i: int|
            0 <= i < selection.len() ==> (#[trigger] paths[i])@ == source_location(
                root@,
                selection[i]@,
            ),
{
    let mut paths: Vec<String> = Vec::new();
    let mut at: usize = 0;
    while at < selection.len()
        invariant
            at <= selection.len(),
            paths.len() == at,
            forall|i: int|
                0 <= i < at ==> (#[trigger] paths[i])@ == source_location(root@, selection[i]@),
        decreases selection.len() - at,
    {
        paths.push(source_path(root, &selection[at]));
        at += 1;
    }
    paths
}

/// The source of the selected plugins, one after the other, each followed by
/// a line break. `sources` holds, place by place, what was read for each
/// plugin. Where one is missing the whole fails, and the failure names the
/// file that was not there.
pub fn render_unrolled_source(root: &str, selection: &[PluginInfo], sources: &Vec<Option<String>>) -> (outcome:
    Result<String, Failure>)
    ensures
        match unrolled(sources_for(selection@.len(), sources@)) {
            Ok(text) => outcome matches Ok(rendered) && rendered@ == text,
            Err(place) => outcome matches Err(Failure::Io { path }) && 0 <= place < selection.len()
                && path@ == source_location(root@, selection[place]@),
        },
{
    let ghost given = sources_for(selection@.len(), sources@);
    let mut text = String::new();
    let mut at: usize = 0;
    proof {
        assert(given.subrange(0, 0) =~= Seq::<Option<Seq<char>>>::empty());
    }
    while at < selection.len()
        invariant
            at <= selection.len(),
            given == sources_for(selection@.len(), sources@),
            unrolled(given.subrange(0, at as int)) == Ok::<Seq<char>, int>(text@),
        decreases selection.len() - at,
    {
        proof {
            let next = given.subrange(0, at + 1);
            assert(next.drop_last() == given.subrange(0, at as int));
            assert(next.last() == source_at(sources@, at as int));
        }
        if at < sources.len() {
            match &sources[at] {
                Some(source) => {
                    proof {
                        reveal_strlit("\n");
                        assert("\n"@ =~= seq!['\n']);
                    }
                    text.append(source.as_str());
                    text.append("\n");
                    at += 1;
                    continue ;
                },
                None => {},
            }
        }
        proof {
            lemma_unrolled_stops(given, at + 1);
        }
        return Err(Failure::Io { path: source_path(root, &selection[at]) });
    }
    proof {
        assert(given.subrange(0, at as int) == given);
    }
    Ok(text)
}

/// Once a source is missing, what follows it changes nothing.
pub proof fn lemma_unrolled_stops(sources: Seq<Option<Seq<char>>>, k: int)
    requires
        0 <= k <= sources.len(),
        unrolled(sources.subrange(0, k)) is Err,
    ensures
        unrolled(sources) == unrolled(sources.subrange(0, k)),
    decreases sources.len(),
{
    if k == sources.len() {
        assert(sources.subrange(0, k) == sources);
    } else {
        assert(sources.drop_last().subrange(0, k) == sources.subrange(0, k));
        lemma_unrolled_stops(sources.drop_last(), k);
    }
}

} // verus!
