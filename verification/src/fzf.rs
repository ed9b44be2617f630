//! The selection: which candidates the selector is shown, and which plugins
//! the lines that it gives back stand for.

use crate::astrocommunity::{entries, label, Entry, PluginInfo};
use crate::error::Failure;
use crate::text::{
    equal, joined_with, lemma_joined_splits, lemma_nonempty_keeps_all, lemma_nonempty_prefix,
    nonempty, segments, split, texts,
};
use vstd::prelude::*;
use vstd::string::StringExecFns;

verus! {

/// The name of the selector program.
pub const SELECTOR: &'static str = "fzf";

/// The name of its file on Windows.
pub const SELECTOR_ON_WINDOWS: &'static str = "fzf.exe";

/// The labels of the entries, place by place.
pub open spec fn labels(catalog: Seq<Entry>) -> Seq<Seq<char>> {
    Seq::new(catalog.len(), |i: int| label(catalog[i]))
}

/// What the selector is given: one label per line, in catalog order.
pub open spec fn candidate_text(catalog: Seq<Entry>) -> Seq<char> {
    joined_with(labels(catalog), '\n')
}

/// The lines of the selector's output that name a choice: all but the empty
/// ones.
pub open spec fn chosen_lines(output: Seq<char>) -> Seq<Seq<char>> {
    nonempty(segments(output, '\n'))
}

/// `line` is the label of some entry of the catalog.
pub open spec fn is_candidate(catalog: Seq<Entry>, line: Seq<char>) -> bool {
    exists|i: int| 0 <= i < catalog.len() && label(#[trigger] catalog[i]) == line
}

/// The entry at `i` is the first of the catalog whose label is `line`.
pub open spec fn is_first_match(catalog: Seq<Entry>, line: Seq<char>, i: int) -> bool {
    &&& 0 <= i < catalog.len()
    &&& label(catalog[i]) == line
    &&& forall|j: int| 0 <= j < i ==> label(#[trigger] catalog[j]) != line
}

/// `selection` holds, line by line, the first entry of the catalog that
/// carries the line as its label.
pub open spec fn selects(catalog: Seq<Entry>, lines: Seq<Seq<char>>, selection: Seq<Entry>) -> bool {
    &&& selection.len() == lines.len()
    &&& forall|k: int|
        0 <= k < lines.len() ==> exists|i: int|
            is_first_match(catalog, #[trigger] lines[k], i) && selection[k] == catalog[i]
}

/// The line at `k` is the first that is no candidate's label.
pub open spec fn is_first_stranger(catalog: Seq<Entry>, lines: Seq<Seq<char>>, k: int) -> bool {
    &&& 0 <= k < lines.len()
    &&& !is_candidate(catalog, lines[k])
    &&& forall|j: int| 0 <= j < k ==> is_candidate(catalog, #[trigger] lines[j])
}

/// What a selection comes to. Where each chosen line is a candidate's label,
/// it is the entries that the lines select; where one is not, it is a failure
/// that carries the first such line.
pub open spec fn is_selection(
    catalog: Seq<Entry>,
    output: Seq<char>,
    outcome: Result<Vec<PluginInfo>, Failure>,
) -> bool {
    let lines = chosen_lines(output);
    match outcome {
        Ok(selection) => selects(catalog, lines, entries(selection@)),
        Err(failure) => failure matches Failure::SelectionIntegrity { line } && exists|k: int|
            is_first_stranger(catalog, lines, k) && line@ == lines[k],
    }
}

/// The selection keeps to the catalog: each entry of it is one of the
/// candidates.
pub open spec fn is_within(catalog: Seq<Entry>, outcome: Result<Vec<PluginInfo>, Failure>) -> bool {
    outcome matches Ok(selection) ==> forall|k: int|
        0 <= k < selection.len() ==> catalog.contains(#[trigger] entries(selection@)[k])
}

/// Whether the selection succeeds is decided by the lines alone: it does
/// exactly where each of them is a candidate's label.
pub open spec fn succeeds_on_candidates(
    catalog: Seq<Entry>,
    output: Seq<char>,
    outcome: Result<Vec<PluginInfo>, Failure>,
) -> bool {
    outcome is Ok <==> forall|k: int|
        0 <= k < chosen_lines(output).len() ==> is_candidate(
            catalog,
            #[trigger] chosen_lines(output)[k],
        )
}

/// The lines decide the selection: two selections of the same lines from the
/// same catalog are the same.
pub proof fn lemma_selection_is_determined(
    catalog: Seq<Entry>,
    lines: Seq<Seq<char>>,
    first: Seq<Entry>,
    second: Seq<Entry>,
)
    requires
        selects(catalog, lines, first),
        selects(catalog, lines, second),
    ensures
        first == second,
{
    assert forall|k: int| 0 <= k < lines.len() implies first[k] == second[k] by {
        let i = choose|i: int| is_first_match(catalog, lines[k], i) && first[k] == catalog[i];
        let j = choose|j: int| is_first_match(catalog, lines[k], j) && second[k] == catalog[j];
        if i < j {
            assert(label(catalog[i]) != lines[k]);
        } else if j < i {
            assert(label(catalog[j]) != lines[k]);
        }
    }
    assert(first =~= second);
}

/// What the selector is given, read as its output, names each candidate in
/// turn, as long as no label holds a line break.
pub proof fn lemma_candidates_name_each_entry(catalog: Seq<Entry>)
    requires
        forall|i: int| 0 <= i < catalog.len() ==> !label(#[trigger] catalog[i]).contains('\n'),
    ensures
        chosen_lines(candidate_text(catalog)) == labels(catalog),
{
    reveal_strlit(" [");
    reveal_strlit("]");
    let shown = labels(catalog);
    if catalog.len() == 0 {
        assert(shown =~= Seq::<Seq<char>>::empty());
        assert(nonempty(seq![Seq::<char>::empty()]) =~= Seq::<Seq<char>>::empty()) by {
            let one = seq![Seq::<char>::empty()];
            assert(one.last().len() == 0);
            assert(one.drop_last() =~= Seq::<Seq<char>>::empty());
            assert(nonempty(one.drop_last()) =~= Seq::<Seq<char>>::empty());
        }
    } else {
        assert forall|i: int| 0 <= i < shown.len() implies !(#[trigger] shown[i]).contains(
            '\n',
        ) by {
            assert(shown[i] == label(catalog[i]));
        }
        lemma_joined_splits(shown, '\n');
        assert forall|i: int| 0 <= i < shown.len() implies (#[trigger] shown[i]).len() > 0 by {
            assert(shown[i] == label(catalog[i]));
            assert(" ["@.len() == 2);
        }
        lemma_nonempty_keeps_all(shown);
    }
}

/// Matching the label of an entry against its catalog gives that entry
/// back, and no other, unless an earlier entry carries the same label.
pub proof fn lemma_label_round_trip(catalog: Seq<Entry>, i: int)
    requires
        0 <= i < catalog.len(),
        forall|j: int| 0 <= j < i ==> label(#[trigger] catalog[j]) != label(catalog[i]),
    ensures
        is_first_match(catalog, label(catalog[i]), i),
        forall|k: int| is_first_match(catalog, label(catalog[i]), k) ==> k == i,
        forall|selection: Seq<Entry>|
            selects(catalog, seq![label(catalog[i])], selection) ==> selection == seq![catalog[i]],
{
    let line = label(catalog[i]);
    assert forall|k: int| is_first_match(catalog, line, k) implies k == i by {
        if k < i {
            assert(label(catalog[k]) != line);
        } else if i < k {
            assert(label(catalog[i]) != line);
        }
    }
    assert forall|selection: Seq<Entry>| selects(catalog, seq![line], selection) implies selection
        == seq![catalog[i]] by {
        let lines = seq![line];
        assert(lines[0] == line);
        let k = choose|k: int| is_first_match(catalog, lines[0], k) && selection[0] == catalog[k];
        assert(k == i);
        assert(selection =~= seq![catalog[i]]);
    }
}

/// Two entries whose groups hold no opening square bracket carry the same
/// label only if they are the same entry.
pub proof fn lemma_label_injective(a: Entry, b: Entry)
    requires
        !a.group.contains('['),
        !b.group.contains('['),
        label(a) == label(b),
    ensures
        a == b,
{
    reveal_strlit(" [");
    reveal_strlit("]");
    let open = " ["@;
    let close = "]"@;
    assert(open.len() == 2 && open[0] == ' ' && open[1] == '[');
    assert(close.len() == 1 && close[0] == ']');
    let shown = label(a);
    let n = a.name.len() as int;
    let m = b.name.len() as int;
    assert(shown.len() == n + 3 + a.group.len());
    assert(shown.len() == m + 3 + b.group.len());
    if n < m {
        lemma_no_bracket_after(a, m + 1);
        assert(label(b)[m + 1] == '[');
    } else if m < n {
        lemma_no_bracket_after(b, n + 1);
        assert(label(a)[n + 1] == '[');
    }
    assert(a.name =~= shown.subrange(0, n));
    assert(b.name =~= shown.subrange(0, m));
    assert(a.group =~= shown.subrange(n + 2, shown.len() - 1));
    assert(b.group =~= shown.subrange(m + 2, shown.len() - 1));
}

/// In a catalog that holds no entry twice and no group with an opening
/// square bracket, each label belongs to one entry, and matching it gives
/// that entry back.
pub proof fn lemma_labels_are_unique(catalog: Seq<Entry>, i: int)
    requires
        0 <= i < catalog.len(),
        forall|a: int, b: int| 0 <= a < b < catalog.len() ==> catalog[a] != catalog[b],
        forall|k: int| 0 <= k < catalog.len() ==> !(#[trigger] catalog[k]).group.contains('['),
    ensures
        forall|j: int|
            0 <= j < catalog.len() && label(#[trigger] catalog[j]) == label(catalog[i]) ==> j == i,
        is_first_match(catalog, label(catalog[i]), i),
{
    assert forall|j: int|
        0 <= j < catalog.len() && label(#[trigger] catalog[j]) == label(catalog[i]) implies j
        == i by {
        lemma_label_injective(catalog[j], catalog[i]);
    }
}

/// In the label of an entry whose group holds no opening square bracket,
/// none stands behind the one that opens the group.
proof fn lemma_no_bracket_after(a: Entry, at: int)
    requires
        !a.group.contains('['),
        a.name.len() + 1 < at < label(a).len(),
    ensures
        label(a)[at] != '[',
{
    reveal_strlit(" [");
    reveal_strlit("]");
    let open = " ["@;
    let close = "]"@;
    assert(open.len() == 2);
    assert(close.len() == 1 && close[0] == ']');
    let inside = at - a.name.len() - 2;
    if inside < a.group.len() {
        assert(label(a)[at] == a.group[inside]);
        assert(a.group.contains(a.group[inside]));
    } else {
        assert(label(a)[at] == ']');
    }
}

/// The text to hand to the selector: the label of each plugin on a line of
/// its own, in the order of the catalog.
pub fn candidates(catalog: &[PluginInfo]) -> (text: String)
    ensures
        text@ == candidate_text(entries(catalog@)),
{
    let mut text = String::new();
    let mut at: usize = 0;
    proof {
        assert(labels(entries(catalog@)).subrange(0, 0) =~= Seq::<Seq<char>>::empty());
    }
    while at < catalog.len()
        invariant
            at <= catalog.len(),
            text@ == joined_with(labels(entries(catalog@)).subrange(0, at as int), '\n'),
        decreases catalog.len() - at,
    {
        let ghost done = labels(entries(catalog@)).subrange(0, at as int);
        let ghost next = labels(entries(catalog@)).subrange(0, at + 1);
        proof {
            assert(next.drop_last() == done);
            assert(next.last() == label(catalog[at as int]@));
        }
        if at > 0 {
            proof {
                reveal_strlit("\n");
                assert("\n"@ =~= seq!['\n']);
            }
            text.append("\n");
        }
        let shown = catalog[at].to_string();
        text.append(shown.as_str());
        proof {
            if at == 0 {
                assert(text@ =~= next[0]);
            }
        }
        at += 1;
    }
    assert(labels(entries(catalog@)).subrange(0, at as int) == labels(entries(catalog@)));
    text
}

/// The place of the first plugin whose label is `line`.
pub fn find_label(possible: &[PluginInfo], line: &str) -> (place: Option<usize>)
    ensures
        match place {
            Some(i) => is_first_match(entries(possible@), line@, i as int),
            None => !is_candidate(entries(possible@), line@),
        },
{
    let mut at: usize = 0;
    while at < possible.len()
        invariant
            at <= possible.len(),
            forall|j: int| 0 <= j < at ==> label(#[trigger] entries(possible@)[j]) != line@,
        decreases possible.len() - at,
    {
        let shown = possible[at].to_string();
        if equal(shown.as_str(), line) {
            return Some(at);
        }
        at += 1;
    }
    None
}

/// The plugins that the selector's output names, in the order of its lines.
/// Empty lines name nothing. A line that is no candidate's label makes the
/// whole selection fail, and the failure carries the first such line.
pub fn select(output: &str, possible: &[PluginInfo]) -> (outcome: Result<Vec<PluginInfo>, Failure>)
    ensures
        is_selection(entries(possible@), output@, outcome),
        succeeds_on_candidates(entries(possible@), output@, outcome),
        is_within(entries(possible@), outcome),
{
    let lines = split(output, '\n');
    let ghost catalog = entries(possible@);
    let ghost all = texts(lines@);
    let mut selection: Vec<PluginInfo> = Vec::new();
    let mut at: usize = 0;
    proof {
        assert(all.subrange(0, 0) =~= Seq::<Seq<char>>::empty());
    }
    while at < lines.len()
        invariant
            at <= lines.len(),
            catalog == entries(possible@),
            all == texts(lines@),
            all == segments(output@, '\n'),
            selects(catalog, nonempty(all.subrange(0, at as int)), entries(selection@)),
            forall|k: int|
                0 <= k < selection.len() ==> catalog.contains(#[trigger] entries(selection@)[k]),
        decreases lines.len() - at,
    {
        let ghost seen = nonempty(all.subrange(0, at as int));
        let ghost before = entries(selection@);
        proof {
            assert(all.subrange(0, at + 1).drop_last() == all.subrange(0, at as int));
            assert(all.subrange(0, at + 1).last() == lines[at as int]@);
        }
        if !lines[at].as_str().is_empty() {
            match find_label(possible, lines[at].as_str()) {
                Some(place) => {
                    selection.push(possible[place].clone());
                    proof {
                        let now = entries(selection@);
                        let kept = nonempty(all.subrange(0, at + 1));
                        assert(kept == seen.push(lines[at as int]@));
                        assert(now =~= before.push(catalog[place as int]));
                        assert forall|k: int| 0 <= k < kept.len() implies exists|i: int|
                            is_first_match(catalog, #[trigger] kept[k], i) && now[k]
                                == catalog[i] by {
                            if k < seen.len() {
                                assert(kept[k] == seen[k]);
                                let i = choose|i: int|
                                    is_first_match(catalog, seen[k], i) && before[k] == catalog[i];
                                assert(is_first_match(catalog, kept[k], i) && now[k] == catalog[i]);
                            } else {
                                assert(is_first_match(catalog, kept[k], place as int) && now[k]
                                    == catalog[place as int]);
                            }
                        }
                        assert forall|k: int| 0 <= k < now.len() implies catalog.contains(
                            #[trigger] now[k],
                        ) by {
                            if k < before.len() {
                                assert(now[k] == before[k]);
                            }
                        }
                    }
                },
                None => {
                    proof {
                        let kept = nonempty(all.subrange(0, at + 1));
                        let chosen = chosen_lines(output@);
                        assert(kept == seen.push(lines[at as int]@));
                        lemma_nonempty_prefix(all, at + 1);
                        let k = seen.len() as int;
                        assert(chosen[k] == kept[k]);
                        assert forall|j: int| 0 <= j < k implies is_candidate(
                            catalog,
                            #[trigger] chosen[j],
                        ) by {
                            assert(chosen[j] == kept[j]);
                            assert(kept[j] == seen[j]);
                            let i = choose|i: int| is_first_match(catalog, seen[j], i);
                            assert(label(catalog[i]) == chosen[j]);
                        }
                        assert(is_first_stranger(catalog, chosen, k));
                    }
                    return Err(Failure::SelectionIntegrity { line: lines[at].clone() });
                },
            }
        }
        at += 1;
    }
    proof {
        assert(all.subrange(0, at as int) == all);
        let chosen = chosen_lines(output@);
        assert forall|k: int| 0 <= k < chosen.len() implies is_candidate(
            catalog,
            #[trigger] chosen[k],
        ) by {
            let i = choose|i: int| is_first_match(catalog, chosen[k], i);
            assert(label(catalog[i]) == chosen[k]);
        }
    }
    Ok(selection)
}

/// One exchange with the selector program: what is to be written to it and
/// what it has written back.
#[derive(Debug, PartialEq, Eq)]
pub struct Fzf {
    /// Where the selector program was found.
    pub program: String,
    /// What is to be written to the selector's input.
    pub input: Vec<u8>,
    /// What the selector has written and nobody has read yet.
    pub output: String,
}

impl Fzf {
    /// Begins an exchange with the selector found at `located`. Without a
    /// selector there is none, and the failure names the program that is
    /// missing.
    pub fn new(located: Option<String>) -> (outcome: Result<Fzf, Failure>)
        ensures
            match located {
                Some(program) => outcome matches Ok(fzf) && fzf.program@ == program@
                    && fzf.input@.len() == 0 && fzf.output@.len() == 0,
                None => outcome matches Err(Failure::SelectorUnavailable { executable })
                    && executable@ == SELECTOR@,
            },
    {
        match located {
            Some(program) => Ok(Fzf { program, input: Vec::new(), output: String::new() }),
            None => Err(Failure::SelectorUnavailable { executable: String::from_str(SELECTOR) }),
        }
    }

    /// What the start of the selector comes to. A selector that is running
    /// carries the exchange on; one that did not start is as good as missing,
    /// and the failure names the program.
    pub fn started(self, running: bool) -> (outcome: Result<Fzf, Failure>)
        ensures
            running ==> outcome == Ok::<Fzf, Failure>(self),
            !running ==> (outcome matches Err(Failure::SelectorUnavailable { executable })
                && executable@ == SELECTOR@),
    {
        if running {
            Ok(self)
        } else {
            Err(Failure::SelectorUnavailable { executable: String::from_str(SELECTOR) })
        }
    }

    /// The file to look for: the selector's name, in the form that the
    /// platform gives to a program.
    pub fn executable(windows: bool) -> (file: &'static str)
        ensures
            file@ == (if windows {
                SELECTOR_ON_WINDOWS@
            } else {
                SELECTOR@
            }),
    {
        if windows {
            SELECTOR_ON_WINDOWS
        } else {
            SELECTOR
        }
    }

    /// The arguments that the selector is started with: several choices may
    /// be made, in a list of twenty lines that grows downwards.
    pub fn arguments() -> (arguments: Vec<String>)
        ensures
            texts(arguments@) == seq!["-m"@, "--height=20"@, "--layout=reverse-list"@],
    {
        let mut arguments: Vec<String> = Vec::new();
        arguments.push(String::from_str("-m"));
        arguments.push(String::from_str("--height=20"));
        arguments.push(String::from_str("--layout=reverse-list"));
        proof {
            assert(texts(arguments@) =~= seq!["-m"@, "--height=20"@, "--layout=reverse-list"@]);
        }
        arguments
    }

    /// Adds `input` to what is to be written to the selector.
    pub fn write_to_stdin(&mut self, input: &[u8]) -> (outcome: Result<(), Failure>)
        ensures
            outcome is Ok,
            final(self).input@ == old(self).input@ + input@,
            final(self).program == old(self).program,
            final(self).output == old(self).output,
    {
        let mut at: usize = 0;
        while at < input.len()
            invariant
                at <= input.len(),
                self.input@ == old(self).input@ + input@.subrange(0, at as int),
                self.program == old(self).program,
                self.output == old(self).output,
            decreases input.len() - at,
        {
            self.input.push(input[at]);
            proof {
                assert(input@.subrange(0, at + 1) == input@.subrange(0, at as int).push(
                    input@[at as int],
                ));
            }
            at += 1;
        }
        proof {
            assert(input@.subrange(0, at as int) == input@);
        }
        Ok(())
    }

    /// Takes in what the selector has written.
    pub fn receive(&mut self, written: &str)
        ensures
            final(self).output@ == old(self).output@ + written@,
            final(self).program == old(self).program,
            final(self).input == old(self).input,
    {
        self.output.append(written);
    }

    /// Hands out what the selector has written so far, and keeps none of it.
    pub fn read_from_stdout(&mut self) -> (outcome: Result<String, Failure>)
        ensures
            outcome matches Ok(text) && text@ == old(self).output@,
            final(self).output@.len() == 0,
            final(self).program == old(self).program,
            final(self).input == old(self).input,
    {
        let text = self.output.clone();
        self.output = String::new();
        Ok(text)
    }

    /// The plugins, out of `possible_plugins`, that the selector's output
    /// names.
    pub fn get_selected_plugins(&mut self, possible_plugins: &[PluginInfo]) -> (outcome: Result<
        Vec<PluginInfo>,
        Failure,
    >)
        ensures
            is_selection(entries(possible_plugins@), old(self).output@, outcome),
            succeeds_on_candidates(entries(possible_plugins@), old(self).output@, outcome),
            is_within(entries(possible_plugins@), outcome),
            final(self).output@.len() == 0,
            final(self).program == old(self).program,
            final(self).input == old(self).input,
    {
        match self.read_from_stdout() {
            Ok(output) => select(output.as_str(), possible_plugins),
            Err(failure) => Err(failure),
        }
    }
}

} // verus!
