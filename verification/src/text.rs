//! Text as sequences of characters: what it means to split a text at a
//! separator, to find or remove a piece of it, and to order two texts, with
//! executable functions that compute each of these on strings.

use vstd::prelude::*;
use vstd::std_specs::iter::IteratorSpec;
use vstd::string::StringExecFns;

verus! {

/// The views of a sequence of strings.
pub open spec fn texts(strings: Seq<String>) -> Seq<Seq<char>> {
    Seq::new(strings.len(), |i: int| strings[i]@)
}

/// The pieces of `s` between occurrences of `sep`, in order. A text without
/// the separator is its own single piece; the empty text has one empty piece.
pub open spec fn segments(s: Seq<char>, sep: char) -> Seq<Seq<char>>
    decreases s.len(),
{
    if s.len() == 0 {
        seq![Seq::<char>::empty()]
    } else if s.last() == sep {
        segments(s.drop_last(), sep).push(Seq::<char>::empty())
    } else {
        let before = segments(s.drop_last(), sep);
        before.drop_last().push(before.last().push(s.last()))
    }
}

/// The texts in order, with `sep` between each two of them.
pub open spec fn joined_with(lines: Seq<Seq<char>>, sep: char) -> Seq<char>
    decreases lines.len(),
{
    if lines.len() == 0 {
        Seq::<char>::empty()
    } else if lines.len() == 1 {
        lines[0]
    } else {
        joined_with(lines.drop_last(), sep) + seq![sep] + lines.last()
    }
}

/// The texts that are not empty, in order.
pub open spec fn nonempty(lines: Seq<Seq<char>>) -> Seq<Seq<char>>
    decreases lines.len(),
{
    if lines.len() == 0 {
        Seq::<Seq<char>>::empty()
    } else if lines.last().len() == 0 {
        nonempty(lines.drop_last())
    } else {
        nonempty(lines.drop_last()).push(lines.last())
    }
}

/// The ten digits, in order.
pub const DIGITS: &'static str = "0123456789";

/// `n` written in decimal, without leading zeros.
pub open spec fn decimal(n: nat) -> Seq<char>
    decreases n,
{
    if n < 10 {
        seq![DIGITS@[n as int]]
    } else {
        decimal(n / 10).push(DIGITS@[(n % 10) as int])
    }
}

/// `needle` stands in `haystack` at position `at`.
pub open spec fn occurs_at(needle: Seq<char>, haystack: Seq<char>, at: int) -> bool {
    &&& 0 <= at
    &&& at + needle.len() <= haystack.len()
    &&& haystack.subrange(at, at + needle.len()) == needle
}

/// `needle` stands somewhere in `haystack`.
pub open spec fn occurs_in(needle: Seq<char>, haystack: Seq<char>) -> bool {
    exists|at: int| occurs_at(needle, haystack, at)
}

/// `s` without `prefix` at its start. A text that does not begin with the
/// prefix is left as it is.
pub open spec fn after_prefix(s: Seq<char>, prefix: Seq<char>) -> Seq<char> {
    if occurs_at(prefix, s, 0) {
        s.subrange(prefix.len() as int, s.len() as int)
    } else {
        s
    }
}

/// `a` and `b` agree on their first `k` characters, and at position `k`
/// either `a` ends and `b` goes on, or `a` has the smaller character.
pub open spec fn precedes_at(a: Seq<char>, b: Seq<char>, k: int) -> bool {
    &&& 0 <= k <= a.len()
    &&& k < b.len()
    &&& a.subrange(0, k) == b.subrange(0, k)
    &&& k < a.len() ==> a[k] < b[k]
}

/// `a` comes strictly before `b` in lexicographic order of code points.
pub open spec fn precedes(a: Seq<char>, b: Seq<char>) -> bool {
    exists|k: int| precedes_at(a, b, k)
}

/// How one text stands to another in lexicographic order.
#[derive(Clone, Copy, Debug, PartialEq, Eq, Structural)]
pub enum Rank {
    Before,
    Same,
    After,
}

/// No text comes before itself.
pub proof fn lemma_precedes_irreflexive(a: Seq<char>)
    ensures
        !precedes(a, a),
{
    assert forall|k: int| !precedes_at(a, a, k) by {}
}

/// The order is transitive.
pub proof fn lemma_precedes_transitive(a: Seq<char>, b: Seq<char>, c: Seq<char>)
    requires
        precedes(a, b),
        precedes(b, c),
    ensures
        precedes(a, c),
{
    let i = choose|k: int| precedes_at(a, b, k);
    let j = choose|k: int| precedes_at(b, c, k);
    let k = if i <= j { i } else { j };
    assert(a.subrange(0, k) == a.subrange(0, i).subrange(0, k));
    assert(b.subrange(0, k) == b.subrange(0, i).subrange(0, k));
    assert(b.subrange(0, k) == b.subrange(0, j).subrange(0, k));
    assert(c.subrange(0, k) == c.subrange(0, j).subrange(0, k));
    if k < a.len() {
        if i < j {
            assert(b.subrange(0, j)[i] == c.subrange(0, j)[i]);
        } else if j < i {
            assert(a.subrange(0, i)[j] == b.subrange(0, i)[j]);
        }
    }
    assert(precedes_at(a, c, k));
}

/// Of two distinct texts one comes before the other.
pub proof fn lemma_precedes_total(a: Seq<char>, b: Seq<char>)
    ensures
        a == b || precedes(a, b) || precedes(b, a),
{
    let k = common_prefix_len(a, b);
    lemma_common_prefix(a, b);
    if k == a.len() && k == b.len() {
        assert(a == a.subrange(0, k));
        assert(b == b.subrange(0, k));
    } else if k == a.len() {
        assert(precedes_at(a, b, k));
    } else if k == b.len() {
        assert(b.subrange(0, k) == a.subrange(0, k));
        assert(precedes_at(b, a, k));
    } else if a[k] < b[k] {
        assert(precedes_at(a, b, k));
    } else {
        assert(b.subrange(0, k) == a.subrange(0, k));
        assert(precedes_at(b, a, k));
    }
}

/// The number of leading characters on which `a` and `b` agree.
pub open spec fn common_prefix_len(a: Seq<char>, b: Seq<char>) -> int
    decreases a.len(),
{
    if a.len() == 0 || b.len() == 0 || a[0] != b[0] {
        0
    } else {
        1 + common_prefix_len(a.drop_first(), b.drop_first())
    }
}

/// The common prefix is shared, and the two texts part right after it.
pub proof fn lemma_common_prefix(a: Seq<char>, b: Seq<char>)
    ensures
        0 <= common_prefix_len(a, b) <= a.len(),
        common_prefix_len(a, b) <= b.len(),
        a.subrange(0, common_prefix_len(a, b)) == b.subrange(0, common_prefix_len(a, b)),
        common_prefix_len(a, b) < a.len() && common_prefix_len(a, b) < b.len() ==> a[common_prefix_len(
            a,
            b,
        )] != b[common_prefix_len(a, b)],
    decreases a.len(),
{
    if a.len() == 0 || b.len() == 0 || a[0] != b[0] {
        assert(a.subrange(0, 0) == b.subrange(0, 0));
    } else {
        lemma_common_prefix(a.drop_first(), b.drop_first());
        let k = common_prefix_len(a.drop_first(), b.drop_first());
        assert(a.subrange(0, k + 1) == seq![a[0]] + a.drop_first().subrange(0, k));
        assert(b.subrange(0, k + 1) == seq![b[0]] + b.drop_first().subrange(0, k));
    }
}

/// The non-empty texts among the first `k` are the first of the non-empty
/// texts among all.
pub proof fn lemma_nonempty_prefix(lines: Seq<Seq<char>>, k: int)
    requires
        0 <= k <= lines.len(),
    ensures
        nonempty(lines.subrange(0, k)).len() <= nonempty(lines).len(),
        nonempty(lines.subrange(0, k)) == nonempty(lines).subrange(
            0,
            nonempty(lines.subrange(0, k)).len() as int,
        ),
    decreases lines.len(),
{
    if k == lines.len() {
        assert(lines.subrange(0, k) == lines);
        assert(nonempty(lines) == nonempty(lines).subrange(0, nonempty(lines).len() as int));
    } else {
        assert(lines.drop_last().subrange(0, k) == lines.subrange(0, k));
        lemma_nonempty_prefix(lines.drop_last(), k);
        let part = nonempty(lines.subrange(0, k));
        let most = nonempty(lines.drop_last());
        assert(part == most.subrange(0, part.len() as int));
        assert(part =~= nonempty(lines).subrange(0, part.len() as int));
    }
}

/// Splitting a text and putting the pieces together again, with the
/// separator between them, gives the text back.
pub proof fn lemma_segments_rejoin(s: Seq<char>, sep: char)
    ensures
        segments(s, sep).len() >= 1,
        joined_with(segments(s, sep), sep) == s,
    decreases s.len(),
{
    if s.len() == 0 {
    } else {
        let before = segments(s.drop_last(), sep);
        lemma_segments_rejoin(s.drop_last(), sep);
        if s.last() == sep {
            let parts = before.push(Seq::<char>::empty());
            assert(parts.drop_last() == before);
            assert(joined_with(parts, sep) =~= s.drop_last().push(sep));
            assert(s.drop_last().push(sep) == s);
        } else {
            let parts = before.drop_last().push(before.last().push(s.last()));
            if before.len() == 1 {
                assert(joined_with(parts, sep) == before[0].push(s.last()));
            } else {
                assert(parts.drop_last() == before.drop_last());
                assert(joined_with(parts, sep) =~= joined_with(before, sep).push(s.last()));
            }
            assert(s.drop_last().push(s.last()) == s);
        }
    }
}

/// Text without the separator, put behind a text, lengthens its last piece.
pub proof fn lemma_segments_append(s: Seq<char>, more: Seq<char>, sep: char)
    requires
        !more.contains(sep),
    ensures
        segments(s + more, sep) == segments(s, sep).drop_last().push(
            segments(s, sep).last() + more,
        ),
    decreases more.len(),
{
    lemma_segments_rejoin(s, sep);
    let parts = segments(s, sep);
    if more.len() == 0 {
        assert(s + more == s);
        assert(parts.last() + more == parts.last());
        assert(parts.drop_last().push(parts.last()) == parts);
    } else {
        let most = more.drop_last();
        assert forall|k: int| 0 <= k < most.len() implies most[k] != sep by {
            assert(more[k] == most[k]);
            assert(more.contains(more[k]));
        }
        assert(!most.contains(sep));
        assert(more.contains(more.last()));
        lemma_segments_append(s, most, sep);
        assert((s + more).drop_last() == s + most);
        assert((s + more).last() == more.last());
        let before = segments(s + most, sep);
        assert(before.drop_last() == parts.drop_last());
        assert(before.last().push(more.last()) == parts.last() + more);
    }
}

/// Putting texts without the separator together, with the separator between
/// them, and splitting the result gives the texts back.
pub proof fn lemma_joined_splits(lines: Seq<Seq<char>>, sep: char)
    requires
        lines.len() >= 1,
        forall|i: int| 0 <= i < lines.len() ==> !(#[trigger] lines[i]).contains(sep),
    ensures
        segments(joined_with(lines, sep), sep) == lines,
    decreases lines.len(),
{
    if lines.len() == 1 {
        let empty = Seq::<char>::empty();
        lemma_segments_append(empty, lines[0], sep);
        assert(empty + lines[0] == lines[0]);
        assert(segments(empty, sep).last() + lines[0] == lines[0]);
        assert(segments(lines[0], sep) =~= lines);
    } else {
        let most = lines.drop_last();
        assert forall|i: int| 0 <= i < most.len() implies !(#[trigger] most[i]).contains(sep) by {
            assert(most[i] == lines[i]);
        }
        lemma_joined_splits(most, sep);
        let head = joined_with(most, sep).push(sep);
        assert(head.drop_last() == joined_with(most, sep));
        assert(segments(head, sep) == most.push(Seq::<char>::empty()));
        lemma_segments_append(head, lines.last(), sep);
        assert(joined_with(lines, sep) == head + lines.last());
        assert(Seq::<char>::empty() + lines.last() == lines.last());
        assert(most.push(Seq::<char>::empty()).drop_last() == most);
        assert(most.push(lines.last()) == lines);
    }
}

/// Where no text is empty, all of them are kept.
pub proof fn lemma_nonempty_keeps_all(lines: Seq<Seq<char>>)
    requires
        forall|i: int| 0 <= i < lines.len() ==> (#[trigger] lines[i]).len() > 0,
    ensures
        nonempty(lines) == lines,
    decreases lines.len(),
{
    if lines.len() > 0 {
        let most = lines.drop_last();
        assert forall|i: int| 0 <= i < most.len() implies (#[trigger] most[i]).len() > 0 by {
            assert(most[i] == lines[i]);
        }
        lemma_nonempty_keeps_all(most);
        assert(most.push(lines.last()) == lines);
    } else {
        assert(lines =~= Seq::<Seq<char>>::empty());
    }
}

/// No piece of a split text holds the separator.
pub proof fn lemma_segments_hold_no_separator(s: Seq<char>, sep: char)
    ensures
        forall|i: int|
            0 <= i < segments(s, sep).len() ==> !(#[trigger] segments(s, sep)[i]).contains(sep),
    decreases s.len(),
{
    if s.len() == 0 {
    } else {
        let before = segments(s.drop_last(), sep);
        lemma_segments_rejoin(s.drop_last(), sep);
        lemma_segments_hold_no_separator(s.drop_last(), sep);
        let parts = segments(s, sep);
        assert forall|i: int| 0 <= i < parts.len() implies !(#[trigger] parts[i]).contains(sep) by {
            if s.last() == sep {
                if i < before.len() {
                    assert(parts[i] == before[i]);
                }
            } else {
                if i < before.len() - 1 {
                    assert(parts[i] == before[i]);
                } else {
                    let grown = before.last().push(s.last());
                    assert(parts[i] == grown);
                    if grown.contains(sep) {
                        let k = choose|k: int| 0 <= k < grown.len() && grown[k] == sep;
                        assert(before.last()[k] == sep);
                        assert(before.last().contains(sep));
                        assert(before[before.len() - 1].contains(sep));
                    }
                }
            }
        }
    }
}

/// The characters of `s`, in order.
pub fn to_chars(s: &str) -> (chars: Vec<char>)
    ensures
        chars@ == s@,
{
    let mut chars: Vec<char> = Vec::new();
    let mut rest = s.chars();
    loop
        invariant
            chars@ + rest.remaining() == s@,
            rest.decrease() is Some,
        ensures
            chars@ == s@,
        decreases rest.decrease()->0,
    {
        match rest.next() {
            Some(c) => {
                chars.push(c);
            },
            None => {
                break ;
            },
        }
    }
    chars
}

/// The characters of `s` from position `from` up to, not including, `to`.
pub fn slice(s: &str, from: usize, to: usize) -> (piece: String)
    requires
        from <= to <= s@.len(),
    ensures
        piece@ == s@.subrange(from as int, to as int),
{
    s.substring_char(from, to).to_string()
}

/// Whether two strings hold the same text.
pub fn equal(a: &str, b: &str) -> (same: bool)
    ensures
        same == (a@ == b@),
{
    let x = to_chars(a);
    let y = to_chars(b);
    if x.len() != y.len() {
        return false;
    }
    let mut i: usize = 0;
    while i < x.len()
        invariant
            x@ == a@,
            y@ == b@,
            x.len() == y.len(),
            i <= x.len(),
            x@.subrange(0, i as int) == y@.subrange(0, i as int),
        decreases x.len() - i,
    {
        if x[i] != y[i] {
            return false;
        }
        i += 1;
        assert(x@.subrange(0, i as int) == x@.subrange(0, i - 1).push(x@[i - 1]));
        assert(y@.subrange(0, i as int) == y@.subrange(0, i - 1).push(y@[i - 1]));
    }
    assert(x@ == x@.subrange(0, i as int));
    assert(y@ == y@.subrange(0, i as int));
    true
}

/// Where `a` stands relative to `b` in lexicographic order.
pub fn order(a: &str, b: &str) -> (rank: Rank)
    ensures
        match rank {
            Rank::Before => precedes(a@, b@),
            Rank::Same => a@ == b@,
            Rank::After => precedes(b@, a@),
        },
{
    let x = to_chars(a);
    let y = to_chars(b);
    let mut i: usize = 0;
    while i < x.len() && i < y.len()
        invariant
            x@ == a@,
            y@ == b@,
            i <= x.len(),
            i <= y.len(),
            x@.subrange(0, i as int) == y@.subrange(0, i as int),
        decreases x.len() - i,
    {
        let p: char = x[i];
        let q: char = y[i];
        if p < q {
            assert(precedes_at(a@, b@, i as int));
            return Rank::Before;
        }
        if q < p {
            assert(precedes_at(b@, a@, i as int));
            return Rank::After;
        }
        i += 1;
        assert(x@.subrange(0, i as int) == x@.subrange(0, i - 1).push(x@[i - 1]));
        assert(y@.subrange(0, i as int) == y@.subrange(0, i - 1).push(y@[i - 1]));
    }
    if i < y.len() {
        assert(precedes_at(a@, b@, i as int));
        Rank::Before
    } else if i < x.len() {
        assert(precedes_at(b@, a@, i as int));
        Rank::After
    } else {
        assert(x@ == x@.subrange(0, i as int));
        assert(y@ == y@.subrange(0, i as int));
        Rank::Same
    }
}

/// Whether `needle` stands in `haystack` at position `at`.
fn starts_at(haystack: &Vec<char>, needle: &Vec<char>, at: usize) -> (found: bool)
    requires
        at + needle.len() <= haystack.len(),
    ensures
        found == occurs_at(needle@, haystack@, at as int),
{
    let mut k: usize = 0;
    while k < needle.len()
        invariant
            at + needle.len() <= haystack.len(),
            k <= needle.len(),
            haystack@.subrange(at as int, at + k) == needle@.subrange(0, k as int),
        decreases needle.len() - k,
    {
        if haystack[at + k] != needle[k] {
            assert(haystack@.subrange(at as int, at + needle.len())[k as int] != needle@[k as int]);
            return false;
        }
        k += 1;
        assert(haystack@.subrange(at as int, at + k) == haystack@.subrange(at as int, at + k - 1).push(
            haystack@[at + k - 1],
        ));
        assert(needle@.subrange(0, k as int) == needle@.subrange(0, k - 1).push(needle@[k - 1]));
    }
    assert(needle@ == needle@.subrange(0, k as int));
    true
}

/// Whether `needle` stands somewhere in `haystack`.
pub fn contains(haystack: &str, needle: &str) -> (found: bool)
    ensures
        found == occurs_in(needle@, haystack@),
{
    let text = to_chars(haystack);
    let piece = to_chars(needle);
    if piece.len() > text.len() {
        return false;
    }
    if piece.len() == 0 {
        assert(haystack@.subrange(0, 0) =~= needle@);
        assert(occurs_at(needle@, haystack@, 0));
        return true;
    }
    let mut at: usize = 0;
    while text.len() - at >= piece.len()
        invariant
            text@ == haystack@,
            piece@ == needle@,
            0 < piece.len() <= text.len(),
            at <= text.len(),
            forall|k: int| 0 <= k < at ==> !occurs_at(needle@, haystack@, k),
        decreases text.len() - at,
    {
        if starts_at(&text, &piece, at) {
            return true;
        }
        at += 1;
    }
    false
}

/// `s` without `prefix` at its start.
pub fn strip_prefix(s: &str, prefix: &str) -> (rest: String)
    ensures
        rest@ == after_prefix(s@, prefix@),
{
    let text = to_chars(s);
    let head = to_chars(prefix);
    if head.len() <= text.len() && starts_at(&text, &head, 0) {
        slice(s, head.len(), text.len())
    } else {
        String::from_str(s)
    }
}

/// The pieces of `s` between occurrences of `sep`.
pub fn split(s: &str, sep: char) -> (parts: Vec<String>)
    ensures
        texts(parts@) == segments(s@, sep),
{
    let chars = to_chars(s);
    let mut parts: Vec<String> = Vec::new();
    let mut start: usize = 0;
    let mut at: usize = 0;
    proof {
        assert(s@.subrange(0, 0) =~= Seq::<char>::empty());
        assert(texts(parts@).push(s@.subrange(0, 0)) =~= seq![Seq::<char>::empty()]);
    }
    while at < chars.len()
        invariant
            chars@ == s@,
            start <= at <= chars.len(),
            texts(parts@).push(s@.subrange(start as int, at as int)) == segments(
                s@.subrange(0, at as int),
                sep,
            ),
        decreases chars.len() - at,
    {
        let ghost done = texts(parts@);
        let ghost current = s@.subrange(start as int, at as int);
        let ghost next = s@.subrange(0, at + 1);
        proof {
            assert(next.drop_last() == s@.subrange(0, at as int));
            assert(next.last() == s@[at as int]);
            assert(done.push(current).drop_last() == done);
            assert(done.push(current).last() == current);
        }
        if chars[at] == sep {
            parts.push(slice(s, start, at));
            start = at + 1;
            proof {
                assert(texts(parts@) == done.push(current));
                assert(s@.subrange(start as int, at + 1) == Seq::<char>::empty());
            }
        } else {
            proof {
                assert(s@.subrange(start as int, at + 1) == current.push(s@[at as int]));
            }
        }
        at += 1;
    }
    let ghost done = texts(parts@);
    parts.push(slice(s, start, at));
    proof {
        assert(s@.subrange(0, at as int) == s@);
        assert(texts(parts@) == done.push(s@.subrange(start as int, at as int)));
    }
    parts
}

/// The digit `d` as a text.
fn digit_text(d: u64) -> (text: &'static str)
    requires
        d < 10,
    ensures
        text@ == seq![DIGITS@[d as int]],
{
    proof {
        reveal_strlit("0123456789");
        reveal_strlit("0");
        reveal_strlit("1");
        reveal_strlit("2");
        reveal_strlit("3");
        reveal_strlit("4");
        reveal_strlit("5");
        reveal_strlit("6");
        reveal_strlit("7");
        reveal_strlit("8");
        reveal_strlit("9");
    }
    let text = if d == 0 {
        "0"
    } else if d == 1 {
        "1"
    } else if d == 2 {
        "2"
    } else if d == 3 {
        "3"
    } else if d == 4 {
        "4"
    } else if d == 5 {
        "5"
    } else if d == 6 {
        "6"
    } else if d == 7 {
        "7"
    } else if d == 8 {
        "8"
    } else {
        "9"
    };
    assert(text@ =~= seq![DIGITS@[d as int]]);
    text
}

/// `n` written in decimal.
pub fn decimal_text(n: u64) -> (text: String)
    ensures
        text@ == decimal(n as nat),
    decreases n,
{
    if n < 10 {
        String::from_str(digit_text(n))
    } else {
        let mut text = decimal_text(n / 10);
        proof {
            let last = DIGITS@[(n % 10) as int];
            assert(decimal(n as nat) == decimal((n / 10) as nat).push(last));
            assert(decimal((n / 10) as nat) + seq![last] =~= decimal((n / 10) as nat).push(last));
        }
        text.append(digit_text(n % 10));
        text
    }
}

} // verus!
