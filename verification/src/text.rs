//! Character sequences cut at a separator, and the executable helpers that
//! read a string by characters.

use vstd::prelude::*;

verus! {

/// Position of the first occurrence of `c` in `s`, or `s.len()` where `s`
/// holds none.
pub open spec fn first_index_of(s: Seq<char>, c: char) -> int
    decreases s.len(),
{
    if s.len() == 0 {
        0
    } else if s[0] == c {
        0
    } else {
        1 + first_index_of(s.drop_first(), c)
    }
}

/// The pieces of `s` between occurrences of `sep`, in order. A sequence
/// without the separator is one piece; `n` separators give `n + 1` pieces,
/// empty ones included.
pub open spec fn split_on(s: Seq<char>, sep: char) -> Seq<Seq<char>>
    decreases s.len(),
{
    let k = first_index_of(s, sep);
    if 0 <= k < s.len() {
        seq![s.subrange(0, k)] + split_on(s.subrange(k + 1, s.len() as int), sep)
    } else {
        seq![s]
    }
}

/// `first_index_of` stays within the sequence, nothing before it is the
/// character sought, and it points at that character unless it is the length.
pub proof fn lemma_first_index_of(s: Seq<char>, c: char)
    ensures
        0 <= first_index_of(s, c) <= s.len(),
        forall|i: int| 0 <= i < first_index_of(s, c) ==> s[i] != c,
        first_index_of(s, c) < s.len() ==> s[first_index_of(s, c)] == c,
        !s.contains(c) <==> first_index_of(s, c) == s.len(),
    decreases s.len(),
{
    if s.len() == 0 {
    } else if s[0] == c {
        assert(s.contains(c));
    } else {
        let t = s.drop_first();
        lemma_first_index_of(t, c);
        let k = first_index_of(t, c);
        assert forall|i: int| 0 <= i < 1 + k implies s[i] != c by {
            if i > 0 {
                assert(s[i] == t[i - 1]);
            }
        }
        if k < t.len() {
            assert(s[k + 1] == t[k]);
            assert(s.contains(c));
        } else {
            assert(!t.contains(c));
            if s.contains(c) {
                let j = choose|j: int| 0 <= j < s.len() && s[j] == c;
                assert(t[j - 1] == c);
                assert(t.contains(c));
            }
        }
    }
}

/// The characters of `s`, in order.
pub fn chars_of(s: &str) -> (out: Vec<char>)
    ensures
        out@ == s@,
{
    let mut out: Vec<char> = Vec::new();
    let mut it = s.chars();
    for c in iter: it
        invariant
            out@ == iter.seq().take(iter.index()),
    {
        out.push(c);
    }
    out
}

/// The pieces put together again, with `sep` between neighbours.
pub open spec fn join_with(parts: Seq<Seq<char>>, sep: char) -> Seq<char>
    decreases parts.len(),
{
    if parts.len() == 0 {
        Seq::empty()
    } else if parts.len() == 1 {
        parts[0]
    } else {
        parts[0] + seq![sep] + join_with(parts.drop_first(), sep)
    }
}

/// No piece of a split holds the separator.
pub proof fn lemma_split_pieces_free(s: Seq<char>, sep: char)
    ensures
        forall|i: int| 0 <= i < split_on(s, sep).len() ==> !(#[trigger] split_on(s, sep)[i]).contains(sep),
    decreases s.len(),
{
    lemma_first_index_of(s, sep);
    let k = first_index_of(s, sep);
    if k < s.len() {
        let head = s.subrange(0, k);
        let tail = s.subrange(k + 1, s.len() as int);
        lemma_split_pieces_free(tail, sep);
        assert(!head.contains(sep)) by {
            if head.contains(sep) {
                let j = choose|j: int| 0 <= j < head.len() && head[j] == sep;
                assert(s[j] == sep);
            }
        }
        assert forall|i: int| 0 <= i < split_on(s, sep).len() implies !(#[trigger] split_on(
            s,
            sep,
        )[i]).contains(sep) by {
            if i > 0 {
                assert(split_on(s, sep)[i] == split_on(tail, sep)[i - 1]);
            }
        }
    }
}

/// Joining what a split gave restores the sequence.
pub proof fn lemma_join_of_split(s: Seq<char>, sep: char)
    ensures
        join_with(split_on(s, sep), sep) == s,
    decreases s.len(),
{
    lemma_first_index_of(s, sep);
    let k = first_index_of(s, sep);
    if k < s.len() {
        let head = s.subrange(0, k);
        let tail = s.subrange(k + 1, s.len() as int);
        lemma_join_of_split(tail, sep);
        lemma_split_on_nonempty(tail, sep);
        let parts = split_on(s, sep);
        assert(parts.drop_first() == split_on(tail, sep));
        assert(head + seq![sep] + tail == s);
    }
}

/// Splitting a join of pieces that hold no separator gives the pieces back.
pub proof fn lemma_split_of_join(parts: Seq<Seq<char>>, sep: char)
    requires
        parts.len() >= 1,
        forall|i: int| 0 <= i < parts.len() ==> !(#[trigger] parts[i]).contains(sep),
    ensures
        split_on(join_with(parts, sep), sep) == parts,
    decreases parts.len(),
{
    let s = join_with(parts, sep);
    if parts.len() == 1 {
        lemma_first_index_of(s, sep);
        assert(split_on(s, sep) == parts);
    } else {
        let rest = parts.drop_first();
        assert forall|i: int| 0 <= i < rest.len() implies !(#[trigger] rest[i]).contains(sep) by {
            assert(rest[i] == parts[i + 1]);
        }
        lemma_split_of_join(rest, sep);
        let head = parts[0];
        let k = head.len() as int;
        assert forall|i: int| 0 <= i < k implies s[i] != sep by {
            assert(s[i] == head[i]);
            if head[i] == sep {
                assert(head.contains(sep));
            }
        }
        assert(s[k] == sep);
        lemma_first_index_is(s, sep, k);
        assert(s.subrange(0, k) == head);
        assert(s.subrange(k + 1, s.len() as int) == join_with(rest, sep));
        assert(seq![head] + rest == parts);
    }
}

/// A split always gives at least one piece.
pub proof fn lemma_split_on_nonempty(s: Seq<char>, sep: char)
    ensures
        split_on(s, sep).len() >= 1,
{
}

/// The views of a vector of strings, element by element.
pub open spec fn views_of(v: Seq<String>) -> Seq<Seq<char>> {
    Seq::new(v.len(), |i: int| v[i]@)
}

/// A position that is the first occurrence of `c`, or the length where there
/// is none, is what `first_index_of` gives.
pub proof fn lemma_first_index_is(s: Seq<char>, c: char, k: int)
    requires
        0 <= k <= s.len(),
        forall|i: int| 0 <= i < k ==> s[i] != c,
        k < s.len() ==> s[k] == c,
    ensures
        first_index_of(s, c) == k,
{
    lemma_first_index_of(s, c);
}

/// Position of the first `c` in `chars` at or after `start`, or the length
/// where none follows.
pub(crate) fn find_from(chars: &Vec<char>, start: usize, c: char) -> (at: usize)
    requires
        start <= chars@.len(),
    ensures
        at == start + first_index_of(chars@.subrange(start as int, chars@.len() as int), c),
        start <= at <= chars@.len(),
{
    let n: usize = chars.len();
    let mut i: usize = start;
    while i < n && chars[i] != c
        invariant
            n == chars@.len(),
            start <= i <= n,
            forall|j: int| start <= j < i ==> chars@[j] != c,
        decreases n - i,
    {
        i = i + 1;
    }
    proof {
        lemma_first_index_is(chars@.subrange(start as int, n as int), c, i - start);
    }
    i
}

/// Cuts `s` at every `sep`: the pieces in order, as owned strings.
pub fn split_str(s: &str, sep: char) -> (out: Vec<String>)
    ensures
        views_of(out@) == split_on(s@, sep),
{
    let chars = chars_of(s);
    let n: usize = chars.len();
    let mut out: Vec<String> = Vec::new();
    let mut start: usize = 0;
    proof {
        assert(s@.subrange(0, n as int) == s@);
        assert(views_of(out@) + split_on(s@, sep) == split_on(s@, sep));
    }
    loop
        invariant
            chars@ == s@,
            n == s@.len(),
            start <= n,
            split_on(s@, sep) == views_of(out@) + split_on(s@.subrange(start as int, n as int), sep),
        decreases n - start,
    {
        let at = find_from(&chars, start, sep);
        let ghost rest = s@.subrange(start as int, n as int);
        let ghost before = views_of(out@);
        let piece = s.substring_char(start, at).to_owned();
        out.push(piece);
        assert(views_of(out@) == before + seq![piece@]);
        assert(piece@ == rest.subrange(0, at - start));
        if at == n {
            assert(rest.subrange(0, at - start) == rest);
            assert(views_of(out@) == split_on(s@, sep));
            return out;
        }
        assert(rest.subrange(at - start + 1, rest.len() as int) == s@.subrange(at + 1, n as int));
        start = at + 1;
    }
}

/// Whether the characters of `chars` from `from` up to `to` spell `word`.
pub(crate) fn spells(chars: &Vec<char>, from: usize, to: usize, word: &str) -> (same: bool)
    requires
        from <= to <= chars@.len(),
    ensures
        same == (chars@.subrange(from as int, to as int) == word@),
{
    let letters = chars_of(word);
    let ghost part = chars@.subrange(from as int, to as int);
    if letters.len() != to - from {
        return false;
    }
    let n: usize = letters.len();
    let mut i: usize = 0;
    while i < n
        invariant
            n == letters@.len(),
            n == to - from,
            to <= chars@.len(),
            i <= n,
            letters@ == word@,
            part == chars@.subrange(from as int, to as int),
            forall|j: int| 0 <= j < i ==> part[j] == letters@[j],
        decreases n - i,
    {
        if chars[from + i] != letters[i] {
            assert(part[i as int] == chars@[from + i]);
            return false;
        }
        i = i + 1;
    }
    assert(part =~= letters@);
    true
}

/// A string as `{:?}` writes it: between double quotes, with the characters
/// that cannot stand there as they are written as escapes.
pub uninterp spec fn quoted(s: Seq<char>) -> Seq<char>;

/// Formats `s` with `{:?}`, which is `<str as core::fmt::Debug>::fmt`. Not
/// proved: that the text handed back is the one that this formatting gives
/// for these characters, under the name `quoted`. Nothing is said of what
/// that text holds.
#[verifier::external_body]
pub(crate) fn quote(s: &str) -> (out: String)
    ensures
        out@ == quoted(s@),
{
    format!("{:?}", s)
}

/// A value of one unnamed field as it is written: the name, then the field
/// in round brackets.
pub open spec fn tuple_text(name: Seq<char>, field: Seq<char>) -> Seq<char> {
    name + seq!['('] + field + seq![')']
}

/// A value of two named fields as it is written: the name, then in braces
/// each label with its field, a comma between the two.
pub open spec fn record_text(
    name: Seq<char>,
    first: (Seq<char>, Seq<char>),
    second: (Seq<char>, Seq<char>),
) -> Seq<char> {
    name + seq![' ', '{', ' '] + first.0 + seq![':', ' '] + first.1 + seq![',', ' '] + second.0
        + seq![':', ' '] + second.1 + seq![' ', '}']
}

/// Writes `name(field)`.
pub fn write_tuple(name: &str, field: &str) -> (out: String)
    ensures
        out@ == tuple_text(name@, field@),
{
    proof {
        reveal_strlit("(");
        reveal_strlit(")");
    }
    assert("("@ == seq!['(']);
    assert(")"@ == seq![')']);
    let mut out = String::from_str(name);
    out.append("(");
    out.append(field);
    out.append(")");
    out
}

/// Writes `name { label: field, label: field }`.
pub fn write_record(
    name: &str,
    first_label: &str,
    first: &str,
    second_label: &str,
    second: &str,
) -> (out: String)
    ensures
        out@ == record_text(name@, (first_label@, first@), (second_label@, second@)),
{
    proof {
        reveal_strlit(" { ");
        reveal_strlit(": ");
        reveal_strlit(", ");
        reveal_strlit(" }");
    }
    assert(" { "@ == seq![' ', '{', ' ']);
    assert(": "@ == seq![':', ' ']);
    assert(", "@ == seq![',', ' ']);
    assert(" }"@ == seq![' ', '}']);
    let mut out = String::from_str(name);
    out.append(" { ");
    out.append(first_label);
    out.append(": ");
    out.append(first);
    out.append(", ");
    out.append(second_label);
    out.append(": ");
    out.append(second);
    out.append(" }");
    out
}

} // verus!
