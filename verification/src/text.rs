//! Text: splitting at a separator, joining, and the order of texts.

use vstd::prelude::*;
use vstd::string::StringExecFns;
use vstd::utf8::{encode_utf8, encode_utf8_decode_utf8};

verus! {

/// `String::push` of the standard library appends one character to the text.
pub assume_specification[ String::push ](s: &mut String, ch: char)
    ensures
        final(s)@ == old(s)@.push(ch),
;

/// Index of the first `sep` in `s`, or the length of `s` where it has none.
pub open spec fn position(s: Seq<char>, sep: char) -> int
    decreases s.len(),
{
    if s.len() == 0 {
        0
    } else if s[0] == sep {
        0
    } else {
        1 + position(s.drop_first(), sep)
    }
}

/// The pieces of `s` between its separators, cut at no more than the first
/// `limit - 1` of them: the last piece holds the rest of the text, with the
/// separators left in it. There is at least one piece, unless the limit is
/// zero: then there is none.
pub open spec fn split_n(s: Seq<char>, sep: char, limit: nat) -> Seq<Seq<char>>
    decreases limit,
{
    if limit == 0 {
        Seq::empty()
    } else if limit == 1 {
        seq![s]
    } else {
        let at = position(s, sep);
        if at >= s.len() {
            seq![s]
        } else {
            seq![s.take(at)] + split_n(s.skip(at + 1), sep, (limit - 1) as nat)
        }
    }
}

/// The texts joined, with `sep` between each two neighbours.
pub open spec fn joined(parts: Seq<Seq<char>>, sep: Seq<char>) -> Seq<char>
    decreases parts.len(),
{
    if parts.len() == 0 {
        Seq::empty()
    } else if parts.len() == 1 {
        parts[0]
    } else {
        joined(parts.drop_last(), sep) + sep + parts.last()
    }
}

/// Behind a text without separator, the first separator is where it is in
/// the text that follows.
proof fn lemma_position_after(head: Seq<char>, rest: Seq<char>, sep: char)
    requires
        forall|i: int| 0 <= i < head.len() ==> head[i] != sep,
    ensures
        position(head + rest, sep) == head.len() + position(rest, sep),
    decreases head.len(),
{
    if head.len() == 0 {
        assert(head + rest =~= rest);
    } else {
        assert((head + rest)[0] == head[0]);
        assert((head + rest).drop_first() =~= head.drop_first() + rest);
        lemma_position_after(head.drop_first(), rest, sep);
    }
}

/// Cuts a text at a separator, at no more than the first `limit - 1`
/// occurrences.
pub fn split_text(s: &str, sep: char, limit: usize) -> (r: Vec<String>)
    ensures
        r.deep_view() == split_n(s@, sep, limit as nat),
        r.len() <= limit,
        limit >= 1 ==> r.len() >= 1,
{
    let mut pieces: Vec<String> = Vec::new();
    let mut current = String::new();
    assert(pieces.deep_view() =~= Seq::<Seq<char>>::empty());
    if limit == 0 {
        return pieces;
    }
    assert(current@ + s@.skip(0) =~= s@);
    assert(Seq::<Seq<char>>::empty() + split_n(s@, sep, limit as nat) =~= split_n(s@, sep, limit as nat));
    for c in it: s.chars()
        invariant
            it.seq() == s@,
            pieces.len() < limit,
            limit - pieces.len() > 1 ==> forall|j: int| 0 <= j < current@.len() ==> current@[j] != sep,
            split_n(s@, sep, limit as nat) == pieces.deep_view() + split_n(
                current@ + s@.skip(it.index() as int),
                sep,
                (limit - pieces.len()) as nat,
            ),
    {
        let ghost i = it.index() as int;
        let ghost rest = s@.skip(i);
        let ghost left = (limit - pieces.len()) as nat;
        assert(rest[0] == c);
        assert(rest.drop_first() =~= s@.skip(i + 1));
        if c == sep && limit - pieces.len() > 1 {
            proof {
                lemma_position_after(current@, rest, sep);
                assert((current@ + rest).take(current@.len() as int) =~= current@);
                assert((current@ + rest).skip(current@.len() as int + 1) =~= s@.skip(i + 1));
            }
            let ghost before = pieces.deep_view();
            let ghost piece = current@;
            pieces.push(current);
            current = String::new();
            proof {
                assert(pieces.deep_view() =~= before.push(piece));
                assert(current@ + s@.skip(i + 1) =~= s@.skip(i + 1));
                assert(before + (seq![piece] + split_n(s@.skip(i + 1), sep, (left - 1) as nat)) =~= before.push(
                    piece,
                ) + split_n(s@.skip(i + 1), sep, (left - 1) as nat));
            }
        } else {
            let ghost shorter = current@;
            current.push(c);
            assert(current@ + s@.skip(i + 1) =~= shorter + rest);
        }
    }
    proof {
        let left = (limit - pieces.len()) as nat;
        assert(s@.skip(s@.len() as int) =~= Seq::<char>::empty());
        assert(current@ + Seq::<char>::empty() =~= current@);
        if left > 1 {
            lemma_position_after(current@, Seq::<char>::empty(), sep);
        }
        assert(split_n(current@, sep, left) =~= seq![current@]);
    }
    let ghost before = pieces.deep_view();
    let ghost piece = current@;
    pieces.push(current);
    assert(pieces.deep_view() =~= before + seq![piece]);
    pieces
}

/// Joins texts, with `sep` between each two neighbours.
pub fn join_texts(parts: &Vec<String>, sep: &str) -> (r: String)
    ensures
        r@ == joined(parts.deep_view(), sep@),
{
    let mut out = String::new();
    let mut i: usize = 0;
    while i < parts.len()
        invariant
            i <= parts.len(),
            out@ == joined(parts.deep_view().take(i as int), sep@),
        decreases parts.len() - i,
    {
        proof {
            assert(parts.deep_view().take(i + 1).drop_last() =~= parts.deep_view().take(i as int));
            assert(parts.deep_view().take(i + 1).last() == parts[i as int]@);
            if i == 0 {
                assert(parts.deep_view().take(1)[0] == parts[0]@);
                assert(Seq::<char>::empty() + parts[0]@ =~= parts[0]@);
            }
        }
        if i > 0 {
            out.append(sep);
        }
        out.append(parts[i].as_str());
        i += 1;
    }
    assert(parts.deep_view().take(parts.len() as int) =~= parts.deep_view());
    out
}

/// Whether a list of texts holds a text.
pub fn contains_text(list: &Vec<String>, text: &str) -> (r: bool)
    ensures
        r == list.deep_view().contains(text@),
{
    let wanted = text.to_owned();
    let mut i: usize = 0;
    while i < list.len()
        invariant
            i <= list.len(),
            wanted@ == text@,
            forall|j: int| 0 <= j < i ==> list.deep_view()[j] != text@,
        decreases list.len() - i,
    {
        if list[i] == wanted {
            assert(list.deep_view()[i as int] == text@);
            return true;
        }
        i += 1;
    }
    false
}

/// A copy of a list of texts.
pub fn clone_texts(list: &Vec<String>) -> (r: Vec<String>)
    ensures
        r.deep_view() == list.deep_view(),
{
    let mut out: Vec<String> = Vec::new();
    let mut i: usize = 0;
    while i < list.len()
        invariant
            i <= list.len(),
            out.deep_view() == list.deep_view().take(i as int),
        decreases list.len() - i,
    {
        let ghost before = out.deep_view();
        out.push(list[i].clone());
        assert(out.deep_view() =~= before.push(list[i as int]@));
        assert(list.deep_view().take(i + 1) =~= list.deep_view().take(i as int).push(list[i as int]@));
        i += 1;
    }
    assert(list.deep_view().take(list.len() as int) =~= list.deep_view());
    out
}

/// Whether two texts are the same.
pub fn same_text(a: &str, b: &str) -> (r: bool)
    ensures
        r == (a@ == b@),
{
    a.to_owned() == b.to_owned()
}

/// The order of byte strings: byte by byte, and a string before every
/// string that it starts.
pub open spec fn bytes_le(a: Seq<u8>, b: Seq<u8>) -> bool
    decreases a.len(),
{
    if a.len() == 0 {
        true
    } else if b.len() == 0 {
        false
    } else if a[0] != b[0] {
        a[0] < b[0]
    } else {
        bytes_le(a.drop_first(), b.drop_first())
    }
}

/// The order of texts: that of their bytes.
pub open spec fn text_le(a: Seq<char>, b: Seq<char>) -> bool {
    bytes_le(encode_utf8(a), encode_utf8(b))
}

/// The texts stand in their order.
pub open spec fn ascending(list: Seq<Seq<char>>) -> bool {
    forall|i: int, j: int| 0 <= i < j < list.len() ==> text_le(list[i], list[j])
}

/// The texts stand in their order, and no text stands twice.
pub open spec fn strictly_ascending(list: Seq<Seq<char>>) -> bool {
    forall|i: int, j: int| 0 <= i < j < list.len() ==> text_le(list[i], list[j]) && list[i] != list[j]
}

proof fn lemma_bytes_le_antisymmetric(a: Seq<u8>, b: Seq<u8>)
    requires
        bytes_le(a, b),
        bytes_le(b, a),
    ensures
        a == b,
    decreases a.len(),
{
    if a.len() == 0 || b.len() == 0 {
        assert(a =~= b);
    } else {
        lemma_bytes_le_antisymmetric(a.drop_first(), b.drop_first());
        assert(a =~= seq![a[0]] + a.drop_first());
        assert(b =~= seq![b[0]] + b.drop_first());
    }
}

/// Two texts of which each stands before the other are the same text.
pub proof fn lemma_text_le_antisymmetric(a: Seq<char>, b: Seq<char>)
    requires
        text_le(a, b),
        text_le(b, a),
    ensures
        a == b,
{
    lemma_bytes_le_antisymmetric(encode_utf8(a), encode_utf8(b));
    encode_utf8_decode_utf8(a);
    encode_utf8_decode_utf8(b);
}

/// `sort` of the standard library on a list of texts: the list holds the
/// same texts as before, each as often as before, and they stand in the
/// order of their bytes.
#[verifier::external_body]
fn sort_texts(list: &mut Vec<String>)
    ensures
        final(list).deep_view().to_multiset() == old(list).deep_view().to_multiset(),
        ascending(final(list).deep_view()),
{
    list.sort();
}

/// The list without the texts that repeat the text before them.
pub open spec fn without_repeats(list: Seq<Seq<char>>) -> Seq<Seq<char>>
    decreases list.len(),
{
    if list.len() == 0 {
        list
    } else if list.len() == 1 {
        list
    } else {
        let rest = without_repeats(list.drop_last());
        if list.last() == list[list.len() - 2] {
            rest
        } else {
            rest.push(list.last())
        }
    }
}

proof fn lemma_without_repeats_last(list: Seq<Seq<char>>)
    requires
        list.len() > 0,
    ensures
        without_repeats(list).len() > 0,
        without_repeats(list).last() == list.last(),
        without_repeats(list).len() <= list.len(),
    decreases list.len(),
{
    if list.len() > 1 {
        lemma_without_repeats_last(list.drop_last());
    }
}

/// Takes out of a list each text that repeats the text before it.
pub fn drop_repeats(list: &Vec<String>) -> (r: Vec<String>)
    ensures
        r.deep_view() == without_repeats(list.deep_view()),
{
    let mut out: Vec<String> = Vec::new();
    let ghost all = list.deep_view();
    let mut i: usize = 0;
    assert(out.deep_view() =~= without_repeats(all.take(0)));
    while i < list.len()
        invariant
            i <= list.len(),
            all == list.deep_view(),
            out.deep_view() == without_repeats(all.take(i as int)),
        decreases list.len() - i,
    {
        proof {
            assert(all.take(i + 1).drop_last() =~= all.take(i as int));
            assert(all.take(i + 1).last() == list[i as int]@);
            if i > 0 {
                assert(all.take(i + 1)[i - 1] == list[i as int - 1]@);
            }
        }
        if i == 0 || list[i] != list[i - 1] {
            let ghost before = out.deep_view();
            out.push(list[i].clone());
            assert(out.deep_view() =~= before.push(list[i as int]@));
            proof {
                if i == 0 {
                    assert(all.take(1) =~= seq![list[0]@]);
                }
            }
        }
        i += 1;
    }
    assert(all.take(list.len() as int) =~= all);
    out
}

/// Without its repeats an ascending list is strictly ascending, and it holds
/// the same texts.
pub proof fn lemma_without_repeats_of_ascending(list: Seq<Seq<char>>)
    requires
        ascending(list),
    ensures
        strictly_ascending(without_repeats(list)),
        forall|text: Seq<char>| list.contains(text) <==> without_repeats(list).contains(text),
    decreases list.len(),
{
    let out = without_repeats(list);
    if list.len() <= 1 {
    } else {
        let shorter = list.drop_last();
        let rest = without_repeats(shorter);
        assert(ascending(shorter)) by {
            assert forall|i: int, j: int| 0 <= i < j < shorter.len() implies text_le(shorter[i], shorter[j]) by {
                assert(text_le(list[i], list[j]));
            }
        }
        lemma_without_repeats_of_ascending(shorter);
        lemma_without_repeats_last(shorter);
        assert(shorter.last() == list[list.len() - 2]);
        assert forall|text: Seq<char>| list.contains(text) <==> out.contains(text) by {
            if list.contains(text) {
                let i = choose|i: int| 0 <= i < list.len() && list[i] == text;
                if i < list.len() - 1 {
                    assert(shorter[i] == text);
                    assert(shorter.contains(text));
                    let k = choose|k: int| 0 <= k < rest.len() && rest[k] == text;
                    assert(out[k] == text);
                } else if list.last() == list[list.len() - 2] {
                    assert(rest[rest.len() - 1] == text);
                    assert(out[out.len() - 1] == text);
                } else {
                    assert(out[out.len() - 1] == text);
                }
            }
            if out.contains(text) {
                let k = choose|k: int| 0 <= k < out.len() && out[k] == text;
                if k < rest.len() {
                    assert(rest[k] == text);
                    assert(rest.contains(text));
                    assert(shorter.contains(text));
                    let i = choose|i: int| 0 <= i < shorter.len() && shorter[i] == text;
                    assert(list[i] == text);
                } else {
                    assert(list[list.len() - 1] == text);
                }
            }
        }
        if list.last() != list[list.len() - 2] {
            assert forall|i: int, j: int| 0 <= i < j < out.len() implies text_le(out[i], out[j]) && out[i]
                != out[j] by {
                if j < rest.len() {
                    assert(text_le(rest[i], rest[j]) && rest[i] != rest[j]);
                } else {
                    assert(rest.contains(rest[i]));
                    assert(shorter.contains(rest[i]));
                    let a = choose|a: int| 0 <= a < shorter.len() && shorter[a] == rest[i];
                    assert(text_le(list[a], list[list.len() - 1]));
                    if out[i] == out[j] {
                        // Then the text before the last one lies between two equal texts.
                        assert(text_le(list[a], list[list.len() - 2]) || a == list.len() - 2);
                        assert(text_le(list[list.len() - 2], list[list.len() - 1]));
                        if a != list.len() - 2 {
                            lemma_text_le_antisymmetric(list[list.len() - 2], list[list.len() - 1]);
                        }
                    }
                }
            }
        }
    }
}

/// The texts of a list in ascending order.
pub fn sorted_texts(list: Vec<String>) -> (r: Vec<String>)
    ensures
        r.deep_view().to_multiset() == list.deep_view().to_multiset(),
        ascending(r.deep_view()),
{
    let mut sorted = list;
    sort_texts(&mut sorted);
    sorted
}

/// The texts of a list in ascending order, each once.
///
/// The result is strictly ascending and holds exactly the texts of the list.
pub fn sorted_distinct(list: Vec<String>) -> (r: Vec<String>)
    ensures
        strictly_ascending(r.deep_view()),
        forall|text: Seq<char>| list.deep_view().contains(text) <==> r.deep_view().contains(text),
{
    let mut sorted = list;
    let ghost given = sorted.deep_view();
    sort_texts(&mut sorted);
    let out = drop_repeats(&sorted);
    proof {
        lemma_without_repeats_of_ascending(sorted.deep_view());
        given.to_multiset_ensures();
        sorted.deep_view().to_multiset_ensures();
        assert forall|text: Seq<char>| given.contains(text) <==> sorted.deep_view().contains(text) by {
            assert(given.contains(text) <==> given.to_multiset().count(text) > 0);
            assert(sorted.deep_view().contains(text) <==> sorted.deep_view().to_multiset().count(text) > 0);
        }
    }
    out
}

} // verus!
