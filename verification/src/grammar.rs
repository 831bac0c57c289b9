//! The grammar of format strings, as a function on grapheme clusters.
//!
//! A format string is read cluster by cluster. A cluster other than `%` is
//! literal text. `%%` is a literal `%`. `%(` opens a placeholder, which runs up
//! to the first `)`; the clusters in between, joined, are its selector.
//! Anything else after a `%`, or an input that ends too early, is an error.
//! Literal text that is not interrupted by a placeholder forms one element.

use crate::err::ErrorView;
use vstd::prelude::*;

verus! {

/// The mathematical value of a template element.
pub enum ElementView {
    /// Text that is rendered as it stands.
    Part { literal: Seq<char> },
    /// A point at which the text bound to `selector` is rendered.
    Replace { selector: Seq<char> },
}

/// The cluster that introduces an escape or a placeholder.
pub open spec fn marker() -> Seq<char> {
    seq!['%']
}

/// The cluster that opens a placeholder after a marker.
pub open spec fn opener() -> Seq<char> {
    seq!['(']
}

/// The cluster that closes a placeholder.
pub open spec fn closer() -> Seq<char> {
    seq![')']
}

/// The index of the first closing cluster at or after `from`, or the number of
/// clusters where there is none.
pub open spec fn closer_from(clusters: Seq<Seq<char>>, from: int) -> int
    recommends
        0 <= from,
    decreases clusters.len() - from,
{
    if from >= clusters.len() {
        clusters.len() as int
    } else if clusters[from] == closer() {
        from
    } else {
        closer_from(clusters, from + 1)
    }
}

/// Literal text put in front of a sequence of elements. Empty text adds
/// nothing, and text in front of a literal element becomes part of it.
pub open spec fn prepend_text(text: Seq<char>, rest: Seq<ElementView>) -> Seq<ElementView> {
    if text.len() == 0 {
        rest
    } else if rest.len() > 0 && rest[0] is Part {
        seq![ElementView::Part { literal: text + rest[0]->literal }] + rest.skip(1)
    } else {
        seq![ElementView::Part { literal: text }] + rest
    }
}

/// The elements that the clusters from index `from` on stand for, or the
/// first error met when reading them from left to right. `formats` is the
/// whole format string, which the errors carry.
pub open spec fn parse_from(clusters: Seq<Seq<char>>, from: int, formats: Seq<char>) -> Result<
    Seq<ElementView>,
    ErrorView,
>
    recommends
        0 <= from,
    decreases clusters.len() - from,
    via parse_from_decreases
{
    if from >= clusters.len() {
        Ok(Seq::empty())
    } else if clusters[from] != marker() {
        match parse_from(clusters, from + 1, formats) {
            Ok(rest) => Ok(prepend_text(clusters[from], rest)),
            Err(error) => Err(error),
        }
    } else if from + 1 >= clusters.len() {
        Err(ErrorView::UnexpectedEnd { formats })
    } else if clusters[from + 1] == marker() {
        match parse_from(clusters, from + 2, formats) {
            Ok(rest) => Ok(prepend_text(marker(), rest)),
            Err(error) => Err(error),
        }
    } else if clusters[from + 1] == opener() {
        let close = closer_from(clusters, from + 2);
        if close >= clusters.len() {
            Err(ErrorView::UnexpectedEnd { formats })
        } else {
            match parse_from(clusters, close + 1, formats) {
                Ok(rest) => Ok(
                    seq![ElementView::Replace { selector: clusters.subrange(from + 2, close).flatten() }]
                        + rest,
                ),
                Err(error) => Err(error),
            }
        }
    } else {
        Err(ErrorView::UnexpectedCharacter { character: clusters[from + 1], formats })
    }
}

#[via_fn]
proof fn parse_from_decreases(clusters: Seq<Seq<char>>, from: int, formats: Seq<char>) {
    if from + 2 <= clusters.len() {
        lemma_closer_not_before(clusters, from + 2);
    }
}

/// The first closing cluster at or after `from` is not before `from`.
proof fn lemma_closer_not_before(clusters: Seq<Seq<char>>, from: int)
    requires
        from <= clusters.len(),
    ensures
        from <= closer_from(clusters, from),
    decreases clusters.len() - from,
{
    if from < clusters.len() && clusters[from] != closer() {
        lemma_closer_not_before(clusters, from + 1);
    }
}

/// The template that a format string with these clusters stands for.
pub open spec fn parse_all(clusters: Seq<Seq<char>>, formats: Seq<char>) -> Result<
    Seq<ElementView>,
    ErrorView,
> {
    parse_from(clusters, 0, formats)
}

/// No literal element is empty, and no two literal elements are neighbours.
pub open spec fn well_formed(elements: Seq<ElementView>) -> bool {
    &&& forall|i: int|
        0 <= i < elements.len() && #[trigger] elements[i] is Part ==> elements[i]->literal.len() > 0
    &&& forall|i: int|
        0 <= i < elements.len() - 1 && #[trigger] elements[i] is Part ==> !(elements[i + 1] is Part)
}

/// The first closing cluster at or after `from` lies between `from` and the
/// end, and no cluster before it closes.
pub proof fn lemma_closer_from(clusters: Seq<Seq<char>>, from: int)
    requires
        0 <= from <= clusters.len(),
    ensures
        from <= closer_from(clusters, from) <= clusters.len(),
        closer_from(clusters, from) < clusters.len() ==> clusters[closer_from(clusters, from)]
            == closer(),
        forall|k: int| from <= k < closer_from(clusters, from) ==> clusters[k] != closer(),
    decreases clusters.len() - from,
{
    if from < clusters.len() && clusters[from] != closer() {
        lemma_closer_from(clusters, from + 1);
    }
}

/// Putting two texts in front, one after the other, is putting their
/// concatenation in front.
pub proof fn lemma_prepend_text_twice(first: Seq<char>, second: Seq<char>, rest: Seq<ElementView>)
    ensures
        prepend_text(first, prepend_text(second, rest)) == prepend_text(first + second, rest),
{
    if first.len() == 0 {
        assert(first + second =~= second);
    } else if second.len() == 0 {
        assert(first + second =~= first);
    } else if rest.len() > 0 && rest[0] is Part {
        let inner = prepend_text(second, rest);
        assert(inner.skip(1) =~= rest.skip(1));
        assert(first + (second + rest[0]->literal) =~= (first + second) + rest[0]->literal);
    } else {
        let inner = prepend_text(second, rest);
        assert(inner.skip(1) =~= rest);
    }
}

/// A sequence of sequences that holds a value in one of its members holds it
/// in its concatenation.
pub proof fn lemma_flatten_contains<A>(parts: Seq<Seq<A>>, k: int, value: A)
    requires
        0 <= k < parts.len(),
        parts[k].contains(value),
    ensures
        parts.flatten().contains(value),
    decreases parts.len(),
{
    let tail = parts.drop_first();
    assert(parts.flatten() == parts.first() + tail.flatten());
    if k == 0 {
        let at = choose|at: int| 0 <= at < parts[0].len() && parts[0][at] == value;
        assert(parts.flatten()[at] == value);
    } else {
        assert(tail[k - 1] == parts[k]);
        lemma_flatten_contains(tail, k - 1, value);
        let at = choose|at: int| 0 <= at < tail.flatten().len() && tail.flatten()[at] == value;
        assert(parts.flatten()[parts.first().len() + at] == value);
    }
}

/// Clusters without a marker among them, read from `from` on, are one
/// literal that holds them all, or nothing where they hold no text.
pub proof fn lemma_plain_text_from(clusters: Seq<Seq<char>>, from: int, formats: Seq<char>)
    requires
        0 <= from <= clusters.len(),
        forall|i: int| from <= i < clusters.len() ==> clusters[i] != marker(),
    ensures
        parse_from(clusters, from, formats) == Ok::<Seq<ElementView>, ErrorView>(
            prepend_text(clusters.skip(from).flatten(), Seq::empty()),
        ),
    decreases clusters.len() - from,
{
    let here = clusters.skip(from);
    if from < clusters.len() {
        lemma_plain_text_from(clusters, from + 1, formats);
        assert(here.drop_first() =~= clusters.skip(from + 1));
        assert(here.first() == clusters[from]);
        lemma_prepend_text_twice(clusters[from], clusters.skip(from + 1).flatten(), Seq::empty());
    }
}

/// The template of a text without placeholders: one literal that holds the
/// text, or no element where the text is empty.
pub open spec fn plain(text: Seq<char>) -> Seq<ElementView> {
    if text.len() == 0 {
        Seq::empty()
    } else {
        seq![ElementView::Part { literal: text }]
    }
}

/// A format string none of whose clusters is a marker parses to a single
/// literal that holds the whole text. Where the text is empty, it parses to
/// no element at all.
pub proof fn lemma_plain_text(clusters: Seq<Seq<char>>, formats: Seq<char>)
    requires
        forall|i: int| 0 <= i < clusters.len() ==> clusters[i] != marker(),
    ensures
        parse_all(clusters, formats) == Ok::<Seq<ElementView>, ErrorView>(plain(clusters.flatten())),
{
    lemma_plain_text_from(clusters, 0, formats);
    assert(clusters.skip(0) =~= clusters);
    assert(seq![ElementView::Part { literal: clusters.flatten() }] + Seq::empty()
        =~= seq![ElementView::Part { literal: clusters.flatten() }]);
}

/// `count` markers in a row.
pub open spec fn markers(count: nat) -> Seq<Seq<char>> {
    Seq::new(count, |i: int| marker())
}

/// The text of `count` percent signs.
pub open spec fn percent_signs(count: nat) -> Seq<char> {
    Seq::new(count, |i: int| '%')
}

/// Markers alone, read from `from` on: an even number of them are escapes
/// that give half as many percent signs; an odd number leaves the last
/// marker without its continuation.
pub proof fn lemma_markers_from(count: nat, from: int, formats: Seq<char>)
    requires
        0 <= from <= count,
    ensures
        (count - from) % 2 == 0 ==> parse_from(markers(count), from, formats) == Ok::<
            Seq<ElementView>,
            ErrorView,
        >(prepend_text(percent_signs(((count - from) / 2) as nat), Seq::empty())),
        (count - from) % 2 == 1 ==> parse_from(markers(count), from, formats) == Err::<
            Seq<ElementView>,
            ErrorView,
        >(ErrorView::UnexpectedEnd { formats }),
    decreases count - from,
{
    let left = count - from;
    if left >= 2 {
        lemma_markers_from(count, from + 2, formats);
        if left % 2 == 0 {
            let fewer = percent_signs(((left - 2) / 2) as nat);
            lemma_prepend_text_twice(marker(), fewer, Seq::empty());
            assert(marker() + fewer =~= percent_signs((left / 2) as nat));
        }
    } else if left == 0 {
        assert(percent_signs(0) =~= Seq::empty());
    }
}

/// A format string of `2 * pairs` markers and nothing else parses to a
/// single literal of `pairs` percent signs, where there is at least one pair.
/// With one marker more it is rejected: the input ends after a marker.
pub proof fn lemma_escaped_markers(pairs: nat, formats: Seq<char>)
    ensures
        pairs > 0 ==> parse_all(markers(2 * pairs), formats) == Ok::<Seq<ElementView>, ErrorView>(
            seq![ElementView::Part { literal: percent_signs(pairs) }],
        ),
        pairs == 0 ==> parse_all(markers(2 * pairs), formats) == Ok::<Seq<ElementView>, ErrorView>(
            Seq::empty(),
        ),
        parse_all(markers(2 * pairs + 1), formats) == Err::<Seq<ElementView>, ErrorView>(
            ErrorView::UnexpectedEnd { formats },
        ),
{
    lemma_markers_from(2 * pairs, 0, formats);
    lemma_markers_from(2 * pairs + 1, 0, formats);
    assert(seq![ElementView::Part { literal: percent_signs(pairs) }] + Seq::empty()
        =~= seq![ElementView::Part { literal: percent_signs(pairs) }]);
}

/// A placeholder runs from its opening to the first closing cluster after
/// it. Whatever stands in between, markers and opening clusters too, is its
/// selector, and what follows the closing cluster is parsed on its own.
pub proof fn lemma_placeholder(clusters: Seq<Seq<char>>, from: int, close: int, formats: Seq<char>)
    requires
        0 <= from,
        from + 2 <= close < clusters.len(),
        clusters[from] == marker(),
        clusters[from + 1] == opener(),
        clusters[close] == closer(),
        forall|k: int| from + 2 <= k < close ==> clusters[k] != closer(),
    ensures
        parse_from(clusters, from, formats) == match parse_from(clusters, close + 1, formats) {
            Ok(rest) => Ok(
                seq![ElementView::Replace { selector: clusters.subrange(from + 2, close).flatten() }]
                    + rest,
            ),
            Err(error) => Err(error),
        },
{
    lemma_closer_from(clusters, from + 2);
    assert(marker() != opener()) by {
        assert(marker()[0] != opener()[0]);
    }
}

/// Text put in front of well-formed elements leaves them well-formed.
pub proof fn lemma_prepend_text_well_formed(text: Seq<char>, rest: Seq<ElementView>)
    requires
        well_formed(rest),
    ensures
        well_formed(prepend_text(text, rest)),
{
    let all = prepend_text(text, rest);
    if text.len() > 0 {
        if rest.len() > 0 && rest[0] is Part {
            assert forall|i: int| 0 <= i < all.len() - 1 && #[trigger] all[i] is Part implies !(all[i
                + 1] is Part) by {
                assert(all[i + 1] == rest[i + 1]);
                if i > 0 {
                    assert(all[i] == rest[i]);
                } else {
                    assert(rest[0] is Part);
                }
            }
            assert forall|i: int| 0 <= i < all.len() && #[trigger] all[i] is Part implies all[i]->literal.len()
                > 0 by {
                if i > 0 {
                    assert(all[i] == rest[i]);
                }
            }
        } else {
            assert forall|i: int| 0 <= i < all.len() - 1 && #[trigger] all[i] is Part implies !(all[i
                + 1] is Part) by {
                assert(all[i + 1] == rest[i]);
                if i > 0 {
                    assert(all[i] == rest[i - 1]);
                }
            }
            assert forall|i: int| 0 <= i < all.len() && #[trigger] all[i] is Part implies all[i]->literal.len()
                > 0 by {
                if i > 0 {
                    assert(all[i] == rest[i - 1]);
                }
            }
        }
    }
}

/// Whatever parses, parses to well-formed elements: no literal is empty and
/// neighbouring literal text has been joined.
pub proof fn lemma_parse_well_formed(clusters: Seq<Seq<char>>, from: int, formats: Seq<char>)
    requires
        0 <= from,
    ensures
        parse_from(clusters, from, formats) matches Ok(elements) ==> well_formed(elements),
    decreases clusters.len() - from,
{
    if from >= clusters.len() {
    } else if clusters[from] != marker() {
        lemma_parse_well_formed(clusters, from + 1, formats);
        if let Ok(rest) = parse_from(clusters, from + 1, formats) {
            lemma_prepend_text_well_formed(clusters[from], rest);
        }
    } else if from + 1 >= clusters.len() {
    } else if clusters[from + 1] == marker() {
        lemma_parse_well_formed(clusters, from + 2, formats);
        if let Ok(rest) = parse_from(clusters, from + 2, formats) {
            lemma_prepend_text_well_formed(marker(), rest);
        }
    } else if clusters[from + 1] == opener() {
        let close = closer_from(clusters, from + 2);
        lemma_closer_from(clusters, from + 2);
        if close < clusters.len() {
            lemma_parse_well_formed(clusters, close + 1, formats);
            if let Ok(rest) = parse_from(clusters, close + 1, formats) {
                let hole = ElementView::Replace {
                    selector: clusters.subrange(from + 2, close).flatten(),
                };
                let all = seq![hole] + rest;
                assert forall|i: int| 0 <= i < all.len() - 1 && #[trigger] all[i] is Part implies !(all[i
                    + 1] is Part) by {
                    assert(all[i] == rest[i - 1]);
                    assert(all[i + 1] == rest[i]);
                }
                assert forall|i: int| 0 <= i < all.len() && #[trigger] all[i] is Part implies all[i]->literal.len()
                    > 0 by {
                    assert(all[i] == rest[i - 1]);
                }
            }
        }
    }
}

} // verus!
