//! What rendering a template means.
//!
//! Rendering walks the elements in order. A literal gives its text. A
//! placeholder gives what the accessor bound to its selector answers for the
//! object, or a fixed text where the accessor has no value. The first
//! placeholder whose selector is not bound ends the rendering with an error.

use crate::binding::{answer_view, Binding};
use crate::err::ErrorView;
use crate::grammar::{plain, ElementView};
use vstd::prelude::*;

verus! {

/// The text that stands in for a value that an accessor does not have.
pub open spec fn missing_text() -> Seq<char> {
    seq!['N', 'A']
}

/// The text that an accessor's answer puts into the output.
pub open spec fn substitute(answer: Option<Seq<char>>) -> Seq<char> {
    match answer {
        Some(text) => text,
        None => missing_text(),
    }
}

/// The text that one element puts into the output, given the answer of its
/// accessor. A literal does not depend on the answer.
pub open spec fn piece(element: ElementView, answer: Option<Seq<char>>) -> Seq<char> {
    match element {
        ElementView::Part { literal } => literal,
        ElementView::Replace { .. } => substitute(answer),
    }
}

/// The texts of all elements, in order. `answers[i]` is the answer for
/// `elements[i]`.
pub open spec fn pieces(elements: Seq<ElementView>, answers: Seq<Option<Seq<char>>>) -> Seq<Seq<char>>
    recommends
        answers.len() == elements.len(),
{
    Seq::new(elements.len(), |i: int| piece(elements[i], answers[i]))
}

/// The rendered text: the texts of all elements, joined in order.
pub open spec fn assemble(elements: Seq<ElementView>, answers: Seq<Option<Seq<char>>>) -> Seq<char>
    recommends
        answers.len() == elements.len(),
{
    pieces(elements, answers).flatten()
}

/// Element `i` is a placeholder whose selector is not among `bound`.
pub open spec fn unbound_at(elements: Seq<ElementView>, bound: Set<Seq<char>>, i: int) -> bool {
    elements[i] is Replace && !bound.contains(elements[i]->selector)
}

/// The index of the first placeholder at or after `from` whose selector is
/// not among `bound`, or the number of elements where all are bound.
pub open spec fn first_unbound(elements: Seq<ElementView>, bound: Set<Seq<char>>, from: int) -> int
    recommends
        0 <= from,
    decreases elements.len() - from,
{
    if from >= elements.len() {
        elements.len() as int
    } else if unbound_at(elements, bound, from) {
        from
    } else {
        first_unbound(elements, bound, from + 1)
    }
}

/// `answers` holds, for each placeholder, a value that the accessor bound to
/// its selector may return for `obj`.
pub open spec fn answered<T>(
    registry: Map<Seq<char>, Binding<T>>,
    obj: &T,
    elements: Seq<ElementView>,
    answers: Seq<Option<Seq<char>>>,
) -> bool {
    &&& answers.len() == elements.len()
    &&& forall|i: int|
        0 <= i < elements.len() && #[trigger] elements[i] is Replace ==> registry[elements[i]->selector].yields(
            obj,
            answers[i],
        )
}

/// `outcome` is a result of rendering `elements` against `obj` with the
/// bindings of `registry`. Where a placeholder is not bound, it is the error
/// that names the first such selector. Where all are bound, it is the text
/// assembled from answers of the bound accessors.
pub open spec fn render_outcome<T>(
    registry: Map<Seq<char>, Binding<T>>,
    obj: &T,
    elements: Seq<ElementView>,
    outcome: Result<Seq<char>, ErrorView>,
) -> bool {
    let stop = first_unbound(elements, registry.dom(), 0);
    if stop < elements.len() {
        outcome == Err::<Seq<char>, ErrorView>(
            ErrorView::UnknownSelector { selector: elements[stop]->selector },
        )
    } else {
        outcome matches Ok(text) && exists|answers: Seq<Option<Seq<char>>>| #[trigger]
            answered(registry, obj, elements, answers) && text == assemble(elements, answers)
    }
}

/// The first unbound placeholder at or after `from` lies between `from` and
/// the end, and every placeholder before it is bound.
pub proof fn lemma_first_unbound(elements: Seq<ElementView>, bound: Set<Seq<char>>, from: int)
    requires
        0 <= from <= elements.len(),
    ensures
        from <= first_unbound(elements, bound, from) <= elements.len(),
        first_unbound(elements, bound, from) < elements.len() ==> unbound_at(
            elements,
            bound,
            first_unbound(elements, bound, from),
        ),
        forall|k: int|
            from <= k < first_unbound(elements, bound, from) ==> !unbound_at(elements, bound, k),
    decreases elements.len() - from,
{
    if from < elements.len() && !unbound_at(elements, bound, from) {
        lemma_first_unbound(elements, bound, from + 1);
    }
}

/// Rendering the template of a text without placeholders gives the text
/// back, whatever the registry binds.
pub proof fn lemma_plain_template<T>(registry: Map<Seq<char>, Binding<T>>, obj: &T, text: Seq<char>)
    ensures
        forall|outcome: Result<Seq<char>, ErrorView>| #[trigger]
            render_outcome(registry, obj, plain(text), outcome) <==> outcome == Ok::<
                Seq<char>,
                ErrorView,
            >(text),
{
    let elements = plain(text);
    let bound = registry.dom();
    lemma_first_unbound(elements, bound, 0);
    assert(first_unbound(elements, bound, 0) == elements.len()) by {
        if first_unbound(elements, bound, 0) < elements.len() {
            assert(unbound_at(elements, bound, first_unbound(elements, bound, 0)));
        }
    }
    let blank = Seq::new(elements.len(), |i: int| None::<Seq<char>>);
    assert(answered(registry, obj, elements, blank));
    assert forall|answers: Seq<Option<Seq<char>>>| #[trigger]
        answered(registry, obj, elements, answers) implies assemble(elements, answers) == text by {
        if text.len() == 0 {
            assert(pieces(elements, answers) =~= Seq::empty());
        } else {
            assert(pieces(elements, answers) =~= seq![text]);
            seq![text].lemma_flatten_one_element();
        }
    }
}

/// A placeholder whose selector is not bound makes rendering fail, with the
/// error that carries the selector of the first such placeholder.
pub proof fn lemma_unknown_selector<T>(
    registry: Map<Seq<char>, Binding<T>>,
    obj: &T,
    elements: Seq<ElementView>,
    outcome: Result<Seq<char>, ErrorView>,
    i: int,
)
    requires
        0 <= i < elements.len(),
        elements[i] is Replace,
        !registry.contains_key(elements[i]->selector),
        render_outcome(registry, obj, elements, outcome),
    ensures
        0 <= first_unbound(elements, registry.dom(), 0) <= i,
        outcome == Err::<Seq<char>, ErrorView>(
            ErrorView::UnknownSelector {
                selector: elements[first_unbound(elements, registry.dom(), 0)]->selector,
            },
        ),
        (forall|k: int| 0 <= k < i ==> !unbound_at(elements, registry.dom(), k)) ==> outcome == Err::<
            Seq<char>,
            ErrorView,
        >(ErrorView::UnknownSelector { selector: elements[i]->selector }),
{
    lemma_first_unbound(elements, registry.dom(), 0);
    let stop = first_unbound(elements, registry.dom(), 0);
    assert(unbound_at(elements, registry.dom(), i));
    if forall|k: int| 0 <= k < i ==> !unbound_at(elements, registry.dom(), k) {
        assert(stop == i);
    }
}

/// Where the accessor of a placeholder has no value, the rendered text holds
/// `NA` at that position: between what the elements before it and the
/// elements after it give.
pub proof fn lemma_missing_value(
    elements: Seq<ElementView>,
    answers: Seq<Option<Seq<char>>>,
    i: int,
)
    requires
        answers.len() == elements.len(),
        0 <= i < elements.len(),
        elements[i] is Replace,
        answers[i] is None,
    ensures
        assemble(elements, answers) == assemble(elements.take(i), answers.take(i)) + missing_text()
            + assemble(elements.skip(i + 1), answers.skip(i + 1)),
{
    let all = pieces(elements, answers);
    let front = pieces(elements.take(i), answers.take(i));
    let back = pieces(elements.skip(i + 1), answers.skip(i + 1));
    assert(all =~= front.push(missing_text()) + back);
    vstd::seq_lib::lemma_flatten_concat(front.push(missing_text()), back);
    front.lemma_flatten_push(missing_text());
}

/// Rendering a template twice against the same object and the same
/// registry gives the same result, provided that each bound accessor that
/// the template names returns one value only for the object.
pub proof fn lemma_render_deterministic<T>(
    registry: Map<Seq<char>, Binding<T>>,
    obj: &T,
    elements: Seq<ElementView>,
    first: Result<Seq<char>, ErrorView>,
    second: Result<Seq<char>, ErrorView>,
)
    requires
        render_outcome(registry, obj, elements, first),
        render_outcome(registry, obj, elements, second),
        forall|i: int|
            0 <= i < elements.len() && #[trigger] elements[i] is Replace && registry.contains_key(
                elements[i]->selector,
            ) ==> registry[elements[i]->selector].single_valued(obj),
    ensures
        first == second,
{
    let bound = registry.dom();
    lemma_first_unbound(elements, bound, 0);
    if first_unbound(elements, bound, 0) >= elements.len() {
        let one = choose|answers: Seq<Option<Seq<char>>>| #[trigger]
            answered(registry, obj, elements, answers) && first->Ok_0 == assemble(elements, answers);
        let two = choose|answers: Seq<Option<Seq<char>>>| #[trigger]
            answered(registry, obj, elements, answers) && second->Ok_0 == assemble(
                elements,
                answers,
            );
        assert forall|i: int| 0 <= i < elements.len() implies piece(elements[i], one[i]) == piece(
            elements[i],
            two[i],
        ) by {
            if elements[i] is Replace {
                assert(!unbound_at(elements, bound, i));
                assert(registry[elements[i]->selector].single_valued(obj));
            }
        }
        assert(pieces(elements, one) =~= pieces(elements, two));
    }
}

/// The text to put into the output for an accessor's answer: the answer
/// itself, or `NA` where the accessor has no value.
pub fn substitution(answer: Option<String>) -> (text: String)
    ensures
        text@ == substitute(answer_view(answer)),
{
    match answer {
        Some(text) => text,
        None => {
            proof {
                reveal_strlit("NA");
                assert("NA"@ =~= missing_text());
            }
            "NA".to_owned()
        },
    }
}

} // verus!
