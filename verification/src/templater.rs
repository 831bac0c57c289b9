use crate::binding::{answer_view, Binding};
use crate::err::{result_view, ErrorView, TemplateError};
use crate::formatter::{element_views, Formatter, TemplateElement};
use crate::grammar::parse_all;
use crate::render::{
    answered, first_unbound, lemma_first_unbound, lemma_plain_template, piece, pieces,
    render_outcome, substitution, unbound_at,
};
use crate::segment::grapheme_clusters;
use vstd::hash_map::StringHashMap;
use vstd::prelude::*;
use vstd::string::StringExecFns;

verus! {

/// A registry of accessors for objects of type `T`, keyed by selector.
#[verifier::reject_recursive_types(T)]
pub struct Templater<T> {
    mapping: StringHashMap<Binding<T>>,
}

impl<T> View for Templater<T> {
    type V = Map<Seq<char>, Binding<T>>;

    closed spec fn view(&self) -> Self::V {
        self.mapping@
    }
}

/// `after` is `before` with `selector` bound to `accessor`.
pub open spec fn binds<T, F: Fn(&T) -> Option<String>>(
    before: Map<Seq<char>, Binding<T>>,
    after: Map<Seq<char>, Binding<T>>,
    selector: Seq<char>,
    accessor: F,
) -> bool {
    exists|binding: Binding<T>| #[trigger]
        binding.mirrors(accessor) && after == before.insert(selector, binding)
}

/// One of `pairs` has the selector `selector`.
pub open spec fn names<U>(pairs: Seq<(String, U)>, selector: Seq<char>) -> bool {
    exists|i: int| 0 <= i < pairs.len() && (#[trigger] pairs[i]).0@ == selector
}

/// No pair after `pairs[i]` has its selector.
pub open spec fn is_last<U>(pairs: Seq<(String, U)>, i: int) -> bool {
    forall|j: int| i < j < pairs.len() ==> (#[trigger] pairs[j]).0@ != pairs[i].0@
}

/// `after` is `before` with every selector of `pairs` bound to the last
/// accessor that stands with it, and all other bindings as they were.
pub open spec fn extended<T, U: Fn(&T) -> Option<String>>(
    before: Map<Seq<char>, Binding<T>>,
    after: Map<Seq<char>, Binding<T>>,
    pairs: Seq<(String, U)>,
) -> bool {
    &&& forall|k: Seq<char>| #[trigger]
        after.contains_key(k) <==> before.contains_key(k) || names(pairs, k)
    &&& forall|k: Seq<char>|
        before.contains_key(k) && !names(pairs, k) ==> #[trigger] after[k] == before[k]
    &&& forall|i: int|
        0 <= i < pairs.len() && is_last(pairs, i) ==> (#[trigger] after[pairs[i].0@]).mirrors(
            pairs[i].1,
        )
}

impl<T> Templater<T> {
    /// A registry without bindings.
    pub fn new() -> (registry: Self)
        ensures
            registry@ == Map::<Seq<char>, Binding<T>>::empty(),
    {
        Templater { mapping: StringHashMap::new() }
    }

    /// Binds `selector` to `accessor`, which must be callable on every
    /// object. A binding that `selector` had before is replaced.
    pub fn insert<F>(&mut self, selector: &str, accessor: F) where
        F: Fn(&T) -> Option<String> + 'static + Send + Sync,

        requires
            forall|obj: &T| call_requires(accessor, (obj,)),
        ensures
            binds(old(self)@, final(self)@, selector@, accessor),
    {
        self.bind(selector.to_owned(), accessor);
    }

    /// Binds an owned selector to `accessor`.
    fn bind<F>(&mut self, selector: String, accessor: F) where
        F: Fn(&T) -> Option<String> + 'static + Send + Sync,

        requires
            forall|obj: &T| call_requires(accessor, (obj,)),
        ensures
            binds(old(self)@, final(self)@, selector@, accessor),
    {
        let binding = Binding::new(accessor);
        self.mapping.insert(selector, binding);
        assert(binding.mirrors(accessor) && self@ == old(self)@.insert(selector@, binding));
    }

    /// Binds each selector of `selectors` to the accessor that stands with
    /// it, in order: where a selector occurs more than once, its last
    /// accessor stays. Each accessor must be callable on every object.
    pub fn extend<U>(&mut self, selectors: Vec<(String, U)>) where
        U: Fn(&T) -> Option<String> + 'static + Send + Sync,

        requires
            forall|i: int, obj: &T|
                0 <= i < selectors.len() ==> #[trigger] call_requires(selectors[i].1, (obj,)),
        ensures
            extended(old(self)@, final(self)@, selectors@),
    {
        let ghost pairs = selectors@;
        assert(pairs.take(0) =~= Seq::empty());
        for pair in it: selectors
            invariant
                it.seq() == pairs,
                forall|i: int, obj: &T|
                    0 <= i < pairs.len() ==> #[trigger] call_requires(pairs[i].1, (obj,)),
                extended(old(self)@, self@, pairs.take(it.index() as int)),
        {
            let ghost n = it.index() as int;
            let ghost before = self@;
            let (selector, accessor) = pair;
            self.bind(selector, accessor);
            proof {
                let done = pairs.take(n);
                let now = pairs.take(n + 1);
                let key = pairs[n].0@;
                assert(now[n] == pairs[n]);
                assert forall|i: int| 0 <= i < n implies #[trigger] now[i] == done[i] by {}
                assert forall|k: Seq<char>| names(now, k) <==> names(done, k) || k == key by {
                    if names(done, k) {
                        let i = choose|i: int| 0 <= i < done.len() && (#[trigger] done[i]).0@ == k;
                        assert(now[i].0@ == k);
                    }
                    if names(now, k) {
                        let i = choose|i: int| 0 <= i < now.len() && (#[trigger] now[i]).0@ == k;
                        if i < n {
                            assert(done[i].0@ == k);
                        }
                    }
                }
                assert forall|i: int| 0 <= i < now.len() && is_last(now, i) implies (#[trigger] self@[now[i].0@]).mirrors(
                    now[i].1,
                ) by {
                    if i < n {
                        assert(now[n].0@ != now[i].0@);
                        assert forall|j: int| i < j < done.len() implies (#[trigger] done[j]).0@
                            != done[i].0@ by {
                            assert(now[j].0@ != now[i].0@);
                        }
                        assert(is_last(done, i));
                        assert(before[done[i].0@].mirrors(done[i].1));
                    }
                }
            }
        }
        assert(pairs.take(pairs.len() as int) =~= pairs);
    }

    /// Removes the binding of `selector`, and says whether there was one.
    pub fn remove(&mut self, selector: &str) -> (existed: bool)
        ensures
            existed == old(self)@.contains_key(selector@),
            final(self)@ == old(self)@.remove(selector@),
    {
        let existed = self.mapping.contains_key(selector);
        self.mapping.remove(selector);
        existed
    }

    /// Renders a template against `obj`: the text of its elements in order,
    /// each placeholder answered by the accessor bound to its selector, or
    /// the error that names the first selector without a binding.
    pub fn renderf(&self, obj: &T, formatter: &Formatter) -> (r: Result<String, TemplateError>)
        ensures
            render_outcome(self@, obj, formatter@, result_view(r)),
            r is Ok <==> forall|i: int|
                0 <= i < formatter@.len() ==> !unbound_at(formatter@, self@.dom(), i),
    {
        let elements = formatter.elements();
        let ghost es = formatter@;
        let ghost bound = self@.dom();
        let n = elements.len();
        let mut out = String::new();
        let ghost mut answers: Seq<Option<Seq<char>>> = Seq::empty();
        let mut i: usize = 0;
        proof {
            lemma_first_unbound(es, bound, 0);
            assert(pieces(es.take(0), answers) =~= Seq::empty());
        }
        while i < n
            invariant
                n == elements.len(),
                es == formatter@,
                es == element_views(elements@),
                bound == self@.dom(),
                0 <= i <= n,
                i <= first_unbound(es, bound, 0) <= n,
                answers.len() == i,
                forall|k: int|
                    0 <= k < i && #[trigger] es[k] is Replace ==> self@[es[k]->selector].yields(
                        obj,
                        answers[k],
                    ),
                out@ == pieces(es.take(i as int), answers).flatten(),
            decreases n - i,
        {
            let ghost before = pieces(es.take(i as int), answers);
            let ghost answer;
            assert(es[i as int] == elements[i as int]@);
            proof {
                lemma_first_unbound(es, bound, 0);
            }
            match &elements[i] {
                TemplateElement::Part { literal } => {
                    out.append(literal.as_str());
                    proof {
                        answer = None;
                    }
                },
                TemplateElement::Replace { selector } => {
                    match self.mapping.get(selector.as_str()) {
                        None => {
                            assert(unbound_at(es, bound, i as int));
                            return Err(TemplateError::UnknownSelector { selector: selector.clone() });
                        },
                        Some(binding) => {
                            assert(!unbound_at(es, bound, i as int));
                            let found = binding.call(obj);
                            proof {
                                answer = answer_view(found);
                            }
                            let text = substitution(found);
                            out.append(text.as_str());
                        },
                    }
                },
            }
            proof {
                let after = answers.push(answer);
                assert(pieces(es.take(i + 1), after) =~= before.push(piece(es[i as int], after[i as int])));
                before.lemma_flatten_push(piece(es[i as int], after[i as int]));
                answers = after;
            }
            i += 1;
        }
        proof {
            assert(es.take(n as int) =~= es);
            assert(answered(self@, obj, es, answers));
            lemma_first_unbound(es, bound, 0);
        }
        Ok(out)
    }

    /// Parses `fmts` and renders the template against `obj`. A format string
    /// that does not parse gives the parse error; one without a `%` in it
    /// gives its own text back.
    pub fn render(&self, obj: &T, fmts: &str) -> (r: Result<String, TemplateError>)
        ensures
            match parse_all(grapheme_clusters(fmts@), fmts@) {
                Ok(elements) => render_outcome(self@, obj, elements, result_view(r)),
                Err(error) => result_view(r) == Err::<Seq<char>, ErrorView>(error),
            },
            !fmts@.contains('%') ==> result_view(r) == Ok::<Seq<char>, ErrorView>(fmts@),
    {
        match Formatter::build(fmts) {
            Ok(formatter) => {
                proof {
                    if !fmts@.contains('%') {
                        lemma_plain_template(self@, obj, fmts@);
                    }
                }
                self.renderf(obj, &formatter)
            },
            Err(error) => Err(error),
        }
    }
}

} // verus!
