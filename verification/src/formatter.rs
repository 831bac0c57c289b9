use crate::err::{result_view, ErrorView, TemplateError};
use crate::grammar::{
    closer, closer_from, lemma_flatten_contains, lemma_parse_well_formed, lemma_plain_text,
    lemma_prepend_text_twice, marker, opener, parse_all, parse_from, plain, prepend_text,
    well_formed, ElementView,
};
use crate::segment::{grapheme_clusters, split_graphemes};
use vstd::prelude::*;
use vstd::string::StringExecFns;

verus! {

/// One element of a parsed template.
#[derive(Debug, PartialEq, Eq)]
pub enum TemplateElement {
    /// Text that is rendered as it stands.
    Part { literal: String },
    /// A point at which the text bound to `selector` is rendered.
    Replace { selector: String },
}

impl View for TemplateElement {
    type V = ElementView;

    open spec fn view(&self) -> ElementView {
        match self {
            TemplateElement::Part { literal } => ElementView::Part { literal: literal@ },
            TemplateElement::Replace { selector } => ElementView::Replace { selector: selector@ },
        }
    }
}

impl Clone for TemplateElement {
    fn clone(&self) -> (copy: Self)
        ensures
            copy@ == self@,
    {
        match self {
            TemplateElement::Part { literal } => TemplateElement::Part { literal: literal.clone() },
            TemplateElement::Replace { selector } => TemplateElement::Replace {
                selector: selector.clone(),
            },
        }
    }
}

/// The mathematical values of a run of elements.
pub open spec fn element_views(elements: Seq<TemplateElement>) -> Seq<ElementView> {
    elements.map_values(|element: TemplateElement| element@)
}

/// A parsed format string: its elements in the order in which they are rendered.
pub struct Formatter {
    elements: Vec<TemplateElement>,
}

impl View for Formatter {
    type V = Seq<ElementView>;

    closed spec fn view(&self) -> Seq<ElementView> {
        element_views(self.elements@)
    }
}

impl IntoIterator for Formatter {
    type Item = TemplateElement;

    type IntoIter = std::vec::IntoIter<TemplateElement>;

    /// The elements of the template, by value and in order.
    fn into_iter(self) -> (iter: Self::IntoIter)
        ensures
            element_views(vstd::std_specs::vec::into_iter_elts(iter)) == self@,
    {
        self.elements.into_iter()
    }
}

/// What remains to be shown once the clusters before some index are read:
/// `done` holds the finished elements, `run` the literal text not yet
/// emitted, and `tail` is the parse of the clusters still to come.
spec fn resume(done: Seq<ElementView>, run: Seq<char>, tail: Result<Seq<ElementView>, ErrorView>) -> Result<
    Seq<ElementView>,
    ErrorView,
> {
    match tail {
        Ok(rest) => Ok(done + prepend_text(run, rest)),
        Err(error) => Err(error),
    }
}

impl Formatter {
    /// Parses a format string that has been split into grapheme clusters.
    /// `fmts` is the whole format string, which an error carries.
    pub fn from_clusters(clusters: &Vec<String>, fmts: &str) -> (r: Result<Formatter, TemplateError>)
        ensures
            result_view(r) == parse_all(clusters.deep_view(), fmts@),
            r matches Ok(formatter) ==> well_formed(formatter@),
    {
        let ghost cs = clusters.deep_view();
        proof {
            lemma_parse_well_formed(cs, 0, fmts@);
        }
        let marker_text = "%".to_owned();
        let opener_text = "(".to_owned();
        let closer_text = ")".to_owned();
        proof {
            reveal_strlit("%");
            reveal_strlit("(");
            reveal_strlit(")");
            assert(marker_text@ =~= marker());
            assert(opener_text@ =~= opener());
            assert(closer_text@ =~= closer());
        }
        let n = clusters.len();
        let mut elements: Vec<TemplateElement> = Vec::new();
        let mut run = String::new();
        let mut i: usize = 0;
        proof {
            let tail = parse_from(cs, 0, fmts@);
            if let Ok(rest) = tail {
                assert(Seq::<ElementView>::empty() + prepend_text(run@, rest) =~= rest);
            }
            assert(element_views(elements@) =~= Seq::empty());
        }
        while i < n
            invariant
                n == clusters.len(),
                cs == clusters.deep_view(),
                0 <= i <= n,
                marker_text@ == marker(),
                opener_text@ == opener(),
                closer_text@ == closer(),
                parse_all(cs, fmts@) == resume(
                    element_views(elements@),
                    run@,
                    parse_from(cs, i as int, fmts@),
                ),
            decreases n - i,
        {
            let ghost done = element_views(elements@);
            let ghost before = run@;
            assert(cs[i as int] == clusters[i as int]@);
            if clusters[i] != marker_text {
                run.append(clusters[i].as_str());
                proof {
                    if let Ok(rest) = parse_from(cs, i + 1, fmts@) {
                        lemma_prepend_text_twice(before, cs[i as int], rest);
                    }
                }
                i += 1;
            } else if i + 1 >= n {
                return Err(TemplateError::UnexpectedEnd { formats: fmts.to_owned() });
            } else {
                assert(cs[i + 1] == clusters[i + 1]@);
                if clusters[i + 1] == marker_text {
                    run.append(marker_text.as_str());
                    proof {
                        if let Ok(rest) = parse_from(cs, i + 2, fmts@) {
                            lemma_prepend_text_twice(before, marker(), rest);
                        }
                    }
                    i += 2;
                } else if clusters[i + 1] == opener_text {
                    if !run.as_str().is_empty() {
                        elements.push(TemplateElement::Part { literal: run });
                        run = String::new();
                    }
                    let ghost flushed = element_views(elements@);
                    assert(flushed =~= done + prepend_text(before, Seq::empty()));
                    let mut selector = String::new();
                    let mut j: usize = i + 2;
                    proof {
                        assert(cs.subrange(i + 2, j as int) =~= Seq::empty());
                    }
                    while j < n && clusters[j] != closer_text
                        invariant
                            n == clusters.len(),
                            cs == clusters.deep_view(),
                            i + 2 <= j <= n,
                            closer_text@ == closer(),
                            closer_from(cs, i + 2) == closer_from(cs, j as int),
                            selector@ == cs.subrange(i + 2, j as int).flatten(),
                        decreases n - j,
                    {
                        assert(cs[j as int] == clusters[j as int]@);
                        selector.append(clusters[j].as_str());
                        proof {
                            assert(cs.subrange(i + 2, j + 1) =~= cs.subrange(i + 2, j as int).push(
                                cs[j as int],
                            ));
                            cs.subrange(i + 2, j as int).lemma_flatten_push(cs[j as int]);
                        }
                        j += 1;
                    }
                    if j >= n {
                        return Err(TemplateError::UnexpectedEnd { formats: fmts.to_owned() });
                    }
                    assert(cs[j as int] == clusters[j as int]@);
                    elements.push(TemplateElement::Replace { selector });
                    proof {
                        let hole = ElementView::Replace { selector: selector@ };
                        assert(element_views(elements@) =~= flushed.push(hole));
                        if let Ok(rest) = parse_from(cs, j + 1, fmts@) {
                            let tail = seq![hole] + rest;
                            assert(prepend_text(before, tail) =~= prepend_text(before, Seq::empty())
                                + tail);
                            assert(done + prepend_text(before, tail) =~= flushed.push(hole)
                                + prepend_text(Seq::empty(), rest));
                        }
                    }
                    i = j + 1;
                } else {
                    return Err(
                        TemplateError::UnexpectedCharacter {
                            character: clusters[i + 1].clone(),
                            formats: fmts.to_owned(),
                        },
                    );
                }
            }
        }
        let ghost done = element_views(elements@);
        let ghost before = run@;
        if !run.as_str().is_empty() {
            elements.push(TemplateElement::Part { literal: run });
        }
        proof {
            assert(element_views(elements@) =~= done + prepend_text(before, Seq::empty()));
        }
        Ok(Formatter { elements })
    }

    /// The elements of the template, in the order in which they are rendered.
    pub fn elements(&self) -> (elements: &Vec<TemplateElement>)
        ensures
            element_views(elements@) == self@,
    {
        &self.elements
    }

    /// Parses a format string into a template.
    pub fn build(fmts: &str) -> (r: Result<Formatter, TemplateError>)
        ensures
            result_view(r) == parse_all(grapheme_clusters(fmts@), fmts@),
            r matches Ok(formatter) ==> well_formed(formatter@),
            !fmts@.contains('%') ==> result_view(r) == Ok::<Seq<ElementView>, ErrorView>(
                plain(fmts@),
            ),
    {
        let clusters = split_graphemes(fmts);
        proof {
            let cs = clusters.deep_view();
            if !fmts@.contains('%') {
                assert forall|i: int| 0 <= i < cs.len() implies cs[i] != marker() by {
                    if cs[i] == marker() {
                        assert(cs[i][0] == '%');
                        lemma_flatten_contains(cs, i, '%');
                    }
                }
                lemma_plain_text(cs, fmts@);
            }
        }
        Formatter::from_clusters(&clusters, fmts)
    }
}

} // verus!
