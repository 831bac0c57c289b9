use vstd::prelude::*;

verus! {

/// Why a format string could not be parsed or a template could not be rendered.
#[derive(Debug)]
pub enum TemplateError {
    /// A `%` was followed by a character other than `%` or `(`.
    UnexpectedCharacter { character: String, formats: String },
    /// The format string ended right after a `%`, or inside a placeholder.
    UnexpectedEnd { formats: String },
    /// A placeholder named a selector that the registry does not bind.
    UnknownSelector { selector: String },
}

/// The mathematical value of a [`TemplateError`]: the same cases over character sequences.
pub enum ErrorView {
    UnexpectedCharacter { character: Seq<char>, formats: Seq<char> },
    UnexpectedEnd { formats: Seq<char> },
    UnknownSelector { selector: Seq<char> },
}

impl View for TemplateError {
    type V = ErrorView;

    open spec fn view(&self) -> ErrorView {
        match self {
            TemplateError::UnexpectedCharacter { character, formats } => ErrorView::UnexpectedCharacter {
                character: character@,
                formats: formats@,
            },
            TemplateError::UnexpectedEnd { formats } => ErrorView::UnexpectedEnd { formats: formats@ },
            TemplateError::UnknownSelector { selector } => ErrorView::UnknownSelector {
                selector: selector@,
            },
        }
    }
}

/// The mathematical value of a fallible result: the view of what it holds on either side.
pub open spec fn result_view<A: View>(r: Result<A, TemplateError>) -> Result<A::V, ErrorView> {
    match r {
        Ok(value) => Ok(value@),
        Err(error) => Err(error@),
    }
}

} // verus!
