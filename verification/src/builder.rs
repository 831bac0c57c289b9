use crate::binding::Binding;
use crate::templater::{binds, Templater};
use vstd::prelude::*;

verus! {

/// Builds a [`Templater`] by a chain of calls, one for each binding.
#[verifier::reject_recursive_types(T)]
pub struct TemplaterBuilder<T> {
    t: Templater<T>,
}

impl<T> View for TemplaterBuilder<T> {
    type V = Map<Seq<char>, Binding<T>>;

    closed spec fn view(&self) -> Self::V {
        self.t@
    }
}

impl<T> TemplaterBuilder<T> {
    /// A builder that holds no binding yet.
    pub fn new() -> (builder: Self)
        ensures
            builder@ == Map::<Seq<char>, Binding<T>>::empty(),
    {
        Self { t: Templater::new() }
    }

    /// Adds the binding of `selector` to `accessor`, in place of any that
    /// `selector` had. The accessor must be callable on every object.
    pub fn with_selector<F>(self, selector: &str, accessor: F) -> (builder: Self) where
        F: Fn(&T) -> Option<String> + 'static + Send + Sync,

        requires
            forall|obj: &T| call_requires(accessor, (obj,)),
        ensures
            binds(self@, builder@, selector@, accessor),
    {
        let mut builder = self;
        builder.t.insert(selector, accessor);
        builder
    }

    /// The registry with the bindings added so far.
    pub fn build(self) -> (registry: Templater<T>)
        ensures
            registry@ == self@,
    {
        self.t
    }
}

} // verus!
