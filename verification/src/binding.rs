//! Accessors as the registry holds them.
//!
//! An accessor is any function from a reference to the target object to an
//! optional text. What it returns is up to whoever supplied it, so the
//! contracts here speak of the values that it may return.

use vstd::prelude::*;

verus! {

/// The mathematical value of an accessor's answer.
pub open spec fn answer_view(answer: Option<String>) -> Option<Seq<char>> {
    match answer {
        Some(text) => Some(text@),
        None => None,
    }
}

/// What the registry asks of a stored accessor: to be callable on a shared
/// reference to the target object, from any thread.
pub(crate) trait Accessor<T>: Send + Sync {
    spec fn accepts(&self, obj: &T) -> bool;

    spec fn yields(&self, obj: &T, out: Option<String>) -> bool;

    fn resolve(&self, obj: &T) -> (out: Option<String>)
        requires
            self.accepts(obj),
        ensures
            self.yields(obj, out),
    ;
}

impl<T, F> Accessor<T> for F where F: Fn(&T) -> Option<String> + Send + Sync {
    open spec fn accepts(&self, obj: &T) -> bool {
        call_requires(*self, (obj,))
    }

    open spec fn yields(&self, obj: &T, out: Option<String>) -> bool {
        call_ensures(*self, (obj,), out)
    }

    fn resolve(&self, obj: &T) -> (out: Option<String>) {
        self(obj)
    }
}

/// An accessor bound to a selector. It may be called on every object.
#[verifier::reject_recursive_types(T)]
pub struct Binding<T> {
    accessor: Box<dyn Accessor<T>>,
}

impl<T> Binding<T> {
    #[verifier::type_invariant]
    spec fn total(self) -> bool {
        forall|obj: &T| #[trigger] self.accessor.accepts(obj)
    }

    /// `answer` is a value that the accessor may return for `obj`.
    pub closed spec fn yields(&self, obj: &T, answer: Option<Seq<char>>) -> bool {
        exists|out: Option<String>| #[trigger]
            self.accessor.yields(obj, out) && answer_view(out) == answer
    }

    /// The binding answers as `accessor` does: for every object it may
    /// return what `accessor` may return, and nothing else.
    pub open spec fn mirrors<F: Fn(&T) -> Option<String>>(&self, accessor: F) -> bool {
        forall|obj: &T, answer: Option<Seq<char>>| #[trigger]
            self.yields(obj, answer) <==> exists|out: Option<String>| #[trigger]
                call_ensures(accessor, (obj,), out) && answer_view(out) == answer
    }

    /// The accessor returns at most one value for `obj`.
    pub open spec fn single_valued(&self, obj: &T) -> bool {
        forall|first: Option<Seq<char>>, second: Option<Seq<char>>|
            self.yields(obj, first) && self.yields(obj, second) ==> first == second
    }

    /// Puts an accessor behind the trait, so that accessors of different
    /// types fit into one registry.
    fn erase<F>(accessor: F) -> (binding: Self) where
        F: Fn(&T) -> Option<String> + 'static + Send + Sync,

        requires
            forall|obj: &T| call_requires(accessor, (obj,)),
        ensures
            forall|obj: &T, out: Option<String>| #[trigger]
                binding.accessor.yields(obj, out) <==> call_ensures(accessor, (obj,), out),
    {
        let boxed: Box<dyn Accessor<T>> = Box::new(accessor);
        Binding { accessor: boxed }
    }

    /// Stores an accessor that may be called on every object.
    pub(crate) fn new<F>(accessor: F) -> (binding: Self) where
        F: Fn(&T) -> Option<String> + 'static + Send + Sync,

        requires
            forall|obj: &T| call_requires(accessor, (obj,)),
        ensures
            binding.mirrors(accessor),
    {
        let binding = Binding::erase(accessor);
        let ghost boxed = binding.accessor;
        proof {
            assert forall|obj: &T, answer: Option<Seq<char>>| #[trigger]
                binding.yields(obj, answer) <==> exists|out: Option<String>| #[trigger]
                    call_ensures(accessor, (obj,), out) && answer_view(out) == answer by {
                if binding.yields(obj, answer) {
                    let out = choose|out: Option<String>| #[trigger]
                        boxed.yields(obj, out) && answer_view(out) == answer;
                    assert(call_ensures(accessor, (obj,), out));
                }
                if exists|out: Option<String>| #[trigger]
                    call_ensures(accessor, (obj,), out) && answer_view(out) == answer {
                    let out = choose|out: Option<String>| #[trigger]
                        call_ensures(accessor, (obj,), out) && answer_view(out) == answer;
                    assert(boxed.yields(obj, out));
                }
            }
        }
        binding
    }

    /// Asks the accessor about `obj`.
    pub(crate) fn call(&self, obj: &T) -> (out: Option<String>)
        ensures
            self.yields(obj, answer_view(out)),
    {
        proof {
            use_type_invariant(self);
        }
        self.accessor.resolve(obj)
    }
}

} // verus!
