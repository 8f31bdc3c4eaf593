//! Where long operations report their progress.
use vstd::prelude::*;

verus! {

/// Something that progress reports are handed to, in order; `logged` is what it has been
/// handed so far, by view.
pub trait ProgressLog<T: View> {
    spec fn logged(&self) -> Seq<T::V>;

    fn report(&mut self, item: T)
        ensures
            final(self).logged() == old(self).logged().push(item@),
    ;
}

/// A vector keeps the reports it is handed.
impl<T: View> ProgressLog<T> for Vec<T> {
    open spec fn logged(&self) -> Seq<T::V> {
        self@.map_values(|x: T| x@)
    }

    fn report(&mut self, item: T) {
        let ghost before = self@;
        self.push(item);
        assert(self@.map_values(|x: T| x@) =~= before.map_values(|x: T| x@).push(item@));
    }
}

/// Hands each report to a callback; `logged` is what the callback has been handed.
pub struct Reporter<T: View, F: Fn(T)> {
    callback: F,
    sent: Ghost<Seq<T::V>>,
}

impl<T: View, F: Fn(T)> Reporter<T, F> {
    #[verifier::type_invariant]
    spec fn accepts_every_report(self) -> bool {
        forall|x: T| call_requires(self.callback, (x,))
    }

    /// A reporter that has handed nothing to `callback` yet.
    pub fn new(callback: F) -> (r: Self)
        requires
            forall|x: T| call_requires(callback, (x,)),
        ensures
            r.logged() == Seq::<T::V>::empty(),
    {
        Reporter { callback, sent: Ghost(Seq::empty()) }
    }
}

impl<T: View, F: Fn(T)> ProgressLog<T> for Reporter<T, F> {
    closed spec fn logged(&self) -> Seq<T::V> {
        self.sent@
    }

    fn report(&mut self, item: T) {
        proof {
            use_type_invariant(&*self);
        }
        let ghost v = item@;
        (self.callback)(item);
        self.sent = Ghost(self.sent@.push(v));
    }
}

} // verus!
