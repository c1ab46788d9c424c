use vstd::prelude::*;
use crate::error::Error;

verus! {

/// The value a parse result stands for.
pub open spec fn view_result<T: View>(r: Result<T, Error>) -> Result<T::V, Error> {
    match r {
        Ok(x) => Ok(x@),
        Err(e) => Err(e),
    }
}

/// The values a sequence of parsed items stands for.
pub open spec fn view_values<T: View>(v: Seq<T>) -> Seq<T::V> {
    v.map_values(|x: T| x@)
}

/// Anything that can consume a prefix of the remaining input and produce a `T`.
///
/// `outcome` states what a call does: from the remainder before the call it
/// gives the result and the remainder after it, which is always a suffix of
/// the remainder before.
pub trait Parser<T: View> {
    spec fn outcome(&self, input: Seq<char>) -> (Result<T::V, Error>, Seq<char>);

    proof fn lemma_outcome_suffix(&self, input: Seq<char>)
        ensures
            self.outcome(input).1.len() <= input.len(),
            self.outcome(input).1 == input.skip(input.len() - self.outcome(input).1.len()),
    ;

    fn parse_next(&self, input: &mut &str) -> (r: Result<T, Error>)
        ensures
            self.outcome(old(input)@) == (view_result(r), final(input)@),
    ;
}

/// Whether `p` leaves the remainder as it was whenever it fails.
pub open spec fn restores_on_failure<T: View, P: Parser<T>>(p: P) -> bool {
    forall|s: Seq<char>| (#[trigger] p.outcome(s)).0 is Err ==> p.outcome(s).1 == s
}

} // verus!
