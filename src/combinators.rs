use vstd::prelude::*;
use crate::error::Error;
use crate::parser::{Parser, restores_on_failure, view_values};
use crate::primitives::{Uint, Whitespace};

verus! {

/// What `parse_while` does to the remainder `input`: the values of the
/// successive successes of `p`, and the remainder after the first failure.
/// A success that consumes nothing ends the repetition, so it always ends.
pub open spec fn repeat_outcome<T: View, P: Parser<T>>(p: P, input: Seq<char>) -> (Seq<T::V>, Seq<char>)
    decreases input.len(),
{
    let first = p.outcome(input);
    match first.0 {
        Ok(v) => {
            if first.1.len() < input.len() {
                let more = repeat_outcome(p, first.1);
                (seq![v] + more.0, more.1)
            } else {
                (seq![v], first.1)
            }
        },
        Err(_) => (Seq::empty(), first.1),
    }
}

/// Applies `p` until it fails and returns the values of its successes, in
/// order. The failed attempt is not undone here: what it consumed stays
/// consumed. A success that consumes nothing ends the repetition.
pub fn parse_while<T: View, P: Parser<T>>(inp: &mut &str, p: P) -> (r: Vec<T>)
    ensures
        (view_values(r@), final(inp)@) == repeat_outcome(p, old(inp)@),
{
    let ghost start = (*inp)@;
    let mut v: Vec<T> = Vec::new();
    loop
        invariant_except_break
            repeat_outcome(p, start) == (
                view_values(v@) + repeat_outcome(p, (*inp)@).0,
                repeat_outcome(p, (*inp)@).1,
            ),
        ensures
            repeat_outcome(p, start) == (view_values(v@), (*inp)@),
        decreases (*inp)@.len(),
    {
        let ghost cur = (*inp)@;
        let ghost seen = view_values(v@);
        let before: usize = (*inp).unicode_len();
        proof {
            p.lemma_outcome_suffix(cur);
        }
        match p.parse_next(inp) {
            Ok(x) => {
                v.push(x);
                proof {
                    assert(view_values(v@) =~= seen + seq![x@]);
                }
                let after: usize = (*inp).unicode_len();
                if after >= before {
                    break;
                }
                proof {
                    assert(seen + repeat_outcome(p, cur).0 =~= view_values(v@) + repeat_outcome(p, (*inp)@).0);
                }
            },
            Err(_) => {
                proof {
                    assert(seen + repeat_outcome(p, cur).0 =~= seen);
                }
                break;
            },
        }
    }
    v
}

/// The remainder after `i` successive applications of `p` to `input`.
pub open spec fn after_matches<T: View, P: Parser<T>>(p: P, input: Seq<char>, i: nat) -> Seq<char>
    decreases i,
{
    if i == 0 {
        input
    } else {
        p.outcome(after_matches(p, input, (i - 1) as nat)).1
    }
}

proof fn lemma_after_matches_shift<T: View, P: Parser<T>>(p: P, input: Seq<char>, i: nat)
    ensures
        after_matches(p, input, i + 1) == after_matches(p, p.outcome(input).1, i),
    decreases i,
{
    assert(after_matches(p, input, i + 1) == p.outcome(after_matches(p, input, i)).1);
    if i > 0 {
        lemma_after_matches_shift(p, input, (i - 1) as nat);
        assert(after_matches(p, p.outcome(input).1, i) == p.outcome(
            after_matches(p, p.outcome(input).1, (i - 1) as nat),
        ).1);
    } else {
        assert(after_matches(p, input, 0) == input);
        assert(after_matches(p, p.outcome(input).1, 0) == p.outcome(input).1);
    }
}

/// When `p` consumes nothing on failure, `parse_while` returns every match
/// of `p` in order, each found where the previous one ended, and leaves the
/// remainder where the last match ended: there `p` fails, or the last match
/// consumed nothing.
pub proof fn lemma_repeat_collects_matches<T: View, P: Parser<T>>(p: P, input: Seq<char>)
    requires
        restores_on_failure(p),
    ensures
        ({
            let (vs, fin) = repeat_outcome(p, input);
            &&& forall|i: int|
                0 <= i < vs.len() ==> #[trigger] p.outcome(after_matches(p, input, i as nat)) == (
                    Ok::<T::V, Error>(vs[i]),
                    after_matches(p, input, (i + 1) as nat),
                )
            &&& fin == after_matches(p, input, vs.len())
            &&& (p.outcome(fin).0 is Err || (vs.len() > 0 && fin == after_matches(
                p,
                input,
                (vs.len() - 1) as nat,
            )))
        }),
    decreases input.len(),
{
    let first = p.outcome(input);
    p.lemma_outcome_suffix(input);
    assert(after_matches(p, input, 0) == input);
    assert(after_matches(p, input, 1) == first.1);
    match first.0 {
        Ok(v) => {
            if first.1.len() < input.len() {
                let rest = first.1;
                lemma_repeat_collects_matches(p, rest);
                let (vs, fin) = repeat_outcome(p, input);
                let more = repeat_outcome(p, rest).0;
                assert forall|i: int| 0 <= i < vs.len() implies #[trigger] p.outcome(
                    after_matches(p, input, i as nat),
                ) == (Ok::<T::V, Error>(vs[i]), after_matches(p, input, (i + 1) as nat)) by {
                    if i > 0 {
                        lemma_after_matches_shift(p, input, i as nat);
                        lemma_after_matches_shift(p, input, (i - 1) as nat);
                        assert(vs[i] == more[i - 1]);
                        assert(p.outcome(after_matches(p, rest, (i - 1) as nat)) == (
                            Ok::<T::V, Error>(more[i - 1]),
                            after_matches(p, rest, i as nat),
                        ));
                    }
                }
                lemma_after_matches_shift(p, input, more.len());
                if more.len() > 0 {
                    lemma_after_matches_shift(p, input, (more.len() - 1) as nat);
                }
            } else {
                assert(first.1 =~= input);
            }
        },
        Err(_) => {},
    }
}

/// When the first item fails without consuming anything, `interleaved`
/// returns no item and leaves the remainder as it was.
pub proof fn lemma_interleaved_first_item_fails<T: View, P: Parser<T>, S: Parser<()>>(
    p: P,
    sep: S,
    input: Seq<char>,
)
    requires
        p.outcome(input).0 is Err,
        p.outcome(input).1 == input,
    ensures
        interleaved_outcome(p, sep, input) == (Seq::<T::V>::empty(), input),
{
}

/// What `interleaved` does to the remainder `input`: items of `p`, each
/// followed by a separator of `sep`, until either fails. A round of item and
/// separator that consumes nothing ends the sequence, so it always ends.
pub open spec fn interleaved_outcome<T: View, P: Parser<T>, S: Parser<()>>(
    p: P,
    sep: S,
    input: Seq<char>,
) -> (Seq<T::V>, Seq<char>)
    decreases input.len(),
{
    let first = p.outcome(input);
    match first.0 {
        Ok(v) => {
            let second = sep.outcome(first.1);
            if second.0 is Ok && second.1.len() < input.len() {
                let more = interleaved_outcome(p, sep, second.1);
                (seq![v] + more.0, more.1)
            } else {
                (seq![v], second.1)
            }
        },
        Err(_) => (Seq::empty(), first.1),
    }
}

/// Parses items of `p` separated by `sep` and returns the values of the
/// items, in order. It stops when an item fails, or after an item whose
/// separator fails; neither failed attempt is undone here.
pub fn interleaved<T: View, P: Parser<T>, S: Parser<()>>(inp: &mut &str, p: P, sep: S) -> (r: Vec<T>)
    ensures
        (view_values(r@), final(inp)@) == interleaved_outcome(p, sep, old(inp)@),
{
    let ghost start = (*inp)@;
    let mut v: Vec<T> = Vec::new();
    loop
        invariant_except_break
            interleaved_outcome(p, sep, start) == (
                view_values(v@) + interleaved_outcome(p, sep, (*inp)@).0,
                interleaved_outcome(p, sep, (*inp)@).1,
            ),
        ensures
            interleaved_outcome(p, sep, start) == (view_values(v@), (*inp)@),
        decreases (*inp)@.len(),
    {
        let ghost cur = (*inp)@;
        let ghost seen = view_values(v@);
        let before: usize = (*inp).unicode_len();
        match p.parse_next(inp) {
            Ok(x) => {
                v.push(x);
                proof {
                    assert(view_values(v@) =~= seen + seq![x@]);
                    p.lemma_outcome_suffix(cur);
                    sep.lemma_outcome_suffix((*inp)@);
                }
                match sep.parse_next(inp) {
                    Ok(_) => {
                        let after: usize = (*inp).unicode_len();
                        if after >= before {
                            break;
                        }
                        proof {
                            assert(seen + interleaved_outcome(p, sep, cur).0
                                =~= view_values(v@) + interleaved_outcome(p, sep, (*inp)@).0);
                        }
                    },
                    Err(_) => {
                        break;
                    },
                }
            },
            Err(_) => {
                proof {
                    assert(seen + interleaved_outcome(p, sep, cur).0 =~= seen);
                }
                break;
            },
        }
    }
    v
}

/// Parses a run of unsigned integers separated by white space. Never fails;
/// the run may be empty.
pub fn numbers(inp: &mut &str) -> (r: Vec<u64>)
    ensures
        (r@, final(inp)@) == interleaved_outcome(Uint, Whitespace, old(inp)@),
{
    let r = interleaved(inp, Uint, Whitespace);
    proof {
        assert(view_values(r@) =~= r@);
    }
    r
}

} // verus!
