use vstd::prelude::*;

verus! {

/// Consumes the longest prefix of the remainder on whose characters `pred`
/// answers `keep`, and returns it.
fn scan<F: Fn(char) -> bool>(inp: &mut &str, pred: F, keep: bool) -> (r: String)
    requires
        forall|c: char| pred.requires((c,)),
    ensures
        old(inp)@ == r@ + final(inp)@,
        forall|i: int| 0 <= i < r@.len() ==> pred.ensures((r@[i],), keep),
        final(inp)@.len() > 0 ==> pred.ensures((final(inp)@[0],), !keep),
{
    let s: &str = *inp;
    let len: usize = s.unicode_len();
    let mut k: usize = 0;
    while k < len
        invariant
            len == s@.len(),
            k <= len,
            forall|c: char| pred.requires((c,)),
            forall|i: int| 0 <= i < k ==> pred.ensures((s@[i],), keep),
        ensures
            k < len ==> pred.ensures((s@[k as int],), !keep),
        decreases len - k,
    {
        let c = s.get_char(k);
        if pred(c) != keep {
            break;
        }
        k = k + 1;
    }
    let taken = s.substring_char(0, k);
    *inp = s.substring_char(k, len);
    let r = taken.to_owned();
    assert(s@ =~= r@ + (*inp)@);
    r
}

/// Consumes the longest prefix of the remainder whose characters satisfy
/// `pred` and returns it. Never fails; an empty match is valid.
pub fn parse_whileb<F: Fn(char) -> bool>(inp: &mut &str, pred: F) -> (r: String)
    requires
        forall|c: char| pred.requires((c,)),
    ensures
        old(inp)@ == r@ + final(inp)@,
        forall|i: int| 0 <= i < r@.len() ==> pred.ensures((r@[i],), true),
        final(inp)@.len() > 0 ==> pred.ensures((final(inp)@[0],), false),
{
    scan(inp, pred, true)
}

/// Consumes the longest prefix of the remainder whose characters do not
/// satisfy `pred` and returns it. Never fails; an empty match is valid.
pub fn parse_untilb<F: Fn(char) -> bool>(inp: &mut &str, pred: F) -> (r: String)
    requires
        forall|c: char| pred.requires((c,)),
    ensures
        old(inp)@ == r@ + final(inp)@,
        forall|i: int| 0 <= i < r@.len() ==> pred.ensures((r@[i],), false),
        final(inp)@.len() > 0 ==> pred.ensures((final(inp)@[0],), true),
{
    scan(inp, pred, false)
}

} // verus!
