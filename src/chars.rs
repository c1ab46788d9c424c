use vstd::prelude::*;

verus! {

/// Whether `c` is white space, as `char::is_whitespace` decides it.
pub uninterp spec fn white_space(c: char) -> bool;

/// Relies on `char::is_whitespace`: the answer depends on the character alone.
#[verifier::external_body]
pub(crate) fn is_whitespace(c: char) -> (r: bool)
    ensures
        r == white_space(c),
{
    c.is_whitespace()
}

/// Whether `c` is an ASCII decimal digit.
pub open spec fn is_digit(c: char) -> bool {
    '0' <= c && c <= '9'
}

/// The numeric value of an ASCII digit.
pub open spec fn digit_value(c: char) -> nat {
    (c as u32 - '0' as u32) as nat
}

/// Length of the longest prefix of `s` whose characters all satisfy `f`.
pub open spec fn run_len(s: Seq<char>, f: spec_fn(char) -> bool) -> nat
    decreases s.len(),
{
    if s.len() > 0 && f(s[0]) {
        1 + run_len(s.drop_first(), f)
    } else {
        0
    }
}

/// The class of characters that are not white space.
pub open spec fn word_char() -> spec_fn(char) -> bool {
    |c: char| !white_space(c)
}

/// The class of white space characters.
pub open spec fn space_char() -> spec_fn(char) -> bool {
    |c: char| white_space(c)
}

/// The class of ASCII digits.
pub open spec fn digit_char() -> spec_fn(char) -> bool {
    |c: char| is_digit(c)
}

/// The ASCII digit for `d`, which is below ten.
pub open spec fn digit_of(d: nat) -> char {
    seq!['0', '1', '2', '3', '4', '5', '6', '7', '8', '9'][d as int]
}

/// The decimal numeral of `v`, with no leading zero.
pub open spec fn decimal(v: nat) -> Seq<char>
    decreases v,
{
    if v < 10 {
        seq![digit_of(v)]
    } else {
        decimal(v / 10) + seq![digit_of(v % 10)]
    }
}

/// The digit for `d` is a digit, whose value is `d`.
pub proof fn lemma_digit_of(d: nat)
    requires
        d < 10,
    ensures
        is_digit(digit_of(d)),
        digit_value(digit_of(d)) == d,
{
    let ds = seq!['0', '1', '2', '3', '4', '5', '6', '7', '8', '9'];
    assert(ds[d as int] == digit_of(d));
    if d == 0 { assert(ds[0] == '0'); }
    else if d == 1 { assert(ds[1] == '1'); }
    else if d == 2 { assert(ds[2] == '2'); }
    else if d == 3 { assert(ds[3] == '3'); }
    else if d == 4 { assert(ds[4] == '4'); }
    else if d == 5 { assert(ds[5] == '5'); }
    else if d == 6 { assert(ds[6] == '6'); }
    else if d == 7 { assert(ds[7] == '7'); }
    else if d == 8 { assert(ds[8] == '8'); }
    else { assert(ds[9] == '9'); }
}

/// The numeral of `v` is made of digits, and reads back as `v`.
pub proof fn lemma_decimal(v: nat)
    ensures
        forall|i: int| 0 <= i < decimal(v).len() ==> is_digit(#[trigger] decimal(v)[i]),
        digits_value(decimal(v)) == v,
    decreases v,
{
    if v < 10 {
        lemma_digit_of(v);
        assert(decimal(v).drop_last() =~= Seq::<char>::empty());
        assert(digits_value(Seq::<char>::empty()) == 0);
    } else {
        lemma_digit_of(v % 10);
        lemma_decimal(v / 10);
        let d = decimal(v);
        assert(d.drop_last() =~= decimal(v / 10));
        assert(d.last() == digit_of(v % 10));
        assert(v == (v / 10) * 10 + v % 10);
        assert forall|i: int| 0 <= i < d.len() implies is_digit(#[trigger] d[i]) by {
            if i < d.len() - 1 {
                assert(d[i] == decimal(v / 10)[i]);
            }
        }
    }
}

/// Length of the leading run of characters that are not white space.
pub open spec fn word_len(s: Seq<char>) -> nat {
    run_len(s, word_char())
}

/// Length of the leading run of white space.
pub open spec fn space_len(s: Seq<char>) -> nat {
    run_len(s, space_char())
}

/// Length of the leading run of ASCII digits.
pub open spec fn digit_len(s: Seq<char>) -> nat {
    run_len(s, digit_char())
}

/// The value of a run of ASCII digits read as a decimal numeral.
pub open spec fn digits_value(d: Seq<char>) -> nat
    decreases d.len(),
{
    if d.len() == 0 {
        0
    } else {
        digits_value(d.drop_last()) * 10 + digit_value(d.last())
    }
}

/// A split of `s` into `a + b` where every character of `a` satisfies `f`
/// and `b` does not start with one that does is the maximal run.
pub proof fn lemma_run_len_split(s: Seq<char>, a: Seq<char>, b: Seq<char>, f: spec_fn(char) -> bool)
    requires
        s == a + b,
        forall|i: int| 0 <= i < a.len() ==> f(a[i]),
        b.len() > 0 ==> !f(b[0]),
    ensures
        run_len(s, f) == a.len(),
    decreases a.len(),
{
    if a.len() > 0 {
        assert(s.drop_first() =~= a.drop_first() + b);
        lemma_run_len_split(s.drop_first(), a.drop_first(), b, f);
    } else {
        assert(s =~= b);
    }
}

/// The run is at least `k` long exactly when the first `k` characters exist
/// and all satisfy `f`.
pub proof fn lemma_run_len_at_least(s: Seq<char>, f: spec_fn(char) -> bool, k: nat)
    ensures
        run_len(s, f) >= k <==> (k <= s.len() && forall|i: int| 0 <= i < k ==> f(s[i])),
    decreases k,
{
    if k > 0 && s.len() > 0 && f(s[0]) {
        lemma_run_len_at_least(s.drop_first(), f, (k - 1) as nat);
        if k <= s.len() && (forall|i: int| 0 <= i < k ==> f(s[i])) {
            assert forall|i: int| 0 <= i < k - 1 implies f(s.drop_first()[i]) by {
                assert(f(s[i + 1]));
            }
        }
        if run_len(s, f) >= k {
            assert forall|i: int| 0 <= i < k implies f(s[i]) by {
                if i > 0 {
                    assert(f(s.drop_first()[i - 1]));
                }
            }
        }
    } else if k > 0 && s.len() > 0 {
        assert(!f(s[0]));
    }
}

/// The run never reaches past the end of `s`.
pub proof fn lemma_run_len_bound(s: Seq<char>, f: spec_fn(char) -> bool)
    ensures
        run_len(s, f) <= s.len(),
    decreases s.len(),
{
    if s.len() > 0 && f(s[0]) {
        lemma_run_len_bound(s.drop_first(), f);
    }
}

} // verus!
