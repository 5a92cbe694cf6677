//! The name sanitizer: removes every control character from a name,
//! keeping all other characters in their original order.

use vstd::prelude::*;
use vstd::string::StrSliceExecFns;

verus! {

/// A control character: one of the Unicode control code points,
/// i.e. U+0000 through U+001F, or U+007F through U+009F.
pub open spec fn is_control_spec(c: char) -> bool {
    (c as u32) < 0x20 || (0x7F <= (c as u32) && (c as u32) <= 0x9F)
}

/// Decides whether `c` is a control character.
pub fn is_control_char(c: char) -> (r: bool)
    ensures
        r == is_control_spec(c),
{
    let u: u32 = c as u32;
    u < 0x20 || (0x7F <= u && u <= 0x9F)
}

/// The sequence `s` with every control character removed; the remaining
/// characters keep their relative order.
pub open spec fn clean_seq(s: Seq<char>) -> Seq<char>
    decreases s.len(),
{
    if s.len() == 0 {
        Seq::empty()
    } else if is_control_spec(s.last()) {
        clean_seq(s.drop_last())
    } else {
        clean_seq(s.drop_last()).push(s.last())
    }
}

/// Holds when `s` contains no control character.
pub open spec fn control_free(s: Seq<char>) -> bool {
    forall|i: int| 0 <= i < s.len() ==> !is_control_spec(s[i])
}

/// Relies on `String::push`: appends the given character to the end of
/// the string.
pub assume_specification[ String::push ](s: &mut String, c: char)
    ensures
        final(s)@ == old(s)@.push(c),
;

/// Returns `name` with every control character removed.
pub fn clean_filename(name: &str) -> (r: String)
    ensures
        r@ == clean_seq(name@),
{
    let n: usize = name.unicode_len();
    let mut out = String::new();
    let mut i: usize = 0;
    while i < n
        invariant
            i <= n,
            n == name@.len(),
            out@ == clean_seq(name@.take(i as int)),
        decreases n - i,
    {
        let c = name.get_char(i);
        proof {
            assert(name@.take(i as int + 1).drop_last() =~= name@.take(i as int));
            assert(name@.take(i as int + 1).last() == name@[i as int]);
        }
        if !is_control_char(c) {
            out.push(c);
        }
        i += 1;
    }
    proof {
        assert(name@.take(n as int) =~= name@);
    }
    out
}

/// Law: the sanitized form of any sequence contains no control character.
pub proof fn lemma_clean_control_free(s: Seq<char>)
    ensures
        control_free(clean_seq(s)),
    decreases s.len(),
{
    if s.len() > 0 {
        lemma_clean_control_free(s.drop_last());
    }
}

/// Law: a sequence without control characters is left unchanged.
pub proof fn lemma_clean_of_control_free(s: Seq<char>)
    requires
        control_free(s),
    ensures
        clean_seq(s) == s,
    decreases s.len(),
{
    if s.len() == 0 {
        assert(clean_seq(s) =~= s);
    } else {
        assert(control_free(s.drop_last()));
        lemma_clean_of_control_free(s.drop_last());
        assert(clean_seq(s) =~= s);
    }
}

/// Law: sanitizing is idempotent.
pub proof fn lemma_clean_idempotent(s: Seq<char>)
    ensures
        clean_seq(clean_seq(s)) == clean_seq(s),
{
    lemma_clean_control_free(s);
    lemma_clean_of_control_free(clean_seq(s));
}

/// Law: sanitizing is exactly the filter that keeps the non-control
/// characters, so every non-control character of `s` is kept, in its
/// original order.
pub proof fn lemma_clean_is_filter(s: Seq<char>)
    ensures
        clean_seq(s) == s.filter(|c: char| !is_control_spec(c)),
    decreases s.len(),
{
    reveal(Seq::filter);
    if s.len() > 0 {
        lemma_clean_is_filter(s.drop_last());
    }
}

/// Holds when `t` appears inside `s` in order, possibly with gaps.
pub open spec fn subsequence_of(t: Seq<char>, s: Seq<char>) -> bool
    decreases s.len(),
{
    if t.len() == 0 {
        true
    } else if s.len() == 0 {
        false
    } else if t.last() == s.last() {
        subsequence_of(t.drop_last(), s.drop_last())
    } else {
        subsequence_of(t, s.drop_last())
    }
}

/// Law: the sanitized form is a subsequence of the original, so the
/// relative order of the characters that stay is preserved.
pub proof fn lemma_clean_order_preserved(s: Seq<char>)
    ensures
        subsequence_of(clean_seq(s), s),
    decreases s.len(),
{
    if s.len() > 0 {
        lemma_clean_order_preserved(s.drop_last());
        if is_control_spec(s.last()) {
            let t = clean_seq(s.drop_last());
            if t.len() > 0 {
                lemma_clean_control_free(s.drop_last());
                assert(!is_control_spec(t.last()));
            }
        } else {
            let t = clean_seq(s.drop_last());
            assert(t.push(s.last()).drop_last() =~= t);
        }
    }
}

} // verus!
