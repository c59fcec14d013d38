//! Allow-list character sanitizers for user-supplied filter literals.
//!
//! Two value classes exist: free-text / categorical labels (Latin and
//! Cyrillic letters, ASCII digits, spaces) and numeric tokens (ASCII
//! digits only).  Both sanitizers are total: every input string maps to
//! the subsequence of its allowed characters, possibly empty.

use vstd::prelude::*;

verus! {

/// A character the label sanitizer lets through: an ASCII letter, an
/// ASCII digit, a space, or a Cyrillic letter in one of the two basic
/// ranges.
pub open spec fn label_char(c: char) -> bool {
    ||| 97 <= c as u32 && c as u32 <= 122  // 'a' ..= 'z'
    ||| 65 <= c as u32 && c as u32 <= 90  // 'A' ..= 'Z'
    ||| 48 <= c as u32 && c as u32 <= 57  // '0' ..= '9'
    ||| c == ' '
    ||| 1072 <= c as u32 && c as u32 <= 1103  // Cyrillic lower-case range
    ||| 1040 <= c as u32 && c as u32 <= 1071  // Cyrillic upper-case range
}

/// A character the numeric sanitizer lets through: an ASCII digit.
pub open spec fn digit_char(c: char) -> bool {
    48 <= c as u32 && c as u32 <= 57
}

/// What `sanitize_label` returns: the input with every disallowed
/// character removed.
pub open spec fn spec_sanitize_label(s: Seq<char>) -> Seq<char> {
    s.filter(|c: char| label_char(c))
}

/// What `sanitize_numeric` returns: the input with every non-digit
/// removed.
pub open spec fn spec_sanitize_numeric(s: Seq<char>) -> Seq<char> {
    s.filter(|c: char| digit_char(c))
}

/// Decides `label_char` on a concrete character.
pub fn is_label_char(c: char) -> (r: bool)
    ensures
        r == label_char(c),
{
    let u = c as u32;
    (97 <= u && u <= 122) || (65 <= u && u <= 90) || (48 <= u && u <= 57) || c == ' ' || (1072
        <= u && u <= 1103) || (1040 <= u && u <= 1071)
}

/// Decides `digit_char` on a concrete character.
pub fn is_digit_char(c: char) -> (r: bool)
    ensures
        r == digit_char(c),
{
    let u = c as u32;
    48 <= u && u <= 57
}

/// Keeps exactly the allowed label characters of `s`, in order.
pub fn sanitize_label(s: &str) -> (r: String)
    ensures
        r@ == spec_sanitize_label(s@),
{
    let n = s.unicode_len();
    let mut r = String::new();
    let mut i: usize = 0;
    while i < n
        invariant
            i <= n,
            n == s@.len(),
            r@ == s@.take(i as int).filter(|c: char| label_char(c)),
        decreases n - i,
    {
        let c = s.get_char(i);
        if is_label_char(c) {
            let piece = s.substring_char(i, i + 1);
            r.append(piece);
        }
        proof {
            lemma_filter_take_step(s@, |c: char| label_char(c), i as int);
        }
        i = i + 1;
    }
    proof {
        assert(s@.take(n as int) =~= s@);
    }
    r
}

/// Keeps exactly the ASCII digits of `s`, in order.
pub fn sanitize_numeric(s: &str) -> (r: String)
    ensures
        r@ == spec_sanitize_numeric(s@),
{
    let n = s.unicode_len();
    let mut r = String::new();
    let mut i: usize = 0;
    while i < n
        invariant
            i <= n,
            n == s@.len(),
            r@ == s@.take(i as int).filter(|c: char| digit_char(c)),
        decreases n - i,
    {
        let c = s.get_char(i);
        if is_digit_char(c) {
            let piece = s.substring_char(i, i + 1);
            r.append(piece);
        }
        proof {
            lemma_filter_take_step(s@, |c: char| digit_char(c), i as int);
        }
        i = i + 1;
    }
    proof {
        assert(s@.take(n as int) =~= s@);
    }
    r
}

/// One step of filtering a prefix: extending the prefix by one
/// character appends that character to the filtered prefix exactly when
/// the predicate holds of it.
proof fn lemma_filter_take_step(s: Seq<char>, pred: spec_fn(char) -> bool, i: int)
    requires
        0 <= i < s.len(),
    ensures
        s.take(i + 1).filter(pred) == if pred(s[i]) {
            s.take(i).filter(pred).push(s[i])
        } else {
            s.take(i).filter(pred)
        },
{
    reveal(Seq::filter);
    assert(s.take(i + 1).drop_last() =~= s.take(i));
    assert(s.take(i + 1).last() == s[i]);
}

/// Every character of a sanitized label is an allowed label character;
/// in particular no quote, delimiter, or other structural character
/// survives sanitization.
pub proof fn lemma_sanitize_label_allowed(s: Seq<char>)
    ensures
        forall|i: int|
            0 <= i < spec_sanitize_label(s).len() ==> label_char(
                #[trigger] spec_sanitize_label(s)[i],
            ),
{
    broadcast use vstd::seq_lib::group_filter_ensures;

}

/// Every character of a sanitized numeric token is an ASCII digit.
pub proof fn lemma_sanitize_numeric_allowed(s: Seq<char>)
    ensures
        forall|i: int|
            0 <= i < spec_sanitize_numeric(s).len() ==> digit_char(
                #[trigger] spec_sanitize_numeric(s)[i],
            ),
{
    broadcast use vstd::seq_lib::group_filter_ensures;

}

} // verus!
