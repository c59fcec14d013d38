//! Verified character-level helpers on strings: equality and
//! lexicographic comparison by Unicode scalar value.

use vstd::prelude::*;

verus! {

/// Decides whether two strings have the same character sequence.
pub fn str_eq(a: &str, b: &str) -> (r: bool)
    ensures
        r == (a@ == b@),
{
    let na = a.unicode_len();
    let nb = b.unicode_len();
    if na != nb {
        return false;
    }
    let mut i: usize = 0;
    while i < na
        invariant
            i <= na,
            na == a@.len(),
            na == b@.len(),
            a@.take(i as int) == b@.take(i as int),
        decreases na - i,
    {
        let ca = a.get_char(i);
        let cb = b.get_char(i);
        if ca != cb {
            proof {
                assert(a@ != b@) by {
                    if a@ == b@ {
                        assert(a@[i as int] == b@[i as int]);
                    }
                }
            }
            return false;
        }
        proof {
            assert(a@.take(i + 1) =~= a@.take(i as int).push(a@[i as int]));
            assert(b@.take(i + 1) =~= b@.take(i as int).push(b@[i as int]));
        }
        i = i + 1;
    }
    proof {
        assert(a@.take(na as int) =~= a@);
        assert(b@.take(na as int) =~= b@);
    }
    true
}

/// The scalar value a character folds to for case-insensitive
/// comparison: ASCII and Cyrillic upper-case letters fold to their
/// lower-case counterpart, everything else stays.
pub open spec fn lower_u32(u: u32) -> u32 {
    if (65 <= u && u <= 90) || (1040 <= u && u <= 1071) {
        (u + 32) as u32
    } else {
        u
    }
}

/// Case-insensitive character equality over the supported alphabets.
pub open spec fn ci_eq(a: char, b: char) -> bool {
    lower_u32(a as u32) == lower_u32(b as u32)
}

/// Whether the needle matches the haystack case-insensitively at
/// offset `i`.
pub open spec fn ci_matches_at(h: Seq<char>, n: Seq<char>, i: int) -> bool {
    forall|j: int| 0 <= j < n.len() ==> ci_eq(h[i + j], #[trigger] n[j])
}

/// Whether the haystack contains the needle as a case-insensitive
/// substring.
pub open spec fn contains_ci(h: Seq<char>, n: Seq<char>) -> bool {
    exists|i: int| 0 <= i <= h.len() - n.len() && ci_matches_at(h, n, i)
}

/// Decides `ci_eq` on concrete characters.
fn ci_eq_exec(a: char, b: char) -> (r: bool)
    ensures
        r == ci_eq(a, b),
{
    let mut ua = a as u32;
    let mut ub = b as u32;
    if (65 <= ua && ua <= 90) || (1040 <= ua && ua <= 1071) {
        ua = ua + 32;
    }
    if (65 <= ub && ub <= 90) || (1040 <= ub && ub <= 1071) {
        ub = ub + 32;
    }
    ua == ub
}

/// The characters of a string, as a vector.
pub fn to_chars(s: &str) -> (r: Vec<char>)
    ensures
        r@ == s@,
{
    let n = s.unicode_len();
    let mut r: Vec<char> = Vec::new();
    let mut i: usize = 0;
    while i < n
        invariant
            i <= n,
            n == s@.len(),
            r@ == s@.take(i as int),
        decreases n - i,
    {
        r.push(s.get_char(i));
        proof {
            assert(s@.take(i + 1) =~= s@.take(i as int).push(s@[i as int]));
        }
        i = i + 1;
    }
    proof {
        assert(s@.take(n as int) =~= s@);
    }
    r
}

/// Whether the needle matches the haystack case-insensitively at
/// offset `i`, decided on concrete vectors.
fn ci_match_here(h: &Vec<char>, n: &Vec<char>, i: usize) -> (r: bool)
    requires
        i + n@.len() <= h@.len(),
    ensures
        r == ci_matches_at(h@, n@, i as int),
{
    let hl = h.len();
    let nl = n.len();
    let mut j: usize = 0;
    while j < nl
        invariant
            j <= nl,
            nl == n@.len(),
            hl == h@.len(),
            i + nl <= hl,
            forall|j2: int| 0 <= j2 < j ==> ci_eq(h@[i + j2], #[trigger] n@[j2]),
        decreases nl - j,
    {
        if !ci_eq_exec(h[i + j], n[j]) {
            proof {
                assert(!ci_eq(h@[i as int + j as int], n@[j as int]));
            }
            return false;
        }
        j = j + 1;
    }
    true
}

/// Decides whether `h` contains `n` as a case-insensitive substring.
pub fn contains_ci_exec(h: &str, n: &str) -> (r: bool)
    ensures
        r == contains_ci(h@, n@),
{
    let hc = to_chars(h);
    let nc = to_chars(n);
    if nc.len() > hc.len() {
        return false;
    }
    if nc.len() == 0 {
        proof {
            assert(ci_matches_at(h@, n@, 0));
        }
        return true;
    }
    let bound = hc.len() - nc.len();
    let mut i: usize = 0;
    while i <= bound
        invariant
            bound == h@.len() - n@.len(),
            bound < h@.len(),
            bound < usize::MAX,
            i <= bound + 1,
            hc@ == h@,
            nc@ == n@,
            forall|i2: int| 0 <= i2 < i ==> !ci_matches_at(h@, n@, i2),
        decreases bound + 1 - i,
    {
        if ci_match_here(&hc, &nc, i) {
            return true;
        }
        i = i + 1;
    }
    false
}

/// Lexicographic order on character sequences, by scalar value.
pub open spec fn lex_le(a: Seq<char>, b: Seq<char>) -> bool
    decreases a.len(),
{
    if a.len() == 0 {
        true
    } else if b.len() == 0 {
        false
    } else if (a[0] as u32) < (b[0] as u32) {
        true
    } else if (a[0] as u32) > (b[0] as u32) {
        false
    } else {
        lex_le(a.drop_first(), b.drop_first())
    }
}

/// Two sequences whose prefixes agree in scalar value compare as their
/// remainders do.
proof fn lemma_lex_skip(a: Seq<char>, b: Seq<char>, i: int)
    requires
        0 <= i <= a.len(),
        i <= b.len(),
        forall|j: int| 0 <= j < i ==> a[j] as u32 == #[trigger] (b[j] as u32),
    ensures
        lex_le(a, b) == lex_le(a.skip(i), b.skip(i)),
    decreases i,
{
    if i == 0 {
        assert(a.skip(0) =~= a);
        assert(b.skip(0) =~= b);
    } else {
        lemma_lex_skip(a, b, i - 1);
        assert(a.skip(i - 1).drop_first() =~= a.skip(i));
        assert(b.skip(i - 1).drop_first() =~= b.skip(i));
        assert(a.skip(i - 1)[0] == a[i - 1]);
        assert(b.skip(i - 1)[0] == b[i - 1]);
    }
}

/// Decides lexicographic order on concrete strings.
pub fn lex_le_exec(a: &str, b: &str) -> (r: bool)
    ensures
        r == lex_le(a@, b@),
{
    let na = a.unicode_len();
    let nb = b.unicode_len();
    let mut i: usize = 0;
    while i < na && i < nb
        invariant
            na == a@.len(),
            nb == b@.len(),
            i <= na,
            i <= nb,
            forall|j: int| 0 <= j < i ==> a@[j] as u32 == #[trigger] (b@[j] as u32),
        decreases na - i,
    {
        let ca = a.get_char(i);
        let cb = b.get_char(i);
        if (ca as u32) < (cb as u32) {
            proof {
                lemma_lex_skip(a@, b@, i as int);
                assert(a@.skip(i as int)[0] == a@[i as int]);
                assert(b@.skip(i as int)[0] == b@[i as int]);
            }
            return true;
        }
        if (ca as u32) > (cb as u32) {
            proof {
                lemma_lex_skip(a@, b@, i as int);
                assert(a@.skip(i as int)[0] == a@[i as int]);
                assert(b@.skip(i as int)[0] == b@[i as int]);
            }
            return false;
        }
        proof {
            assert(a@[i as int] as u32 == b@[i as int] as u32);
        }
        i = i + 1;
    }
    proof {
        lemma_lex_skip(a@, b@, i as int);
        if na <= nb {
            assert(a@.skip(i as int).len() == 0);
        } else {
            assert(b@.skip(i as int).len() == 0);
            assert(a@.skip(i as int).len() > 0);
        }
    }
    na <= nb
}

/// Lexicographic order is total.
pub proof fn lemma_lex_total(a: Seq<char>, b: Seq<char>)
    ensures
        lex_le(a, b) || lex_le(b, a),
    decreases a.len(),
{
    if a.len() == 0 || b.len() == 0 {
    } else if a[0] as u32 == b[0] as u32 {
        lemma_lex_total(a.drop_first(), b.drop_first());
    }
}

/// Lexicographic order is transitive.
pub proof fn lemma_lex_trans(a: Seq<char>, b: Seq<char>, c: Seq<char>)
    requires
        lex_le(a, b),
        lex_le(b, c),
    ensures
        lex_le(a, c),
    decreases a.len(),
{
    if a.len() == 0 {
    } else {
        assert(b.len() > 0);
        assert(c.len() > 0);
        if (a[0] as u32) < (b[0] as u32) {
            assert((b[0] as u32) <= (c[0] as u32));
        } else {
            assert(a[0] as u32 == b[0] as u32);
            if (b[0] as u32) < (c[0] as u32) {
            } else {
                assert(b[0] as u32 == c[0] as u32);
                lemma_lex_trans(a.drop_first(), b.drop_first(), c.drop_first());
            }
        }
    }
}

} // verus!
