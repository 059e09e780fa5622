//! Character-level text helpers: the Unicode blank test used to reject
//! empty input, and plain substring search.
use vstd::prelude::*;

verus! {

/// The characters with the Unicode `White_Space` property, the same set that
/// `str::trim` removes at both ends.
pub open spec fn is_white_space(c: char) -> bool {
    ||| (0x09 <= c as u32 && c as u32 <= 0x0D)
    ||| c == ' '
    ||| c as u32 == 0x85
    ||| c as u32 == 0xA0
    ||| c as u32 == 0x1680
    ||| (0x2000 <= c as u32 && c as u32 <= 0x200A)
    ||| c as u32 == 0x2028
    ||| c as u32 == 0x2029
    ||| c as u32 == 0x202F
    ||| c as u32 == 0x205F
    ||| c as u32 == 0x3000
}

/// A text is blank when every character is white space; the empty text is blank.
/// This is exactly "empty after trimming white space".
pub open spec fn is_blank(s: Seq<char>) -> bool {
    forall|i: int| 0 <= i < s.len() ==> is_white_space(s[i])
}

/// Executable form of `is_white_space`.
pub fn white_space_char(c: char) -> (r: bool)
    ensures
        r == is_white_space(c),
{
    let u: u32 = c as u32;
    (0x09 <= u && u <= 0x0D) || u == 0x20 || u == 0x85 || u == 0xA0 || u == 0x1680 || (0x2000 <= u
        && u <= 0x200A) || u == 0x2028 || u == 0x2029 || u == 0x202F || u == 0x205F || u == 0x3000
}

/// Executable blank test: true when the text is empty or all white space.
pub fn blank_text(s: &str) -> (r: bool)
    ensures
        r == is_blank(s@),
{
    let n: usize = s.unicode_len();
    let mut i: usize = 0;
    while i < n
        invariant
            n == s@.len(),
            0 <= i <= n,
            forall|j: int| 0 <= j < i ==> is_white_space(s@[j]),
        decreases n - i,
    {
        if !white_space_char(s.get_char(i)) {
            return false;
        }
        i += 1;
    }
    true
}

/// True when `pat` occurs as a contiguous run inside `s`.
pub open spec fn contains_seq(s: Seq<char>, pat: Seq<char>) -> bool {
    exists|k: int| 0 <= k <= s.len() - pat.len() && #[trigger] s.subrange(k, k + pat.len()) == pat
}

/// Executable equality of two character sequences read from `&str` slices.
pub fn str_eq(a: &str, b: &str) -> (r: bool)
    ensures
        r == (a@ == b@),
{
    let na: usize = a.unicode_len();
    let nb: usize = b.unicode_len();
    if na != nb {
        proof {
            assert(a@ != b@);
        }
        return false;
    }
    let mut i: usize = 0;
    while i < na
        invariant
            na == a@.len(),
            na == b@.len(),
            0 <= i <= na,
            forall|j: int| 0 <= j < i ==> a@[j] == b@[j],
        decreases na - i,
    {
        if a.get_char(i) != b.get_char(i) {
            return false;
        }
        i += 1;
    }
    proof {
        assert(a@ =~= b@);
    }
    true
}

/// Executable substring search, quadratic and simple.
pub fn contains_text(s: &str, pat: &str) -> (r: bool)
    ensures
        r == contains_seq(s@, pat@),
{
    let n: usize = s.unicode_len();
    let m: usize = pat.unicode_len();
    if m > n {
        proof {
            assert(!contains_seq(s@, pat@));
        }
        return false;
    }
    if m == 0 {
        proof {
            assert(s@.subrange(0, 0 + pat@.len() as int) =~= pat@);
            assert(contains_seq(s@, pat@));
        }
        return true;
    }
    let mut k: usize = 0;
    while k <= n - m
        invariant
            n == s@.len(),
            m == pat@.len(),
            1 <= m <= n,
            0 <= k <= n - m + 1,
            forall|t: int| 0 <= t < k ==> #[trigger] s@.subrange(t, t + pat@.len()) != pat@,
        decreases n + 1 - m - k,
    {
        let mut i: usize = 0;
        let mut all_match: bool = true;
        while i < m
            invariant
                n == s@.len(),
                m == pat@.len(),
                0 <= k <= n - m,
                0 <= i <= m,
                all_match ==> forall|j: int| 0 <= j < i ==> s@[k + j] == pat@[j],
                !all_match ==> s@.subrange(k as int, k + pat@.len()) != pat@,
            decreases m - i,
        {
            if s.get_char(k + i) != pat.get_char(i) {
                proof {
                    assert(s@.subrange(k as int, k + pat@.len())[i as int] != pat@[i as int]);
                }
                all_match = false;
                i = m;
            } else {
                i += 1;
            }
        }
        if all_match {
            proof {
                assert(s@.subrange(k as int, k + pat@.len()) =~= pat@);
            }
            return true;
        }
        k += 1;
    }
    proof {
        assert forall|t: int| 0 <= t <= s@.len() - pat@.len() implies #[trigger] s@.subrange(
            t,
            t + pat@.len(),
        ) != pat@ by {
            assert(t < k);
        }
    }
    false
}

} // verus!
