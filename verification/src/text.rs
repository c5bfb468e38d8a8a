use vstd::prelude::*;

verus! {

/// Lowercase an ASCII letter; any other character is returned unchanged.
pub open spec fn lower_char(c: char) -> char {
    if 'A' <= c && c <= 'Z' {
        ((c as u8) + 32) as char
    } else {
        c
    }
}

/// Executable twin of `lower_char`.
pub fn to_lower_char(c: char) -> (r: char)
    ensures
        r == lower_char(c),
{
    if 'A' <= c && c <= 'Z' {
        ((c as u8) + 32) as char
    } else {
        c
    }
}

/// `sub` occurs in `s` starting at position `i`.
pub open spec fn matches_at(s: Seq<char>, sub: Seq<char>, i: int) -> bool {
    &&& 0 <= i
    &&& i + sub.len() <= s.len()
    &&& forall|j: int| 0 <= j < sub.len() ==> s[i + j] == #[trigger] sub[j]
}

/// `sub` occurs somewhere in `s`.
pub open spec fn contains_seq(s: Seq<char>, sub: Seq<char>) -> bool {
    exists|i: int| #[trigger] matches_at(s, sub, i)
}

/// Whether `s` ends, after ASCII-lowercasing, with `suffix`
/// (the suffix itself is expected in lowercase).
pub open spec fn ends_with_ci(s: Seq<char>, suffix: Seq<char>) -> bool {
    &&& suffix.len() <= s.len()
    &&& forall|j: int|
        0 <= j < suffix.len() ==> lower_char(s[s.len() - suffix.len() + j]) == #[trigger] suffix[j]
}

/// Character-for-character equality of two string slices.
pub fn str_eq_str(a: &str, b: &str) -> (r: bool)
    ensures
        r == (a@ == b@),
{
    let a_len = a.unicode_len();
    let b_len = b.unicode_len();
    if a_len != b_len {
        proof {
            assert(a@.len() != b@.len());
        }
        return false;
    }
    let mut i: usize = 0;
    while i < a_len
        invariant
            a_len == a@.len(),
            b_len == b@.len(),
            a_len == b_len,
            0 <= i <= a_len,
            forall|k: int| 0 <= k < i ==> a@[k] == b@[k],
        decreases a_len - i,
    {
        if a.get_char(i) != b.get_char(i) {
            return false;
        }
        i += 1;
    }
    proof {
        assert(a@ =~= b@);
    }
    true
}

/// Whether `sub` occurs anywhere in `s`.
pub fn str_contains_str(s: &str, sub: &str) -> (r: bool)
    ensures
        r == contains_seq(s@, sub@),
{
    let s_len = s.unicode_len();
    let sub_len = sub.unicode_len();
    if sub_len > s_len {
        proof {
            assert(forall|i: int| !matches_at(s@, sub@, i));
        }
        return false;
    }
    let mut i: usize = 0;
    while i <= s_len - sub_len
        invariant
            s_len == s@.len(),
            sub_len == sub@.len(),
            sub_len <= s_len,
            0 <= i <= s_len - sub_len + 1,
            forall|k: int| 0 <= k < i ==> !matches_at(s@, sub@, k),
        decreases s_len - i,
    {
        let mut j: usize = 0;
        let mut all_match = true;
        while j < sub_len
            invariant
                s_len == s@.len(),
                sub_len == sub@.len(),
                sub_len <= s_len,
                0 <= i <= s_len - sub_len,
                0 <= j <= sub_len,
                all_match ==> forall|k: int| 0 <= k < j ==> s@[i + k] == #[trigger] sub@[k],
                !all_match ==> !matches_at(s@, sub@, i as int),
            decreases sub_len - j,
        {
            if all_match {
                if s.get_char(i + j) != sub.get_char(j) {
                    proof {
                        assert(s@[i as int + j as int] != sub@[j as int]);
                    }
                    all_match = false;
                }
            }
            j += 1;
        }
        if all_match {
            proof {
                assert(matches_at(s@, sub@, i as int));
            }
            return true;
        }
        i += 1;
    }
    proof {
        assert forall|k: int| !matches_at(s@, sub@, k) by {
            if 0 <= k <= s_len - sub_len {
                assert(!matches_at(s@, sub@, k));
            }
        }
    }
    false
}

/// Whether `s` ends, ASCII-case-insensitively, with `suffix`
/// (the suffix is given in lowercase).
pub fn str_ends_with_ci(s: &str, suffix: &str) -> (r: bool)
    ensures
        r == ends_with_ci(s@, suffix@),
{
    let s_len = s.unicode_len();
    let suf_len = suffix.unicode_len();
    if suf_len > s_len {
        return false;
    }
    let start = s_len - suf_len;
    let mut j: usize = 0;
    while j < suf_len
        invariant
            s_len == s@.len(),
            suf_len == suffix@.len(),
            suf_len <= s_len,
            start == s_len - suf_len,
            0 <= j <= suf_len,
            forall|k: int|
                0 <= k < j ==> lower_char(s@[start + k]) == #[trigger] suffix@[k],
        decreases suf_len - j,
    {
        if to_lower_char(s.get_char(start + j)) != suffix.get_char(j) {
            return false;
        }
        j += 1;
    }
    true
}

} // verus!
