//! Pure path and file-name reasoning.
//!
//! Paths are `/`-separated strings.  The file name is the part after the
//! last separator; its extension is the part after the last dot, provided
//! the dot is not the first character of the name (a name that starts with
//! its only dot has no extension); the stem is what precedes that dot.
//!
//! The naming convention for file-name metadata: the run of decimal digits
//! at the end of the stem is the file's scan number.  A stem that does not
//! end in a digit, or whose digit run is longer than 18 digits, yields no
//! scan number; by policy this degrades silently to an absent value rather
//! than failing the record.

use vstd::prelude::*;

verus! {

/// The last index at which `c` occurs in `s`, or `-1`.
pub open spec fn last_index_of(s: Seq<char>, c: char) -> int
    decreases s.len(),
{
    if s.len() == 0 {
        -1
    } else if s.last() == c {
        s.len() - 1
    } else {
        last_index_of(s.drop_last(), c)
    }
}

/// Placement of `last_index_of`: it is the last occurrence, or `-1` when
/// there is none.
pub proof fn lemma_last_index_of(s: Seq<char>, c: char)
    ensures
        -1 <= last_index_of(s, c) < s.len(),
        last_index_of(s, c) >= 0 ==> s[last_index_of(s, c)] == c,
        forall|j: int| last_index_of(s, c) < j < s.len() ==> s[j] != c,
    decreases s.len(),
{
    if s.len() == 0 {
    } else if s.last() == c {
    } else {
        lemma_last_index_of(s.drop_last(), c);
        let r = last_index_of(s, c);
        assert forall|j: int| r < j < s.len() implies s[j] != c by {
            if j < s.len() - 1 {
                assert(s.drop_last()[j] != c);
            }
        }
    }
}

/// The file-name component: everything after the last separator.
pub open spec fn spec_basename(p: Seq<char>) -> Seq<char> {
    p.subrange(last_index_of(p, '/') + 1, p.len() as int)
}

/// Whether the path's file name carries the `fits` extension.
pub open spec fn spec_has_fits_ext(p: Seq<char>) -> bool {
    let b = spec_basename(p);
    let d = last_index_of(b, '.');
    d > 0 && b.subrange(d + 1, b.len() as int) == "fits"@
}

/// The stem of the file name: the name without its extension.
pub open spec fn spec_stem(p: Seq<char>) -> Seq<char> {
    let b = spec_basename(p);
    let d = last_index_of(b, '.');
    if d > 0 {
        b.subrange(0, d)
    } else {
        b
    }
}

/// Whether `c` is a decimal digit.
pub open spec fn is_digit(c: char) -> bool {
    '0' <= c && c <= '9'
}

/// The index where the trailing digit run of `s` starts; `s.len()` when
/// the sequence does not end in a digit.
pub open spec fn digit_run_start(s: Seq<char>) -> int
    decreases s.len(),
{
    if s.len() == 0 {
        0
    } else if is_digit(s.last()) {
        digit_run_start(s.drop_last())
    } else {
        s.len() as int
    }
}

/// Placement of `digit_run_start`: digits from it to the end, preceded by
/// a non-digit unless it is the start of the sequence.
pub proof fn lemma_digit_run_start(s: Seq<char>)
    ensures
        0 <= digit_run_start(s) <= s.len(),
        forall|j: int| digit_run_start(s) <= j < s.len() ==> is_digit(#[trigger] s[j]),
        digit_run_start(s) > 0 ==> !is_digit(s[digit_run_start(s) - 1]),
    decreases s.len(),
{
    if s.len() == 0 {
    } else if is_digit(s.last()) {
        lemma_digit_run_start(s.drop_last());
        let r = digit_run_start(s);
        assert forall|j: int| r <= j < s.len() implies is_digit(s[j]) by {
            if j < s.len() - 1 {
                assert(is_digit(s.drop_last()[j]));
            }
        }
    } else {
    }
}

/// The numeric value of a digit sequence, most significant digit first.
pub open spec fn digits_value(s: Seq<char>) -> int
    decreases s.len(),
{
    if s.len() == 0 {
        0
    } else {
        digits_value(s.drop_last()) * 10 + (s.last() as int - 48)
    }
}

/// Ten to the given power.
pub open spec fn pow10(n: nat) -> int
    decreases n,
{
    if n == 0 {
        1
    } else {
        10 * pow10((n - 1) as nat)
    }
}

/// A digit sequence's value is bounded by ten to its length.
pub proof fn lemma_digits_value_bound(s: Seq<char>)
    requires
        forall|j: int| 0 <= j < s.len() ==> is_digit(#[trigger] s[j]),
    ensures
        0 <= digits_value(s) < pow10(s.len()),
    decreases s.len(),
{
    if s.len() == 0 {
    } else {
        assert(forall|j: int|
            0 <= j < s.drop_last().len() ==> is_digit(#[trigger] s.drop_last()[j]));
        lemma_digits_value_bound(s.drop_last());
        assert(is_digit(s.last()));
        assert(0 <= s.last() as int - 48 <= 9);
    }
}

/// The scan number encoded at the end of a stem, if any: the value of the
/// trailing digit run, absent when the run is empty or over 18 digits.
pub open spec fn spec_scan_id_of_stem(stem: Seq<char>) -> Option<i64> {
    let k = digit_run_start(stem);
    let run = stem.subrange(k, stem.len() as int);
    if run.len() == 0 || run.len() > 18 {
        None
    } else {
        Some(digits_value(run) as i64)
    }
}

/// Case-sensitive equality of two string slices.
pub fn str_eq(a: &str, b: &str) -> (r: bool)
    ensures
        r == (a@ == b@),
{
    let n = a.unicode_len();
    if n != b.unicode_len() {
        proof {
            assert(a@ != b@) by {
                if a@ == b@ {
                    assert(a@.len() == b@.len());
                }
            }
        }
        return false;
    }
    for i in 0..n
        invariant
            n == a@.len(),
            n == b@.len(),
            forall|j: int| 0 <= j < i ==> a@[j] == b@[j],
    {
        if a.get_char(i) != b.get_char(i) {
            return false;
        }
    }
    proof {
        assert(a@ =~= b@);
    }
    true
}

/// The file-name component of a path.
pub fn basename(path: &str) -> (r: String)
    ensures
        r@ == spec_basename(path@),
{
    let n = path.unicode_len();
    let mut cut: usize = 0;
    let mut i: usize = 0;
    while i < n
        invariant
            i <= n,
            n == path@.len(),
            cut <= i,
            cut > 0 ==> path@[cut - 1] == '/',
            forall|j: int| cut <= j < i ==> path@[j] != '/',
        decreases n - i,
    {
        if path.get_char(i) == '/' {
            cut = i + 1;
        }
        i += 1;
    }
    proof {
        lemma_last_index_of(path@, '/');
        let r = last_index_of(path@, '/');
        if cut == 0 {
            if r >= 0 {
                assert(path@[r] != '/');
            }
        } else {
            if r > cut - 1 {
                assert(path@[r] != '/');
            }
            if r < cut - 1 {
                assert(path@[cut - 1] != '/');
            }
        }
        assert(r == cut - 1);
    }
    String::from_str(path.substring_char(cut, n))
}

/// Whether the path's file name carries the `fits` extension.
pub fn has_fits_extension(path: &str) -> (r: bool)
    ensures
        r == spec_has_fits_ext(path@),
{
    let b = basename(path);
    let bs = b.as_str();
    let n = bs.unicode_len();
    let mut dot: usize = 0;
    let mut found = false;
    let mut i: usize = 0;
    while i < n
        invariant
            i <= n,
            n == bs@.len(),
            found ==> dot < i && bs@[dot as int] == '.',
            forall|j: int| (if found { dot < j } else { 0 <= j }) && j < i ==> bs@[j] != '.',
        decreases n - i,
    {
        if bs.get_char(i) == '.' {
            dot = i;
            found = true;
        }
        i += 1;
    }
    proof {
        lemma_last_index_of(bs@, '.');
        let r = last_index_of(bs@, '.');
        if found {
            if r > dot {
                assert(bs@[r] != '.');
            }
            if r < dot {
                assert(bs@[dot as int] != '.');
            }
            assert(r == dot);
        } else {
            if r >= 0 {
                assert(bs@[r] != '.');
            }
            assert(r == -1);
        }
    }
    if !found || dot == 0 {
        return false;
    }
    let ext = bs.substring_char(dot + 1, n);
    str_eq(ext, "fits")
}

/// The stem of the path's file name.
pub fn stem_of(path: &str) -> (r: String)
    ensures
        r@ == spec_stem(path@),
{
    let b = basename(path);
    let bs = b.as_str();
    let n = bs.unicode_len();
    let mut dot: usize = 0;
    let mut found = false;
    let mut i: usize = 0;
    while i < n
        invariant
            i <= n,
            n == bs@.len(),
            found ==> dot < i && bs@[dot as int] == '.',
            forall|j: int| (if found { dot < j } else { 0 <= j }) && j < i ==> bs@[j] != '.',
        decreases n - i,
    {
        if bs.get_char(i) == '.' {
            dot = i;
            found = true;
        }
        i += 1;
    }
    proof {
        lemma_last_index_of(bs@, '.');
        let r = last_index_of(bs@, '.');
        if found {
            if r > dot {
                assert(bs@[r] != '.');
            }
            if r < dot {
                assert(bs@[dot as int] != '.');
            }
            assert(r == dot);
        } else {
            if r >= 0 {
                assert(bs@[r] != '.');
            }
            assert(r == -1);
        }
    }
    if found && dot > 0 {
        String::from_str(bs.substring_char(0, dot))
    } else {
        proof {
            assert(bs@.subrange(0, n as int) =~= bs@);
        }
        String::from_str(bs.substring_char(0, n))
    }
}

/// The scan number encoded at the end of the path's file-name stem.
pub fn parse_scan_id(path: &str) -> (r: Option<i64>)
    ensures
        r == spec_scan_id_of_stem(spec_stem(path@)),
{
    let st = stem_of(path);
    let s = st.as_str();
    let n = s.unicode_len();
    let mut k: usize = n;
    loop
        invariant
            k <= n,
            n == s@.len(),
            forall|j: int| k <= j < n ==> is_digit(#[trigger] s@[j]),
        ensures
            k <= n,
            forall|j: int| k <= j < n ==> is_digit(#[trigger] s@[j]),
            k == 0 || !is_digit(s@[k - 1]),
        decreases k,
    {
        if k == 0 {
            break ;
        }
        let c = s.get_char(k - 1);
        if '0' <= c && c <= '9' {
            k -= 1;
        } else {
            break ;
        }
    }
    proof {
        lemma_digit_run_start(s@);
        let d = digit_run_start(s@);
        if d < k {
            assert(is_digit(s@[k - 1]));
        }
        if d > k {
            assert(is_digit(s@[d - 1]));
        }
        assert(d == k);
    }
    let run_len = n - k;
    if run_len == 0 || run_len > 18 {
        return None;
    }
    let ghost run = s@.subrange(k as int, n as int);
    proof {
        assert(forall|j: int| 0 <= j < run.len() ==> is_digit(#[trigger] run[j]));
        lemma_digits_value_bound(run);
        assert(pow10(18) == 1000000000000000000) by {
            reveal_with_fuel(pow10, 19);
        }
        assert(pow10(run.len()) <= pow10(18)) by {
            lemma_pow10_le(run.len(), 18);
        }
    }
    let mut v: i64 = 0;
    let mut i: usize = k;
    while i < n
        invariant
            k <= i <= n,
            n == s@.len(),
            run == s@.subrange(k as int, n as int),
            n - k <= 18,
            forall|j: int| 0 <= j < run.len() ==> is_digit(#[trigger] run[j]),
            v == digits_value(run.subrange(0, i - k)),
            0 <= v < pow10((i - k) as nat),
            pow10((i - k) as nat) <= pow10(18),
            pow10(18) == 1000000000000000000,
        decreases n - i,
    {
        let c = s.get_char(i);
        proof {
            assert(run[i - k] == s@[i as int]);
            assert(is_digit(run[i - k]));
            let sub1 = run.subrange(0, i - k + 1);
            assert(sub1.drop_last() =~= run.subrange(0, i - k));
            assert(sub1.last() == run[i - k]);
            assert(forall|j: int| 0 <= j < sub1.len() ==> is_digit(#[trigger] sub1[j]));
            lemma_digits_value_bound(sub1);
            assert(pow10(((i - k) + 1) as nat) <= pow10(18)) by {
                lemma_pow10_le(((i - k) + 1) as nat, 18);
            }
        }
        let d = (c as u32) - 48;
        v = v * 10 + (d as i64);
        i += 1;
    }
    proof {
        assert(run.subrange(0, (n - k) as int) =~= run);
    }
    Some(v)
}

/// `pow10` is monotone.
pub proof fn lemma_pow10_le(a: nat, b: nat)
    requires
        a <= b,
    ensures
        pow10(a) <= pow10(b),
    decreases b,
{
    if a == b {
    } else {
        lemma_pow10_le(a, (b - 1) as nat);
        assert(pow10(b) == 10 * pow10((b - 1) as nat));
        assert(pow10((b - 1) as nat) >= 1) by {
            lemma_pow10_pos((b - 1) as nat);
        }
    }
}

/// `pow10` is positive.
pub proof fn lemma_pow10_pos(n: nat)
    ensures
        pow10(n) >= 1,
    decreases n,
{
    if n == 0 {
    } else {
        lemma_pow10_pos((n - 1) as nat);
    }
}

} // verus!
