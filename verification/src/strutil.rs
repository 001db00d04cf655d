//! Small verified string and byte utilities: decimal rendering of
//! integers and searches over character sequences.

use vstd::prelude::*;

verus! {

/// Decimal digit character of a value below ten.
pub open spec fn digit_char(d: int) -> char {
    if d == 0 {
        '0'
    } else if d == 1 {
        '1'
    } else if d == 2 {
        '2'
    } else if d == 3 {
        '3'
    } else if d == 4 {
        '4'
    } else if d == 5 {
        '5'
    } else if d == 6 {
        '6'
    } else if d == 7 {
        '7'
    } else if d == 8 {
        '8'
    } else {
        '9'
    }
}

/// Decimal representation of a nonnegative integer, most significant
/// digit first.
pub open spec fn dec_rep(n: int) -> Seq<char>
    decreases n,
{
    if n < 0 {
        Seq::empty()
    } else if n < 10 {
        seq![digit_char(n)]
    } else {
        dec_rep(n / 10) + seq![digit_char(n % 10)]
    }
}

/// The `&str` holding one decimal digit.
fn digit_str(d: u64) -> (r: &'static str)
    requires
        d < 10,
    ensures
        r@ == seq![digit_char(d as int)],
{
    let r = match d {
        0 => "0",
        1 => "1",
        2 => "2",
        3 => "3",
        4 => "4",
        5 => "5",
        6 => "6",
        7 => "7",
        8 => "8",
        _ => "9",
    };
    proof {
        reveal_strlit("0");
        reveal_strlit("1");
        reveal_strlit("2");
        reveal_strlit("3");
        reveal_strlit("4");
        reveal_strlit("5");
        reveal_strlit("6");
        reveal_strlit("7");
        reveal_strlit("8");
        reveal_strlit("9");
        assert(r@ =~= seq![digit_char(d as int)]);
    }
    r
}

/// Renders a value in decimal, most significant digit first.
pub fn u64_to_string(n: u64) -> (r: String)
    ensures
        r@ == dec_rep(n as int),
    decreases n,
{
    if n < 10 {
        let mut s = String::new();
        s.append(digit_str(n));
        proof {
            assert(s@ =~= dec_rep(n as int));
        }
        s
    } else {
        let mut s = u64_to_string(n / 10);
        s.append(digit_str(n % 10));
        proof {
            assert(s@ =~= dec_rep(n as int));
        }
        s
    }
}

/// Whether the character sequence contains `c`.
pub open spec fn seq_contains_char(s: Seq<char>, c: char) -> bool {
    exists|i: int| 0 <= i < s.len() && s[i] == c
}

/// Whether the string contains the character.
pub fn str_contains_char(s: &str, c: char) -> (r: bool)
    ensures
        r == seq_contains_char(s@, c),
{
    let len = s.unicode_len();
    let mut i: usize = 0;
    while i < len
        invariant
            i <= len,
            len == s@.len(),
            forall|j: int| 0 <= j < i ==> s@[j] != c,
        decreases len - i,
    {
        if s.get_char(i) == c {
            return true;
        }
        i += 1;
    }
    false
}

/// Whether `s` ends with `suffix`, over character sequences.
pub open spec fn spec_ends_with(s: Seq<char>, suffix: Seq<char>) -> bool {
    s.len() >= suffix.len() && s.subrange(s.len() - suffix.len(), s.len() as int) == suffix
}

/// Whether the string ends with the suffix.
pub fn str_ends_with(s: &str, suffix: &str) -> (r: bool)
    ensures
        r == spec_ends_with(s@, suffix@),
{
    let n = s.unicode_len();
    let m = suffix.unicode_len();
    if m > n {
        return false;
    }
    let mut i: usize = 0;
    while i < m
        invariant
            i <= m,
            m <= n,
            n == s@.len(),
            m == suffix@.len(),
            forall|j: int| 0 <= j < i ==> s@[n - m + j] == suffix@[j],
        decreases m - i,
    {
        if s.get_char(n - m + i) != suffix.get_char(i) {
            proof {
                assert(s@.subrange(s@.len() - suffix@.len(), s@.len() as int)[i as int]
                    != suffix@[i as int]);
            }
            return false;
        }
        i += 1;
    }
    proof {
        assert(s@.subrange(s@.len() - suffix@.len(), s@.len() as int) =~= suffix@);
    }
    true
}

/// Whether `s` starts with `prefix`, over character sequences.
pub open spec fn spec_starts_with(s: Seq<char>, prefix: Seq<char>) -> bool {
    s.len() >= prefix.len() && s.subrange(0, prefix.len() as int) == prefix
}

/// Whether the string starts with the prefix.
pub fn str_starts_with(s: &str, prefix: &str) -> (r: bool)
    ensures
        r == spec_starts_with(s@, prefix@),
{
    let n = s.unicode_len();
    let m = prefix.unicode_len();
    if m > n {
        return false;
    }
    let mut i: usize = 0;
    while i < m
        invariant
            i <= m,
            m <= n,
            n == s@.len(),
            m == prefix@.len(),
            forall|j: int| 0 <= j < i ==> s@[j] == prefix@[j],
        decreases m - i,
    {
        if s.get_char(i) != prefix.get_char(i) {
            proof {
                assert(s@.subrange(0, prefix@.len() as int)[i as int] != prefix@[i as int]);
            }
            return false;
        }
        i += 1;
    }
    proof {
        assert(s@.subrange(0, prefix@.len() as int) =~= prefix@);
    }
    true
}



/// Whether `pat` occurs in `s` starting at index `i`.
pub open spec fn spec_sub_at(s: Seq<char>, pat: Seq<char>, i: int) -> bool {
    0 <= i && i + pat.len() <= s.len() && s.subrange(i, i + pat.len()) == pat
}

/// Index of the first occurrence of `pat` in `s` at or after `i`, or
/// negative one when there is none.
pub open spec fn spec_find_sub_from(s: Seq<char>, pat: Seq<char>, i: int) -> int
    decreases s.len() - i,
{
    if i < 0 || i + pat.len() > s.len() {
        -1
    } else if pat.len() == 0 {
        i
    } else if spec_sub_at(s, pat, i) {
        i
    } else {
        spec_find_sub_from(s, pat, i + 1)
    }
}

/// Index of the first occurrence of `c` in `s` at or after `i`, or the
/// text's length when there is none.
pub open spec fn spec_find_char_from(s: Seq<char>, c: char, i: int) -> int
    decreases s.len() - i,
{
    if i < 0 || i >= s.len() {
        s.len() as int
    } else if s[i] == c {
        i
    } else {
        spec_find_char_from(s, c, i + 1)
    }
}

/// Whether `pat` occurs in `s` at exactly index `i`.
fn sub_matches_at(s: &str, pat: &str, i: usize) -> (r: bool)
    requires
        i + pat@.len() <= s@.len(),
        s@.len() <= usize::MAX,
    ensures
        r == spec_sub_at(s@, pat@, i as int),
{
    let m = pat.unicode_len();
    let mut j: usize = 0;
    while j < m
        invariant
            j <= m,
            m == pat@.len(),
            i + m <= s@.len(),
            s@.len() <= usize::MAX,
            forall|k: int| 0 <= k < j ==> s@[i + k] == pat@[k],
        decreases m - j,
    {
        if s.get_char(i + j) != pat.get_char(j) {
            proof {
                assert(s@.subrange(i as int, i as int + pat@.len())[j as int] != pat@[j as int]);
            }
            return false;
        }
        j += 1;
    }
    proof {
        assert(s@.subrange(i as int, i as int + pat@.len()) =~= pat@);
    }
    true
}

/// Index of the first occurrence of `pat` in `s`, if any.
pub fn str_find_sub(s: &str, pat: &str) -> (r: Option<usize>)
    ensures
        match r {
            Some(i) => i == spec_find_sub_from(s@, pat@, 0),
            None => spec_find_sub_from(s@, pat@, 0) == -1,
        },
{
    let n = s.unicode_len();
    let m = pat.unicode_len();
    if m > n {
        return None;
    }
    if m == 0 {
        return Some(0);
    }
    let mut i: usize = 0;
    while i <= n - m
        invariant
            i <= n - m + 1,
            n == s@.len(),
            m == pat@.len(),
            1 <= m <= n,
            spec_find_sub_from(s@, pat@, i as int) == spec_find_sub_from(s@, pat@, 0),
        decreases n - i,
    {
        if sub_matches_at(s, pat, i) {
            return Some(i);
        }
        i += 1;
    }
    None
}

/// Index of the first occurrence of `c` in `s` at or after `from`, or
/// the text's length.
pub fn str_find_char_from(s: &str, c: char, from: usize) -> (r: usize)
    requires
        from <= s@.len(),
    ensures
        r == spec_find_char_from(s@, c, from as int),
        from <= r <= s@.len(),
{
    let n = s.unicode_len();
    let mut i: usize = from;
    while i < n
        invariant
            from <= i <= n,
            n == s@.len(),
            spec_find_char_from(s@, c, i as int) == spec_find_char_from(s@, c, from as int),
        decreases n - i,
    {
        if s.get_char(i) == c {
            return i;
        }
        i += 1;
    }
    n
}

/// The characters of the plain scheme prefix.
pub open spec fn http_pat() -> Seq<char> {
    seq!['h', 't', 't', 'p', ':']
}

/// The characters of the secure scheme prefix.
pub open spec fn https_rep() -> Seq<char> {
    seq!['h', 't', 't', 'p', 's', ':']
}

/// The text with every occurrence of `http:` replaced by `https:`, from
/// index `i` on.
pub open spec fn spec_replace_http_from(s: Seq<char>, i: int) -> Seq<char>
    decreases s.len() - i,
{
    if i < 0 || i >= s.len() {
        Seq::empty()
    } else if spec_sub_at(s, http_pat(), i) {
        https_rep() + spec_replace_http_from(s, i + 5)
    } else {
        seq![s[i]] + spec_replace_http_from(s, i + 1)
    }
}

/// The text with every occurrence of `http:` replaced by `https:`.
pub fn replace_http_with_https(s: &str) -> (r: String)
    ensures
        r@ == spec_replace_http_from(s@, 0),
{
    let n = s.unicode_len();
    let mut out = String::new();
    let mut i: usize = 0;
    while i < n
        invariant
            i <= n,
            n == s@.len(),
            out@ + spec_replace_http_from(s@, i as int) == spec_replace_http_from(s@, 0),
        decreases n - i,
    {
        let ghost out_old = out@;
        proof {
            reveal_strlit("http:");
            reveal_strlit("https:");
            assert("http:"@ =~= http_pat());
            assert("https:"@ =~= https_rep());
        }
        let hit = if n - i >= 5 {
            sub_matches_at(s, "http:", i)
        } else {
            false
        };
        proof {
            if !hit {
                assert(!spec_sub_at(s@, http_pat(), i as int));
            }
        }
        if hit {
            out.append("https:");
            proof {
                assert((out_old + https_rep()) + spec_replace_http_from(s@, i as int + 5)
                    =~= out_old + (https_rep() + spec_replace_http_from(s@, i as int + 5)));
            }
            i += 5;
        } else {
            let one = s.substring_char(i, i + 1);
            out.append(one);
            proof {
                assert(one@ =~= seq![s@[i as int]]);
                assert((out_old + seq![s@[i as int]]) + spec_replace_http_from(s@, i as int + 1)
                    =~= out_old + (seq![s@[i as int]] + spec_replace_http_from(s@, i as int + 1)));
            }
            i += 1;
        }
    }
    proof {
        assert(spec_replace_http_from(s@, n as int) =~= Seq::<char>::empty());
        assert(out@ =~= out@ + Seq::<char>::empty());
    }
    out
}


/// The text with every leading occurrence of `c` removed.
pub open spec fn spec_trim_start_char(s: Seq<char>, c: char) -> Seq<char>
    decreases s.len(),
{
    if s.len() > 0 && s[0] == c {
        spec_trim_start_char(s.subrange(1, s.len() as int), c)
    } else {
        s
    }
}

/// The text with every trailing occurrence of `pat` removed.
pub open spec fn spec_trim_end_sub(s: Seq<char>, pat: Seq<char>) -> Seq<char>
    decreases s.len(),
{
    if pat.len() > 0 && spec_ends_with(s, pat) {
        spec_trim_end_sub(s.take(s.len() - pat.len()), pat)
    } else {
        s
    }
}

/// Removes every leading occurrence of `c`.
pub fn trim_start_char<'a>(s: &'a str, c: char) -> (r: &'a str)
    ensures
        r@ == spec_trim_start_char(s@, c),
{
    let n = s.unicode_len();
    proof {
        assert(s@.subrange(0, n as int) =~= s@);
    }
    let mut i: usize = 0;
    while i < n
        invariant
            i <= n,
            n == s@.len(),
            spec_trim_start_char(s@.subrange(i as int, n as int), c) == spec_trim_start_char(
                s@,
                c,
            ),
        decreases n - i,
    {
        if s.get_char(i) != c {
            let r = s.substring_char(i, n);
            proof {
                assert(r@ == s@.subrange(i as int, n as int));
            }
            return r;
        }
        proof {
            assert(s@.subrange(i as int, n as int).subrange(
                1,
                s@.subrange(i as int, n as int).len() as int,
            ) =~= s@.subrange(i as int + 1, n as int));
        }
        i += 1;
    }
    proof {
        assert(s@.subrange(n as int, n as int) =~= Seq::<char>::empty());
    }
    s.substring_char(n, n)
}

/// Removes every trailing occurrence of `pat`.
pub fn trim_end_sub<'a>(s: &'a str, pat: &str) -> (r: &'a str)
    requires
        pat@.len() > 0,
    ensures
        r@ == spec_trim_end_sub(s@, pat@),
    decreases s@.len(),
{
    if str_ends_with(s, pat) {
        let n = s.unicode_len();
        let m = pat.unicode_len();
        let shorter = s.substring_char(0, n - m);
        proof {
            assert(shorter@ == s@.take(s@.len() - pat@.len()));
        }
        trim_end_sub(shorter, pat)
    } else {
        s
    }
}
} // verus!
