//! Small verified string utilities: prefix tests, lexicographic comparison,
//! cloning helpers and decimal rendering of integers.
use vstd::prelude::*;

verus! {

/// The view of an optional string.
pub open spec fn opt_view(o: Option<String>) -> Option<Seq<char>> {
    match o {
        Some(s) => Some(s@),
        None => None,
    }
}

/// `p` is a prefix of `s`.
pub open spec fn starts_with_spec(s: Seq<char>, p: Seq<char>) -> bool {
    s.len() >= p.len() && s.subrange(0, p.len() as int) == p
}

/// Whether `s` starts with `prefix`, compared character by character.
pub fn str_starts_with(s: &str, prefix: &str) -> (r: bool)
    ensures
        r == starts_with_spec(s@, prefix@),
{
    let n = prefix.unicode_len();
    let m = s.unicode_len();
    if m < n {
        return false;
    }
    let mut i: usize = 0;
    while i < n
        invariant
            i <= n <= m,
            n == prefix@.len(),
            m == s@.len(),
            forall|j: int| 0 <= j < i ==> s@[j] == prefix@[j],
        decreases n - i,
    {
        if s.get_char(i) != prefix.get_char(i) {
            assert(!starts_with_spec(s@, prefix@)) by {
                assert(s@.subrange(0, n as int)[i as int] == s@[i as int]);
            }
            return false;
        }
        i = i + 1;
    }
    assert(s@.subrange(0, n as int) =~= prefix@);
    true
}

/// Lexicographic order on character sequences, by code point.
pub open spec fn seq_char_le(a: Seq<char>, b: Seq<char>) -> bool
    decreases a.len(),
{
    if a.len() == 0 {
        true
    } else if b.len() == 0 {
        false
    } else if a[0] == b[0] {
        seq_char_le(a.drop_first(), b.drop_first())
    } else {
        (a[0] as u32) < (b[0] as u32)
    }
}

/// Distinct characters have distinct code points.
proof fn lemma_char_cast_injective(c: char, d: char)
    requires
        c != d,
    ensures
        (c as u32) != (d as u32),
{
}

/// The lexicographic order is total.
pub proof fn lemma_seq_char_le_total(a: Seq<char>, b: Seq<char>)
    ensures
        seq_char_le(a, b) || seq_char_le(b, a),
    decreases a.len(),
{
    if a.len() == 0 {
        assert(seq_char_le(a, b));
    } else if b.len() == 0 {
        assert(seq_char_le(b, a));
    } else if a[0] == b[0] {
        lemma_seq_char_le_total(a.drop_first(), b.drop_first());
        assert(seq_char_le(a, b) == seq_char_le(a.drop_first(), b.drop_first()));
        assert(seq_char_le(b, a) == seq_char_le(b.drop_first(), a.drop_first()));
    } else {
        lemma_char_cast_injective(a[0], b[0]);
    }
}

/// The lexicographic order is transitive.
pub proof fn lemma_seq_char_le_trans(a: Seq<char>, b: Seq<char>, c: Seq<char>)
    requires
        seq_char_le(a, b),
        seq_char_le(b, c),
    ensures
        seq_char_le(a, c),
    decreases a.len(),
{
    if a.len() > 0 && b.len() > 0 && c.len() > 0 {
        if a[0] == b[0] && b[0] == c[0] {
            lemma_seq_char_le_trans(a.drop_first(), b.drop_first(), c.drop_first());
        }
    }
}

/// Skipping a common prefix of length `i` does not change the order.
proof fn lemma_seq_char_le_common_prefix(a: Seq<char>, b: Seq<char>, i: int)
    requires
        0 <= i <= a.len(),
        i <= b.len(),
        forall|j: int| 0 <= j < i ==> a[j] == b[j],
    ensures
        seq_char_le(a, b) == seq_char_le(a.skip(i), b.skip(i)),
    decreases i,
{
    if i > 0 {
        assert(a.len() > 0 && b.len() > 0 && a[0] == b[0]);
        assert(a.drop_first().skip(i - 1) =~= a.skip(i));
        assert(b.drop_first().skip(i - 1) =~= b.skip(i));
        assert(forall|j: int| 0 <= j < i - 1 ==> a.drop_first()[j] == b.drop_first()[j]);
        lemma_seq_char_le_common_prefix(a.drop_first(), b.drop_first(), i - 1);
    } else {
        assert(a.skip(0) =~= a);
        assert(b.skip(0) =~= b);
    }
}

/// Whether `a` is lexicographically at most `b`, by code point.
pub fn str_le(a: &str, b: &str) -> (r: bool)
    ensures
        r == seq_char_le(a@, b@),
{
    let n = a.unicode_len();
    let m = b.unicode_len();
    let mut i: usize = 0;
    while i < n && i < m
        invariant
            0 <= i <= n,
            i <= m,
            n == a@.len(),
            m == b@.len(),
            forall|j: int| 0 <= j < i ==> a@[j] == b@[j],
        decreases n - i,
    {
        let ca = a.get_char(i);
        let cb = b.get_char(i);
        if ca != cb {
            proof {
                lemma_seq_char_le_common_prefix(a@, b@, i as int);
            }
            return (ca as u32) < (cb as u32);
        }
        i = i + 1;
    }
    proof {
        lemma_seq_char_le_common_prefix(a@, b@, i as int);
    }
    n <= m
}

/// Clone of an optional string.
pub fn clone_opt_string(o: &Option<String>) -> (r: Option<String>)
    ensures
        r == *o,
{
    match o {
        None => None,
        Some(s) => Some(s.clone()),
    }
}

/// Clone of a vector of strings.
pub fn clone_string_vec(v: &Vec<String>) -> (r: Vec<String>)
    ensures
        r@ == v@,
{
    let mut r: Vec<String> = Vec::new();
    let mut i: usize = 0;
    while i < v.len()
        invariant
            i <= v.len(),
            r@ =~= v@.subrange(0, i as int),
        decreases v.len() - i,
    {
        r.push(v[i].clone());
        i = i + 1;
    }
    assert(v@.subrange(0, v.len() as int) =~= v@);
    r
}

/// The character for one decimal digit.
pub open spec fn digit_char(d: int) -> char {
    if d == 0 {
        '0'
    } else if d == 1 {
        '1'
    } else if d == 2 {
        '2'
    } else if d == 3 {
        '3'
    } else if d == 4 {
        '4'
    } else if d == 5 {
        '5'
    } else if d == 6 {
        '6'
    } else if d == 7 {
        '7'
    } else if d == 8 {
        '8'
    } else {
        '9'
    }
}

/// The decimal digits of a nonnegative integer, most significant first.
pub open spec fn dec_digits(n: int) -> Seq<char>
    decreases n,
{
    if n < 10 {
        seq![digit_char(n)]
    } else {
        dec_digits(n / 10).push(digit_char(n % 10))
    }
}

/// Digit characters for a reversed sequence of digit values.
spec fn rev_digit_chars(ds: Seq<u8>) -> Seq<char>
    decreases ds.len(),
{
    if ds.len() == 0 {
        Seq::empty()
    } else {
        seq![digit_char(ds.last() as int)] + rev_digit_chars(ds.drop_last())
    }
}

proof fn lemma_rev_digit_chars_index(ds: Seq<u8>)
    ensures
        rev_digit_chars(ds).len() == ds.len(),
        forall|k: int|
            0 <= k < ds.len() ==> rev_digit_chars(ds)[k] == digit_char(
                ds[ds.len() - 1 - k] as int,
            ),
    decreases ds.len(),
{
    if ds.len() > 0 {
        lemma_rev_digit_chars_index(ds.drop_last());
    }
}

/// The decimal rendering of `n`, as with the `Display` form of an integer.
pub fn u32_to_string(n: u32) -> (r: String)
    ensures
        r@ == dec_digits(n as int),
{
    if n == 0 {
        let zero = String::from_str("0");
        proof {
            reveal_strlit("0");
            assert(zero@ =~= dec_digits(0));
        }
        return zero;
    }
    let table = "0123456789";
    proof {
        reveal_strlit("0123456789");
    }
    let mut digits: Vec<u8> = Vec::new();
    let mut m = n;
    loop
        invariant_except_break
            1 <= m <= n,
            dec_digits(n as int) =~= dec_digits(m as int) + rev_digit_chars(digits@),
        invariant
            forall|j: int| 0 <= j < digits@.len() ==> digits@[j] < 10,
        ensures
            digits@.len() > 0,
            dec_digits(n as int) =~= rev_digit_chars(digits@),
        decreases m,
    {
        let ghost old_digits = digits@;
        let ghost old_m = m as int;
        let d = m % 10;
        digits.push(d as u8);
        m = m / 10;
        proof {
            assert(digits@.drop_last() =~= old_digits);
            assert(rev_digit_chars(digits@) =~= seq![digit_char(d as int)] + rev_digit_chars(
                old_digits,
            ));
            if old_m >= 10 {
                assert(dec_digits(old_m) =~= dec_digits(old_m / 10) + seq![
                    digit_char(old_m % 10),
                ]);
                assert(dec_digits(n as int) =~= dec_digits(m as int) + rev_digit_chars(digits@));
            } else {
                assert(dec_digits(old_m) =~= seq![digit_char(old_m)]);
                assert(dec_digits(n as int) =~= rev_digit_chars(digits@));
            }
        }
        if m == 0 {
            break;
        }
    }
    proof {
        lemma_rev_digit_chars_index(digits@);
    }
    let len = digits.len();
    let mut out = String::new();
    let mut i: usize = len;
    while i > 0
        invariant
            i <= len,
            len == digits@.len(),
            forall|j: int| 0 <= j < digits@.len() ==> digits@[j] < 10,
            table@ =~= "0123456789"@,
            table@.len() == 10,
            forall|d: int| 0 <= d < 10 ==> table@[d] == digit_char(d),
            out@.len() == len - i,
            forall|k: int|
                0 <= k < len - i ==> out@[k] == digit_char(digits@[len - 1 - k] as int),
        decreases i,
    {
        let d = digits[i - 1];
        let piece = table.substring_char(d as usize, d as usize + 1);
        out.append(piece);
        i = i - 1;
    }
    proof {
        assert(out@ =~= rev_digit_chars(digits@));
    }
    out
}

} // verus!

verus! {

/// Index of the last occurrence of `c` in `s`, or -1 when there is none.
pub open spec fn last_index_of(s: Seq<char>, c: char) -> int
    decreases s.len(),
{
    if s.len() == 0 {
        -1
    } else if s[s.len() - 1] == c {
        s.len() - 1
    } else {
        last_index_of(s.drop_last(), c)
    }
}

pub proof fn lemma_last_index_at(s: Seq<char>, c: char, k: int)
    requires
        0 <= k < s.len(),
        s[k] == c,
        forall|j: int| k < j < s.len() ==> s[j] != c,
    ensures
        last_index_of(s, c) == k,
    decreases s.len(),
{
    if k < s.len() - 1 {
        lemma_last_index_at(s.drop_last(), c, k);
    }
}

pub proof fn lemma_last_index_none(s: Seq<char>, c: char)
    requires
        forall|j: int| 0 <= j < s.len() ==> s[j] != c,
    ensures
        last_index_of(s, c) == -1,
    decreases s.len(),
{
    if s.len() > 0 {
        lemma_last_index_none(s.drop_last(), c);
    }
}

/// The index of the last occurrence of `c` in `s`, if any.
pub fn rfind_char(s: &str, c: char) -> (r: Option<usize>)
    ensures
        r is None <==> last_index_of(s@, c) == -1,
        r matches Some(i) ==> last_index_of(s@, c) == i && i < s@.len(),
{
    let len = s.unicode_len();
    let mut i: usize = len;
    while i > 0
        invariant
            i <= len,
            len == s@.len(),
            forall|j: int| i <= j < len ==> s@[j] != c,
        decreases i,
    {
        if s.get_char(i - 1) == c {
            proof {
                lemma_last_index_at(s@, c, i - 1);
            }
            return Some(i - 1);
        }
        i = i - 1;
    }
    proof {
        lemma_last_index_none(s@, c);
    }
    None
}

} // verus!
