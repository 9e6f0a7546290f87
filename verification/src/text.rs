//! Verified string helpers over character sequences.

use vstd::prelude::*;
use vstd::string::*;

verus! {

/// Whether `s` starts with `prefix` (as character sequences).
pub open spec fn seq_starts_with(s: Seq<char>, prefix: Seq<char>) -> bool {
    prefix.len() <= s.len() && s.subrange(0, prefix.len() as int) == prefix
}

/// Whether `pat` occurs in `s` at character position `i`.
pub open spec fn occurs_at(s: Seq<char>, pat: Seq<char>, i: int) -> bool {
    0 <= i && i + pat.len() <= s.len() && s.subrange(i, i + pat.len()) == pat
}

/// Whether `pat` occurs anywhere in `s`.
pub open spec fn seq_contains(s: Seq<char>, pat: Seq<char>) -> bool {
    exists|i: int| occurs_at(s, pat, i)
}

/// Character-wise equality of two string slices.
pub fn str_eq(a: &str, b: &str) -> (r: bool)
    ensures
        r == (a@ == b@),
{
    let n = a.unicode_len();
    if n != b.unicode_len() {
        return false;
    }
    let mut i: usize = 0;
    while i < n
        invariant
            n == a@.len(),
            n == b@.len(),
            i <= n,
            forall|j: int| 0 <= j < i ==> a@[j] == b@[j],
        decreases n - i,
    {
        if a.get_char(i) != b.get_char(i) {
            return false;
        }
        i = i + 1;
    }
    assert(a@ =~= b@);
    true
}

/// Whether `pat` occurs in `s` starting at character position `i`.
pub fn matches_at(s: &str, pat: &str, i: usize) -> (r: bool)
    requires
        i <= s@.len(),
    ensures
        r == occurs_at(s@, pat@, i as int),
{
    let n = s.unicode_len();
    let m = pat.unicode_len();
    if m > n - i {
        return false;
    }
    let mut k: usize = 0;
    while k < m
        invariant
            n == s@.len(),
            m == pat@.len(),
            i + m <= n,
            k <= m,
            forall|j: int| 0 <= j < k ==> s@[i + j] == pat@[j],
        decreases m - k,
    {
        if s.get_char(i + k) != pat.get_char(k) {
            assert(s@.subrange(i as int, i + m)[k as int] != pat@[k as int]);
            return false;
        }
        k = k + 1;
    }
    assert(s@.subrange(i as int, i + m) =~= pat@);
    true
}

/// Whether `s` starts with `prefix`.
pub fn starts_with(s: &str, prefix: &str) -> (r: bool)
    ensures
        r == seq_starts_with(s@, prefix@),
{
    matches_at(s, prefix, 0)
}

/// The first character position at which `pat` occurs in `s`.
pub fn find(s: &str, pat: &str) -> (r: Option<usize>)
    ensures
        r matches Some(i) ==> occurs_at(s@, pat@, i as int) && forall|j: int|
            0 <= j < i ==> !occurs_at(s@, pat@, j),
        r is None ==> !seq_contains(s@, pat@),
{
    let n = s.unicode_len();
    let mut i: usize = 0;
    loop
        invariant
            n == s@.len(),
            i <= n,
            forall|j: int| 0 <= j < i ==> !occurs_at(s@, pat@, j),
        ensures
            forall|j: int| 0 <= j <= n ==> !occurs_at(s@, pat@, j),
        decreases n - i,
    {
        if matches_at(s, pat, i) {
            return Some(i);
        }
        if i == n {
            break;
        }
        i = i + 1;
    }
    assert forall|j: int| !occurs_at(s@, pat@, j) by {
        if 0 <= j <= n {
        }
    }
    None
}

/// Whether `pat` occurs in `s`.
pub fn contains(s: &str, pat: &str) -> (r: bool)
    ensures
        r == seq_contains(s@, pat@),
{
    find(s, pat).is_some()
}

/// Concatenation of two string slices into a fresh string.
pub fn concat2(a: &str, b: &str) -> (r: String)
    ensures
        r@ == a@ + b@,
{
    let mut r = String::from_str(a);
    r.append(b);
    r
}

/// Concatenation of three string slices into a fresh string.
pub fn concat3(a: &str, b: &str, c: &str) -> (r: String)
    ensures
        r@ == a@ + b@ + c@,
{
    let mut r = String::from_str(a);
    r.append(b);
    r.append(c);
    r
}

/// Concatenation of four string slices into a fresh string.
pub fn concat4(a: &str, b: &str, c: &str, d: &str) -> (r: String)
    ensures
        r@ == a@ + b@ + c@ + d@,
{
    let mut r = String::from_str(a);
    r.append(b);
    r.append(c);
    r.append(d);
    r
}

/// Concatenation of five string slices into a fresh string.
pub fn concat5(a: &str, b: &str, c: &str, d: &str, e: &str) -> (r: String)
    ensures
        r@ == a@ + b@ + c@ + d@ + e@,
{
    let mut r = String::from_str(a);
    r.append(b);
    r.append(c);
    r.append(d);
    r.append(e);
    r
}

} // verus!

verus! {

/// An identical copy of an optional string.
pub fn dup_opt(o: &Option<String>) -> (r: Option<String>)
    ensures
        r == *o,
{
    match o {
        Some(s) => Some(s.clone()),
        None => None,
    }
}

/// An identical copy of a list of strings.
pub fn dup_strings(v: &Vec<String>) -> (r: Vec<String>)
    ensures
        r@ == v@,
{
    let mut r: Vec<String> = Vec::new();
    let mut i: usize = 0;
    while i < v.len()
        invariant
            i <= v.len(),
            r@ == v@.subrange(0, i as int),
        decreases v.len() - i,
    {
        r.push(v[i].clone());
        i = i + 1;
        assert(r@ =~= v@.subrange(0, i as int));
    }
    assert(v@.subrange(0, v.len() as int) =~= v@);
    r
}

} // verus!

verus! {

/// The character of digit `d` (0 to 15), in lower-case hexadecimal.
pub open spec fn digit_char(d: nat) -> char {
    if d == 0 { '0' } else if d == 1 { '1' } else if d == 2 { '2' } else if d == 3 { '3' }
    else if d == 4 { '4' } else if d == 5 { '5' } else if d == 6 { '6' } else if d == 7 { '7' }
    else if d == 8 { '8' } else if d == 9 { '9' } else if d == 10 { 'a' } else if d == 11 { 'b' }
    else if d == 12 { 'c' } else if d == 13 { 'd' } else if d == 14 { 'e' } else { 'f' }
}

/// The digits of `n` in base `base`, most significant first, without
/// leading zeros.
pub open spec fn digits(n: nat, base: nat) -> Seq<char>
    decreases n,
{
    if base < 2 || n < base {
        seq![digit_char(n)]
    } else {
        proof {
            assert(n / base < n) by (nonlinear_arith)
                requires
                    base >= 2,
                    n >= base,
            ;
        }
        digits(n / base, base).push(digit_char(n % base))
    }
}

fn digit_str(d: u64) -> (r: &'static str)
    requires
        d < 16,
    ensures
        r@ == seq![digit_char(d as nat)],
{
    proof {
        reveal_strlit("0");
        reveal_strlit("1");
        reveal_strlit("2");
        reveal_strlit("3");
        reveal_strlit("4");
        reveal_strlit("5");
        reveal_strlit("6");
        reveal_strlit("7");
        reveal_strlit("8");
        reveal_strlit("9");
        reveal_strlit("a");
        reveal_strlit("b");
        reveal_strlit("c");
        reveal_strlit("d");
        reveal_strlit("e");
        reveal_strlit("f");
    }
    if d == 0 { "0" } else if d == 1 { "1" } else if d == 2 { "2" } else if d == 3 { "3" }
    else if d == 4 { "4" } else if d == 5 { "5" } else if d == 6 { "6" } else if d == 7 { "7" }
    else if d == 8 { "8" } else if d == 9 { "9" } else if d == 10 { "a" } else if d == 11 { "b" }
    else if d == 12 { "c" } else if d == 13 { "d" } else if d == 14 { "e" } else { "f" }
}

fn write_digits(n: u64, base: u64, out: &mut String)
    requires
        2 <= base <= 16,
    ensures
        final(out)@ == old(out)@ + digits(n as nat, base as nat),
    decreases n,
{
    let ghost start = out@;
    assert(n % base < base) by (nonlinear_arith)
        requires
            base >= 2,
    ;
    if n >= base {
        assert(n / base < n) by (nonlinear_arith)
            requires
                base >= 2,
                n >= base,
        ;
        write_digits(n / base, base, out);
    }
    let ghost mid = out@;
    out.append(digit_str(n % base));
    proof {
        let d = digit_char((n % base) as nat);
        assert(out@ == mid + seq![d]);
        if n >= base {
            assert(digits(n as nat, base as nat) == digits((n / base) as nat, base as nat).push(d));
            assert(mid == start + digits((n / base) as nat, base as nat));
        } else {
            assert(n % base == n) by (nonlinear_arith)
                requires
                    n < base,
            ;
            assert(digits(n as nat, base as nat) == seq![d]);
            assert(mid == start);
        }
        assert(out@ =~= start + digits(n as nat, base as nat));
    }
}

/// The decimal text of `n`.
pub fn decimal(n: u64) -> (r: String)
    ensures
        r@ == digits(n as nat, 10),
{
    let mut r = String::new();
    write_digits(n, 10, &mut r);
    assert(r@ =~= digits(n as nat, 10));
    r
}

/// The lower-case hexadecimal text of `n`.
pub fn hexadecimal(n: u64) -> (r: String)
    ensures
        r@ == digits(n as nat, 16),
{
    let mut r = String::new();
    write_digits(n, 16, &mut r);
    assert(r@ =~= digits(n as nat, 16));
    r
}

} // verus!

verus! {

/// The first position at which `pat` occurs in `s`.
pub open spec fn first_occurrence(s: Seq<char>, pat: Seq<char>) -> int {
    choose|i: int| occurs_at(s, pat, i) && forall|j: int| 0 <= j < i ==> !occurs_at(s, pat, j)
}

/// `s` split around the first occurrence of `pat`, when there is one.
pub open spec fn split_first(s: Seq<char>, pat: Seq<char>) -> Option<(Seq<char>, Seq<char>)> {
    if seq_contains(s, pat) {
        let i = first_occurrence(s, pat);
        Some((s.subrange(0, i), s.subrange(i + pat.len(), s.len() as int)))
    } else {
        None
    }
}

/// Split `s` around the first occurrence of `pat`.
pub fn split_once(s: &str, pat: &str) -> (r: Option<(String, String)>)
    ensures
        match r {
            Some((a, b)) => split_first(s@, pat@) == Some((a@, b@)),
            None => split_first(s@, pat@) is None,
        },
{
    match find(s, pat) {
        Some(i) => {
            let n = s.unicode_len();
            let m = pat.unicode_len();
            proof {
                let c = first_occurrence(s@, pat@);
                assert(occurs_at(s@, pat@, i as int));
                assert(c == i) by {
                    if c < i {
                        assert(!occurs_at(s@, pat@, c));
                    } else if c > i {
                    }
                }
            }
            let a = s.substring_char(0, i).to_owned();
            let b = s.substring_char(i + m, n).to_owned();
            Some((a, b))
        },
        None => None,
    }
}

/// Whether every character of `s` is a decimal digit.
pub open spec fn all_digits(s: Seq<char>) -> bool {
    forall|i: int| 0 <= i < s.len() ==> '0' <= #[trigger] s[i] <= '9'
}

/// The value of a run of decimal digits.
pub open spec fn digits_value(s: Seq<char>) -> nat
    decreases s.len(),
{
    if s.len() == 0 {
        0
    } else {
        digits_value(s.drop_last()) * 10 + ((s.last() as nat) - ('0' as nat)) as nat
    }
}

/// The digits of a number, after an optional `+` sign.
pub open spec fn unsigned_digits(s: Seq<char>) -> Seq<char> {
    if s.len() > 0 && s[0] == '+' {
        s.drop_first()
    } else {
        s
    }
}

/// What `u16::from_str` gives: an optional `+`, then at least one decimal
/// digit, with a value that fits in 16 bits.
pub open spec fn parse_u16_spec(s: Seq<char>) -> Option<u16> {
    let d = unsigned_digits(s);
    if d.len() > 0 && all_digits(d) && digits_value(d) <= 65535 {
        Some(digits_value(d) as u16)
    } else {
        None
    }
}

proof fn lemma_digits_value_prefix(s: Seq<char>, i: int)
    requires
        0 <= i <= s.len(),
        all_digits(s),
    ensures
        digits_value(s.subrange(0, i)) <= digits_value(s),
    decreases s.len(),
{
    if i < s.len() {
        assert(all_digits(s.drop_last()));
        assert(s.drop_last().subrange(0, i) =~= s.subrange(0, i));
        lemma_digits_value_prefix(s.drop_last(), i);
    } else {
        assert(s.subrange(0, i) =~= s);
    }
}

/// Parse a 16-bit unsigned number as `u16::from_str` does.
pub fn parse_u16(s: &str) -> (r: Option<u16>)
    ensures
        r == parse_u16_spec(s@),
{
    let n = s.unicode_len();
    let mut i: usize = 0;
    if n > 0 && s.get_char(0) == '+' {
        i = 1;
    }
    let start = i;
    let ghost d = unsigned_digits(s@);
    assert(d =~= s@.subrange(start as int, n as int));
    if start == n {
        return None;
    }
    let mut value: u32 = 0;
    assert(d.subrange(0, 0) =~= Seq::<char>::empty());
    while i < n
        invariant
            n == s@.len(),
            start <= i <= n,
            start < n,
            d == s@.subrange(start as int, n as int),
            d == unsigned_digits(s@),
            all_digits(d.subrange(0, i - start)),
            value as nat == digits_value(d.subrange(0, i - start)),
            value <= 65535,
        decreases n - i,
    {
        let c = s.get_char(i);
        if c < '0' || c > '9' {
            assert(d[i - start] == c);
            assert(!all_digits(d));
            return None;
        }
        let digit = (c as u32) - ('0' as u32);
        let next = value * 10 + digit;
        proof {
            let p = d.subrange(0, i - start + 1);
            assert(p.drop_last() =~= d.subrange(0, i - start));
            assert(p.last() == c);
        }
        if next > 65535 {
            proof {
                let p = d.subrange(0, i - start + 1);
                if all_digits(d) {
                    lemma_digits_value_prefix(d, i - start + 1);
                }
            }
            return None;
        }
        value = next;
        i = i + 1;
    }
    assert(d.subrange(0, n - start) =~= d);
    Some(value as u16)
}

} // verus!

verus! {

/// A run of decimal digits whose value fits in 64 bits.
pub open spec fn parse_u64_spec(s: Seq<char>) -> Option<u64> {
    if s.len() > 0 && all_digits(s) && digits_value(s) <= u64::MAX {
        Some(digits_value(s) as u64)
    } else {
        None
    }
}

/// Parse a run of decimal digits into a 64-bit number.
pub fn parse_u64_digits(s: &str) -> (r: Option<u64>)
    ensures
        r == parse_u64_spec(s@),
{
    let n = s.unicode_len();
    if n == 0 {
        return None;
    }
    let mut value: u64 = 0;
    let mut i: usize = 0;
    assert(s@.subrange(0, 0) =~= Seq::<char>::empty());
    while i < n
        invariant
            n == s@.len(),
            0 < n,
            i <= n,
            all_digits(s@.subrange(0, i as int)),
            value as nat == digits_value(s@.subrange(0, i as int)),
        decreases n - i,
    {
        let c = s.get_char(i);
        if c < '0' || c > '9' {
            assert(!all_digits(s@));
            return None;
        }
        let digit = (c as u64) - ('0' as u64);
        proof {
            let p = s@.subrange(0, i + 1);
            assert(p.drop_last() =~= s@.subrange(0, i as int));
            assert(p.last() == c);
        }
        let next = match value.checked_mul(10) {
            Some(v) => v.checked_add(digit),
            None => None,
        };
        match next {
            Some(v) => {
                value = v;
            },
            None => {
                proof {
                    if all_digits(s@) {
                        lemma_digits_value_prefix(s@, i + 1);
                    }
                }
                return None;
            },
        }
        i = i + 1;
    }
    assert(s@.subrange(0, n as int) =~= s@);
    Some(value)
}

/// What a canonical JSON number text gives as a signed 64-bit integer: an
/// optional minus sign and decimal digits, in range.
pub open spec fn parse_i64_spec(s: Seq<char>) -> Option<i64> {
    if s.len() > 0 && s[0] == '-' {
        let d = s.drop_first();
        if d.len() > 0 && all_digits(d) && digits_value(d) <= 0x8000_0000_0000_0000 {
            Some((0 - digits_value(d)) as i64)
        } else {
            None
        }
    } else if s.len() > 0 && all_digits(s) && digits_value(s) <= i64::MAX {
        Some(digits_value(s) as i64)
    } else {
        None
    }
}

/// Parse a canonical JSON integer text into a signed 64-bit number.
pub fn parse_i64_text(s: &str) -> (r: Option<i64>)
    ensures
        r == parse_i64_spec(s@),
{
    let n = s.unicode_len();
    if n > 0 && s.get_char(0) == '-' {
        let rest = s.substring_char(1, n);
        assert(rest@ =~= s@.drop_first());
        match parse_u64_digits(rest) {
            Some(v) => if v <= 0x8000_0000_0000_0000 {
                if v == 0x8000_0000_0000_0000 {
                    Some(i64::MIN)
                } else {
                    Some(0 - (v as i64))
                }
            } else {
                None
            },
            None => None,
        }
    } else {
        match parse_u64_digits(s) {
            Some(v) => if v <= 0x7fff_ffff_ffff_ffff {
                Some(v as i64)
            } else {
                None
            },
            None => None,
        }
    }
}

/// The ASCII upper-case form of a character.
pub open spec fn upper_char(c: char) -> char {
    if 'a' <= c <= 'z' {
        upper_letters()[(c as u32) - 97]
    } else {
        c
    }
}

/// The upper-case letters, in order.
pub open spec fn upper_letters() -> Seq<char> {
    "ABCDEFGHIJKLMNOPQRSTUVWXYZ"@
}

/// The ASCII upper-case form of a string, as `str::to_ascii_uppercase`
/// gives it: the letters `a` to `z` become `A` to `Z`; every other
/// character is kept.
pub fn ascii_uppercase(s: &str) -> (r: String)
    ensures
        r@ == s@.map_values(|c: char| upper_char(c)),
{
    let letters = "ABCDEFGHIJKLMNOPQRSTUVWXYZ";
    proof {
        reveal_strlit("ABCDEFGHIJKLMNOPQRSTUVWXYZ");
        assert(letters@ == upper_letters());
    }
    let n = s.unicode_len();
    let mut r = String::new();
    let mut i: usize = 0;
    while i < n
        invariant
            n == s@.len(),
            i <= n,
            letters@ == upper_letters(),
            letters@.len() == 26,
            r@ == s@.subrange(0, i as int).map_values(|c: char| upper_char(c)),
        decreases n - i,
    {
        let c = s.get_char(i);
        let ghost before = r@;
        if 'a' <= c && c <= 'z' {
            let k = (c as u32 - 'a' as u32) as usize;
            r.append(letters.substring_char(k, k + 1));
            proof {
                assert(letters@.subrange(k as int, k + 1) =~= seq![letters@[k as int]]);
                assert(letters@[k as int] == upper_char(c));
            }
        } else {
            r.append(s.substring_char(i, i + 1));
            assert(s@.subrange(i as int, i + 1) =~= seq![c]);
        }
        assert(r@ =~= s@.subrange(0, i + 1).map_values(|c: char| upper_char(c)));
        i = i + 1;
    }
    assert(s@.subrange(0, n as int) =~= s@);
    r
}

} // verus!

verus! {

proof fn lemma_digit_char(d: nat)
    requires
        d < 10,
    ensures
        '0' <= digit_char(d) <= '9',
        (digit_char(d) as nat) - ('0' as nat) == d,
{
}

proof fn lemma_digits_decimal(n: nat)
    ensures
        digits(n, 10).len() > 0,
        all_digits(digits(n, 10)),
        digits_value(digits(n, 10)) == n,
    decreases n,
{
    if n < 10 {
        lemma_digit_char(n);
        let s = digits(n, 10);
        assert(s == seq![digit_char(n)]);
        assert(s.drop_last() =~= Seq::<char>::empty());
        assert(digits_value(s.drop_last()) == 0);
        assert(digits_value(s) == 0 * 10 + ((s.last() as nat) - ('0' as nat)) as nat);
    } else {
        assert(n / 10 < n);
        lemma_digits_decimal(n / 10);
        lemma_digit_char(n % 10);
        let s = digits(n, 10);
        assert(s == digits(n / 10, 10).push(digit_char(n % 10)));
        assert(s.drop_last() =~= digits(n / 10, 10));
        assert(digits_value(s) == digits_value(digits(n / 10, 10)) * 10 + (n % 10));
        assert((n / 10) * 10 + n % 10 == n) by (nonlinear_arith);
    }
}

/// Parsing the decimal text of a number gives the number back.
pub proof fn decimal_roundtrip(n: u64)
    ensures
        parse_u64_spec(digits(n as nat, 10)) == Some(n),
{
    lemma_digits_decimal(n as nat);
}

} // verus!
