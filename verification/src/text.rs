//! Text helpers shared by the path, argument and listing code: splitting at a
//! character, trimming whitespace, and rendering and parsing unsigned numbers.
use vstd::prelude::*;

verus! {

/// `s` split around the first occurrence of `c`, if there is one.
pub open spec fn split_first(s: Seq<char>, c: char) -> Option<(Seq<char>, Seq<char>)> {
    match s.index_of_first(c) {
        Some(i) => Some((s.take(i), s.skip(i + 1))),
        None => None,
    }
}

/// `s` split around the last occurrence of `c`, if there is one.
pub open spec fn split_last(s: Seq<char>, c: char) -> Option<(Seq<char>, Seq<char>)> {
    match s.index_of_last(c) {
        Some(i) => Some((s.take(i), s.skip(i + 1))),
        None => None,
    }
}

/// Whether `c` has the Unicode `White_Space` property (what `char::is_whitespace` tests).
pub open spec fn is_ws(c: char) -> bool {
    let u = c as u32;
    ||| 0x9 <= u <= 0xD
    ||| u == 0x20
    ||| u == 0x85
    ||| u == 0xA0
    ||| u == 0x1680
    ||| 0x2000 <= u <= 0x200A
    ||| u == 0x2028
    ||| u == 0x2029
    ||| u == 0x202F
    ||| u == 0x205F
    ||| u == 0x3000
}

/// `s` without its leading whitespace.
pub open spec fn trim_start(s: Seq<char>) -> Seq<char>
    decreases s.len(),
{
    if s.len() > 0 && is_ws(s[0]) {
        trim_start(s.skip(1))
    } else {
        s
    }
}

/// `s` without its trailing whitespace.
pub open spec fn trim_end(s: Seq<char>) -> Seq<char>
    decreases s.len(),
{
    if s.len() > 0 && is_ws(s.last()) {
        trim_end(s.drop_last())
    } else {
        s
    }
}

/// `s` without leading and trailing whitespace.
pub open spec fn trim(s: Seq<char>) -> Seq<char> {
    trim_end(trim_start(s))
}

/// `s` with every leading `c` removed.
pub open spec fn strip_all_start(s: Seq<char>, c: char) -> Seq<char>
    decreases s.len(),
{
    if s.len() > 0 && s[0] == c {
        strip_all_start(s.skip(1), c)
    } else {
        s
    }
}

/// The digit character for a value below 16.
pub open spec fn hex_char(d: nat, upper: bool) -> char {
    if d < 10 {
        ('0' as u32 + d) as char
    } else if upper {
        ('A' as u32 + (d - 10)) as char
    } else {
        ('a' as u32 + (d - 10)) as char
    }
}

/// `v` in base 16 without leading zeros (`"0"` for zero).
pub open spec fn hex_text(v: nat, upper: bool) -> Seq<char>
    decreases v,
{
    if v < 16 {
        seq![hex_char(v, upper)]
    } else {
        hex_text(v / 16, upper).push(hex_char(v % 16, upper))
    }
}

/// `v` in base 10 without leading zeros (`"0"` for zero).
pub open spec fn dec_text(v: nat) -> Seq<char>
    decreases v,
{
    if v < 10 {
        seq![hex_char(v, false)]
    } else {
        dec_text(v / 10).push(hex_char(v % 10, false))
    }
}

/// The value of a digit character in the given radix, if it is one
/// (`0-9`, then `a-z` or `A-Z` for 10 and up).
pub open spec fn digit_value(c: char, radix: nat) -> Option<nat> {
    let u = c as u32;
    let v: int = if '0' as u32 <= u <= '9' as u32 {
        u - '0' as u32
    } else if 'a' as u32 <= u <= 'z' as u32 {
        u - 'a' as u32 + 10
    } else if 'A' as u32 <= u <= 'Z' as u32 {
        u - 'A' as u32 + 10
    } else {
        radix as int
    };
    if v < radix {
        Some(v as nat)
    } else {
        None
    }
}

/// The value of a string of digits in the given radix (0 for the empty string),
/// or `None` if a character is not a digit.
pub open spec fn digits_value(s: Seq<char>, radix: nat) -> Option<nat>
    decreases s.len(),
{
    if s.len() == 0 {
        Some(0)
    } else {
        match (digits_value(s.drop_last(), radix), digit_value(s.last(), radix)) {
            (Some(a), Some(b)) => Some(a * radix + b),
            _ => None,
        }
    }
}

/// How an unsigned integer is read from text: an optional `+` and then at least one
/// digit of the radix, with a value no larger than `max`.
pub open spec fn parse_unsigned(s: Seq<char>, radix: nat, max: nat) -> Option<nat> {
    let d = if s.len() > 0 && s[0] == '+' {
        s.skip(1)
    } else {
        s
    };
    if d.len() == 0 {
        None
    } else {
        match digits_value(d, radix) {
            Some(v) => if v <= max {
                Some(v)
            } else {
                None
            },
            None => None,
        }
    }
}

/// A digit character reads back as its value.
pub proof fn lemma_digit_value_of_char(d: nat, radix: nat)
    requires
        d < radix <= 16,
    ensures
        digit_value(hex_char(d, false), radix) == Some(d),
{
    if d < 10 {
        assert(('0' as u32 + d) as char as u32 == 48 + d);
    } else {
        assert(('a' as u32 + (d - 10)) as char as u32 == 97 + d - 10);
    }
}

/// A number written in base 10 reads back as itself, and its text holds only digits.
pub proof fn lemma_dec_text_reads_back(v: nat)
    ensures
        digits_value(dec_text(v), 10) == Some(v),
        dec_text(v).len() > 0,
        forall|i: int| 0 <= i < dec_text(v).len() ==> '0' <= #[trigger] dec_text(v)[i] <= '9',
    decreases v,
{
    lemma_digit_value_of_char(v % 10, 10);
    assert(v == (v / 10) * 10 + v % 10);
    if v < 10 {
        assert(v % 10 == v);
        assert(dec_text(v).drop_last() =~= Seq::<char>::empty());
        assert(('0' as u32 + v) as char as u32 == 48 + v);
        assert(dec_text(v).last() == hex_char(v, false));
        assert(digits_value(Seq::<char>::empty(), 10) == Some(0nat));
        assert(digits_value(dec_text(v), 10) == Some(0 * 10 + v));
    } else {
        lemma_dec_text_reads_back(v / 10);
        assert(dec_text(v).drop_last() =~= dec_text(v / 10));
        assert(dec_text(v).last() == hex_char(v % 10, false));
        assert(digits_value(dec_text(v), 10) == Some((v / 10) * 10 + v % 10));
        assert(('0' as u32 + v % 10) as char as u32 == 48 + v % 10);
        assert forall|i: int| 0 <= i < dec_text(v).len() implies '0' <= #[trigger] dec_text(v)[i] <= '9' by {
            if i < dec_text(v).len() - 1 {
                assert(dec_text(v)[i] == dec_text(v / 10)[i]);
            }
        }
    }
}

/// A number written in base 16 (lower case) reads back as itself, and its text holds
/// only digits and the letters `a` to `f`.
pub proof fn lemma_hex_text_reads_back(v: nat)
    ensures
        digits_value(hex_text(v, false), 16) == Some(v),
        hex_text(v, false).len() > 0,
        forall|i: int|
            0 <= i < hex_text(v, false).len() ==> ('0' <= #[trigger] hex_text(v, false)[i] <= '9' || 'a'
                <= hex_text(v, false)[i] <= 'f'),
    decreases v,
{
    lemma_digit_value_of_char(v % 16, 16);
    let c = hex_char(v % 16, false);
    assert('0' <= c <= '9' || 'a' <= c <= 'f') by {
        if v % 16 < 10 {
            assert(('0' as u32 + v % 16) as char as u32 == 48 + v % 16);
        } else {
            assert(('a' as u32 + (v % 16 - 10)) as char as u32 == 97 + v % 16 - 10);
        }
    }
    assert(v == (v / 16) * 16 + v % 16);
    if v < 16 {
        assert(hex_text(v, false).drop_last() =~= Seq::<char>::empty());
        assert(v % 16 == v);
        assert(hex_text(v, false).last() == hex_char(v, false));
        assert(digits_value(Seq::<char>::empty(), 16) == Some(0nat));
        assert(digits_value(hex_text(v, false), 16) == Some(0 * 16 + v));
    } else {
        lemma_hex_text_reads_back(v / 16);
        assert(hex_text(v, false).drop_last() =~= hex_text(v / 16, false));
        assert(hex_text(v, false).last() == hex_char(v % 16, false));
        assert(digits_value(hex_text(v, false), 16) == Some((v / 16) * 16 + v % 16));
        assert forall|i: int| 0 <= i < hex_text(v, false).len() implies ('0' <= #[trigger] hex_text(
            v,
            false,
        )[i] <= '9' || 'a' <= hex_text(v, false)[i] <= 'f') by {
            if i < hex_text(v, false).len() - 1 {
                assert(hex_text(v, false)[i] == hex_text(v / 16, false)[i]);
            }
        }
    }
}

/// Characters of a string slice, by position.
pub fn char_at(s: &str, i: usize) -> (c: char)
    requires
        i < s@.len(),
    ensures
        c == s@[i as int],
{
    s.get_char(i)
}

/// Number of characters of a string slice.
pub fn char_len(s: &str) -> (n: usize)
    ensures
        n == s@.len(),
{
    s.unicode_len()
}

/// Splits `s` around the first occurrence of `c`.
pub fn split_once_char<'a>(s: &'a str, c: char) -> (res: Option<(&'a str, &'a str)>)
    ensures
        match (res, split_first(s@, c)) {
            (Some((a, b)), Some((x, y))) => a@ == x && b@ == y,
            (None, None) => true,
            _ => false,
        },
{
    let n = s.unicode_len();
    let mut i: usize = 0;
    while i < n
        invariant
            n == s@.len(),
            i <= n,
            forall|j: int| 0 <= j < i ==> s@[j] != c,
        decreases n - i,
    {
        if s.get_char(i) == c {
            proof {
                s@.index_of_first_ensures(c);
            }
            let a = s.substring_char(0, i);
            let b = s.substring_char(i + 1, n);
            return Some((a, b));
        }
        i = i + 1;
    }
    proof {
        s@.index_of_first_ensures(c);
    }
    None
}

/// Splits `s` around the last occurrence of `c`.
pub fn rsplit_once_char<'a>(s: &'a str, c: char) -> (res: Option<(&'a str, &'a str)>)
    ensures
        match (res, split_last(s@, c)) {
            (Some((a, b)), Some((x, y))) => a@ == x && b@ == y,
            (None, None) => true,
            _ => false,
        },
{
    let n = s.unicode_len();
    let mut i: usize = n;
    while i > 0
        invariant
            n == s@.len(),
            i <= n,
            forall|j: int| i <= j < n ==> s@[j] != c,
        decreases i,
    {
        if s.get_char(i - 1) == c {
            proof {
                s@.index_of_last_ensures(c);
            }
            let a = s.substring_char(0, i - 1);
            let b = s.substring_char(i, n);
            return Some((a, b));
        }
        i = i - 1;
    }
    proof {
        s@.index_of_last_ensures(c);
    }
    None
}

/// Whether `c` is whitespace in the sense of `char::is_whitespace`.
pub fn is_whitespace(c: char) -> (b: bool)
    ensures
        b == is_ws(c),
{
    let u = c as u32;
    (0x9 <= u && u <= 0xD) || u == 0x20 || u == 0x85 || u == 0xA0 || u == 0x1680 || (0x2000 <= u
        && u <= 0x200A) || u == 0x2028 || u == 0x2029 || u == 0x202F || u == 0x205F || u == 0x3000
}

proof fn lemma_trim_start_skip(s: Seq<char>, i: int)
    requires
        0 <= i <= s.len(),
        forall|j: int| 0 <= j < i ==> is_ws(s[j]),
        i == s.len() || !is_ws(s[i]),
    ensures
        trim_start(s) == s.skip(i),
    decreases i,
{
    if i == 0 {
        assert(s.skip(0) =~= s);
    } else {
        let t = s.skip(1);
        assert forall|j: int| 0 <= j < i - 1 implies is_ws(t[j]) by {
            assert(t[j] == s[j + 1]);
        }
        if i - 1 < t.len() {
            assert(t[i - 1] == s[i]);
        }
        lemma_trim_start_skip(t, i - 1);
        assert(t.skip(i - 1) =~= s.skip(i));
    }
}

proof fn lemma_trim_end_take(s: Seq<char>, k: int)
    requires
        0 <= k <= s.len(),
        forall|j: int| k <= j < s.len() ==> is_ws(s[j]),
        k == 0 || !is_ws(s[k - 1]),
    ensures
        trim_end(s) == s.take(k),
    decreases s.len() - k,
{
    if k == s.len() {
        assert(s.take(k) =~= s);
    } else {
        let t = s.drop_last();
        assert(s.len() > 0 && is_ws(s.last()));
        assert forall|j: int| k <= j < t.len() implies is_ws(t[j]) by {
            assert(t[j] == s[j]);
        }
        if k > 0 {
            assert(t[k - 1] == s[k - 1]);
        }
        lemma_trim_end_take(t, k);
        assert(t.take(k) =~= s.take(k));
    }
}

/// `s` without leading and trailing whitespace.
pub fn trim_str<'a>(s: &'a str) -> (res: &'a str)
    ensures
        res@ == trim(s@),
{
    let n = s.unicode_len();
    let mut i: usize = 0;
    while i < n && is_whitespace(s.get_char(i))
        invariant
            n == s@.len(),
            i <= n,
            forall|j: int| 0 <= j < i ==> is_ws(s@[j]),
        decreases n - i,
    {
        i = i + 1;
    }
    let mut k: usize = n;
    while k > i && is_whitespace(s.get_char(k - 1))
        invariant
            n == s@.len(),
            i <= k <= n,
            forall|j: int| k <= j < n ==> is_ws(s@[j]),
        decreases k,
    {
        k = k - 1;
    }
    proof {
        lemma_trim_start_skip(s@, i as int);
        let t = s@.skip(i as int);
        assert forall|j: int| (k - i) <= j < t.len() implies is_ws(t[j]) by {
            assert(t[j] == s@[j + i]);
        }
        if k > i {
            assert(t[k - i - 1] == s@[k - 1]);
        }
        lemma_trim_end_take(t, (k - i) as int);
        assert(t.take((k - i) as int) =~= s@.subrange(i as int, k as int));
    }
    s.substring_char(i, k)
}

/// Whether two strings are equal.
pub fn str_eq(a: &str, b: &str) -> (r: bool)
    ensures
        r == (a@ == b@),
{
    let n = a.unicode_len();
    let m = b.unicode_len();
    if n != m {
        return false;
    }
    let mut i: usize = 0;
    while i < n
        invariant
            n == a@.len(),
            m == b@.len(),
            n == m,
            i <= n,
            forall|j: int| 0 <= j < i ==> a@[j] == b@[j],
        decreases n - i,
    {
        if a.get_char(i) != b.get_char(i) {
            return false;
        }
        i = i + 1;
    }
    assert(a@ =~= b@);
    true
}

/// Whether `s` holds the character `c`.
pub fn contains_char(s: &str, c: char) -> (r: bool)
    ensures
        r == s@.contains(c),
{
    let n = s.unicode_len();
    let mut i: usize = 0;
    while i < n
        invariant
            n == s@.len(),
            i <= n,
            forall|j: int| 0 <= j < i ==> s@[j] != c,
        decreases n - i,
    {
        if s.get_char(i) == c {
            return true;
        }
        i = i + 1;
    }
    false
}

/// Whether `s` begins with `prefix`.
pub fn starts_with_str(s: &str, prefix: &str) -> (b: bool)
    ensures
        b == prefix@.is_prefix_of(s@),
{
    let n = s.unicode_len();
    let m = prefix.unicode_len();
    if m > n {
        return false;
    }
    let mut i: usize = 0;
    while i < m
        invariant
            n == s@.len(),
            m == prefix@.len(),
            m <= n,
            i <= m,
            forall|j: int| 0 <= j < i ==> prefix@[j] == s@[j],
        decreases m - i,
    {
        if s.get_char(i) != prefix.get_char(i) {
            return false;
        }
        i = i + 1;
    }
    true
}

/// `s` without every leading `c`.
pub fn strip_all_start_char<'a>(s: &'a str, c: char) -> (res: &'a str)
    ensures
        res@ == strip_all_start(s@, c),
{
    let n = s.unicode_len();
    let mut i: usize = 0;
    assert(s@.skip(0) =~= s@);
    while i < n && s.get_char(i) == c
        invariant
            n == s@.len(),
            i <= n,
            strip_all_start(s@, c) == strip_all_start(s@.skip(i as int), c),
        decreases n - i,
    {
        proof {
            let t = s@.skip(i as int);
            assert(t[0] == s@[i as int]);
            assert(t.skip(1) =~= s@.skip(i + 1));
        }
        i = i + 1;
    }
    proof {
        let t = s@.skip(i as int);
        if i < n {
            assert(t[0] == s@[i as int]);
        }
    }
    s.substring_char(i, n)
}

/// Appends one character to a string (`String::push`).
#[verifier::external_body]
pub(crate) fn push_char(s: &mut String, c: char)
    ensures
        final(s)@ == old(s)@.push(c),
{
    s.push(c);
}

/// The digit character for a value below 16.
pub fn digit_char(d: u64, upper: bool) -> (c: char)
    requires
        d < 16,
    ensures
        c == hex_char(d as nat, upper),
{
    if d < 10 {
        let c = (48 + d) as u8 as char;
        assert(c == hex_char(d as nat, upper)) by {
            assert(('0' as u32) == 48);
        }
        c
    } else if upper {
        let c = (65 + d - 10) as u8 as char;
        assert(c == hex_char(d as nat, upper)) by {
            assert(('A' as u32) == 65);
        }
        c
    } else {
        let c = (97 + d - 10) as u8 as char;
        assert(c == hex_char(d as nat, upper)) by {
            assert(('a' as u32) == 97);
        }
        c
    }
}

/// Appends `v` in base 16 (lower or upper case digits) to `s`.
pub fn push_hex(s: &mut String, v: u64, upper: bool)
    ensures
        final(s)@ == old(s)@ + hex_text(v as nat, upper),
    decreases v,
{
    if v >= 16 {
        push_hex(s, v / 16, upper);
    }
    let d = digit_char(v % 16, upper);
    push_char(s, d);
    proof {
        if v < 16 {
            assert(v % 16 == v);
            assert(old(s)@.push(d) =~= old(s)@ + seq![d]);
        } else {
            assert((old(s)@ + hex_text((v / 16) as nat, upper)).push(d) =~= old(s)@ + hex_text(
                (v / 16) as nat,
                upper,
            ).push(d));
        }
    }
}

/// Appends `v` in base 10 to `s`.
pub fn push_dec(s: &mut String, v: u64)
    ensures
        final(s)@ == old(s)@ + dec_text(v as nat),
    decreases v,
{
    if v >= 10 {
        push_dec(s, v / 10);
    }
    let d = digit_char(v % 10, false);
    push_char(s, d);
    proof {
        if v < 10 {
            assert(v % 10 == v);
            assert(old(s)@.push(d) =~= old(s)@ + seq![d]);
        } else {
            assert((old(s)@ + dec_text((v / 10) as nat)).push(d) =~= old(s)@ + dec_text(
                (v / 10) as nat,
            ).push(d));
        }
    }
}

/// `v` in base 16.
pub fn hex_string(v: u64, upper: bool) -> (s: String)
    ensures
        s@ == hex_text(v as nat, upper),
{
    let mut s = String::new();
    push_hex(&mut s, v, upper);
    assert(s@ =~= hex_text(v as nat, upper));
    s
}

/// `v` in base 10.
pub fn dec_string(v: u64) -> (s: String)
    ensures
        s@ == dec_text(v as nat),
{
    let mut s = String::new();
    push_dec(&mut s, v);
    assert(s@ =~= dec_text(v as nat));
    s
}

/// Reads a decimal `u32` (`str::parse::<u32>`).
#[verifier::external_body]
pub(crate) fn parse_u32_dec(s: &str) -> (res: Option<u32>)
    ensures
        match (res, parse_unsigned(s@, 10, u32::MAX as nat)) {
            (Some(v), Some(w)) => v == w,
            (None, None) => true,
            _ => false,
        },
{
    s.parse::<u32>().ok()
}

/// Reads a decimal `u64` (`str::parse::<u64>`).
#[verifier::external_body]
pub(crate) fn parse_u64_dec(s: &str) -> (res: Option<u64>)
    ensures
        match (res, parse_unsigned(s@, 10, u64::MAX as nat)) {
            (Some(v), Some(w)) => v == w,
            (None, None) => true,
            _ => false,
        },
{
    s.parse::<u64>().ok()
}

/// Reads a hexadecimal `u64` (`num::Num::from_str_radix` with radix 16).
#[verifier::external_body]
pub(crate) fn parse_u64_hex(s: &str) -> (res: Option<u64>)
    ensures
        match (res, parse_unsigned(s@, 16, u64::MAX as nat)) {
            (Some(v), Some(w)) => v == w,
            (None, None) => true,
            _ => false,
        },
{
    <u64 as num::Num>::from_str_radix(s, 16).ok()
}

} // verus!
