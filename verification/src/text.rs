//! Small verified text utilities shared by the other modules: turning a
//! string into its characters and back, decimal rendering and parsing of
//! integers, substring search, and ASCII-case-insensitive comparison.

use vstd::prelude::*;
use vstd::string::StrSliceExecFns;
use vstd::utf8::is_scalar;

verus! {

/// Relies on `char::from_u32`: the character of a Unicode scalar value, and
/// nothing for a surrogate or out-of-range value.
pub assume_specification[ char::from_u32 ](i: u32) -> (r: Option<char>)
    ensures
        r == (if is_scalar(i) {
            Some(i as char)
        } else {
            None::<char>
        }),
;

/// Relies on `String::push`: appends one character at the end of the string.
#[verifier::external_body]
pub fn push_char(s: &mut String, c: char)
    ensures
        final(s)@ == old(s)@.push(c),
{
    s.push(c);
}

/// The characters of a string slice, as a vector.
pub fn str_chars(s: &str) -> (v: Vec<char>)
    ensures
        v@ == s@,
{
    let n = s.unicode_len();
    let mut v: Vec<char> = Vec::new();
    let mut i: usize = 0;
    while i < n
        invariant
            i <= n,
            n == s@.len(),
            v@ == s@.subrange(0, i as int),
        decreases n - i,
    {
        v.push(s.get_char(i));
        i = i + 1;
        proof {
            assert(v@ =~= s@.subrange(0, i as int));
        }
    }
    proof {
        assert(v@ =~= s@);
    }
    v
}

/// A string holding the characters `chars[from..to]`.
pub fn string_from_range(chars: &Vec<char>, from: usize, to: usize) -> (s: String)
    requires
        from <= to <= chars@.len(),
    ensures
        s@ == chars@.subrange(from as int, to as int),
{
    let mut s = String::new();
    let mut i: usize = from;
    while i < to
        invariant
            from <= i <= to <= chars@.len(),
            s@ == chars@.subrange(from as int, i as int),
        decreases to - i,
    {
        push_char(&mut s, chars[i]);
        i = i + 1;
        proof {
            assert(s@ =~= chars@.subrange(from as int, i as int));
        }
    }
    s
}

/// Whether two string slices hold the same characters.
pub fn str_eq(a: &str, b: &str) -> (r: bool)
    ensures
        r == (a@ == b@),
{
    let na = a.unicode_len();
    let nb = b.unicode_len();
    if na != nb {
        proof {
            assert(a@ != b@);
        }
        return false;
    }
    let mut i: usize = 0;
    while i < na
        invariant
            i <= na,
            na == a@.len(),
            na == b@.len(),
            forall|j: int| 0 <= j < i ==> a@[j] == b@[j],
        decreases na - i,
    {
        if a.get_char(i) != b.get_char(i) {
            return false;
        }
        i = i + 1;
    }
    proof {
        assert(a@ =~= b@);
    }
    true
}

/// The character of one decimal digit.
pub open spec fn spec_digit_char(d: int) -> char {
    ((48 + d) as u32) as char
}

/// Decimal rendering of a natural number, most significant digit first.
pub open spec fn spec_dec_digits(n: nat) -> Seq<char>
    decreases n,
{
    if n < 10 {
        seq![spec_digit_char(n as int)]
    } else {
        spec_dec_digits(n / 10).push(spec_digit_char((n % 10) as int))
    }
}

/// Numeric value of a sequence of decimal digit characters.
pub open spec fn spec_dec_value(s: Seq<char>) -> int
    decreases s.len(),
{
    if s.len() == 0 {
        0
    } else {
        spec_dec_value(s.drop_last()) * 10 + (s.last() as u32 - 48)
    }
}

/// Reading a decimal rendering back gives the number it came from; decimal
/// renderings of different numbers therefore differ.
pub proof fn lemma_dec_digits_value(n: nat)
    ensures
        spec_dec_value(spec_dec_digits(n)) == n,
    decreases n,
{
    if n < 10 {
        let s = spec_dec_digits(n);
        assert(s.len() == 1);
        assert(s.drop_last() =~= Seq::<char>::empty());
        assert(spec_dec_value(Seq::<char>::empty()) == 0);
        assert(s.last() == spec_digit_char(n as int));
        assert(spec_digit_char(n as int) as u32 == 48 + n);
        assert(spec_dec_value(s) == spec_dec_value(s.drop_last()) * 10 + (s.last() as u32 - 48));
    } else {
        lemma_dec_digits_value(n / 10);
        let s = spec_dec_digits(n);
        assert(s == spec_dec_digits(n / 10).push(spec_digit_char((n % 10) as int)));
        assert(s.len() > 0);
        assert(s.drop_last() =~= spec_dec_digits(n / 10));
        assert(s.last() == spec_digit_char((n % 10) as int));
        assert(spec_digit_char((n % 10) as int) as u32 == 48 + n % 10);
        assert(spec_dec_value(s) == spec_dec_value(s.drop_last()) * 10 + (s.last() as u32 - 48));
        assert(n == (n / 10) * 10 + n % 10) by {
            vstd::arithmetic::div_mod::lemma_fundamental_div_mod(n as int, 10);
        }
    }
}

/// Different numbers have different decimal renderings.
pub proof fn lemma_dec_digits_injective(a: nat, b: nat)
    requires
        a != b,
    ensures
        spec_dec_digits(a) != spec_dec_digits(b),
{
    lemma_dec_digits_value(a);
    lemma_dec_digits_value(b);
}

/// The decimal rendering of `n`, as a string.
pub fn u32_to_string(n: u32) -> (s: String)
    ensures
        s@ == spec_dec_digits(n as nat),
    decreases n,
{
    if n < 10 {
        let mut s = String::new();
        push_char(&mut s, digit_char(n));
        proof {
            assert(s@ =~= spec_dec_digits(n as nat));
        }
        s
    } else {
        let mut s = u32_to_string(n / 10);
        push_char(&mut s, digit_char(n % 10));
        s
    }
}

/// The character of the decimal digit `d`.
fn digit_char(d: u32) -> (c: char)
    requires
        d < 10,
    ensures
        c == spec_digit_char(d as int),
{
    ((48 + d) as u8) as char
}

/// Whether every character of `s` is a decimal digit.
pub open spec fn spec_all_digits(s: Seq<char>) -> bool {
    forall|i: int| 0 <= i < s.len() ==> '0' <= #[trigger] s[i] <= '9'
}

/// What a digits-only unsigned parse returns: the numeric value where `s` is
/// non-empty, made of digits alone and in range; nothing otherwise.
pub open spec fn spec_parse_u32(s: Seq<char>) -> Option<u32> {
    if s.len() > 0 && spec_all_digits(s) && spec_dec_value(s) <= u32::MAX {
        Some(spec_dec_value(s) as u32)
    } else {
        None
    }
}

/// Parse a digits-only decimal number from `chars[from..to]`.
pub fn parse_u32_range(chars: &Vec<char>, from: usize, to: usize) -> (r: Option<u32>)
    requires
        from <= to <= chars@.len(),
    ensures
        r == spec_parse_u32(chars@.subrange(from as int, to as int)),
{
    let ghost s = chars@.subrange(from as int, to as int);
    if from == to {
        return None;
    }
    let mut acc: u32 = 0;
    let mut i: usize = from;
    while i < to
        invariant
            from <= i <= to <= chars@.len(),
            s == chars@.subrange(from as int, to as int),
            spec_all_digits(s.subrange(0, i - from)),
            acc == spec_dec_value(s.subrange(0, i - from)),
        decreases to - i,
    {
        let c = chars[i];
        if c < '0' || c > '9' {
            proof {
                assert(s[i - from] == c);
                assert(!spec_all_digits(s));
            }
            return None;
        }
        let d: u32 = (c as u32) - 48;
        let ghost prefix = s.subrange(0, i - from);
        let ghost prefix1 = s.subrange(0, i + 1 - from);
        proof {
            assert(prefix1.drop_last() =~= prefix);
            assert(prefix1.last() == c);
            assert(spec_all_digits(prefix1)) by {
                assert(forall|j: int| 0 <= j < prefix1.len() - 1 ==> prefix1[j] == prefix[j]);
            }
            assert(spec_dec_value(prefix1) == acc * 10 + d);
        }
        if acc > (u32::MAX - d) / 10 {
            proof {
                assert(acc * 10 + d > u32::MAX);
                lemma_dec_value_grows(s, i + 1 - from);
                assert(s.subrange(0, s.len() as int) =~= s);
                assert(spec_all_digits(s) ==> spec_dec_value(s) >= spec_dec_value(prefix1));
            }
            return None;
        }
        acc = acc * 10 + d;
        i = i + 1;
    }
    proof {
        assert(s.subrange(0, to - from) =~= s);
    }
    Some(acc)
}

/// Whether `needle` occurs in `hay` starting at position `i`.
pub open spec fn occurs_at(hay: Seq<char>, needle: Seq<char>, i: int) -> bool {
    0 <= i && i + needle.len() <= hay.len() && hay.subrange(i, i + needle.len()) == needle
}

/// Position of the first occurrence of `needle` in `hay`, if any.
pub open spec fn spec_find_sub(hay: Seq<char>, needle: Seq<char>) -> Option<int>
    decreases hay.len(),
{
    if hay.len() < needle.len() || needle.len() == 0 {
        if needle.len() == 0 {
            Some(0int)
        } else {
            None
        }
    } else if hay.subrange(0, needle.len() as int) == needle {
        Some(0int)
    } else {
        match spec_find_sub(hay.subrange(1, hay.len() as int), needle) {
            Option::None => None,
            Option::Some(i) => Some(i + 1),
        }
    }
}

/// `spec_find_sub` names the first occurrence: the position it returns is an
/// occurrence and no earlier position is; `None` means no occurrence at all.
pub proof fn lemma_find_sub_first(hay: Seq<char>, needle: Seq<char>)
    ensures
        match spec_find_sub(hay, needle) {
            Option::Some(i) => occurs_at(hay, needle, i) && (forall|j: int|
                0 <= j < i ==> !occurs_at(hay, needle, j)),
            Option::None => forall|j: int| !occurs_at(hay, needle, j),
        },
    decreases hay.len(),
{
    if needle.len() == 0 {
        assert(hay.subrange(0, 0) =~= needle);
        assert(occurs_at(hay, needle, 0));
    } else if hay.len() < needle.len() {
        assert(forall|j: int| !occurs_at(hay, needle, j));
    } else if hay.subrange(0, needle.len() as int) == needle {
        assert(occurs_at(hay, needle, 0));
    } else {
        let tail = hay.subrange(1, hay.len() as int);
        lemma_find_sub_first(tail, needle);
        assert forall|j: int| 0 <= j && #[trigger] occurs_at(tail, needle, j) implies occurs_at(
            hay,
            needle,
            j + 1,
        ) by {
            assert(tail.subrange(j, j + needle.len()) =~= hay.subrange(
                j + 1,
                j + 1 + needle.len(),
            ));
        }
        assert forall|j: int| 1 <= j && #[trigger] occurs_at(hay, needle, j) implies occurs_at(
            tail,
            needle,
            j - 1,
        ) by {
            assert(hay.subrange(j, j + needle.len()) =~= tail.subrange(
                j - 1,
                j - 1 + needle.len(),
            ));
        }
        assert(!occurs_at(hay, needle, 0));
    }
}

/// Whether `needle` occurs anywhere in `hay`.
pub open spec fn spec_contains_sub(hay: Seq<char>, needle: Seq<char>) -> bool {
    exists|i: int| occurs_at(hay, needle, i)
}

/// Whether `needle` occurs in `hay` at exactly position `i`.
fn matches_at(hay: &Vec<char>, needle: &Vec<char>, i: usize) -> (r: bool)
    requires
        i + needle@.len() <= hay@.len(),
    ensures
        r == occurs_at(hay@, needle@, i as int),
{
    let hay_len = hay.len();
    let mut k: usize = 0;
    while k < needle.len()
        invariant
            k <= needle@.len(),
            i + needle@.len() <= hay@.len(),
            hay_len == hay@.len(),
            forall|j: int| 0 <= j < k ==> hay@[i + j] == needle@[j],
        decreases needle@.len() - k,
    {
        if hay[i + k] != needle[k] {
            proof {
                assert(hay@.subrange(i as int, i + needle@.len())[k as int] != needle@[k as int]);
            }
            return false;
        }
        k = k + 1;
    }
    proof {
        assert(hay@.subrange(i as int, i + needle@.len()) =~= needle@);
    }
    true
}

/// Position of the first occurrence of `needle` in `hay`, if any.
pub fn find_sub(hay: &Vec<char>, needle: &Vec<char>) -> (r: Option<usize>)
    ensures
        match r {
            Option::Some(i) => spec_find_sub(hay@, needle@) == Some(i as int),
            Option::None => spec_find_sub(hay@, needle@) is None,
        },
{
    if needle.len() == 0 {
        return Some(0);
    }
    if needle.len() > hay.len() {
        return None;
    }
    let last_start = hay.len() - needle.len();
    let mut i: usize = 0;
    proof {
        assert(hay@.subrange(0, hay@.len() as int) =~= hay@);
    }
    while i <= last_start
        invariant
            0 < needle@.len() <= hay@.len(),
            hay@.len() <= usize::MAX,
            last_start == hay@.len() - needle@.len(),
            i <= last_start + 1,
            spec_find_sub(hay@, needle@) == shift_found(
                spec_find_sub(hay@.subrange(i as int, hay@.len() as int), needle@),
                i as int,
            ),
        decreases last_start + 1 - i,
    {
        let hit = matches_at(hay, needle, i);
        proof {
            lemma_find_sub_unroll(hay@, needle@, i as int);
        }
        if hit {
            return Some(i);
        }
        i = i + 1;
    }
    proof {
        assert(hay@.subrange(i as int, hay@.len() as int).len() < needle@.len());
    }
    None
}

/// An `Option` position shifted right by `k`.
pub open spec fn shift_found(r: Option<int>, k: int) -> Option<int> {
    match r {
        Option::None => None,
        Option::Some(i) => Some(i + k),
    }
}

/// Unrolls `spec_find_sub` one position at a time, on the suffix of `hay`
/// that starts at `i`.
proof fn lemma_find_sub_unroll(hay: Seq<char>, needle: Seq<char>, i: int)
    requires
        0 <= i,
        0 < needle.len(),
        i + needle.len() <= hay.len(),
    ensures
        spec_find_sub(hay.subrange(i, hay.len() as int), needle) == (if occurs_at(hay, needle, i) {
            Some(0int)
        } else {
            shift_found(spec_find_sub(hay.subrange(i + 1, hay.len() as int), needle), 1)
        }),
{
    let suffix = hay.subrange(i, hay.len() as int);
    assert(suffix.subrange(0, needle.len() as int) =~= hay.subrange(i, i + needle.len()));
    assert(suffix.subrange(1, suffix.len() as int) =~= hay.subrange(i + 1, hay.len() as int));
}

/// Whether `needle` occurs anywhere in `hay`.
pub fn contains_sub(hay: &Vec<char>, needle: &Vec<char>) -> (r: bool)
    ensures
        r == spec_contains_sub(hay@, needle@),
{
    let found = find_sub(hay, needle);
    proof {
        lemma_find_sub_first(hay@, needle@);
    }
    found.is_some()
}

/// Position of the first occurrence of a character in `s`, if any.
pub open spec fn spec_find_char(s: Seq<char>, c: char) -> Option<int>
    decreases s.len(),
{
    if s.len() == 0 {
        None
    } else if s[0] == c {
        Some(0int)
    } else {
        match spec_find_char(s.drop_first(), c) {
            Option::None => None,
            Option::Some(i) => Some(i + 1),
        }
    }
}

/// Position of the first occurrence of `c` in `chars` at or after `from`,
/// as an absolute index.
pub fn find_char_from(chars: &Vec<char>, from: usize, c: char) -> (r: Option<usize>)
    requires
        from <= chars@.len(),
    ensures
        match r {
            Option::Some(i) => from <= i < chars@.len() && spec_find_char(
                chars@.skip(from as int),
                c,
            ) == Some(i - from),
            Option::None => spec_find_char(chars@.skip(from as int), c) is None,
        },
{
    let n = chars.len();
    let mut i: usize = from;
    proof {
        assert(chars@.skip(from as int).skip(0) =~= chars@.skip(from as int));
    }
    while i < n
        invariant
            from <= i <= n,
            n == chars@.len(),
            spec_find_char(chars@.skip(from as int), c) == (match spec_find_char(
                chars@.skip(i as int),
                c,
            ) {
                Option::None => None::<int>,
                Option::Some(k) => Some(k + i - from),
            }),
        decreases n - i,
    {
        let ghost suffix = chars@.skip(i as int);
        proof {
            assert(suffix[0] == chars@[i as int]);
            assert(suffix.drop_first() =~= chars@.skip(i + 1));
        }
        if chars[i] == c {
            return Some(i);
        }
        i = i + 1;
    }
    proof {
        assert(chars@.skip(n as int) =~= Seq::<char>::empty());
    }
    None
}

/// A character with ASCII upper-case letters folded to lower case.
pub open spec fn ascii_lower_char(c: char) -> char {
    if 'A' <= c <= 'Z' {
        ((c as u32) + 32) as char
    } else {
        c
    }
}

/// A character sequence with ASCII upper-case letters folded to lower case.
pub open spec fn ascii_lower(s: Seq<char>) -> Seq<char> {
    Seq::new(s.len(), |i: int| ascii_lower_char(s[i]))
}

/// Whether two strings are equal up to ASCII case.
pub fn eq_ignore_ascii_case(a: &str, b: &str) -> (r: bool)
    ensures
        r == (ascii_lower(a@) == ascii_lower(b@)),
{
    let na = a.unicode_len();
    let nb = b.unicode_len();
    if na != nb {
        proof {
            assert(ascii_lower(a@).len() != ascii_lower(b@).len());
        }
        return false;
    }
    let mut i: usize = 0;
    while i < na
        invariant
            i <= na,
            na == a@.len(),
            na == b@.len(),
            forall|j: int| 0 <= j < i ==> ascii_lower_char(a@[j]) == ascii_lower_char(b@[j]),
        decreases na - i,
    {
        let ca = lower_ascii(a.get_char(i));
        let cb = lower_ascii(b.get_char(i));
        if ca != cb {
            proof {
                assert(ascii_lower(a@)[i as int] != ascii_lower(b@)[i as int]);
            }
            return false;
        }
        i = i + 1;
    }
    proof {
        assert(ascii_lower(a@) =~= ascii_lower(b@));
    }
    true
}

/// ASCII-fold one character to lower case.
fn lower_ascii(c: char) -> (r: char)
    ensures
        r == ascii_lower_char(c),
{
    if c >= 'A' && c <= 'Z' {
        proof {
            assert(c as u32 <= 90);
        }
        (((c as u32) + 32) as u8) as char
    } else {
        c
    }
}

/// What `str::to_lowercase` returns for a given character sequence. The
/// result depends on the characters alone (Unicode data, no locale).
pub uninterp spec fn lower_of(s: Seq<char>) -> Seq<char>;

/// Relies on `str::to_lowercase`: the Unicode lowercase of the string.
#[verifier::external_body]
pub fn to_lowercase(s: &str) -> (r: String)
    ensures
        r@ == lower_of(s@),
{
    s.to_lowercase()
}

/// A digits prefix never exceeds the value of the whole digits sequence.
proof fn lemma_dec_value_grows(s: Seq<char>, k: int)
    requires
        0 <= k <= s.len(),
        spec_all_digits(s.subrange(0, k)),
    ensures
        spec_dec_value(s.subrange(0, k)) <= spec_dec_value(s.subrange(0, s.len() as int)) || !spec_all_digits(s),
    decreases s.len() - k,
{
    if k < s.len() {
        if '0' <= s[k] <= '9' {
            let p = s.subrange(0, k);
            let p1 = s.subrange(0, k + 1);
            assert(p1.drop_last() =~= p);
            assert(spec_dec_value(p1) == spec_dec_value(p) * 10 + (s[k] as u32 - 48));
            lemma_dec_value_nonneg(p);
            lemma_dec_value_grows(s, k + 1);
        } else {
            assert(!spec_all_digits(s));
        }
    } else {
        assert(s.subrange(0, k) =~= s.subrange(0, s.len() as int));
    }
}

/// The value of a digits sequence is never negative.
proof fn lemma_dec_value_nonneg(s: Seq<char>)
    requires
        spec_all_digits(s),
    ensures
        spec_dec_value(s) >= 0,
    decreases s.len(),
{
    if s.len() > 0 {
        assert(spec_all_digits(s.drop_last())) by {
            assert(forall|i: int| 0 <= i < s.len() - 1 ==> s.drop_last()[i] == s[i]);
        }
        lemma_dec_value_nonneg(s.drop_last());
    }
}

} // verus!
