//! Text as the library handles it: sequences of characters, decimal and
//! hexadecimal numerals, and the few searches the parsers need.
use vstd::prelude::*;

verus! {

// ---------------------------------------------------------------------------
// Characters
// ---------------------------------------------------------------------------

/// Whether `c` is one of `0`..`9`.
pub open spec fn is_dec_digit(c: char) -> bool {
    '0' <= c && c <= '9'
}

/// The value of a decimal digit.
pub open spec fn dec_digit_value(c: char) -> nat {
    (c as int - '0' as int) as nat
}

/// The character for a decimal digit `d < 10`.
pub open spec fn dec_digit_char(d: nat) -> char {
    (d + 48) as char
}

/// Whether `c` is a hexadecimal digit, in either case.
pub open spec fn is_hex_digit(c: char) -> bool {
    ('0' <= c && c <= '9') || ('a' <= c && c <= 'f') || ('A' <= c && c <= 'F')
}

/// The value of a hexadecimal digit, in either case.
pub open spec fn hex_digit_value(c: char) -> nat {
    if '0' <= c && c <= '9' {
        (c as int - '0' as int) as nat
    } else if 'a' <= c && c <= 'f' {
        (c as int - 'a' as int + 10) as nat
    } else {
        (c as int - 'A' as int + 10) as nat
    }
}

/// The lowercase character for a hexadecimal digit `d < 16`.
pub open spec fn hex_digit_char(d: nat) -> char {
    if d < 10 {
        (d + 48) as char
    } else {
        (d + 87) as char
    }
}

/// Whether every character of `s` is a decimal digit.
pub open spec fn all_dec_digits(s: Seq<char>) -> bool {
    forall|i: int| 0 <= i < s.len() ==> is_dec_digit(#[trigger] s[i])
}

/// Whether every character of `s` is a hexadecimal digit.
pub open spec fn all_hex_digits(s: Seq<char>) -> bool {
    forall|i: int| 0 <= i < s.len() ==> is_hex_digit(#[trigger] s[i])
}

// ---------------------------------------------------------------------------
// Decimal numerals
// ---------------------------------------------------------------------------

/// The decimal numeral of `n`: no sign, no leading zero, `0` for zero.
pub open spec fn dec(n: nat) -> Seq<char>
    decreases n,
{
    if n < 10 {
        seq![dec_digit_char(n)]
    } else {
        dec(n / 10).push(dec_digit_char(n % 10))
    }
}

/// The value a string of decimal digits spells.
pub open spec fn dec_value(s: Seq<char>) -> nat
    decreases s.len(),
{
    if s.len() == 0 {
        0
    } else {
        dec_value(s.drop_last()) * 10 + dec_digit_value(s.last())
    }
}

/// What `u8::from_str` accepts: an optional `+`, then at least one decimal digit, spelling
/// a value that fits in a byte. Leading zeros are allowed.
pub open spec fn parse_u8_spec(s: Seq<char>) -> Option<u8> {
    let d = if s.len() > 0 && s[0] == '+' { s.drop_first() } else { s };
    if d.len() > 0 && all_dec_digits(d) && dec_value(d) <= 255 {
        Some(dec_value(d) as u8)
    } else {
        None
    }
}

/// A decimal numeral is made of digits, and spells its own value.
pub proof fn lemma_dec(n: nat)
    ensures
        dec(n).len() > 0,
        all_dec_digits(dec(n)),
        dec_value(dec(n)) == n,
        dec(n)[0] != '+',
        n < 10 ==> dec(n).len() == 1,
        n >= 10 ==> dec(n).len() >= 2,
        n < 100 ==> dec(n).len() <= 2,
        n < 1000 ==> dec(n).len() <= 3,
    decreases n,
{
    if n < 10 {
        assert(dec(n) =~= seq![dec_digit_char(n)]);
        assert(dec(n).drop_last() =~= Seq::<char>::empty());
        assert(dec_digit_value(dec_digit_char(n)) == n);
        assert(dec_value(Seq::<char>::empty()) == 0);
        assert(dec_value(dec(n)) == dec_value(dec(n).drop_last()) * 10 + dec_digit_value(dec(n).last()));
    } else {
        lemma_dec(n / 10);
        vstd::arithmetic::div_mod::lemma_fundamental_div_mod(n as int, 10);
        assert(dec_digit_value(dec_digit_char((n % 10) as nat)) == n % 10);
        let s = dec(n);
        assert(s.drop_last() =~= dec(n / 10));
        assert(s.last() == dec_digit_char((n % 10) as nat));
        assert(dec_value(s) == dec_value(s.drop_last()) * 10 + dec_digit_value(s.last()));
        assert forall|i: int| 0 <= i < s.len() implies is_dec_digit(#[trigger] s[i]) by {
            if i < s.len() - 1 {
                assert(s[i] == dec(n / 10)[i]);
            }
        }
    }
}

/// Appends the decimal numeral of `n`.
pub fn push_dec(s: &mut String, n: u64)
    ensures
        final(s)@ == old(s)@ + dec(n as nat),
    decreases n,
{
    if n >= 10 {
        push_dec(s, n / 10);
    }
    let d: u8 = (n % 10) as u8;
    let c = (48u8 + d) as char;
    push_char(s, c);
    proof {
        assert(c == dec_digit_char((n % 10) as nat));
        if n >= 10 {
            assert(dec(n as nat) == dec((n / 10) as nat).push(dec_digit_char((n % 10) as nat)));
        } else {
            assert(dec(n as nat) == seq![dec_digit_char(n as nat)]);
        }
    }
}

/// `u8::from_str`, with the same acceptance rule.
pub fn parse_u8(s: &Vec<char>) -> (r: Option<u8>)
    ensures
        r == parse_u8_spec(s@),
{
    let start: usize = if s.len() > 0 && s[0] == '+' { 1 } else { 0 };
    let ghost d = if s@.len() > 0 && s@[0] == '+' { s@.drop_first() } else { s@ };
    assert(d =~= s@.subrange(start as int, s@.len() as int));
    if start >= s.len() {
        return None;
    }
    let mut i: usize = start;
    let mut val: u32 = 0;
    while i < s.len()
        invariant
            start <= i <= s.len(),
            d =~= s@.subrange(start as int, s@.len() as int),
            d == (if s@.len() > 0 && s@[0] == '+' { s@.drop_first() } else { s@ }),
            all_dec_digits(s@.subrange(start as int, i as int)),
            val == if dec_value(s@.subrange(start as int, i as int)) > 255 {
                256
            } else {
                dec_value(s@.subrange(start as int, i as int))
            },
        decreases s.len() - i,
    {
        let c = s[i];
        if !('0' <= c && c <= '9') {
            assert(d[i - start] == c);
            assert(!is_dec_digit(d[(i - start) as int]));
            assert(!all_dec_digits(d));
            return None;
        }
        let ghost pre = s@.subrange(start as int, i as int);
        let ghost next = s@.subrange(start as int, i + 1);
        assert(next.drop_last() =~= pre);
        assert(next.last() == c);
        let dv: u32 = (c as u32) - 48;
        if val > 255 {
            val = 256;
        } else {
            let v2 = val * 10 + dv;
            val = if v2 > 255 { 256 } else { v2 };
        }
        i = i + 1;
        assert forall|k: int| 0 <= k < next.len() implies is_dec_digit(#[trigger] next[k]) by {
            if k < pre.len() {
                assert(next[k] == pre[k]);
            }
        }
    }
    assert(s@.subrange(start as int, s@.len() as int) =~= d);
    if val > 255 {
        None
    } else {
        Some(val as u8)
    }
}

// ---------------------------------------------------------------------------
// Hexadecimal numerals
// ---------------------------------------------------------------------------

/// The lowest `k` hexadecimal digits of `v`, lowercase, most significant first.
pub open spec fn hex_digits(v: nat, k: nat) -> Seq<char>
    decreases k,
{
    if k == 0 {
        Seq::empty()
    } else {
        hex_digits(v / 16, (k - 1) as nat).push(hex_digit_char(v % 16))
    }
}

/// The value a string of hexadecimal digits spells.
pub open spec fn hex_value(s: Seq<char>) -> nat
    decreases s.len(),
{
    if s.len() == 0 {
        0
    } else {
        hex_value(s.drop_last()) * 16 + hex_digit_value(s.last())
    }
}

/// What `u32::from_str_radix(s, 16)` accepts: an optional `+`, then at least one
/// hexadecimal digit in either case, spelling a value that fits in 32 bits.
pub open spec fn parse_hex_u32_spec(s: Seq<char>) -> Option<u32> {
    let d = if s.len() > 0 && s[0] == '+' { s.drop_first() } else { s };
    if d.len() > 0 && all_hex_digits(d) && hex_value(d) <= u32::MAX {
        Some(hex_value(d) as u32)
    } else {
        None
    }
}

/// `16^k`.
pub open spec fn pow16(k: nat) -> nat
    decreases k,
{
    if k == 0 {
        1
    } else {
        16 * pow16((k - 1) as nat)
    }
}

proof fn lemma_pow16_pos(k: nat)
    ensures
        pow16(k) >= 1,
    decreases k,
{
    if k > 0 {
        lemma_pow16_pos((k - 1) as nat);
    }
}

proof fn lemma_div_mod_step(v: nat, p: nat)
    requires
        p >= 1,
    ensures
        ((v / 16) % p) * 16 + v % 16 == v % (16 * p),
{
    let q = v / 16;
    let r = v % 16;
    let a = q / p;
    let b = q % p;
    vstd::arithmetic::div_mod::lemma_fundamental_div_mod(v as int, 16);
    vstd::arithmetic::div_mod::lemma_fundamental_div_mod(q as int, p as int);
    assert(v == 16 * q + r);
    assert(q == p * a + b);
    assert(v == a * (16 * p) + (16 * b + r)) by (nonlinear_arith)
        requires
            v == 16 * q + r,
            q == p * a + b,
    ;
    assert(0 <= 16 * b + r < 16 * p) by (nonlinear_arith)
        requires
            0 <= b < p,
            0 <= r < 16,
    ;
    vstd::arithmetic::div_mod::lemma_fundamental_div_mod_converse(
        v as int,
        (16 * p) as int,
        a as int,
        (16 * b + r) as int,
    );
}

/// A hexadecimal numeral is made of lowercase digits, and spells its value modulo `16^k`.
pub proof fn lemma_hex_digits(v: nat, k: nat)
    ensures
        hex_digits(v, k).len() == k,
        all_hex_digits(hex_digits(v, k)),
        hex_value(hex_digits(v, k)) == v % pow16(k),
        forall|i: int| 0 <= i < k ==> #[trigger] hex_digits(v, k)[i] != '+',
    decreases k,
{
    if k == 0 {
    } else {
        let km = (k - 1) as nat;
        lemma_hex_digits(v / 16, km);
        lemma_pow16_pos(km);
        let s = hex_digits(v, k);
        assert(s.drop_last() =~= hex_digits(v / 16, km));
        let d = v % 16;
        assert(hex_digit_value(hex_digit_char(d)) == d);
        assert forall|i: int| 0 <= i < s.len() implies is_hex_digit(#[trigger] s[i]) && s[i] != '+' by {
            if i < s.len() - 1 {
                assert(s[i] == hex_digits(v / 16, km)[i]);
            }
        }
        lemma_div_mod_step(v, pow16(km));
    }
}

/// Appends the `k` lowest hexadecimal digits of `v`, lowercase.
pub fn push_hex(s: &mut String, v: u32, k: u32)
    requires
        k <= 8,
    ensures
        final(s)@ == old(s)@ + hex_digits(v as nat, k as nat),
    decreases k,
{
    if k == 0 {
        assert(hex_digits(v as nat, 0) =~= Seq::<char>::empty());
        return;
    }
    push_hex(s, v / 16, k - 1);
    let d: u8 = (v % 16) as u8;
    let c = if d < 10 { (48u8 + d) as char } else { (87u8 + d) as char };
    push_char(s, c);
    assert(c == hex_digit_char((v % 16) as nat));
}

/// A longer run of digits spells at least what its start spells.
proof fn lemma_hex_value_grows(s: Seq<char>, j: int)
    requires
        0 <= j <= s.len(),
    ensures
        hex_value(s.take(j)) <= hex_value(s),
    decreases s.len(),
{
    if j < s.len() {
        assert(s.drop_last().take(j) =~= s.take(j));
        lemma_hex_value_grows(s.drop_last(), j);
    } else {
        assert(s.take(j) =~= s);
    }
}

/// `u32::from_str_radix(s, 16)`, with the same acceptance rule.
pub fn parse_hex_u32(s: &Vec<char>) -> (r: Option<u32>)
    ensures
        r == parse_hex_u32_spec(s@),
{
    let start: usize = if s.len() > 0 && s[0] == '+' { 1 } else { 0 };
    let ghost d = if s@.len() > 0 && s@[0] == '+' { s@.drop_first() } else { s@ };
    assert(d =~= s@.subrange(start as int, s@.len() as int));
    if start >= s.len() {
        return None;
    }
    let mut i: usize = start;
    let mut val: u64 = 0;
    while i < s.len()
        invariant
            start <= i <= s.len(),
            d =~= s@.subrange(start as int, s@.len() as int),
            d == (if s@.len() > 0 && s@[0] == '+' { s@.drop_first() } else { s@ }),
            all_hex_digits(s@.subrange(start as int, i as int)),
            val == hex_value(s@.subrange(start as int, i as int)),
            val <= 0xffff_ffff,
        decreases s.len() - i,
    {
        let c = s[i];
        let dv: u64 = if '0' <= c && c <= '9' {
            (c as u64) - 48
        } else if 'a' <= c && c <= 'f' {
            (c as u64) - 87
        } else if 'A' <= c && c <= 'F' {
            (c as u64) - 55
        } else {
            assert(d[i - start] == c);
            assert(!is_hex_digit(d[(i - start) as int]));
            assert(!all_hex_digits(d));
            return None;
        };
        let ghost pre = s@.subrange(start as int, i as int);
        let ghost next = s@.subrange(start as int, i + 1);
        assert(next.drop_last() =~= pre);
        assert(next.last() == c);
        val = val * 16 + dv;
        i = i + 1;
        assert forall|k: int| 0 <= k < next.len() implies is_hex_digit(#[trigger] next[k]) by {
            if k < pre.len() {
                assert(next[k] == pre[k]);
            }
        }
        if val > 0xffff_ffff {
            proof {
                assert(d.take(i - start) =~= next);
                lemma_hex_value_grows(d, i - start);
            }
            return None;
        }
    }
    assert(s@.subrange(start as int, s@.len() as int) =~= d);
    Some(val as u32)
}

// ---------------------------------------------------------------------------
// Searching
// ---------------------------------------------------------------------------

/// Whether `s` holds `c` anywhere.
pub open spec fn has_char(s: Seq<char>, c: char) -> bool {
    exists|i: int| 0 <= i < s.len() && s[i] == c
}

/// Where `c` first occurs in `s`, if it does.
pub open spec fn first_index_of(s: Seq<char>, c: char) -> Option<int> {
    if has_char(s, c) {
        Some(choose|i: int| 0 <= i < s.len() && s[i] == c && forall|j: int| 0 <= j < i ==> s[j] != c)
    } else {
        None
    }
}

/// The first occurrence of `c` in `s`, if any.
pub fn find_char(s: &Vec<char>, c: char) -> (r: Option<usize>)
    ensures
        match r {
            Some(i) => i < s@.len() && s@[i as int] == c && forall|j: int| 0 <= j < i ==> s@[j] != c,
            None => !has_char(s@, c),
        },
        r matches Some(i) ==> first_index_of(s@, c) == Some(i as int),
        r is None ==> first_index_of(s@, c) is None,
{
    let mut i: usize = 0;
    while i < s.len()
        invariant
            i <= s.len(),
            forall|j: int| 0 <= j < i ==> s@[j] != c,
        decreases s.len() - i,
    {
        if s[i] == c {
            proof {
                let w = choose|k: int| 0 <= k < s@.len() && s@[k] == c && forall|j: int| 0 <= j < k ==> s@[j] != c;
                assert(0 <= i < s@.len() && s@[i as int] == c && forall|j: int| 0 <= j < i ==> s@[j] != c);
                if w < i {
                } else if w > i {
                    assert(s@[i as int] != c);
                }
            }
            return Some(i);
        }
        i = i + 1;
    }
    None
}

/// Whether `s` begins with `p`.
pub open spec fn starts_with(s: Seq<char>, p: Seq<char>) -> bool {
    p.len() <= s.len() && s.subrange(0, p.len() as int) == p
}

/// Whether `s` begins with `p`.
pub fn has_prefix(s: &Vec<char>, p: &Vec<char>) -> (r: bool)
    ensures
        r == starts_with(s@, p@),
{
    if p.len() > s.len() {
        return false;
    }
    let mut i: usize = 0;
    while i < p.len()
        invariant
            i <= p.len() <= s.len(),
            forall|j: int| 0 <= j < i ==> s@[j] == p@[j],
        decreases p.len() - i,
    {
        if s[i] != p[i] {
            assert(s@.subrange(0, p@.len() as int)[i as int] != p@[i as int]);
            return false;
        }
        i = i + 1;
    }
    assert(s@.subrange(0, p@.len() as int) =~= p@);
    true
}

/// Whether two character strings are equal.
pub fn chars_equal(a: &Vec<char>, b: &Vec<char>) -> (r: bool)
    ensures
        r == (a@ == b@),
{
    if a.len() != b.len() {
        return false;
    }
    let mut i: usize = 0;
    while i < a.len()
        invariant
            i <= a.len() == b.len(),
            forall|j: int| 0 <= j < i ==> a@[j] == b@[j],
        decreases a.len() - i,
    {
        if a[i] != b[i] {
            return false;
        }
        i = i + 1;
    }
    assert(a@ =~= b@);
    true
}

/// The characters of `v[from..to]`.
pub fn slice_chars(v: &Vec<char>, from: usize, to: usize) -> (r: Vec<char>)
    requires
        from <= to <= v@.len(),
    ensures
        r@ == v@.subrange(from as int, to as int),
{
    let mut r: Vec<char> = Vec::new();
    let mut i = from;
    while i < to
        invariant
            from <= i <= to <= v@.len(),
            r@ == v@.subrange(from as int, i as int),
        decreases to - i,
    {
        r.push(v[i]);
        i = i + 1;
        assert(r@ =~= v@.subrange(from as int, i as int));
    }
    r
}


// ---------------------------------------------------------------------------
// Whitespace
// ---------------------------------------------------------------------------

/// Whether `c` has the Unicode `White_Space` property, as `char::is_whitespace` documents.
pub open spec fn is_space(c: char) -> bool {
    ('\u{9}' <= c && c <= '\u{d}') || c == ' ' || c == '\u{85}' || c == '\u{a0}' || c
        == '\u{1680}' || ('\u{2000}' <= c && c <= '\u{200a}') || c == '\u{2028}' || c
        == '\u{2029}' || c == '\u{202f}' || c == '\u{205f}' || c == '\u{3000}'
}

/// `char::is_whitespace`.
pub fn char_is_space(c: char) -> (r: bool)
    ensures
        r == is_space(c),
{
    ('\u{9}' <= c && c <= '\u{d}') || c == ' ' || c == '\u{85}' || c == '\u{a0}' || c
        == '\u{1680}' || ('\u{2000}' <= c && c <= '\u{200a}') || c == '\u{2028}' || c
        == '\u{2029}' || c == '\u{202f}' || c == '\u{205f}' || c == '\u{3000}'
}

/// How many whitespace characters `s` begins with.
pub open spec fn leading_space(s: Seq<char>) -> nat
    decreases s.len(),
{
    if s.len() > 0 && is_space(s[0]) {
        1 + leading_space(s.drop_first())
    } else {
        0
    }
}

/// How many whitespace characters `s` ends with.
pub open spec fn trailing_space(s: Seq<char>) -> nat
    decreases s.len(),
{
    if s.len() > 0 && is_space(s.last()) {
        1 + trailing_space(s.drop_last())
    } else {
        0
    }
}

/// `s` without leading and trailing whitespace, as `str::trim` gives it.
pub open spec fn trimmed(s: Seq<char>) -> Seq<char> {
    let a = leading_space(s);
    let rest = s.skip(a as int);
    rest.take(rest.len() - trailing_space(rest))
}

proof fn lemma_leading_space(s: Seq<char>, i: int)
    requires
        0 <= i <= s.len(),
        forall|j: int| 0 <= j < i ==> is_space(#[trigger] s[j]),
        i == s.len() || !is_space(s[i]),
    ensures
        leading_space(s) == i,
    decreases i,
{
    if i > 0 {
        let t = s.drop_first();
        assert forall|j: int| 0 <= j < i - 1 implies is_space(#[trigger] t[j]) by {
            assert(t[j] == s[j + 1]);
        }
        if i - 1 < t.len() {
            assert(t[i - 1] == s[i]);
        }
        lemma_leading_space(t, i - 1);
    }
}

proof fn lemma_trailing_space(s: Seq<char>, k: int)
    requires
        0 <= k <= s.len(),
        forall|j: int| s.len() - k <= j < s.len() ==> is_space(#[trigger] s[j]),
        k == s.len() || !is_space(s[s.len() - k - 1]),
    ensures
        trailing_space(s) == k,
    decreases k,
{
    if k > 0 {
        let t = s.drop_last();
        assert forall|j: int| t.len() - (k - 1) <= j < t.len() implies is_space(#[trigger] t[j]) by {
            assert(t[j] == s[j]);
        }
        if k - 1 < t.len() {
            assert(t[t.len() - (k - 1) - 1] == s[s.len() - k - 1]);
        }
        lemma_trailing_space(t, k - 1);
    }
}

/// `str::trim`.
pub fn trim_chars(v: &Vec<char>) -> (r: Vec<char>)
    ensures
        r@ == trimmed(v@),
{
    let mut a: usize = 0;
    while a < v.len() && char_is_space(v[a])
        invariant
            a <= v.len(),
            forall|j: int| 0 <= j < a ==> is_space(#[trigger] v@[j]),
        decreases v.len() - a,
    {
        a = a + 1;
    }
    proof {
        lemma_leading_space(v@, a as int);
    }
    let mut b: usize = v.len();
    while b > a && char_is_space(v[b - 1])
        invariant
            a <= b <= v.len(),
            forall|j: int| b <= j < v.len() ==> is_space(#[trigger] v@[j]),
        decreases b - a,
    {
        b = b - 1;
    }
    let ghost rest = v@.skip(a as int);
    proof {
        assert forall|j: int| rest.len() - (v.len() - b) <= j < rest.len() implies is_space(#[trigger] rest[j]) by {
            assert(rest[j] == v@[j + a]);
        }
        if b > a {
            assert(rest[rest.len() - (v.len() - b) - 1] == v@[b - 1]);
        }
        lemma_trailing_space(rest, (v.len() - b) as int);
    }
    let r = slice_chars(v, a, b);
    assert(r@ =~= rest.take(rest.len() - trailing_space(rest)));
    r
}

/// `s` without its leading whitespace, as `str::trim_start` gives it.
pub open spec fn trimmed_start(s: Seq<char>) -> Seq<char> {
    s.skip(leading_space(s) as int)
}

/// `str::trim_start`.
pub fn trim_start_chars(v: &Vec<char>) -> (r: Vec<char>)
    ensures
        r@ == trimmed_start(v@),
{
    let mut a: usize = 0;
    while a < v.len() && char_is_space(v[a])
        invariant
            a <= v.len(),
            forall|j: int| 0 <= j < a ==> is_space(#[trigger] v@[j]),
        decreases v.len() - a,
    {
        a = a + 1;
    }
    proof {
        lemma_leading_space(v@, a as int);
    }
    let r = slice_chars(v, a, v.len());
    assert(r@ =~= v@.skip(a as int));
    r
}

// ---------------------------------------------------------------------------
// Substrings
// ---------------------------------------------------------------------------

/// Whether `pat` occurs in `s` starting at `i`.
pub open spec fn occurs_at(s: Seq<char>, pat: Seq<char>, i: int) -> bool {
    0 <= i && i + pat.len() <= s.len() && s.subrange(i, i + pat.len()) == pat
}

/// The first position at or after `from` where `pat` occurs in `s`.
pub open spec fn find_from(s: Seq<char>, pat: Seq<char>, from: int) -> Option<int>
    decreases s.len() + 1 - from,
{
    if from < 0 || from + pat.len() > s.len() {
        None
    } else if occurs_at(s, pat, from) {
        Some(from)
    } else {
        find_from(s, pat, from + 1)
    }
}

/// The first position where `pat` occurs in `s`, as `str::find` gives it.
pub open spec fn find_sub(s: Seq<char>, pat: Seq<char>) -> Option<int> {
    find_from(s, pat, 0)
}

/// Whether `pat` occurs anywhere in `s`, as `str::contains` answers.
pub open spec fn contains_sub(s: Seq<char>, pat: Seq<char>) -> bool {
    find_sub(s, pat) is Some
}

/// `s` with the first occurrence of `pat` replaced by `with`, as `str::replacen(pat, with, 1)`
/// gives it; `s` itself when `pat` does not occur.
pub open spec fn replace_first(s: Seq<char>, pat: Seq<char>, with: Seq<char>) -> Seq<char> {
    match find_sub(s, pat) {
        Some(i) => s.subrange(0, i) + with + s.subrange(i + pat.len(), s.len() as int),
        None => s,
    }
}

/// What the first occurrence is: an occurrence, with none before it.
pub proof fn lemma_find_from(s: Seq<char>, pat: Seq<char>, from: int)
    requires
        from >= 0,
    ensures
        find_from(s, pat, from) matches Some(i) ==> from <= i && occurs_at(s, pat, i) && forall|j: int|
            from <= j < i ==> !occurs_at(s, pat, j),
        find_from(s, pat, from) is None ==> forall|j: int| from <= j ==> !occurs_at(s, pat, j),
    decreases s.len() + 1 - from,
{
    if from + pat.len() <= s.len() && !occurs_at(s, pat, from) {
        lemma_find_from(s, pat, from + 1);
    }
}

fn occurs_at_exec(s: &Vec<char>, pat: &Vec<char>, i: usize) -> (r: bool)
    requires
        i + pat@.len() <= s@.len(),
    ensures
        r == occurs_at(s@, pat@, i as int),
{
    let mut k: usize = 0;
    while k < pat.len()
        invariant
            k <= pat.len(),
            i + pat@.len() <= s@.len(),
            forall|j: int| 0 <= j < k ==> s@[i + j] == pat@[j],
        decreases pat.len() - k,
    {
        assert(i + k < s.len());
        if s[i + k] != pat[k] {
            assert(s@.subrange(i as int, i + pat@.len())[k as int] != pat@[k as int]);
            return false;
        }
        k = k + 1;
    }
    assert(s@.subrange(i as int, i + pat@.len()) =~= pat@);
    true
}

/// `str::find` for a string pattern.
pub fn find_chars(s: &Vec<char>, pat: &Vec<char>) -> (r: Option<usize>)
    ensures
        r matches Some(i) ==> find_sub(s@, pat@) == Some(i as int),
        r is None ==> find_sub(s@, pat@) is None,
{
    if pat.len() > s.len() {
        return None;
    }
    let last = s.len() - pat.len();
    let mut i: usize = 0;
    while i < last
        invariant
            last == s@.len() - pat@.len(),
            i <= last,
            find_sub(s@, pat@) == find_from(s@, pat@, i as int),
        decreases last - i,
    {
        if occurs_at_exec(s, pat, i) {
            return Some(i);
        }
        i = i + 1;
    }
    if occurs_at_exec(s, pat, last) {
        return Some(last);
    }
    assert(find_from(s@, pat@, last + 1) is None);
    None
}

/// `str::replacen(pat, with, 1)`.
pub fn replace_first_chars(s: &Vec<char>, pat: &Vec<char>, with: &Vec<char>) -> (r: Vec<char>)
    ensures
        r@ == replace_first(s@, pat@, with@),
{
    match find_chars(s, pat) {
        None => slice_chars(s, 0, s.len()),
        Some(i) => {
            proof {
                lemma_find_from(s@, pat@, 0);
            }
            let mut r = slice_chars(s, 0, i);
            let mut k: usize = 0;
            while k < with.len()
                invariant
                    k <= with.len(),
                    i + pat@.len() <= s@.len(),
                    r@ == s@.subrange(0, i as int) + with@.take(k as int),
                decreases with.len() - k,
            {
                r.push(with[k]);
                k = k + 1;
                assert(r@ =~= s@.subrange(0, i as int) + with@.take(k as int));
            }
            assert(i + pat.len() <= s.len());
            let tail = slice_chars(s, i + pat.len(), s.len());
            let mut k: usize = 0;
            let ghost head = r@;
            while k < tail.len()
                invariant
                    k <= tail.len(),
                    r@ == head + tail@.take(k as int),
                decreases tail.len() - k,
            {
                r.push(tail[k]);
                k = k + 1;
                assert(r@ =~= head + tail@.take(k as int));
            }
            assert(with@.take(with@.len() as int) =~= with@);
            assert(tail@.take(tail@.len() as int) =~= tail@);
            r
        },
    }
}

// ---------------------------------------------------------------------------
// Conversions
// ---------------------------------------------------------------------------

/// The characters of `s`, in order.
pub fn chars_of(s: &str) -> (v: Vec<char>)
    ensures
        v@ == s@,
{
    let mut v: Vec<char> = Vec::new();
    for c in it: s.chars()
        invariant
            v@ == it.seq().take(it.index() as int),
            it.seq() == s@,
    {
        v.push(c);
    }
    v
}

/// A `String` holding exactly `v`.
pub fn string_of(v: &Vec<char>) -> (s: String)
    ensures
        s@ == v@,
{
    let mut s = String::new();
    let mut i: usize = 0;
    while i < v.len()
        invariant
            i <= v.len(),
            s@ == v@.take(i as int),
        decreases v.len() - i,
    {
        push_char(&mut s, v[i]);
        i = i + 1;
        assert(s@ =~= v@.take(i as int));
    }
    assert(v@.take(v@.len() as int) =~= v@);
    s
}

/// Appends every character of `v`.
pub(crate) fn push_chars(s: &mut String, v: &Vec<char>)
    ensures
        final(s)@ == old(s)@ + v@,
{
    let mut i: usize = 0;
    while i < v.len()
        invariant
            i <= v.len(),
            s@ == old(s)@ + v@.take(i as int),
        decreases v.len() - i,
    {
        push_char(s, v[i]);
        i = i + 1;
        assert(s@ =~= old(s)@ + v@.take(i as int));
    }
    assert(v@.take(v@.len() as int) =~= v@);
}

/// `String::push`: appends one character.
#[verifier::external_body]
pub(crate) fn push_char(s: &mut String, c: char)
    ensures
        final(s)@ == old(s)@.push(c),
{
    s.push(c);
}

} // verus!
