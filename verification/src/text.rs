//! Text handling shared by clients and servers: UTF-8 decoding, trimming,
//! and decimal rendering of counters.

use vstd::prelude::*;
use vstd::utf8::*;

verus! {

/// Collects the characters of a string slice.
pub fn chars_of(s: &str) -> (v: Vec<char>)
    ensures
        v@ == s@,
{
    let mut v: Vec<char> = Vec::new();
    for c in it: s.chars()
        invariant
            v@ == it.seq().take(it.index() as int),
    {
        v.push(c);
    }
    v
}


/// Builds a string from its characters.
pub fn string_of(chars: &[char]) -> (s: String)
    ensures
        s@ == chars@,
{
    let mut s = String::new();
    let mut i: usize = 0;
    while i < chars.len()
        invariant
            i <= chars@.len(),
            s@ == chars@.take(i as int),
        decreases chars@.len() - i,
    {
        push_char(&mut s, chars[i]);
        assert(chars@.take(i as int + 1) =~= chars@.take(i as int).push(chars@[i as int]));
        i = i + 1;
    }
    assert(chars@.take(chars@.len() as int) =~= chars@);
    s
}

/// Appends one character: `String::push`.
#[verifier::external_body]
pub(crate) fn push_char(s: &mut String, c: char)
    ensures
        final(s)@ == old(s)@.push(c),
{
    s.push(c)
}

/// Whether a character has the Unicode `White_Space` property, which
/// `char::is_whitespace` decides: U+0009 to U+000D, U+0020, U+0085, U+00A0,
/// U+1680, U+2000 to U+200A, U+2028, U+2029, U+202F, U+205F and U+3000.
pub open spec fn white_space(c: char) -> bool {
    let u = c as u32;
    ||| 0x09 <= u <= 0x0D
    ||| u == 0x20
    ||| u == 0x85
    ||| u == 0xA0
    ||| u == 0x1680
    ||| 0x2000 <= u <= 0x200A
    ||| u == 0x2028
    ||| u == 0x2029
    ||| u == 0x202F
    ||| u == 0x205F
    ||| u == 0x3000
}

/// `char::is_whitespace`: true exactly for the characters of [`white_space`].
#[verifier::external_body]
fn is_white_space(c: char) -> (r: bool)
    ensures
        r == white_space(c),
{
    c.is_whitespace()
}

/// `std::str::from_utf8`: succeeds exactly on valid UTF-8, and the string it
/// returns has exactly the given bytes.
#[verifier::external_body]
fn str_from_utf8(bytes: &[u8]) -> (res: Option<&str>)
    ensures
        res is Some <==> valid_utf8(bytes@),
        res matches Some(s) ==> encode_utf8(s@) == bytes@,
{
    std::str::from_utf8(bytes).ok()
}

/// Decodes UTF-8 text; `None` where the bytes are not valid UTF-8.
pub fn decode_text(bytes: &[u8]) -> (res: Option<String>)
    ensures
        res is Some <==> valid_utf8(bytes@),
        res matches Some(s) ==> s@ == decode_utf8(bytes@),
{
    match str_from_utf8(bytes) {
        Some(s) => {
            proof {
                encode_utf8_decode_utf8(s@);
            }
            Some(s.to_owned())
        },
        None => None,
    }
}

/// Removes the characters satisfying `p` from the front of `s`.
pub open spec fn drop_leading(s: Seq<char>, p: spec_fn(char) -> bool) -> Seq<char>
    decreases s.len(),
{
    if s.len() > 0 && p(s[0]) {
        drop_leading(s.drop_first(), p)
    } else {
        s
    }
}

/// Removes the characters satisfying `p` from the back of `s`.
pub open spec fn drop_trailing(s: Seq<char>, p: spec_fn(char) -> bool) -> Seq<char>
    decreases s.len(),
{
    if s.len() > 0 && p(s.last()) {
        drop_trailing(s.drop_last(), p)
    } else {
        s
    }
}

/// `s` without the characters satisfying `p` at either end.
pub open spec fn trim_by(s: Seq<char>, p: spec_fn(char) -> bool) -> Seq<char> {
    drop_trailing(drop_leading(s, p), p)
}

/// `s` without white space at either end, as `str::trim` gives it.
pub open spec fn trim_ws(s: Seq<char>) -> Seq<char> {
    trim_by(s, |c: char| white_space(c))
}

/// `s` without NUL characters at either end, as `str::trim_matches('\0')`
/// gives it.
pub open spec fn trim_nul(s: Seq<char>) -> Seq<char> {
    trim_by(s, |c: char| c == '\0')
}

/// What removing characters from the front leaves: a suffix of `s`
/// whose removed part satisfies `p` throughout and which does not itself
/// start with such a character. Returns where that suffix starts.
pub proof fn lemma_drop_leading_shape(s: Seq<char>, p: spec_fn(char) -> bool) -> (a: int)
    ensures
        0 <= a <= s.len(),
        drop_leading(s, p) == s.subrange(a, s.len() as int),
        forall|i: int| 0 <= i < a ==> p(#[trigger] s[i]),
        a < s.len() ==> !p(s[a]),
    decreases s.len(),
{
    if s.len() > 0 && p(s[0]) {
        let a1 = lemma_drop_leading_shape(s.drop_first(), p);
        assert(s.drop_first().subrange(a1, s.len() - 1) =~= s.subrange(a1 + 1, s.len() as int));
        assert forall|i: int| 0 <= i < a1 + 1 implies p(#[trigger] s[i]) by {
            if i > 0 {
                assert(s[i] == s.drop_first()[i - 1]);
            }
        }
        if a1 + 1 < s.len() {
            assert(s[a1 + 1] == s.drop_first()[a1]);
        }
        a1 + 1
    } else {
        assert(s.subrange(0, s.len() as int) =~= s);
        0
    }
}

/// What removing characters from the back leaves: a prefix of `s` whose
/// removed part satisfies `p` throughout and which does not itself end with
/// such a character. Returns where that prefix ends.
pub proof fn lemma_drop_trailing_shape(s: Seq<char>, p: spec_fn(char) -> bool) -> (b: int)
    ensures
        0 <= b <= s.len(),
        drop_trailing(s, p) == s.subrange(0, b),
        forall|i: int| b <= i < s.len() ==> p(#[trigger] s[i]),
        b > 0 ==> !p(s[b - 1]),
    decreases s.len(),
{
    if s.len() > 0 && p(s.last()) {
        let b1 = lemma_drop_trailing_shape(s.drop_last(), p);
        assert(s.drop_last().subrange(0, b1) =~= s.subrange(0, b1));
        assert forall|i: int| b1 <= i < s.len() implies p(#[trigger] s[i]) by {
            if i < s.len() - 1 {
                assert(s[i] == s.drop_last()[i]);
            }
        }
        if b1 > 0 {
            assert(s[b1 - 1] == s.drop_last()[b1 - 1]);
        }
        b1
    } else {
        assert(s.subrange(0, s.len() as int) =~= s);
        s.len() as int
    }
}

/// Trimming keeps a contiguous middle part of `s`: everything removed at
/// either end satisfies `p`, and the part kept is empty or neither starts
/// nor ends with a character satisfying `p`. Returns its bounds.
pub proof fn lemma_trim_shape(s: Seq<char>, p: spec_fn(char) -> bool) -> (ab: (int, int))
    ensures
        0 <= ab.0 <= ab.1 <= s.len(),
        trim_by(s, p) == s.subrange(ab.0, ab.1),
        forall|i: int| 0 <= i < ab.0 ==> p(#[trigger] s[i]),
        forall|i: int| ab.1 <= i < s.len() ==> p(#[trigger] s[i]),
        ab.0 < ab.1 ==> !p(s[ab.0]) && !p(s[ab.1 - 1]),
{
    let a = lemma_drop_leading_shape(s, p);
    let mid = s.subrange(a, s.len() as int);
    let b = lemma_drop_trailing_shape(mid, p);
    assert(mid.subrange(0, b) =~= s.subrange(a, a + b));
    assert forall|i: int| a + b <= i < s.len() implies p(#[trigger] s[i]) by {
        assert(s[i] == mid[i - a]);
    }
    if 0 < b {
        assert(s[a] == mid[0]);
        assert(s[a + b - 1] == mid[b - 1]);
        if a < s.len() {
        }
    }
    (a, a + b)
}

/// Whether the trimming helpers strip `c`: white space, or NUL.
spec fn strips(nul: bool, c: char) -> bool {
    if nul { c == '\0' } else { white_space(c) }
}

fn is_stripped(nul: bool, c: char) -> (r: bool)
    ensures
        r == strips(nul, c),
{
    if nul { c == '\0' } else { is_white_space(c) }
}

/// Trims NUL characters (`nul`) or white space from both ends.
fn trim_chars(v: &[char], nul: bool) -> (r: Vec<char>)
    ensures
        r@ == trim_by(v@, |c: char| strips(nul, c)),
{
    let ghost p = |c: char| strips(nul, c);
    let n = v.len();
    let mut a: usize = 0;
    assert(v@.subrange(0, n as int) =~= v@);
    while a < n && is_stripped(nul, v[a])
        invariant
            a <= n == v@.len(),
            p == (|c: char| strips(nul, c)),
            drop_leading(v@.subrange(a as int, n as int), p) == drop_leading(v@, p),
        decreases n - a,
    {
        let ghost sub = v@.subrange(a as int, n as int);
        assert(sub[0] == v@[a as int]);
        assert(p(sub[0]));
        assert(sub.drop_first() =~= v@.subrange(a as int + 1, n as int));
        assert(drop_leading(sub, p) == drop_leading(sub.drop_first(), p));
        a = a + 1;
    }
    assert(drop_leading(v@, p) == v@.subrange(a as int, n as int));
    let mut b: usize = n;
    while b > a && is_stripped(nul, v[b - 1])
        invariant
            a <= b <= n == v@.len(),
            p == (|c: char| strips(nul, c)),
            drop_trailing(v@.subrange(a as int, b as int), p) == trim_by(v@, p),
        decreases b,
    {
        let ghost sub = v@.subrange(a as int, b as int);
        assert(sub.last() == v@[b - 1]);
        assert(p(sub.last()));
        assert(sub.drop_last() =~= v@.subrange(a as int, b as int - 1));
        assert(drop_trailing(sub, p) == drop_trailing(sub.drop_last(), p));
        b = b - 1;
    }
    let mut r: Vec<char> = Vec::new();
    let mut i: usize = a;
    while i < b
        invariant
            a <= i <= b <= n == v@.len(),
            r@ == v@.subrange(a as int, i as int),
        decreases b - i,
    {
        r.push(v[i]);
        assert(v@.subrange(a as int, i as int + 1) =~= v@.subrange(a as int, i as int).push(v@[i as int]));
        i = i + 1;
    }
    r
}

/// The characters of `v` without white space at either end (`str::trim`).
pub fn trim_whitespace(v: &[char]) -> (r: Vec<char>)
    ensures
        r@ == trim_ws(v@),
{
    let r = trim_chars(v, false);
    assert((|c: char| strips(false, c)) =~= (|c: char| white_space(c)));
    r
}

/// The characters of `v` without NUL characters at either end
/// (`str::trim_matches('\0')`).
pub fn trim_nuls(v: &[char]) -> (r: Vec<char>)
    ensures
        r@ == trim_nul(v@),
{
    let r = trim_chars(v, true);
    assert((|c: char| strips(true, c)) =~= (|c: char| c == '\0'));
    r
}

/// Whether two character sequences are equal.
pub fn chars_eq(a: &[char], b: &[char]) -> (r: bool)
    ensures
        r == (a@ == b@),
{
    if a.len() != b.len() {
        return false;
    }
    let mut i: usize = 0;
    while i < a.len()
        invariant
            i <= a@.len() == b@.len(),
            forall|j: int| 0 <= j < i ==> a@[j] == b@[j],
        decreases a@.len() - i,
    {
        if a[i] != b[i] {
            return false;
        }
        i = i + 1;
    }
    assert(a@ =~= b@);
    true
}


/// The character of a decimal digit.
pub open spec fn digit_of(d: nat) -> char {
    if d == 0 { '0' }
    else if d == 1 { '1' }
    else if d == 2 { '2' }
    else if d == 3 { '3' }
    else if d == 4 { '4' }
    else if d == 5 { '5' }
    else if d == 6 { '6' }
    else if d == 7 { '7' }
    else if d == 8 { '8' }
    else { '9' }
}

/// The decimal rendering of `n`, without sign or leading zeros, as `{}`
/// formats an unsigned integer.
pub open spec fn decimal(n: nat) -> Seq<char>
    decreases n,
{
    if n < 10 {
        seq![digit_of(n)]
    } else {
        decimal(n / 10).push(digit_of(n % 10))
    }
}

fn digit_char(d: u128) -> (c: char)
    requires
        d < 10,
    ensures
        c == digit_of(d as nat),
{
    if d == 0 { '0' }
    else if d == 1 { '1' }
    else if d == 2 { '2' }
    else if d == 3 { '3' }
    else if d == 4 { '4' }
    else if d == 5 { '5' }
    else if d == 6 { '6' }
    else if d == 7 { '7' }
    else if d == 8 { '8' }
    else { '9' }
}

/// The value of a decimal digit character.
pub open spec fn digit_value(c: char) -> int {
    (c as u32) as int - ('0' as u32) as int
}

/// The number a string of decimal digits denotes.
pub open spec fn decimal_value(s: Seq<char>) -> int
    decreases s.len(),
{
    if s.len() == 0 {
        0
    } else {
        decimal_value(s.drop_last()) * 10 + digit_value(s.last())
    }
}

proof fn lemma_digit_of(d: nat)
    requires
        d < 10,
    ensures
        digit_value(digit_of(d)) == d,
        '0' <= digit_of(d) <= '9',
        d > 0 ==> digit_of(d) != '0',
{
    assert(('0' as u32) == 48u32);
    assert(('1' as u32) == 49u32);
    assert(('2' as u32) == 50u32);
    assert(('3' as u32) == 51u32);
    assert(('4' as u32) == 52u32);
    assert(('5' as u32) == 53u32);
    assert(('6' as u32) == 54u32);
    assert(('7' as u32) == 55u32);
    assert(('8' as u32) == 56u32);
    assert(('9' as u32) == 57u32);
}

/// The decimal rendering of `n` is a non-empty string of digits, without a
/// leading zero unless it is `0`, that denotes `n`.
pub proof fn lemma_decimal_reads_back(n: nat)
    ensures
        decimal(n).len() > 0,
        decimal_value(decimal(n)) == n,
        forall|i: int| 0 <= i < decimal(n).len() ==> '0' <= #[trigger] decimal(n)[i] <= '9',
        decimal(n).len() > 1 ==> decimal(n)[0] != '0',
    decreases n,
{
    if n < 10 {
        lemma_digit_of(n);
        let s = decimal(n);
        assert(s.drop_last() =~= Seq::<char>::empty());
        assert(decimal_value(Seq::<char>::empty()) == 0);
        assert(decimal_value(s) == decimal_value(s.drop_last()) * 10 + digit_value(s.last()));
    } else {
        lemma_decimal_reads_back(n / 10);
        lemma_digit_of(n % 10);
        let s = decimal(n);
        let h = decimal(n / 10);
        assert(s == h.push(digit_of(n % 10)));
        assert(s.drop_last() =~= h);
        assert(s.last() == digit_of(n % 10));
        assert(decimal_value(s) == decimal_value(h) * 10 + digit_value(s.last()));
        assert(n == (n / 10) * 10 + n % 10);
        assert forall|i: int| 0 <= i < s.len() implies '0' <= #[trigger] s[i] <= '9' by {
            if i < s.len() - 1 {
                assert(s[i] == h[i]);
            }
        }
        assert(s[0] == h[0]);
        if n / 10 < 10 {
            lemma_digit_of(n / 10);
            assert(h == seq![digit_of(n / 10)]);
        } else {
            assert(h == decimal(n / 10 / 10).push(digit_of(n / 10 % 10)));
            lemma_decimal_reads_back(n / 10 / 10);
        }
    }
}

/// Appends the decimal rendering of `n`.
pub fn push_decimal(s: &mut String, n: u128)
    ensures
        final(s)@ == old(s)@ + decimal(n as nat),
    decreases n,
{
    if n >= 10 {
        push_decimal(s, n / 10);
    }
    push_char(s, digit_char(n % 10));
    assert(final(s)@ =~= old(s)@ + decimal(n as nat)) by {
        if n < 10 {
            assert(n % 10 == n);
        }
    }
}

/// Appends the characters of `t`.
pub fn push_str(s: &mut String, t: &str)
    ensures
        final(s)@ == old(s)@ + t@,
{
    let v = chars_of(t);
    let mut i: usize = 0;
    let ghost start = s@;
    while i < v.len()
        invariant
            i <= v@.len(),
            v@ == t@,
            s@ == start + v@.take(i as int),
        decreases v@.len() - i,
    {
        push_char(s, v[i]);
        assert(v@.take(i as int + 1) =~= v@.take(i as int).push(v@[i as int]));
        i = i + 1;
    }
    assert(v@.take(v@.len() as int) =~= v@);
}


/// The UTF-8 bytes of a string.
pub fn utf8_bytes(s: &str) -> (b: Vec<u8>)
    ensures
        b@ == encode_utf8(s@),
{
    let bytes = s.as_bytes();
    let mut b: Vec<u8> = Vec::new();
    let mut i: usize = 0;
    while i < bytes.len()
        invariant
            i <= bytes@.len(),
            bytes@ == encode_utf8(s@),
            b@ == bytes@.take(i as int),
        decreases bytes@.len() - i,
    {
        b.push(bytes[i]);
        assert(bytes@.take(i as int + 1) =~= bytes@.take(i as int).push(bytes@[i as int]));
        i = i + 1;
    }
    assert(bytes@.take(bytes@.len() as int) =~= bytes@);
    b
}

/// `n` zero bytes.
pub open spec fn zeros(n: nat) -> Seq<u8> {
    Seq::new(n, |i: int| 0u8)
}

/// `n` NUL characters.
pub open spec fn nuls(n: nat) -> Seq<char> {
    Seq::new(n, |i: int| '\0')
}

/// The encoding of a concatenation is the concatenation of the encodings.
pub proof fn lemma_encode_concat(a: Seq<char>, b: Seq<char>)
    ensures
        encode_utf8(a + b) == encode_utf8(a) + encode_utf8(b),
    decreases a.len(),
{
    if a.len() == 0 {
        assert(a + b =~= b);
    } else {
        assert((a + b).drop_first() =~= a.drop_first() + b);
        assert((a + b)[0] == a[0]);
        lemma_encode_concat(a.drop_first(), b);
    }
}

/// NUL characters are encoded as zero bytes.
pub proof fn lemma_encode_nuls(n: nat)
    ensures
        encode_utf8(nuls(n)) == zeros(n),
    decreases n,
{
    if n > 0 {
        assert((0u32 & 0x7Fu32) == 0u32) by (bit_vector);
        assert(('\0' as u32) == 0u32);
        assert(encode_scalar(0u32) =~= seq![0u8]);
        assert(nuls(n).drop_first() =~= nuls((n - 1) as nat));
        lemma_encode_nuls((n - 1) as nat);
        assert(zeros(n) =~= seq![0u8] + zeros((n - 1) as nat));
    } else {
        assert(zeros(0) =~= Seq::<u8>::empty());
    }
}

/// Text followed by zero bytes is valid UTF-8, and decodes to the text
/// followed by as many NUL characters.
pub proof fn lemma_decode_zero_padded(t: Seq<char>, n: nat)
    ensures
        valid_utf8(encode_utf8(t) + zeros(n)),
        decode_utf8(encode_utf8(t) + zeros(n)) == t + nuls(n),
{
    lemma_encode_nuls(n);
    lemma_encode_concat(t, nuls(n));
    encode_utf8_valid_utf8(t + nuls(n));
    encode_utf8_decode_utf8(t + nuls(n));
}

/// The first byte of an encoding: a character below U+0080 is its own
/// byte, any other character starts with a byte of 0xC0 or more.
pub proof fn lemma_first_byte(t: Seq<char>)
    requires
        t.len() > 0,
    ensures
        encode_utf8(t).len() > 0,
        (t[0] as u32) < 0x80 ==> encode_utf8(t)[0] == (t[0] as u32) as u8,
        (t[0] as u32) >= 0x80 ==> encode_utf8(t)[0] >= 0xC0,
{
    let c = t[0] as u32;
    char_is_scalar(t[0]);
    assert(encode_utf8(t) == encode_scalar(c) + encode_utf8(t.drop_first()));
    if c < 0x80 {
        assert((c & 0x7F) == c) by (bit_vector)
            requires c < 0x80u32;
    } else if c <= 0x7FF {
        assert(0xC0u8 <= (0xC0u8 | ((c >> 6) & 0x1F) as u8)) by (bit_vector);
    } else if has_width_3_encoding(c) {
        assert(0xC0u8 <= (0xE0u8 | ((c >> 12) & 0x0F) as u8)) by (bit_vector);
    } else {
        assert(0xC0u8 <= (0xF0u8 | ((c >> 18) & 0x7) as u8)) by (bit_vector);
    }
}

} // verus!
