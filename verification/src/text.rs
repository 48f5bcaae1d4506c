//! Text helpers: decimal rendering, zero padding, whitespace tests and
//! string comparison.

use vstd::prelude::*;

verus! {

/// The character of a decimal digit.
pub open spec fn digit_char(d: nat) -> char {
    if d == 0 {
        '0'
    } else if d == 1 {
        '1'
    } else if d == 2 {
        '2'
    } else if d == 3 {
        '3'
    } else if d == 4 {
        '4'
    } else if d == 5 {
        '5'
    } else if d == 6 {
        '6'
    } else if d == 7 {
        '7'
    } else if d == 8 {
        '8'
    } else {
        '9'
    }
}

/// The decimal rendering of a natural number, without leading zeros.
pub open spec fn decimal(n: nat) -> Seq<char>
    decreases n,
{
    if n < 10 {
        seq![digit_char(n)]
    } else {
        decimal(n / 10) + seq![digit_char(n % 10)]
    }
}

/// `k` zero characters (none when `k` is not positive).
pub open spec fn zeros(k: int) -> Seq<char> {
    Seq::new(if k > 0 { k as nat } else { 0 }, |i: int| '0')
}

/// The rendering of an integer padded with zeros to `width` characters,
/// the sign counted in the width and written first (`{:0width}`).
pub open spec fn zero_padded(v: int, width: int) -> Seq<char> {
    let digits = decimal(if v < 0 { (-v) as nat } else { v as nat });
    let sign = if v < 0 { seq!['-'] } else { Seq::<char>::empty() };
    sign + zeros(width - sign.len() - digits.len()) + digits
}

/// The value of a decimal digit character (0 for any other character).
pub open spec fn digit_value(c: char) -> int {
    if c == '1' {
        1
    } else if c == '2' {
        2
    } else if c == '3' {
        3
    } else if c == '4' {
        4
    } else if c == '5' {
        5
    } else if c == '6' {
        6
    } else if c == '7' {
        7
    } else if c == '8' {
        8
    } else if c == '9' {
        9
    } else {
        0
    }
}

/// The number that a string of decimal digits reads as.
pub open spec fn digits_value(s: Seq<char>) -> int
    decreases s.len(),
{
    if s.len() == 0 {
        0
    } else {
        10 * digits_value(s.drop_last()) + digit_value(s.last())
    }
}

/// A decimal rendering reads back as the number it renders.
pub proof fn lemma_decimal_value(n: nat)
    ensures
        digits_value(decimal(n)) == n,
    decreases n,
{
    lemma_digit_value((n % 10) as nat);
    if n >= 10 {
        lemma_decimal_value(n / 10);
        assert(decimal(n).drop_last() =~= decimal(n / 10));
    } else {
        assert(decimal(n).drop_last() =~= Seq::<char>::empty());
        assert(digits_value(Seq::<char>::empty()) == 0);
    }
}

/// A digit character reads back as its digit.
proof fn lemma_digit_value(d: nat)
    requires
        d < 10,
    ensures
        digit_value(digit_char(d)) == d,
{
}

/// Leading zeros do not change what a string of digits reads as.
proof fn lemma_leading_zeros_value(k: int, t: Seq<char>)
    ensures
        digits_value(zeros(k) + t) == digits_value(t),
    decreases t.len(),
{
    if t.len() == 0 {
        lemma_zeros_value(k);
        assert(zeros(k) + t =~= zeros(k));
    } else {
        lemma_leading_zeros_value(k, t.drop_last());
        assert((zeros(k) + t).drop_last() =~= zeros(k) + t.drop_last());
    }
}

/// A string of zeros reads as zero.
proof fn lemma_zeros_value(k: int)
    ensures
        digits_value(zeros(k)) == 0,
    decreases if k > 0 { k } else { 0 },
{
    if k > 0 {
        lemma_zeros_value(k - 1);
        assert(zeros(k).drop_last() =~= zeros(k - 1));
    }
}

/// A zero-padded rendering of a natural number reads back as that number.
pub proof fn lemma_zero_padded_value(v: int, width: int)
    requires
        0 <= v,
    ensures
        digits_value(zero_padded(v, width)) == v,
{
    let digits = decimal(v as nat);
    lemma_decimal_value(v as nat);
    lemma_leading_zeros_value(width - digits.len(), digits);
    assert(zero_padded(v, width) =~= zeros(width - digits.len()) + digits);
}

/// A decimal digit character, `'0'` to `'9'`.
pub open spec fn is_digit(c: char) -> bool {
    '0' <= c <= '9'
}

/// Every character of `s` is a decimal digit.
pub open spec fn all_digits(s: Seq<char>) -> bool {
    forall|j: int| 0 <= j < s.len() ==> #[trigger] is_digit(s[j])
}

/// `a` and `b` agree before position `i` and part there: `a` ends while
/// `b` goes on, or `a` has the smaller character.
pub open spec fn parts_at(a: Seq<char>, b: Seq<char>, i: int) -> bool {
    &&& 0 <= i <= a.len()
    &&& i <= b.len()
    &&& a.subrange(0, i) == b.subrange(0, i)
    &&& ((i == a.len() && i < b.len()) || (i < a.len() && i < b.len() && a[i] < b[i]))
}

/// `a` sorts strictly before `b` in the order of strings (`<` on `str`).
pub open spec fn text_before(a: Seq<char>, b: Seq<char>) -> bool {
    exists|i: int| #[trigger] parts_at(a, b, i)
}

/// Strings of equal length keep their order whatever follows them.
pub proof fn lemma_before_then(a: Seq<char>, b: Seq<char>, x: Seq<char>, y: Seq<char>)
    requires
        a.len() == b.len(),
        text_before(a, b),
    ensures
        text_before(a + x, b + y),
{
    let i = choose|i: int| #[trigger] parts_at(a, b, i);
    assert(a.subrange(0, i) =~= (a + x).subrange(0, i));
    assert(b.subrange(0, i) =~= (b + y).subrange(0, i));
    assert(parts_at(a + x, b + y, i));
}

/// A common beginning keeps the order of what follows it.
pub proof fn lemma_before_after(p: Seq<char>, a: Seq<char>, b: Seq<char>)
    requires
        text_before(a, b),
    ensures
        text_before(p + a, p + b),
{
    let i = choose|i: int| #[trigger] parts_at(a, b, i);
    let k = p.len() + i;
    assert((p + a).subrange(0, k) =~= p + a.subrange(0, i));
    assert((p + b).subrange(0, k) =~= p + b.subrange(0, i));
    assert(parts_at(p + a, p + b, k));
}

/// Among strings of equal length the order is transitive.
pub proof fn lemma_before_transitive(a: Seq<char>, b: Seq<char>, c: Seq<char>)
    requires
        a.len() == b.len(),
        b.len() == c.len(),
        text_before(a, b),
        text_before(b, c),
    ensures
        text_before(a, c),
{
    let i = choose|i: int| #[trigger] parts_at(a, b, i);
    let j = choose|j: int| #[trigger] parts_at(b, c, j);
    let k = if i <= j { i } else { j };
    assert(a.subrange(0, k) =~= a.subrange(0, i).subrange(0, k));
    assert(b.subrange(0, k) =~= b.subrange(0, i).subrange(0, k));
    assert(b.subrange(0, k) =~= b.subrange(0, j).subrange(0, k));
    assert(c.subrange(0, k) =~= c.subrange(0, j).subrange(0, k));
    if i < j {
        assert(b[i] == b.subrange(0, j)[i]);
        assert(c[i] == c.subrange(0, j)[i]);
    } else if j < i {
        assert(a[j] == a.subrange(0, i)[j]);
        assert(b[j] == b.subrange(0, i)[j]);
    }
    assert(parts_at(a, c, k));
}

/// A digit character's value is its distance from `'0'`.
proof fn lemma_digit_code(c: char)
    requires
        is_digit(c),
    ensures
        digit_value(c) == (c as u32) - ('0' as u32),
        0 <= digit_value(c) < 10,
{
}

/// Strings of digits of equal length that read as the same number are the
/// same string.
proof fn lemma_digits_injective(a: Seq<char>, b: Seq<char>)
    requires
        a.len() == b.len(),
        all_digits(a),
        all_digits(b),
        digits_value(a) == digits_value(b),
    ensures
        a == b,
    decreases a.len(),
{
    if a.len() > 0 {
        let n = a.len() - 1;
        assert(is_digit(a[n]) && is_digit(b[n]));
        lemma_digit_code(a.last());
        lemma_digit_code(b.last());
        assert(all_digits(a.drop_last()) && all_digits(b.drop_last())) by {
            assert forall|j: int| 0 <= j < n implies #[trigger] is_digit(a.drop_last()[j])
                && is_digit(b.drop_last()[j]) by {
                assert(is_digit(a[j]) && is_digit(b[j]));
            }
        }
        lemma_digits_injective(a.drop_last(), b.drop_last());
        assert(a =~= a.drop_last().push(a.last()));
        assert(b =~= b.drop_last().push(b.last()));
    } else {
        assert(a =~= b);
    }
}

/// Strings of digits of equal length sort as the numbers they read as.
pub proof fn lemma_digits_before(a: Seq<char>, b: Seq<char>)
    requires
        a.len() == b.len(),
        all_digits(a),
        all_digits(b),
        digits_value(a) < digits_value(b),
    ensures
        text_before(a, b),
    decreases a.len(),
{
    if a.len() > 0 {
        let n = a.len() - 1;
        assert(is_digit(a[n]) && is_digit(b[n]));
        lemma_digit_code(a.last());
        lemma_digit_code(b.last());
        let a0 = a.drop_last();
        let b0 = b.drop_last();
        assert(all_digits(a0) && all_digits(b0)) by {
            assert forall|j: int| 0 <= j < n implies #[trigger] is_digit(a0[j]) && is_digit(b0[j]) by {
                assert(is_digit(a[j]) && is_digit(b[j]));
            }
        }
        assert(a =~= a0 + seq![a.last()]);
        assert(b =~= b0 + seq![b.last()]);
        if digits_value(a0) < digits_value(b0) {
            lemma_digits_before(a0, b0);
            lemma_before_then(a0, b0, seq![a.last()], seq![b.last()]);
        } else {
            assert(digits_value(a0) == digits_value(b0));
            lemma_digits_injective(a0, b0);
            assert(a.subrange(0, n) =~= a0);
            assert(b.subrange(0, n) =~= b0);
            assert(parts_at(a, b, n));
        }
    } else {
        assert(digits_value(a) == 0 && digits_value(b) == 0);
    }
}

/// A decimal rendering consists of digits.
proof fn lemma_decimal_digits(n: nat)
    ensures
        all_digits(decimal(n)),
    decreases n,
{
    lemma_digit_value((n % 10) as nat);
    if n >= 10 {
        lemma_decimal_digits(n / 10);
        let d = decimal(n);
        assert forall|j: int| 0 <= j < d.len() implies #[trigger] is_digit(d[j]) by {
            if j < d.len() - 1 {
                assert(d[j] == decimal(n / 10)[j]);
            }
        }
    }
}

/// A zero-padded rendering of a natural number consists of digits.
pub proof fn lemma_zero_padded_digits(v: int, width: int)
    requires
        0 <= v,
    ensures
        all_digits(zero_padded(v, width)),
{
    let digits = decimal(v as nat);
    lemma_decimal_digits(v as nat);
    let z = zeros(width - digits.len());
    let s = zero_padded(v, width);
    assert(s =~= z + digits);
    assert forall|j: int| 0 <= j < s.len() implies #[trigger] is_digit(s[j]) by {
        if j >= z.len() {
            assert(s[j] == digits[j - z.len()]);
        }
    }
}

/// Whether a character has the Unicode `White_Space` property.
pub open spec fn is_white_space(c: char) -> bool {
    let v = c as u32;
    ||| 9 <= v <= 13
    ||| v == 32
    ||| v == 0x85
    ||| v == 0xA0
    ||| v == 0x1680
    ||| 0x2000 <= v <= 0x200A
    ||| v == 0x2028
    ||| v == 0x2029
    ||| v == 0x202F
    ||| v == 0x205F
    ||| v == 0x3000
}

/// Whether a text is empty once white space is trimmed from both ends,
/// that is, whether every character in it is white space.
pub open spec fn is_blank(s: Seq<char>) -> bool {
    forall|i: int| 0 <= i < s.len() ==> #[trigger] is_white_space(s[i])
}

/// Appends one decimal digit.
fn push_digit(s: &mut String, d: u64)
    requires
        d < 10,
    ensures
        final(s)@ == old(s)@ + seq![digit_char(d as nat)],
{
    if d == 0 {
        s.append("0");
        proof { reveal_strlit("0"); }
    } else if d == 1 {
        s.append("1");
        proof { reveal_strlit("1"); }
    } else if d == 2 {
        s.append("2");
        proof { reveal_strlit("2"); }
    } else if d == 3 {
        s.append("3");
        proof { reveal_strlit("3"); }
    } else if d == 4 {
        s.append("4");
        proof { reveal_strlit("4"); }
    } else if d == 5 {
        s.append("5");
        proof { reveal_strlit("5"); }
    } else if d == 6 {
        s.append("6");
        proof { reveal_strlit("6"); }
    } else if d == 7 {
        s.append("7");
        proof { reveal_strlit("7"); }
    } else if d == 8 {
        s.append("8");
        proof { reveal_strlit("8"); }
    } else {
        s.append("9");
        proof { reveal_strlit("9"); }
    }
}

/// Appends the decimal rendering of `n`.
pub fn push_decimal(s: &mut String, n: u64)
    ensures
        final(s)@ == old(s)@ + decimal(n as nat),
    decreases n,
{
    if n >= 10 {
        push_decimal(s, n / 10);
    }
    push_digit(s, n % 10);
    assert(s@ =~= old(s)@ + decimal(n as nat));
}


/// The number of decimal digits of `n`.
fn digit_count(n: u64) -> (r: u64)
    ensures
        r as int == decimal(n as nat).len(),
        1 <= r <= 20,
    decreases n,
{
    if n >= 10 {
        let k = digit_count(n / 10);
        assert(decimal(n as nat).len() == decimal((n / 10) as nat).len() + 1);
        assert(k <= 19) by {
            lemma_decimal_len_bound((n / 10) as nat);
        }
        k + 1
    } else {
        1
    }
}

proof fn lemma_decimal_len_bound(n: nat)
    requires
        n <= u64::MAX / 10,
    ensures
        decimal(n).len() <= 19,
    decreases n,
{
    assert(pow10(19) == 10000000000000000000) by {
        reveal_with_fuel(pow10, 20);
    }
    lemma_decimal_len_upto(n, 18);
}

/// A number below `10^(k+1)` has at most `k + 1` digits.
proof fn lemma_decimal_len_upto(n: nat, k: nat)
    requires
        n < pow10(k + 1),
    ensures
        decimal(n).len() <= k + 1,
    decreases k,
{
    if n >= 10 {
        if k == 0 {
            assert(pow10(1) == 10) by { reveal_with_fuel(pow10, 2); }
        } else {
            assert(pow10((k + 1) as nat) == 10 * pow10(k));
            assert(n / 10 < pow10(k));
            lemma_decimal_len_upto(n / 10, (k - 1) as nat);
        }
    }
}

/// Ten to the power `k`.
pub open spec fn pow10(k: nat) -> nat
    decreases k,
{
    if k == 0 {
        1
    } else {
        10 * pow10((k - 1) as nat)
    }
}

/// Appends `k` zero characters.
fn push_zeros(s: &mut String, k: u64)
    ensures
        final(s)@ == old(s)@ + zeros(k as int),
{
    let mut i: u64 = 0;
    while i < k
        invariant
            i <= k,
            s@ == old(s)@ + zeros(i as int),
        decreases k - i,
    {
        s.append("0");
        proof { reveal_strlit("0"); }
        i = i + 1;
        assert(s@ =~= old(s)@ + zeros(i as int));
    }
}

/// Appends `v` padded with zeros to `width` characters, as `{:0width}` does.
pub fn push_zero_padded(s: &mut String, v: i64, width: u64)
    ensures
        final(s)@ == old(s)@ + zero_padded(v as int, width as int),
{
    let mag: u64 = if v < 0 {
        (0i128 - (v as i128)) as u64
    } else {
        v as u64
    };
    let ghost start = s@;
    let sign_len: u64 = if v < 0 {
        s.append("-");
        proof { reveal_strlit("-"); }
        1
    } else {
        0
    };
    let digits = digit_count(mag);
    if width > sign_len + digits {
        push_zeros(s, width - sign_len - digits);
    }
    push_decimal(s, mag);
    let ghost sign = if v < 0 { seq!['-'] } else { Seq::<char>::empty() };
    assert(zeros(width - sign_len - digits) =~= zeros(width - sign.len() - decimal(mag as nat).len()));
    assert(s@ =~= start + zero_padded(v as int, width as int));
}

/// Whether a character has the Unicode `White_Space` property.
pub fn white_space(c: char) -> (r: bool)
    ensures
        r == is_white_space(c),
{
    let v = c as u32;
    (9 <= v && v <= 13) || v == 32 || v == 0x85 || v == 0xA0 || v == 0x1680 || (0x2000 <= v && v
        <= 0x200A) || v == 0x2028 || v == 0x2029 || v == 0x202F || v == 0x205F || v == 0x3000
}

/// Whether `s.trim().is_empty()`: every character of `s` is white space.
pub fn blank(s: &str) -> (r: bool)
    ensures
        r == is_blank(s@),
{
    let n = s.unicode_len();
    let mut i: usize = 0;
    while i < n
        invariant
            n == s@.len(),
            i <= n,
            forall|j: int| 0 <= j < i ==> #[trigger] is_white_space(s@[j]),
        decreases n - i,
    {
        let c = s.get_char(i);
        if !white_space(c) {
            return false;
        }
        i = i + 1;
    }
    true
}

/// Whether two string slices hold the same characters.
pub(crate) fn str_eq(a: &str, b: &str) -> (r: bool)
    ensures
        r == (a@ == b@),
{
    let n = a.unicode_len();
    if n != b.unicode_len() {
        return false;
    }
    let mut i: usize = 0;
    while i < n
        invariant
            n == a@.len(),
            n == b@.len(),
            i <= n,
            forall|j: int| 0 <= j < i ==> #[trigger] a@[j] == b@[j],
        decreases n - i,
    {
        if a.get_char(i) != b.get_char(i) {
            return false;
        }
        i = i + 1;
    }
    assert(a@ =~= b@);
    true
}

} // verus!
