use vstd::prelude::*;

verus! {

/// The character of a digit value below 16: `0`-`9`, then `a`-`f`.
pub open spec fn digit_char(d: nat) -> char {
    if d < 10 {
        (48 + d) as char
    } else {
        (87 + d) as char
    }
}

/// The digits of `n` in `base`, most significant first, without leading
/// zeros (zero itself is one digit).
pub open spec fn digits(n: nat, base: nat) -> Seq<char>
    recommends
        2 <= base <= 16,
    decreases n,
{
    if n < base || base < 2 {
        seq![digit_char(n)]
    } else {
        proof {
            assert(n / base < n) by (nonlinear_arith)
                requires
                    n >= base,
                    base >= 2,
            ;
        }
        digits(n / base, base).push(digit_char(n % base))
    }
}

/// `n` written in decimal, as `{}` writes an unsigned integer.
pub open spec fn decimal(n: nat) -> Seq<char> {
    digits(n, 10)
}

/// `n` written in decimal with a minus sign when negative.
pub open spec fn signed_decimal(n: int) -> Seq<char> {
    if n < 0 {
        seq!['-'] + decimal((-n) as nat)
    } else {
        decimal(n as nat)
    }
}

/// `n` in decimal, padded with leading zeros to at least `width` characters,
/// as `{:0width$}` writes it.
pub open spec fn zero_padded(n: nat, width: nat) -> Seq<char> {
    let d = decimal(n);
    if d.len() < width {
        Seq::new((width - d.len()) as nat, |i: int| '0') + d
    } else {
        d
    }
}

/// `n` in lower-case hexadecimal after `0x`, as `{:#x}` writes it.
pub open spec fn hex_literal(n: nat) -> Seq<char> {
    seq!['0', 'x'] + digits(n, 16)
}

/// The characters that have the Unicode `White_Space` property.
pub open spec fn is_white_space(c: char) -> bool {
    let u = c as u32;
    ||| 0x09 <= u <= 0x0d
    ||| u == 0x20
    ||| u == 0x85
    ||| u == 0xa0
    ||| u == 0x1680
    ||| 0x2000 <= u <= 0x200a
    ||| u == 0x2028
    ||| u == 0x2029
    ||| u == 0x202f
    ||| u == 0x205f
    ||| u == 0x3000
}

/// `s` without its leading white space.
pub open spec fn trim_start(s: Seq<char>) -> Seq<char>
    decreases s.len(),
{
    if s.len() > 0 && is_white_space(s[0]) {
        trim_start(s.drop_first())
    } else {
        s
    }
}

/// `s` without its trailing white space.
pub open spec fn trim_end(s: Seq<char>) -> Seq<char>
    decreases s.len(),
{
    if s.len() > 0 && is_white_space(s.last()) {
        trim_end(s.drop_last())
    } else {
        s
    }
}

/// `s` without leading and trailing white space.
pub open spec fn trimmed(s: Seq<char>) -> Seq<char> {
    trim_end(trim_start(s))
}

/// Appends one character to a string.
///
/// Calls `String::push`, which appends the given `char` to the end of the
/// string; the contract states just that.
#[verifier::external_body]
pub(crate) fn push_char(s: &mut String, c: char)
    ensures
        final(s)@ == old(s)@.push(c),
{
    s.push(c);
}

/// Whether a character has the Unicode `White_Space` property.
fn white_space(c: char) -> (r: bool)
    ensures
        r == is_white_space(c),
{
    let u = c as u32;
    (0x09 <= u && u <= 0x0d) || u == 0x20 || u == 0x85 || u == 0xa0 || u == 0x1680 || (0x2000 <= u
        && u <= 0x200a) || u == 0x2028 || u == 0x2029 || u == 0x202f || u == 0x205f || u == 0x3000
}

/// Skipping a run of leading white space that ends at `i` is `trim_start`.
proof fn lemma_trim_start_skip(s: Seq<char>, i: int)
    requires
        0 <= i <= s.len(),
        forall|j: int| 0 <= j < i ==> is_white_space(#[trigger] s[j]),
        i == s.len() || !is_white_space(s[i]),
    ensures
        trim_start(s) == s.skip(i),
    decreases i,
{
    if i == 0 {
        assert(s.skip(0) == s);
    } else {
        let t = s.drop_first();
        assert forall|j: int| 0 <= j < i - 1 implies is_white_space(#[trigger] t[j]) by {
            assert(t[j] == s[j + 1]);
        }
        if i - 1 < t.len() {
            assert(t[i - 1] == s[i]);
        }
        lemma_trim_start_skip(t, i - 1);
        assert(t.skip(i - 1) == s.skip(i));
    }
}

/// Dropping a run of trailing white space that starts at `e` is `trim_end`.
proof fn lemma_trim_end_take(s: Seq<char>, e: int)
    requires
        0 <= e <= s.len(),
        forall|j: int| e <= j < s.len() ==> is_white_space(#[trigger] s[j]),
        e == 0 || !is_white_space(s[e - 1]),
    ensures
        trim_end(s) == s.take(e),
    decreases s.len() - e,
{
    if e == s.len() {
        assert(s.take(e) == s);
    } else {
        let t = s.drop_last();
        assert(is_white_space(s.last()));
        assert forall|j: int| e <= j < t.len() implies is_white_space(#[trigger] t[j]) by {
            assert(t[j] == s[j]);
        }
        if e > 0 {
            assert(t[e - 1] == s[e - 1]);
        }
        lemma_trim_end_take(t, e);
        assert(t.take(e) == s.take(e));
    }
}

/// The string without leading and trailing white space, as `str::trim`
/// gives it: the characters with the Unicode `White_Space` property are
/// removed from both ends.
pub fn trim_str(s: &str) -> (r: &str)
    ensures
        r@ == trimmed(s@),
{
    let n = s.unicode_len();
    let mut i: usize = 0;
    while i < n
        invariant
            n == s@.len(),
            i <= n,
            forall|j: int| 0 <= j < i ==> is_white_space(#[trigger] s@[j]),
        ensures
            i <= n,
            forall|j: int| 0 <= j < i ==> is_white_space(#[trigger] s@[j]),
            i == n || !is_white_space(s@[i as int]),
        decreases n - i,
    {
        if !white_space(s.get_char(i)) {
            break;
        }
        i = i + 1;
    }
    let mut e: usize = n;
    while e > i
        invariant
            n == s@.len(),
            i <= e <= n,
            forall|j: int| e <= j < n ==> is_white_space(#[trigger] s@[j]),
        ensures
            i <= e <= n,
            forall|j: int| e <= j < n ==> is_white_space(#[trigger] s@[j]),
            e == i || !is_white_space(s@[e - 1]),
        decreases e,
    {
        if !white_space(s.get_char(e - 1)) {
            break;
        }
        e = e - 1;
    }
    proof {
        lemma_trim_start_skip(s@, i as int);
        let t = s@.skip(i as int);
        assert forall|j: int| e - i <= j < t.len() implies is_white_space(#[trigger] t[j]) by {
            assert(t[j] == s@[j + i]);
        }
        if e > i {
            assert(t[e - i - 1] == s@[e - 1]);
        }
        lemma_trim_end_take(t, e - i);
        assert(t.take(e - i) == s@.subrange(i as int, e as int));
    }
    s.substring_char(i, e)
}

proof fn lemma_trim_start_shape(s: Seq<char>) -> (i: int)
    ensures
        0 <= i <= s.len(),
        trim_start(s) == s.skip(i),
        forall|j: int| 0 <= j < i ==> is_white_space(#[trigger] s[j]),
        i == s.len() || !is_white_space(s[i]),
    decreases s.len(),
{
    if s.len() > 0 && is_white_space(s[0]) {
        let t = s.drop_first();
        let i0 = lemma_trim_start_shape(t);
        assert forall|j: int| 0 <= j < i0 + 1 implies is_white_space(#[trigger] s[j]) by {
            if j > 0 {
                assert(s[j] == t[j - 1]);
            }
        }
        if i0 < t.len() {
            assert(s[i0 + 1] == t[i0]);
        }
        assert(t.skip(i0) == s.skip(i0 + 1));
        i0 + 1
    } else {
        assert(s.skip(0) == s);
        0
    }
}

proof fn lemma_trim_end_shape(s: Seq<char>) -> (e: int)
    ensures
        0 <= e <= s.len(),
        trim_end(s) == s.take(e),
        forall|j: int| e <= j < s.len() ==> is_white_space(#[trigger] s[j]),
        e == 0 || !is_white_space(s[e - 1]),
    decreases s.len(),
{
    if s.len() > 0 && is_white_space(s.last()) {
        let t = s.drop_last();
        let e0 = lemma_trim_end_shape(t);
        assert forall|j: int| e0 <= j < s.len() implies is_white_space(#[trigger] s[j]) by {
            if j < t.len() {
                assert(s[j] == t[j]);
            }
        }
        if e0 > 0 {
            assert(s[e0 - 1] == t[e0 - 1]);
        }
        assert(t.take(e0) == s.take(e0));
        e0
    } else {
        assert(s.take(s.len() as int) == s);
        s.len() as int
    }
}

/// Trimming removes white space from both ends and nothing else: the
/// result is the run of `s` between a white-space prefix and a white-space
/// suffix, and it neither starts nor ends with white space.
pub proof fn lemma_trimmed_shape(s: Seq<char>) -> (bounds: (int, int))
    ensures
        0 <= bounds.0 <= bounds.1 <= s.len(),
        trimmed(s) == s.subrange(bounds.0, bounds.1),
        forall|j: int| 0 <= j < bounds.0 ==> is_white_space(#[trigger] s[j]),
        forall|j: int| bounds.1 <= j < s.len() ==> is_white_space(#[trigger] s[j]),
        trimmed(s).len() > 0 ==> !is_white_space(trimmed(s)[0]) && !is_white_space(trimmed(s).last()),
{
    let i = lemma_trim_start_shape(s);
    let t = s.skip(i);
    let e = lemma_trim_end_shape(t);
    assert(t.take(e) == s.subrange(i, i + e));
    assert forall|j: int| i + e <= j < s.len() implies is_white_space(#[trigger] s[j]) by {
        assert(s[j] == t[j - i]);
    }
    if e > 0 {
        assert(trimmed(s)[0] == s[i]);
        assert(trimmed(s).last() == t[e - 1]);
    }
    (i, i + e)
}

/// A number written in decimal has no leading zero, unless it is zero.
pub proof fn lemma_no_leading_zero(n: nat)
    ensures
        decimal(n).len() >= 1,
        n >= 10 ==> decimal(n).len() >= 2,
        decimal(n)[0] == '0' ==> n == 0,
    decreases n,
{
    if n >= 10 {
        assert(n / 10 < n);
        lemma_no_leading_zero(n / 10);
        assert(decimal(n) == decimal(n / 10).push(digit_char(n % 10)));
        assert(decimal(n)[0] == decimal(n / 10)[0]);
    }
}

/// Different numbers are written differently in decimal.
pub proof fn lemma_decimal_injective(n: nat, m: nat)
    requires
        decimal(n) == decimal(m),
    ensures
        n == m,
    decreases n,
{
    lemma_no_leading_zero(n);
    lemma_no_leading_zero(m);
    if n >= 10 && m >= 10 {
        let dn = decimal(n);
        let dm = decimal(m);
        assert(dn == decimal(n / 10).push(digit_char(n % 10)));
        assert(dm == decimal(m / 10).push(digit_char(m % 10)));
        assert(decimal(n / 10) == dn.drop_last());
        assert(decimal(m / 10) == dm.drop_last());
        assert(n / 10 < n);
        lemma_decimal_injective(n / 10, m / 10);
        assert(digit_char(n % 10) == dn.last());
        assert(n % 10 == m % 10);
    } else if n < 10 && m < 10 {
        assert(decimal(n)[0] == digit_char(n));
        assert(decimal(m)[0] == digit_char(m));
    }
}

/// Different numbers padded with zeros to the same width are written
/// differently.
pub proof fn lemma_zero_padded_injective(n: nat, m: nat, width: nat)
    requires
        zero_padded(n, width) == zero_padded(m, width),
    ensures
        n == m,
{
    let dn = decimal(n);
    let dm = decimal(m);
    let p = zero_padded(n, width);
    lemma_no_leading_zero(n);
    lemma_no_leading_zero(m);
    if dn.len() >= width && dm.len() >= width {
        lemma_decimal_injective(n, m);
    } else if dn.len() < width && dm.len() < width {
        if dn.len() == dm.len() {
            assert(dn == p.subrange(width - dn.len(), width as int));
            assert(dm == p.subrange(width - dm.len(), width as int));
            lemma_decimal_injective(n, m);
        } else if dn.len() < dm.len() {
            assert(p[width - dm.len()] == dm[0]);
            assert(p[width - dm.len()] == '0');
        } else {
            assert(p[width - dn.len()] == dn[0]);
            assert(p[width - dn.len()] == '0');
        }
    } else if dn.len() < width {
        assert(p == dm);
        assert(p[0] == '0');
    } else {
        assert(p == dn);
        assert(zero_padded(m, width)[0] == '0');
    }
}

fn digit_of(d: u64) -> (c: char)
    requires
        d < 16,
    ensures
        c == digit_char(d as nat),
{
    if d < 10 {
        ((48 + d) as u8) as char
    } else {
        ((87 + d) as u8) as char
    }
}

fn push_digits(s: &mut String, n: u64, base: u64)
    requires
        2 <= base <= 16,
    ensures
        final(s)@ == old(s)@ + digits(n as nat, base as nat),
    decreases n,
{
    if n >= base {
        assert(n / base < n) by (nonlinear_arith)
            requires
                n >= base,
                base >= 2,
        ;
        push_digits(s, n / base, base);
    } else {
        assert(n % base == n) by (nonlinear_arith)
            requires
                n < base,
        ;
    }
    push_char(s, digit_of(n % base));
}

/// Appends `n` in decimal.
pub fn push_decimal(s: &mut String, n: u64)
    ensures
        final(s)@ == old(s)@ + decimal(n as nat),
{
    push_digits(s, n, 10);
}

/// Appends `n` in decimal, with a minus sign when negative.
pub fn push_signed_decimal(s: &mut String, n: i64)
    ensures
        final(s)@ == old(s)@ + signed_decimal(n as int),
{
    if n < 0 {
        push_char(s, '-');
        let m: u64 = if n == i64::MIN {
            9_223_372_036_854_775_808
        } else {
            (-n) as u64
        };
        push_digits(s, m, 10);
        assert(old(s)@.push('-') + decimal(m as nat) == old(s)@ + (seq!['-'] + decimal(m as nat)));
    } else {
        push_digits(s, n as u64, 10);
    }
}

/// `n` in decimal padded with zeros to at least `width` characters.
pub fn zero_padded_decimal(n: u64, width: usize) -> (r: String)
    ensures
        r@ == zero_padded(n as nat, width as nat),
{
    let mut d = String::new();
    push_decimal(&mut d, n);
    assert(d@ == decimal(n as nat));
    let len = d.as_str().unicode_len();
    if len >= width {
        return d;
    }
    let mut r = String::new();
    let mut i: usize = 0;
    while i < width - len
        invariant
            len < width,
            i <= width - len,
            r@ == Seq::new(i as nat, |j: int| '0'),
        decreases width - len - i,
    {
        push_char(&mut r, '0');
        i = i + 1;
        assert(r@ == Seq::new(i as nat, |j: int| '0'));
    }
    r.append(d.as_str());
    r
}

/// `n` as `0x` followed by its lower-case hexadecimal digits.
pub fn hex_string(n: u64) -> (r: String)
    ensures
        r@ == hex_literal(n as nat),
{
    let mut r = String::new();
    push_char(&mut r, '0');
    push_char(&mut r, 'x');
    push_digits(&mut r, n, 16);
    assert(r@ == hex_literal(n as nat));
    r
}

} // verus!
