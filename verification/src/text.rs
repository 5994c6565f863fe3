use vstd::prelude::*;

verus! {

use vstd::string::StrSliceExecFns;

/// Copies the characters of a string slice into a vector, in order.
pub fn text_of(s: &str) -> (r: Vec<char>)
    ensures
        r@ == s@,
{
    let n = s.unicode_len();
    let mut r: Vec<char> = Vec::new();
    let mut i: usize = 0;
    while i < n
        invariant
            n == s@.len(),
            i <= n,
            r@ == s@.subrange(0, i as int),
        decreases n - i,
    {
        r.push(s.get_char(i));
        assert(s@.subrange(0, i as int).push(s@[i as int]) =~= s@.subrange(0, i + 1 as int));
        i += 1;
    }
    assert(s@.subrange(0, n as int) =~= s@);
    r
}

/// Copies a character vector.
pub fn copy_text(t: &Vec<char>) -> (r: Vec<char>)
    ensures
        r@ == t@,
{
    let mut r: Vec<char> = Vec::new();
    let mut i: usize = 0;
    while i < t.len()
        invariant
            i <= t@.len(),
            r@ == t@.subrange(0, i as int),
        decreases t@.len() - i,
    {
        r.push(t[i]);
        assert(t@.subrange(0, i as int).push(t@[i as int]) =~= t@.subrange(0, i + 1 as int));
        i += 1;
    }
    assert(t@.subrange(0, t@.len() as int) =~= t@);
    r
}

/// Compares two character vectors for equality of their contents.
pub fn texts_equal(a: &Vec<char>, b: &Vec<char>) -> (r: bool)
    ensures
        r == (a@ == b@),
{
    if a.len() != b.len() {
        assert(a@ != b@);
        return false;
    }
    let mut i: usize = 0;
    while i < a.len()
        invariant
            a@.len() == b@.len(),
            i <= a@.len(),
            forall|j: int| 0 <= j < i ==> a@[j] == b@[j],
        decreases a@.len() - i,
    {
        if a[i] != b[i] {
            return false;
        }
        i += 1;
    }
    assert(a@ =~= b@);
    true
}

/// Appends the characters of `src` to `dst`.
pub fn append_text(dst: &mut Vec<char>, src: &Vec<char>)
    ensures
        final(dst)@ == old(dst)@ + src@,
{
    let mut i: usize = 0;
    while i < src.len()
        invariant
            i <= src@.len(),
            dst@ == old(dst)@ + src@.subrange(0, i as int),
        decreases src@.len() - i,
    {
        dst.push(src[i]);
        assert(old(dst)@ + src@.subrange(0, i as int).push(src@[i as int]) =~= old(dst)@
            + src@.subrange(0, i + 1 as int));
        i += 1;
    }
    assert(old(dst)@ + src@.subrange(0, src@.len() as int) =~= old(dst)@ + src@);
}

/// Appends the characters of a string slice to `dst`.
pub fn append_str(dst: &mut Vec<char>, src: &str)
    ensures
        final(dst)@ == old(dst)@ + src@,
{
    let t = text_of(src);
    append_text(dst, &t);
}

/// The decimal digit character for `d`.
pub open spec fn digit_char(d: int) -> char {
    if d == 0 {
        '0'
    } else if d == 1 {
        '1'
    } else if d == 2 {
        '2'
    } else if d == 3 {
        '3'
    } else if d == 4 {
        '4'
    } else if d == 5 {
        '5'
    } else if d == 6 {
        '6'
    } else if d == 7 {
        '7'
    } else if d == 8 {
        '8'
    } else {
        '9'
    }
}

/// The decimal rendering of `n`, most significant digit first, no sign
/// and no leading zeros (a single `0` for zero).
pub open spec fn dec_rep(n: nat) -> Seq<char>
    decreases n,
{
    if n < 10 {
        seq![digit_char(n as int)]
    } else {
        dec_rep(n / 10).push(digit_char((n % 10) as int))
    }
}

fn digit_char_exec(d: u64) -> (c: char)
    requires
        d < 10,
    ensures
        c == digit_char(d as int),
{
    if d == 0 {
        '0'
    } else if d == 1 {
        '1'
    } else if d == 2 {
        '2'
    } else if d == 3 {
        '3'
    } else if d == 4 {
        '4'
    } else if d == 5 {
        '5'
    } else if d == 6 {
        '6'
    } else if d == 7 {
        '7'
    } else if d == 8 {
        '8'
    } else {
        '9'
    }
}

/// Renders `n` in decimal.
pub fn dec_text(n: u64) -> (r: Vec<char>)
    ensures
        r@ == dec_rep(n as nat),
    decreases n,
{
    if n < 10 {
        let mut r: Vec<char> = Vec::new();
        r.push(digit_char_exec(n));
        assert(r@ =~= dec_rep(n as nat));
        r
    } else {
        let mut r = dec_text(n / 10);
        r.push(digit_char_exec(n % 10));
        r
    }
}

/// A decimal digit.
pub open spec fn is_dec_digit(c: char) -> bool {
    '0' <= c && c <= '9'
}

/// The numeric value of a decimal digit character.
pub open spec fn digit_val(c: char) -> int {
    c as int - '0' as int
}

pub open spec fn all_digits(s: Seq<char>) -> bool {
    forall|i: int| 0 <= i < s.len() ==> is_dec_digit(#[trigger] s[i])
}

/// The value of a run of decimal digits, most significant first.
pub open spec fn digits_value(s: Seq<char>) -> int
    decreases s.len(),
{
    if s.len() == 0 {
        0
    } else {
        digits_value(s.drop_last()) * 10 + digit_val(s.last())
    }
}

pub open spec fn pow10(n: nat) -> int
    decreases n,
{
    if n == 0 {
        1
    } else {
        10 * pow10((n - 1) as nat)
    }
}

/// The digit body of an integer text: everything after an optional sign.
pub open spec fn signed_body(s: Seq<char>) -> Seq<char> {
    if s.len() > 0 && (s[0] == '-' || s[0] == '+') {
        s.skip(1)
    } else {
        s
    }
}

pub open spec fn signum_of(s: Seq<char>) -> int {
    if s.len() > 0 && s[0] == '-' {
        -1
    } else {
        1
    }
}

/// Whether `s` is the text of an integer: an optional sign followed by at
/// least one decimal digit and nothing else.
pub open spec fn is_int_text(s: Seq<char>) -> bool {
    signed_body(s).len() > 0 && all_digits(signed_body(s))
}

/// The value of an integer text.
pub open spec fn int_text_value(s: Seq<char>) -> int {
    signum_of(s) * digits_value(signed_body(s))
}

proof fn lemma_pow10_pos(n: nat)
    ensures
        pow10(n) >= 1,
    decreases n,
{
    if n > 0 {
        lemma_pow10_pos((n - 1) as nat);
    }
}

proof fn lemma_pow10_mono(a: nat, b: nat)
    requires
        a <= b,
    ensures
        pow10(a) <= pow10(b),
    decreases b,
{
    if a < b {
        lemma_pow10_mono(a, (b - 1) as nat);
        lemma_pow10_pos((b - 1) as nat);
    }
}

proof fn lemma_digits_value_bounds(s: Seq<char>)
    requires
        all_digits(s),
    ensures
        0 <= digits_value(s) < pow10(s.len()),
    decreases s.len(),
{
    if s.len() > 0 {
        assert(all_digits(s.drop_last())) by {
            assert(forall|i: int|
                0 <= i < s.len() - 1 ==> #[trigger] s.drop_last()[i] == s[i]);
        }
        lemma_digits_value_bounds(s.drop_last());
        assert(0 <= digit_val(s.last()) <= 9);
    }
}

proof fn lemma_digits_value_lower(s: Seq<char>)
    requires
        all_digits(s),
        s.len() > 0,
        s[0] != '0',
    ensures
        digits_value(s) >= pow10((s.len() - 1) as nat),
    decreases s.len(),
{
    if s.len() == 1 {
        assert(digit_val(s.last()) >= 1);
    } else {
        assert(all_digits(s.drop_last())) by {
            assert(forall|i: int|
                0 <= i < s.len() - 1 ==> #[trigger] s.drop_last()[i] == s[i]);
        }
        assert(s.drop_last()[0] == s[0]);
        lemma_digits_value_lower(s.drop_last());
        assert(digit_val(s.last()) >= 0);
        assert(pow10((s.len() - 1) as nat) == 10 * pow10((s.len() - 2) as nat));
        assert(digits_value(s.drop_last()) * 10 >= pow10((s.len() - 2) as nat) * 10);
    }
}

proof fn lemma_digits_all_zero(s: Seq<char>)
    requires
        forall|i: int| 0 <= i < s.len() ==> #[trigger] s[i] == '0',
    ensures
        digits_value(s) == 0,
    decreases s.len(),
{
    if s.len() > 0 {
        assert(forall|i: int|
            0 <= i < s.len() - 1 ==> #[trigger] s.drop_last()[i] == s[i]);
        lemma_digits_all_zero(s.drop_last());
        assert(digit_val(s.last()) == 0);
    }
}

/// Leading zero digits do not change the value of a digit run.
proof fn lemma_digits_skip_zeros(s: Seq<char>, k: int)
    requires
        0 <= k <= s.len(),
        forall|i: int| 0 <= i < k ==> #[trigger] s[i] == '0',
    ensures
        digits_value(s) == digits_value(s.skip(k)),
    decreases s.len(),
{
    if s.len() == k {
        lemma_digits_all_zero(s);
        assert(s.skip(k) =~= Seq::<char>::empty());
    } else {
        assert(s.drop_last().len() >= k);
        assert(forall|i: int|
            0 <= i < s.len() - 1 ==> #[trigger] s.drop_last()[i] == s[i]);
        lemma_digits_skip_zeros(s.drop_last(), k);
        assert(s.skip(k).drop_last() =~= s.drop_last().skip(k));
        assert(s.skip(k).last() == s.last());
    }
}

/// Parses a decimal integer with an optional sign, as the host language's
/// standard integer parse does: the result is present exactly when the
/// text has integer shape and the value fits in a 32-bit signed integer.
pub fn parse_i32(t: &Vec<char>) -> (r: Option<i32>)
    ensures
        (is_int_text(t@) && i32::MIN <= int_text_value(t@) <= i32::MAX) ==> r == Some(
            int_text_value(t@) as i32,
        ),
        !(is_int_text(t@) && i32::MIN <= int_text_value(t@) <= i32::MAX) ==> r is None,
{
    let n = t.len();
    let mut start: usize = 0;
    let mut neg = false;
    if n > 0 && (t[0] == '-' || t[0] == '+') {
        neg = t[0] == '-';
        start = 1;
    }
    let ghost body = signed_body(t@);
    assert(body =~= t@.subrange(start as int, n as int));
    if start == n {
        assert(!is_int_text(t@));
        return None;
    }
    // the body must be all digits
    let mut i: usize = start;
    while i < n
        invariant
            start <= i <= n,
            n == t@.len(),
            body == signed_body(t@),
            body == t@.subrange(start as int, n as int),
            forall|j: int| start <= j < i ==> is_dec_digit(#[trigger] t@[j]),
        decreases n - i,
    {
        let c = t[i];
        if !('0' <= c && c <= '9') {
            assert(body[i - start as int] == t@[i as int]);
            assert(!is_dec_digit(body[i - start as int]));
            assert(!all_digits(body));
            return None;
        }
        i += 1;
    }
    assert(all_digits(body));
    assert(is_int_text(t@));
    // skip leading zeros
    let mut z: usize = start;
    while z < n && t[z] == '0'
        invariant
            start <= z <= n,
            n == t@.len(),
            forall|j: int| start <= j < z ==> t@[j] == '0',
        decreases n - z,
    {
        z += 1;
    }
    let ghost rest = t@.subrange(z as int, n as int);
    proof {
        assert(rest =~= body.skip(z - start as int));
        lemma_digits_skip_zeros(body, z - start as int);
        lemma_digits_value_bounds(rest);
    }
    if n - z > 10 {
        // at least eleven significant digits: out of 32-bit range
        proof {
            assert(rest[0] == t@[z as int]);
            assert(rest[0] != '0');
            lemma_digits_value_lower(rest);
            lemma_pow10_mono(10, (rest.len() - 1) as nat);
            assert(pow10(10) == 10000000000) by {
                reveal_with_fuel(pow10, 11);
            }
        }
        return None;
    }
    let mut acc: u64 = 0;
    let mut j: usize = z;
    proof {
        lemma_pow10_mono((n - z) as nat, 10);
        assert(pow10(10) == 10000000000) by {
            reveal_with_fuel(pow10, 11);
        }
    }
    while j < n
        invariant
            z <= j <= n,
            n == t@.len(),
            rest == t@.subrange(z as int, n as int),
            all_digits(rest),
            acc == digits_value(t@.subrange(z as int, j as int)),
            acc < pow10((j - z) as nat),
            pow10((n - z) as nat) <= 10000000000,
        decreases n - j,
    {
        let c = t[j];
        assert(rest[j - z as int] == t@[j as int]);
        assert(is_dec_digit(rest[j - z as int]));
        assert(is_dec_digit(c) && c == rest[j - z as int]);
        let d: u64 = (c as u32 as u64) - 48;
        proof {
            lemma_pow10_mono((j - z + 1) as nat, (n - z) as nat);
            assert(pow10((j - z + 1) as nat) == 10 * pow10((j - z) as nat));
            assert(acc * 10 + d < pow10((j - z + 1) as nat));
            assert(acc * 10 <= (pow10((j - z) as nat) - 1) * 10);
        }
        acc = acc * 10 + d;
        proof {
            let pre = t@.subrange(z as int, j as int);
            let post = t@.subrange(z as int, j + 1 as int);
            assert(post.drop_last() =~= pre);
            assert(post.last() == c);
        }
        j += 1;
    }
    assert(t@.subrange(z as int, n as int) == rest);
    assert(acc == digits_value(body));
    if neg {
        assert(signum_of(t@) == -1 && int_text_value(t@) == -digits_value(body));
        if acc > 2147483648 {
            return None;
        }
        let v: i64 = -(acc as i64);
        Some(v as i32)
    } else {
        assert(signum_of(t@) == 1 && int_text_value(t@) == digits_value(body));
        if acc > 2147483647 {
            return None;
        }
        Some(acc as i32)
    }
}

} // verus!
