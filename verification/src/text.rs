//! Decimal text forms and lexicographic string order.
//!
//! Every neuron carries a textual identifier; for a sensor-value neuron it is
//! the decimal form of its key. This module gives the decimal form an exact
//! specification, proves the parse/print round trip, and supplies the
//! character-wise order used to keep string-keyed sensors sorted.

use vstd::prelude::*;
use vstd::string::*;

verus! {

/// The decimal digit character for `d` in `0 .. 10`.
pub open spec fn digit_char(d: int) -> char {
    if d == 0 {
        '0'
    } else if d == 1 {
        '1'
    } else if d == 2 {
        '2'
    } else if d == 3 {
        '3'
    } else if d == 4 {
        '4'
    } else if d == 5 {
        '5'
    } else if d == 6 {
        '6'
    } else if d == 7 {
        '7'
    } else if d == 8 {
        '8'
    } else {
        '9'
    }
}

/// Numeric value of a digit character.
pub open spec fn char_val(c: char) -> int {
    c as u32 - 48
}

/// Whether `c` is a decimal digit.
pub open spec fn is_digit(c: char) -> bool {
    48 <= c as u32 <= 57
}

/// The decimal form of a natural number, most significant digit first.
pub open spec fn spec_dec(n: nat) -> Seq<char>
    decreases n,
{
    if n < 10 {
        seq![digit_char(n as int)]
    } else {
        spec_dec(n / 10) + seq![digit_char((n % 10) as int)]
    }
}

/// The number denoted by a digit sequence (0 for the empty sequence).
pub open spec fn digits_val(s: Seq<char>) -> int
    decreases s.len(),
{
    if s.len() == 0 {
        0
    } else {
        digits_val(s.drop_last()) * 10 + char_val(s.last())
    }
}

/// Whether `s` is a non-empty sequence of decimal digits.
pub open spec fn all_digits(s: Seq<char>) -> bool {
    forall|i: int| 0 <= i < s.len() ==> is_digit(#[trigger] s[i])
}

/// A digit character denotes its digit.
pub proof fn lemma_digit_char_val(d: int)
    requires
        0 <= d < 10,
    ensures
        char_val(digit_char(d)) == d,
        is_digit(digit_char(d)),
{
    assert('0' as u32 == 48);
    assert('1' as u32 == 49);
    assert('2' as u32 == 50);
    assert('3' as u32 == 51);
    assert('4' as u32 == 52);
    assert('5' as u32 == 53);
    assert('6' as u32 == 54);
    assert('7' as u32 == 55);
    assert('8' as u32 == 56);
    assert('9' as u32 == 57);
}

/// The decimal form of a number consists of digits and denotes the number.
pub proof fn lemma_dec_val(n: nat)
    ensures
        digits_val(spec_dec(n)) == n,
        spec_dec(n).len() >= 1,
        all_digits(spec_dec(n)),
    decreases n,
{
    if n < 10 {
        lemma_digit_char_val(n as int);
        let s = spec_dec(n);
        assert(s.drop_last() =~= Seq::<char>::empty());
        assert(digits_val(s) == digits_val(s.drop_last()) * 10 + char_val(s.last()));
        assert(digits_val(s.drop_last()) == 0);
        assert(s.last() == digit_char(n as int));
    } else {
        lemma_dec_val(n / 10);
        lemma_digit_char_val((n % 10) as int);
        let s = spec_dec(n);
        assert(s.drop_last() =~= spec_dec(n / 10));
        assert(s.last() == digit_char((n % 10) as int));
        assert(digits_val(s) == digits_val(s.drop_last()) * 10 + char_val(s.last()));
        assert(digits_val(s.drop_last()) == n / 10);
        assert(char_val(s.last()) == (n % 10) as int);
        assert(n == (n / 10) * 10 + (n % 10));
    }
}

/// Distinct numbers have distinct decimal forms.
pub proof fn lemma_dec_injective(a: nat, b: nat)
    requires
        spec_dec(a) == spec_dec(b),
    ensures
        a == b,
{
    lemma_dec_val(a);
    lemma_dec_val(b);
}

/// A single-digit string slice for `d`.
fn digit_str(d: u8) -> (r: &'static str)
    requires
        d < 10,
    ensures
        r@ =~= seq![digit_char(d as int)],
{
    proof {
        reveal_strlit("0");
        reveal_strlit("1");
        reveal_strlit("2");
        reveal_strlit("3");
        reveal_strlit("4");
        reveal_strlit("5");
        reveal_strlit("6");
        reveal_strlit("7");
        reveal_strlit("8");
        reveal_strlit("9");
    }
    if d == 0 {
        "0"
    } else if d == 1 {
        "1"
    } else if d == 2 {
        "2"
    } else if d == 3 {
        "3"
    } else if d == 4 {
        "4"
    } else if d == 5 {
        "5"
    } else if d == 6 {
        "6"
    } else if d == 7 {
        "7"
    } else if d == 8 {
        "8"
    } else {
        "9"
    }
}

/// The decimal form of `n` as an owned string.
pub fn dec_string(n: u128) -> (s: String)
    ensures
        s@ == spec_dec(n as nat),
    decreases n,
{
    if n < 10 {
        let r = String::from_str(digit_str(n as u8));
        proof {
            assert(r@ =~= spec_dec(n as nat));
        }
        r
    } else {
        let mut s = dec_string(n / 10);
        s.append(digit_str((n % 10) as u8));
        proof {
            assert(s@ =~= spec_dec(n as nat));
        }
        s
    }
}

/// The decimal form of an integer: a minus sign for negative values,
/// then the decimal form of the magnitude.
pub open spec fn spec_dec_i(n: int) -> Seq<char> {
    if n < 0 {
        seq!['-'] + spec_dec((-n) as nat)
    } else {
        spec_dec(n as nat)
    }
}

/// The decimal form of a signed magnitude as an owned string.
pub fn signed_string(neg: bool, mag: u128) -> (s: String)
    ensures
        neg ==> s@ == seq!['-'] + spec_dec(mag as nat),
        !neg ==> s@ == spec_dec(mag as nat),
{
    proof {
        reveal_strlit("-");
    }
    let digits = dec_string(mag);
    if neg {
        let mut s = String::from_str("-");
        s.append(digits.as_str());
        proof {
            assert(s@ =~= seq!['-'] + spec_dec(mag as nat));
        }
        s
    } else {
        digits
    }
}

/// Powers of ten.
pub open spec fn pow10(e: nat) -> nat
    decreases e,
{
    if e == 0 {
        1
    } else {
        10 * pow10((e - 1) as nat)
    }
}

/// The concrete powers of ten up to the fixed-point precision.
pub proof fn lemma_pow10_vals()
    ensures
        pow10(0) == 1,
        pow10(1) == 10,
        pow10(2) == 100,
        pow10(3) == 1000,
        pow10(4) == 10000,
        pow10(5) == 100000,
        pow10(6) == 1000000,
{
    assert(pow10(0) == 1);
    assert(pow10(1) == 10);
    assert(pow10(2) == 100);
    assert(pow10(3) == 1000);
    assert(pow10(4) == 10000);
    assert(pow10(5) == 100000);
    assert(pow10(6) == 1000000);
}

/// A power of ten is positive.
pub proof fn lemma_pow10_pos(e: nat)
    ensures
        pow10(e) >= 1,
    decreases e,
{
    if e > 0 {
        lemma_pow10_pos((e - 1) as nat);
    }
}

/// Powers of ten multiply by adding exponents.
pub proof fn lemma_pow10_adds(a: nat, b: nat)
    ensures
        pow10(a) * pow10(b) == pow10(a + b),
    decreases a,
{
    if a == 0 {
        assert(pow10(0) == 1);
    } else {
        lemma_pow10_adds((a - 1) as nat, b);
        assert(pow10(a) * pow10(b) == 10 * pow10((a - 1) as nat) * pow10(b));
        assert(10 * pow10((a - 1) as nat) * pow10(b) == 10 * (pow10((a - 1) as nat) * pow10(b)))
            by (nonlinear_arith);
    }
}

/// The last `w` decimal digits of `n`, zero-padded to width `w`.
pub open spec fn pad_digits(n: nat, w: nat) -> Seq<char>
    decreases w,
{
    if w == 0 {
        Seq::<char>::empty()
    } else {
        pad_digits(n / 10, (w - 1) as nat) + seq![digit_char((n % 10) as int)]
    }
}

/// A padded digit block has exactly width `w` and consists of digits.
pub proof fn lemma_pad_digits_props(n: nat, w: nat)
    ensures
        pad_digits(n, w).len() == w,
        all_digits(pad_digits(n, w)) || w == 0,
        w >= 1 ==> pad_digits(n, w).last() == digit_char((n % 10) as int),
    decreases w,
{
    if w >= 1 {
        lemma_pad_digits_props(n / 10, (w - 1) as nat);
        lemma_digit_char_val((n % 10) as int);
        let s = pad_digits(n, w);
        assert forall|i: int| 0 <= i < s.len() implies is_digit(s[i]) by {
            if i < w - 1 {
                assert(s[i] == pad_digits(n / 10, (w - 1) as nat)[i]);
            } else {
                assert(s[i] == digit_char((n % 10) as int));
            }
        }
    }
}

/// A digit sequence with its trailing zero digits removed.
pub open spec fn trim_zeros(s: Seq<char>) -> Seq<char>
    decreases s.len(),
{
    if s.len() > 0 && s.last() == '0' {
        trim_zeros(s.drop_last())
    } else {
        s
    }
}

/// The trimmed fraction block of a fixed-point number: six padded digits
/// with the trailing zeros removed.
pub fn trimmed_frac_string(fr: u64) -> (s: String)
    requires
        1 <= fr < 1000000,
    ensures
        s@ == trim_zeros(pad_digits(fr as nat, 6)),
{
    proof {
        lemma_pow10_vals();
    }
    let mut f: u64 = fr;
    let mut w: usize = 6;
    let ghost fr0: nat = fr as nat;
    while f % 10 == 0
        invariant
            1 <= f,
            w <= 6,
            f < pow10(w as nat),
            trim_zeros(pad_digits(fr0, 6)) == trim_zeros(pad_digits(f as nat, w as nat)),
        decreases f,
    {
        proof {
            lemma_pow10_vals();
            if w <= 1 {
                assert(f < pow10(1)) by {
                    assert(pow10(w as nat) <= pow10(1)) by {
                        if w == 0 {
                            assert(pow10(0) == 1);
                        }
                    }
                }
                assert(false);
            }
            lemma_pad_digits_props(f as nat, w as nat);
            lemma_digit_char_val(0);
            let s = pad_digits(f as nat, w as nat);
            assert(s.last() == digit_char((f as nat % 10) as int));
            assert(s.last() == '0');
            assert(s.drop_last() =~= pad_digits(f as nat / 10, (w - 1) as nat));
            assert(trim_zeros(s) == trim_zeros(pad_digits(f as nat / 10, (w - 1) as nat)));
            assert(f as nat / 10 < pow10((w - 1) as nat)) by {
                assert(pow10(w as nat) == 10 * pow10((w - 1) as nat));
                vstd::arithmetic::div_mod::lemma_div_is_ordered(
                    f as int,
                    10 * pow10((w - 1) as nat) - 1,
                    10,
                );
                vstd::arithmetic::div_mod::lemma_fundamental_div_mod_converse(
                    10 * pow10((w - 1) as nat) - 1,
                    10,
                    pow10((w - 1) as nat) as int - 1,
                    9,
                );
            }
        }
        f = f / 10;
        w = w - 1;
    }
    let s = pad_string(f, w);
    proof {
        lemma_pad_digits_props(f as nat, w as nat);
        lemma_digit_char_val((f as nat % 10) as int);
        lemma_digit_char_val(0);
        if w >= 1 {
            let p = pad_digits(f as nat, w as nat);
            assert(char_val(p.last()) == f as nat % 10);
            assert(char_val('0') == 0);
            assert(p.last() != '0');
            assert(trim_zeros(p) == p);
        } else {
            lemma_pow10_vals();
            assert(f < pow10(0));
            assert(false);
        }
    }
    s
}

/// The last `w` decimal digits of `n` as an owned string.
fn pad_string(n: u64, w: usize) -> (s: String)
    ensures
        s@ == pad_digits(n as nat, w as nat),
    decreases w,
{
    if w == 0 {
        let s = String::new();
        proof {
            assert(s@ =~= pad_digits(n as nat, 0));
        }
        s
    } else {
        let mut s = pad_string(n / 10, w - 1);
        s.append(digit_str((n % 10) as u8));
        proof {
            assert(s@ =~= pad_digits(n as nat, w as nat));
        }
        s
    }
}

/// A digit sequence is non-negative, bounded by the power of ten of its
/// width, and never shrinks when extended to the right.
pub proof fn lemma_digits_val_bounds(s: Seq<char>)
    requires
        all_digits(s),
    ensures
        0 <= digits_val(s) < pow10(s.len()),
    decreases s.len(),
{
    if s.len() == 0 {
    } else {
        assert(all_digits(s.drop_last())) by {
            assert(forall|i: int|
                0 <= i < s.len() - 1 ==> s.drop_last()[i] == #[trigger] s[i]);
        }
        lemma_digits_val_bounds(s.drop_last());
        assert(is_digit(s.last()));
        assert(0 <= char_val(s.last()) <= 9);
        assert(pow10(s.len()) == 10 * pow10((s.len() - 1) as nat));
    }
}

/// Extending a digit sequence to the right never decreases its value.
pub proof fn lemma_digits_val_prefix(s: Seq<char>, i: int)
    requires
        all_digits(s),
        0 <= i <= s.len(),
    ensures
        digits_val(s) >= digits_val(s.subrange(0, i)),
    decreases s.len() - i,
{
    if i == s.len() {
        assert(s.subrange(0, i) =~= s);
    } else {
        lemma_digits_val_prefix(s, i + 1);
        let a = s.subrange(0, i);
        let b = s.subrange(0, i + 1);
        assert(b.drop_last() =~= a);
        assert(all_digits(b)) by {
            assert(forall|j: int| 0 <= j < i + 1 ==> b[j] == #[trigger] s[j]);
        }
        lemma_digits_val_bounds(b);
        lemma_digits_val_bounds(a);
        assert(is_digit(b.last()));
        assert(digits_val(b) == digits_val(a) * 10 + char_val(b.last()));
        assert(digits_val(a) * 10 >= digits_val(a));
    }
}

/// The position of the first `.` in `s`, or `-1` if there is none.
pub open spec fn first_dot(s: Seq<char>) -> int
    decreases s.len(),
{
    if s.len() == 0 {
        -1
    } else if s[0] == '.' {
        0
    } else {
        let r = first_dot(s.skip(1));
        if r < 0 {
            -1
        } else {
            r + 1
        }
    }
}

/// A witness position characterises [`first_dot`].
pub proof fn lemma_first_dot_at(s: Seq<char>, i: int)
    requires
        0 <= i < s.len(),
        s[i] == '.',
        forall|j: int| 0 <= j < i ==> s[j] != '.',
    ensures
        first_dot(s) == i,
    decreases s.len(),
{
    if i > 0 {
        lemma_first_dot_at(s.skip(1), i - 1);
    }
}

/// Without any `.` the position is `-1`.
pub proof fn lemma_first_dot_none(s: Seq<char>)
    requires
        forall|j: int| 0 <= j < s.len() ==> s[j] != '.',
    ensures
        first_dot(s) == -1,
    decreases s.len(),
{
    if s.len() > 0 {
        lemma_first_dot_none(s.skip(1));
    }
}

/// Parse of the digit region `[from, to)` of `s` as an unsigned number.
///
/// Returns the denoted number exactly when the region is non-empty, all
/// digits, and small enough for a `u128`.
pub fn parse_uint(s: &str, from: usize, to: usize) -> (r: Option<u128>)
    requires
        from <= to <= s@.len(),
    ensures
        r is Some <==> (from < to && all_digits(s@.subrange(from as int, to as int)) && digits_val(
            s@.subrange(from as int, to as int),
        ) <= u128::MAX),
        r is Some ==> r.unwrap() == digits_val(s@.subrange(from as int, to as int)),
{
    let ghost whole = s@.subrange(from as int, to as int);
    if from == to {
        return None;
    }
    let mut acc: u128 = 0;
    let mut i: usize = from;
    while i < to
        invariant
            from <= i <= to <= s@.len(),
            whole == s@.subrange(from as int, to as int),
            all_digits(s@.subrange(from as int, i as int)),
            acc == digits_val(s@.subrange(from as int, i as int)),
        decreases to - i,
    {
        let c = s.get_char(i);
        let code = c as u32;
        let ghost pre = s@.subrange(from as int, i as int);
        let ghost cur = s@.subrange(from as int, i as int + 1);
        proof {
            assert(cur.drop_last() =~= pre);
            assert(cur.last() == s@[i as int]);
        }
        if code < 48 || code > 57 {
            proof {
                assert(!is_digit(whole[i - from]));
                assert(!all_digits(whole));
            }
            return None;
        }
        let d = (code - 48) as u128;
        proof {
            assert(all_digits(cur)) by {
                assert(forall|j: int|
                    0 <= j < cur.len() - 1 ==> cur[j] == #[trigger] pre[j]);
            }
        }
        if acc > (u128::MAX - d) / 10 {
            proof {
                vstd::arithmetic::div_mod::lemma_remainder_upper(
                    u128::MAX as int - d as int,
                    10,
                );
                assert(digits_val(cur) == acc * 10 + d as int);
                assert(acc * 10 + d > u128::MAX as int) by (nonlinear_arith)
                    requires
                        acc as int >= (u128::MAX as int - d as int) / 10 + 1,
                        ((u128::MAX as int - d as int) / 10) * 10 > u128::MAX as int - d as int
                            - 10,
                        0 <= d as int <= 9,
                ;
                if all_digits(whole) {
                    lemma_digits_val_prefix(whole, i as int + 1 - from as int);
                    assert(whole.subrange(0, i as int + 1 - from as int) =~= cur);
                    assert(digits_val(whole) > u128::MAX as int);
                }
            }
            return None;
        }
        proof {
            assert(acc * 10 + d <= u128::MAX as int) by (nonlinear_arith)
                requires
                    acc as int <= (u128::MAX as int - d as int) / 10,
                    ((u128::MAX as int - d as int) / 10) * 10 <= u128::MAX as int - d as int,
                    0 <= d as int,
            ;
            vstd::arithmetic::div_mod::lemma_remainder_lower(u128::MAX as int - d as int, 10);
        }
        acc = acc * 10 + d;
        i += 1;
    }
    proof {
        assert(whole =~= s@.subrange(from as int, i as int));
    }
    Some(acc)
}

/// Strict lexicographic order on character sequences, by unicode value,
/// with a proper prefix ordered before its extensions.
pub open spec fn seq_lt(a: Seq<char>, b: Seq<char>) -> bool
    decreases a.len(),
{
    if a.len() == 0 {
        b.len() > 0
    } else if b.len() == 0 {
        false
    } else if a[0] != b[0] {
        (a[0] as u32) < (b[0] as u32)
    } else {
        seq_lt(a.skip(1), b.skip(1))
    }
}

/// Characters with the same unicode value are the same character.
pub proof fn lemma_char_inj(x: char, y: char)
    requires
        x as u32 == y as u32,
    ensures
        x == y,
{
    assert((x as u32) as char == x);
    assert((y as u32) as char == y);
}

/// The order is irreflexive and asymmetric, and two unordered sequences are equal.
pub proof fn lemma_seq_lt_connex(a: Seq<char>, b: Seq<char>)
    ensures
        !(seq_lt(a, b) && seq_lt(b, a)),
        !seq_lt(a, b) && !seq_lt(b, a) ==> a == b,
    decreases a.len(),
{
    if a.len() == 0 {
        if b.len() == 0 {
            assert(a =~= b);
        }
    } else if b.len() == 0 {
        assert(seq_lt(b, a));
    } else if a[0] != b[0] {
        if a[0] as u32 == b[0] as u32 {
            lemma_char_inj(a[0], b[0]);
        }
        assert(seq_lt(a, b) || seq_lt(b, a));
    } else {
        lemma_seq_lt_connex(a.skip(1), b.skip(1));
        if !seq_lt(a, b) && !seq_lt(b, a) {
            assert(a.skip(1) == b.skip(1));
            assert forall|i: int| 0 <= i < a.len() implies a[i] == b[i] by {
                if i >= 1 {
                    assert(a.skip(1)[i - 1] == a[i]);
                    assert(b.skip(1)[i - 1] == b[i]);
                }
            }
            assert(a =~= b);
        }
    }
}

/// The order is transitive.
pub proof fn lemma_seq_lt_trans(a: Seq<char>, b: Seq<char>, c: Seq<char>)
    requires
        seq_lt(a, b),
        seq_lt(b, c),
    ensures
        seq_lt(a, c),
    decreases a.len(),
{
    if a.len() == 0 {
    } else if b.len() == 0 {
    } else if c.len() == 0 {
    } else if a[0] == b[0] && b[0] == c[0] {
        lemma_seq_lt_trans(a.skip(1), b.skip(1), c.skip(1));
    }
}

/// Executable form of [`seq_lt`] on string slices.
pub fn str_lt(a: &str, b: &str) -> (r: bool)
    ensures
        r == seq_lt(a@, b@),
    decreases a@.len(),
{
    let a_len = a.unicode_len();
    let b_len = b.unicode_len();
    if a_len == 0 {
        b_len > 0
    } else if b_len == 0 {
        false
    } else {
        let ca = a.get_char(0);
        let cb = b.get_char(0);
        if ca != cb {
            (ca as u32) < (cb as u32)
        } else {
            let ra = a.substring_char(1, a_len);
            let rb = b.substring_char(1, b_len);
            proof {
                assert(ra@ =~= a@.skip(1));
                assert(rb@ =~= b@.skip(1));
            }
            str_lt(ra, rb)
        }
    }
}

/// Executable character-wise equality on string slices.
pub fn str_eq(a: &str, b: &str) -> (r: bool)
    ensures
        r == (a@ == b@),
{
    let a_len = a.unicode_len();
    let b_len = b.unicode_len();
    if a_len != b_len {
        return false;
    }
    let mut i: usize = 0;
    while i < a_len
        invariant
            0 <= i <= a_len,
            a_len == a@.len(),
            b_len == b@.len(),
            a_len == b_len,
            forall|j: int| 0 <= j < i ==> a@[j] == b@[j],
        decreases a_len - i,
    {
        if a.get_char(i) != b.get_char(i) {
            return false;
        }
        i += 1;
    }
    proof {
        assert(a@ =~= b@);
    }
    true
}

} // verus!
