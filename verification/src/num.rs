//! Decimal integer parsing for the order field: an optional sign, one
//! or more digits, and a value within the 32-bit signed range.

use vstd::prelude::*;

verus! {

pub open spec fn is_digit(c: char) -> bool {
    '0' <= c && c <= '9'
}

pub open spec fn digit_val(c: char) -> int {
    c as int - '0' as int
}

/// The value of a digit string, most significant digit first.
pub open spec fn digits_val(s: Seq<char>) -> int
    decreases s.len(),
{
    if s.len() == 0 {
        0
    } else {
        digits_val(s.drop_last()) * 10 + digit_val(s.last())
    }
}

pub open spec fn all_digits(s: Seq<char>) -> bool {
    forall|i: int| 0 <= i < s.len() ==> is_digit(#[trigger] s[i])
}

pub open spec fn pow10(n: nat) -> int
    decreases n,
{
    if n == 0 {
        1
    } else {
        10 * pow10((n - 1) as nat)
    }
}

/// The digits of a numeral, the sign mark stripped.
pub open spec fn numeral_body(s: Seq<char>) -> Seq<char> {
    if s.len() > 0 && (s[0] == '+' || s[0] == '-') {
        s.drop_first()
    } else {
        s
    }
}

pub open spec fn numeral_sign(s: Seq<char>) -> int {
    if s.len() > 0 && s[0] == '-' {
        -1
    } else {
        1
    }
}

/// The integer a numeral denotes.
pub open spec fn numeral_val(s: Seq<char>) -> int {
    numeral_sign(s) * digits_val(numeral_body(s))
}

/// Whether `s` parses as a 32-bit signed integer: an optional sign,
/// then at least one digit, and a value in range.
pub open spec fn is_i32_numeral(s: Seq<char>) -> bool {
    &&& numeral_body(s).len() > 0
    &&& all_digits(numeral_body(s))
    &&& -2147483648 <= numeral_val(s) <= 2147483647
}

/// Leading zeroes do not change a digit string's value.
proof fn lemma_digits_val_zeros(s: Seq<char>, k: int)
    requires
        0 <= k <= s.len(),
        forall|j: int| 0 <= j < k ==> #[trigger] s[j] == '0',
    ensures
        digits_val(s) == digits_val(s.subrange(k, s.len() as int)),
    decreases s.len(),
{
    if k == s.len() {
        lemma_digits_val_all_zeros(s);
        assert(s.subrange(k, s.len() as int) =~= Seq::<char>::empty());
    } else if s.len() > 0 {
        lemma_digits_val_zeros(s.drop_last(), k);
        assert(s.drop_last().subrange(k, s.len() - 1) =~= s.subrange(
            k,
            s.len() as int,
        ).drop_last());
    }
}

proof fn lemma_digits_val_all_zeros(s: Seq<char>)
    requires
        forall|j: int| 0 <= j < s.len() ==> #[trigger] s[j] == '0',
    ensures
        digits_val(s) == 0,
    decreases s.len(),
{
    if s.len() > 0 {
        lemma_digits_val_all_zeros(s.drop_last());
    }
}

proof fn lemma_pow10_pos(n: nat)
    ensures
        pow10(n) >= 1,
    decreases n,
{
    if n > 0 {
        lemma_pow10_pos((n - 1) as nat);
    }
}

proof fn lemma_pow10_mono(a: nat, b: nat)
    requires
        a <= b,
    ensures
        pow10(a) <= pow10(b),
    decreases b,
{
    if a < b {
        lemma_pow10_mono(a, (b - 1) as nat);
        lemma_pow10_pos((b - 1) as nat);
    }
}

proof fn lemma_pow10_ten()
    ensures
        pow10(10) == 10000000000,
{
    reveal_with_fuel(pow10, 11);
}

/// A digit string without a leading zero is at least its place value.
proof fn lemma_digits_val_lower(s: Seq<char>)
    requires
        s.len() > 0,
        all_digits(s),
        s[0] != '0',
    ensures
        digits_val(s) >= pow10((s.len() - 1) as nat),
    decreases s.len(),
{
    if s.len() == 1 {
        assert(digit_val(s[0]) >= 1);
    } else {
        assert(all_digits(s.drop_last()));
        assert(s.drop_last()[0] == s[0]);
        lemma_digits_val_lower(s.drop_last());
        assert(digits_val(s.drop_last()) >= pow10((s.len() - 2) as nat));
        assert(pow10((s.len() - 1) as nat) == 10 * pow10((s.len() - 2) as nat));
        assert(digits_val(s.drop_last()) * 10 >= pow10((s.len() - 2) as nat) * 10) by (
        nonlinear_arith)
            requires
                digits_val(s.drop_last()) >= pow10((s.len() - 2) as nat),
        ;
        assert(digit_val(s.last()) >= 0);
    }
}

/// Parses a string slice as a 32-bit signed decimal integer, if it is
/// one.
pub fn parse_i32(s: &str) -> (r: Option<i32>)
    ensures
        r is Some <==> is_i32_numeral(s@),
        r is Some ==> r->0 == numeral_val(s@),
{
    let len = s.unicode_len();
    let mut start: usize = 0;
    let mut neg = false;
    if len > 0 {
        let c0 = s.get_char(0);
        if c0 == '+' {
            start = 1;
        } else if c0 == '-' {
            start = 1;
            neg = true;
        }
    }
    proof {
        assert(numeral_body(s@) =~= s@.subrange(start as int, len as int));
        assert(numeral_sign(s@) == if neg { -1int } else { 1int });
    }
    if start >= len {
        return None;
    }
    let ghost body = s@.subrange(start as int, len as int);
    for i in start..len
        invariant
            len == s@.len(),
            start <= i <= len,
            body == s@.subrange(start as int, len as int),
            body == numeral_body(s@),
            forall|j: int| start <= j < i ==> is_digit(#[trigger] s@[j]),
    {
        let c = s.get_char(i);
        if !('0' <= c && c <= '9') {
            proof {
                assert(body[i - start] == s@[i as int]);
                assert(!all_digits(body));
                assert(!is_i32_numeral(s@));
            }
            return None;
        }
    }
    proof {
        assert(all_digits(body));
    }
    let mut z = start;
    while z < len && s.get_char(z) == '0'
        invariant
            len == s@.len(),
            start <= z <= len,
            forall|j: int| start <= j < z ==> #[trigger] s@[j] == '0',
        decreases len - z,
    {
        z += 1;
    }
    proof {
        assert(forall|j: int| 0 <= j < z - start ==> #[trigger] body[j] == '0');
        lemma_digits_val_zeros(body, z - start);
        assert(body.subrange(z - start, body.len() as int) =~= s@.subrange(
            z as int,
            len as int,
        ));
    }
    let ghost trimmed = s@.subrange(z as int, len as int);
    if len - z > 10 {
        proof {
            assert(trimmed[0] == s@[z as int]);
            lemma_digits_val_lower(trimmed);
            lemma_pow10_mono(10, (trimmed.len() - 1) as nat);
            lemma_pow10_ten();
            assert(digits_val(body) >= 10000000000);
        }
        return None;
    }
    let mut acc: i64 = 0;
    for i in z..len
        invariant
            len == s@.len(),
            z <= i <= len,
            len - z <= 10,
            trimmed == s@.subrange(z as int, len as int),
            all_digits(trimmed),
            acc == digits_val(s@.subrange(z as int, i as int)),
            0 <= acc < pow10((i - z) as nat),
    {
        let c = s.get_char(i);
        proof {
            assert(trimmed[i - z] == s@[i as int]);
            assert(is_digit(s@[i as int]));
            assert(48 <= c as u32 <= 57);
        }
        let d = (c as u32 - 48) as i64;
        proof {
            let pre = s@.subrange(z as int, i as int);
            let post = s@.subrange(z as int, i + 1);
            assert(post.drop_last() =~= pre);
            assert(post.last() == s@[i as int]);
            lemma_pow10_mono((i + 1 - z) as nat, 10);
            lemma_pow10_ten();
        }
        acc = acc * 10 + d;
    }
    proof {
        assert(s@.subrange(z as int, len as int) == trimmed);
        assert(digits_val(body) == acc);
        lemma_pow10_mono((len - z) as nat, 10);
        lemma_pow10_ten();
    }
    if neg {
        if acc <= 2147483648 {
            Some((-acc) as i32)
        } else {
            None
        }
    } else {
        if acc <= 2147483647 {
            Some(acc as i32)
        } else {
            None
        }
    }
}

} // verus!
