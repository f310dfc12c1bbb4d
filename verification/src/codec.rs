//! The token codec.
//!
//! A credential is the pair `(user id, token value)`, two 64-bit integers.
//! On the wire it travels as one compact, URL-safe string: each integer is
//! written in base 62 over the alphabet `0-9 A-Z a-z` (most significant
//! digit first, no padding, zero written as `0`), and the two runs are
//! joined by a single `:`.  Decoding accepts exactly that shape and
//! nothing else: no extra delimiter, no empty run, no character outside
//! the alphabet, no value that overflows 64 bits.

use vstd::prelude::*;

verus! {

/// True of the characters the base-62 alphabet uses.
pub open spec fn is_b62_char(c: char) -> bool {
    ||| 48 <= c as u32 <= 57  // '0' ..= '9'
    ||| 65 <= c as u32 <= 90  // 'A' ..= 'Z'
    ||| 97 <= c as u32 <= 122  // 'a' ..= 'z'
}

/// The digit value of a base-62 character.
pub open spec fn b62_char_val(c: char) -> int {
    if 48 <= c as u32 <= 57 {
        c as u32 - 48
    } else if 65 <= c as u32 <= 90 {
        c as u32 - 65 + 10
    } else {
        c as u32 - 97 + 36
    }
}

/// The base-62 character for a digit value below 62.
pub open spec fn b62_digit_char(d: int) -> char {
    if d < 10 {
        (48 + d) as char
    } else if d < 36 {
        (65 + d - 10) as char
    } else {
        (97 + d - 36) as char
    }
}

/// The base-62 digit string of `n`, most significant digit first.
pub open spec fn b62_chars(n: nat) -> Seq<char>
    decreases n,
{
    if n < 62 {
        seq![b62_digit_char(n as int)]
    } else {
        b62_chars(n / 62).push(b62_digit_char((n % 62) as int))
    }
}

/// The integer a digit string stands for, read most significant digit first.
pub open spec fn b62_val(s: Seq<char>) -> int
    decreases s.len(),
{
    if s.len() == 0 {
        0
    } else {
        b62_val(s.drop_last()) * 62 + b62_char_val(s.last())
    }
}

/// True when every character of `s` is a base-62 digit.
pub open spec fn all_b62(s: Seq<char>) -> bool {
    forall|i: int| 0 <= i < s.len() ==> is_b62_char(#[trigger] s[i])
}

/// True of the digit strings that decode to a 64-bit value: nonempty,
/// digits only, and a value that fits.
pub open spec fn valid_b62(s: Seq<char>) -> bool {
    &&& s.len() > 0
    &&& all_b62(s)
    &&& b62_val(s) <= u64::MAX
}

/// The character sequence of an encoded `(user, value)` credential.
pub open spec fn token_chars(user: u64, value: u64) -> Seq<char> {
    b62_chars(user as nat) + seq![':'] + b62_chars(value as nat)
}

/// True when `i` splits `s` into two valid digit runs joined by `:`.
pub open spec fn is_token_shape(s: Seq<char>, i: int) -> bool {
    &&& 0 <= i < s.len()
    &&& s[i] == ':'
    &&& valid_b62(s.subrange(0, i))
    &&& valid_b62(s.subrange(i + 1, s.len() as int))
}

/// True of the strings that decode: exactly two valid digit runs joined
/// by a single `:`.
pub open spec fn is_token(s: Seq<char>) -> bool {
    exists|i: int| is_token_shape(s, i)
}

/// The position of the delimiter in a decodable string.
pub open spec fn token_delim(s: Seq<char>) -> int {
    choose|i: int| is_token_shape(s, i)
}

/// The user id a decodable string carries.
pub open spec fn token_user(s: Seq<char>) -> int {
    b62_val(s.subrange(0, token_delim(s)))
}

/// The token value a decodable string carries.
pub open spec fn token_value(s: Seq<char>) -> int {
    b62_val(s.subrange(token_delim(s) + 1, s.len() as int))
}

/// The base-62 character of a digit is a digit character with that value.
proof fn lemma_digit_char_val(d: int)
    requires
        0 <= d < 62,
    ensures
        is_b62_char(b62_digit_char(d)),
        b62_char_val(b62_digit_char(d)) == d,
{
}

/// A digit string is never empty and holds digits only.
proof fn lemma_b62_chars_digits(n: nat)
    ensures
        b62_chars(n).len() >= 1,
        all_b62(b62_chars(n)),
    decreases n,
{
    if n < 62 {
        lemma_digit_char_val(n as int);
    } else {
        lemma_b62_chars_digits(n / 62);
        lemma_digit_char_val((n % 62) as int);
    }
}

/// Reading back the digit string of `n` yields `n`.
proof fn lemma_b62_chars_val(n: nat)
    ensures
        b62_val(b62_chars(n)) == n,
    decreases n,
{
    if n < 62 {
        lemma_digit_char_val(n as int);
        assert(b62_chars(n).drop_last() =~= Seq::<char>::empty());
        assert(b62_chars(n).last() == b62_digit_char(n as int));
        assert(b62_val(b62_chars(n)) == b62_val(b62_chars(n).drop_last()) * 62 + b62_char_val(
            b62_chars(n).last(),
        ));
    } else {
        lemma_b62_chars_val(n / 62);
        lemma_digit_char_val((n % 62) as int);
        assert(b62_chars(n).drop_last() =~= b62_chars(n / 62));
        assert(b62_chars(n).last() == b62_digit_char((n % 62) as int));
        vstd::arithmetic::div_mod::lemma_fundamental_div_mod(n as int, 62);
        assert(b62_val(b62_chars(n)) == (n / 62) * 62 + (n % 62));
    }
}

/// Converts a digit value below 62 to its base-62 character.
fn digit_char(d: u64) -> (c: char)
    requires
        d < 62,
    ensures
        c == b62_digit_char(d as int),
        is_b62_char(c),
{
    proof {
        lemma_digit_char_val(d as int);
    }
    let b: u8 = if d < 10 {
        48 + d as u8
    } else if d < 36 {
        65 + (d as u8 - 10)
    } else {
        97 + (d as u8 - 36)
    };
    b as char
}

/// Appends the digit string of `n` to `out`.
fn push_b62(n: u64, out: &mut Vec<char>)
    ensures
        final(out)@ == old(out)@ + b62_chars(n as nat),
    decreases n,
{
    if n >= 62 {
        push_b62(n / 62, out);
    }
    let c = digit_char(n % 62);
    out.push(c);
    proof {
        assert(old(out)@ + b62_chars(n as nat) =~= final(out)@);
    }
}

/// Relies on `String: FromIterator<&char>`: collecting characters yields
/// the string holding exactly those characters in order.
#[verifier::external_body]
pub(crate) fn chars_to_string(v: &Vec<char>) -> (r: String)
    ensures
        r@ == v@,
{
    v.iter().collect()
}

/// A digit string of digits only never goes negative.
proof fn lemma_b62_val_nonneg(s: Seq<char>)
    requires
        all_b62(s),
    ensures
        b62_val(s) >= 0,
    decreases s.len(),
{
    if s.len() > 0 {
        assert(all_b62(s.drop_last())) by {
            assert(forall|i: int|
                0 <= i < s.drop_last().len() ==> s.drop_last()[i] == s[i] && is_b62_char(
                    #[trigger] s.drop_last()[i],
                ));
        }
        lemma_b62_val_nonneg(s.drop_last());
        assert(b62_val(s.drop_last()) * 62 >= 0) by (nonlinear_arith)
            requires
                b62_val(s.drop_last()) >= 0,
        ;
    }
}

/// Each prefix of an all-digit string reads as at most the whole string.
proof fn lemma_b62_val_prefix_le(s: Seq<char>, j: int)
    requires
        all_b62(s),
        0 <= j <= s.len(),
    ensures
        b62_val(s.subrange(0, j)) <= b62_val(s),
    decreases s.len() - j,
{
    if j == s.len() {
        assert(s.subrange(0, j) =~= s);
    } else {
        let p = s.subrange(0, j);
        let q = s.subrange(0, j + 1);
        assert(q.drop_last() =~= p);
        assert(all_b62(p));
        lemma_b62_val_nonneg(p);
        assert(b62_val(p) * 62 >= b62_val(p)) by (nonlinear_arith)
            requires
                b62_val(p) >= 0,
        ;
        assert(b62_val(q) >= b62_val(p));
        lemma_b62_val_prefix_le(s, j + 1);
    }
}

/// Decodes one base-62 digit run.  Returns the value exactly when the
/// run is nonempty, uses the alphabet alone, and fits in 64 bits.
pub fn decode_b62(s: &str) -> (r: Option<u64>)
    ensures
        valid_b62(s@) ==> r == Some(b62_val(s@) as u64),
        !valid_b62(s@) ==> r is None,
{
    let n = s.unicode_len();
    if n == 0 {
        return None;
    }
    let mut acc: u64 = 0;
    let mut i: usize = 0;
    while i < n
        invariant
            i <= n,
            n == s@.len(),
            all_b62(s@.subrange(0, i as int)),
            acc == b62_val(s@.subrange(0, i as int)),
        decreases n - i,
    {
        let c = s.get_char(i);
        let u = c as u32;
        let d: u64 = if 48 <= u && u <= 57 {
            (u - 48) as u64
        } else if 65 <= u && u <= 90 {
            (u - 65 + 10) as u64
        } else if 97 <= u && u <= 122 {
            (u - 97 + 36) as u64
        } else {
            proof {
                assert(!is_b62_char(s@[i as int]));
                assert(!all_b62(s@));
            }
            return None;
        };
        proof {
            assert(is_b62_char(s@[i as int]));
            assert(d == b62_char_val(s@[i as int]));
            assert(s@.subrange(0, i + 1).drop_last() =~= s@.subrange(0, i as int));
            assert(s@.subrange(0, i + 1).last() == s@[i as int]);
        }
        if acc > (u64::MAX - d) / 62 {
            proof {
                vstd::arithmetic::div_mod::lemma_fundamental_div_mod((u64::MAX - d) as int, 62);
                assert(acc * 62 + d > u64::MAX) by (nonlinear_arith)
                    requires
                        acc >= ((u64::MAX - d) as int) / 62 + 1,
                        0 <= d < 62,
                        (u64::MAX - d) as int == 62 * (((u64::MAX - d) as int) / 62) + ((u64::MAX
                            - d) as int) % 62,
                        0 <= ((u64::MAX - d) as int) % 62 < 62,
                ;
                assert(b62_val(s@.subrange(0, i + 1)) > u64::MAX);
                if all_b62(s@) {
                    lemma_b62_val_prefix_le(s@, i + 1);
                    assert(!valid_b62(s@));
                } else {
                    assert(!valid_b62(s@));
                }
            }
            return None;
        }
        proof {
            vstd::arithmetic::div_mod::lemma_fundamental_div_mod((u64::MAX - d) as int, 62);
            assert(acc * 62 + d <= u64::MAX) by (nonlinear_arith)
                requires
                    acc <= ((u64::MAX - d) as int) / 62,
                    0 <= d < 62,
                    (u64::MAX - d) as int == 62 * (((u64::MAX - d) as int) / 62) + ((u64::MAX
                        - d) as int) % 62,
                    0 <= ((u64::MAX - d) as int) % 62 < 62,
            ;
        }
        acc = acc * 62 + d;
        i = i + 1;
    }
    proof {
        assert(s@.subrange(0, n as int) =~= s@);
    }
    Some(acc)
}

/// A decodable split has the delimiter as its only `:`.
proof fn lemma_shape_only_colon(s: Seq<char>, i: int, j: int)
    requires
        is_token_shape(s, i),
        0 <= j < s.len(),
        j != i,
    ensures
        s[j] != ':',
{
    if j < i {
        assert(s.subrange(0, i)[j] == s[j]);
        assert(is_b62_char(s.subrange(0, i)[j]));
    } else {
        assert(s.subrange(i + 1, s.len() as int)[j - i - 1] == s[j]);
        assert(is_b62_char(s.subrange(i + 1, s.len() as int)[j - i - 1]));
    }
}

/// Finds the first `:`, if any.
fn find_colon(s: &str) -> (r: Option<usize>)
    ensures
        match r {
            Some(i) => i < s@.len() && s@[i as int] == ':' && forall|j: int|
                0 <= j < i ==> s@[j] != ':',
            None => forall|j: int| 0 <= j < s@.len() ==> s@[j] != ':',
        },
{
    let n = s.unicode_len();
    let mut i: usize = 0;
    while i < n
        invariant
            i <= n,
            n == s@.len(),
            forall|j: int| 0 <= j < i ==> s@[j] != ':',
        decreases n - i,
    {
        if s.get_char(i) == ':' {
            return Some(i);
        }
        i = i + 1;
    }
    None
}

/// True when a `:` stands at or after `from`.
fn has_colon_from(s: &str, from: usize) -> (r: bool)
    ensures
        r == exists|j: int| from <= j < s@.len() && s@[j] == ':',
{
    let n = s.unicode_len();
    let mut i: usize = from;
    while i < n
        invariant
            from <= i,
            i <= n || i == from,
            n == s@.len(),
            forall|j: int| from <= j < i ==> s@[j] != ':',
        decreases n - i,
    {
        if s.get_char(i) == ':' {
            return true;
        }
        i = i + 1;
    }
    false
}

/// Decodes a wire string back to its `(user, value)` credential.
/// Succeeds exactly on the strings of token shape, and then returns the
/// pair the two digit runs stand for.
pub fn parse_token(s: &str) -> (r: Option<(u64, u64)>)
    ensures
        r is Some <==> is_token(s@),
        is_token(s@) ==> r == Some((token_user(s@) as u64, token_value(s@) as u64)),
{
    let n = s.unicode_len();
    let ci = match find_colon(s) {
        None => {
            proof {
                assert(forall|i: int| !is_token_shape(s@, i));
            }
            return None;
        },
        Some(ci) => ci,
    };
    if has_colon_from(s, ci + 1) {
        proof {
            let j = choose|j: int| ci + 1 <= j < s@.len() && s@[j] == ':';
            assert forall|i: int| !is_token_shape(s@, i) by {
                if is_token_shape(s@, i) {
                    if i != ci as int {
                        lemma_shape_only_colon(s@, i, ci as int);
                    } else {
                        lemma_shape_only_colon(s@, i, j);
                    }
                }
            }
        }
        return None;
    }
    let a = s.substring_char(0, ci);
    let b = s.substring_char(ci + 1, n);
    proof {
        assert(a@ =~= s@.subrange(0, ci as int));
        assert(b@ =~= s@.subrange(ci + 1, s@.len() as int));
    }
    let ua = decode_b62(a);
    let vb = decode_b62(b);
    match (ua, vb) {
        (Some(user), Some(value)) => {
            proof {
                assert(is_token_shape(s@, ci as int));
                let k = token_delim(s@);
                assert(is_token_shape(s@, k));
                if k != ci as int {
                    lemma_shape_only_colon(s@, k, ci as int);
                }
                lemma_b62_val_nonneg(s@.subrange(0, ci as int));
                lemma_b62_val_nonneg(s@.subrange(ci + 1, s@.len() as int));
            }
            Some((user, value))
        },
        _ => {
            proof {
                assert forall|i: int| !is_token_shape(s@, i) by {
                    if is_token_shape(s@, i) {
                        if i != ci as int {
                            lemma_shape_only_colon(s@, i, ci as int);
                        }
                    }
                }
            }
            None
        },
    }
}

/// Encoding a credential and decoding the result restores it: the wire
/// string has token shape, and its two runs read back as the original
/// user id and token value.
pub proof fn lemma_token_roundtrip(user: u64, value: u64)
    ensures
        is_token(token_chars(user, value)),
        token_user(token_chars(user, value)) == user,
        token_value(token_chars(user, value)) == value,
{
    let s = token_chars(user, value);
    let i = b62_chars(user as nat).len() as int;
    lemma_b62_chars_digits(user as nat);
    lemma_b62_chars_digits(value as nat);
    lemma_b62_chars_val(user as nat);
    lemma_b62_chars_val(value as nat);
    assert(s.subrange(0, i) =~= b62_chars(user as nat));
    assert(s.subrange(i + 1, s.len() as int) =~= b62_chars(value as nat));
    assert(s[i] == ':');
    assert(is_token_shape(s, i));
    let k = token_delim(s);
    assert(is_token_shape(s, k));
    if k != i {
        lemma_shape_only_colon(s, k, i);
    }
}

/// Encodes a `(user, value)` credential as its wire string.
pub fn encode_token(user: u64, value: u64) -> (r: String)
    ensures
        r@ == token_chars(user, value),
{
    let mut out: Vec<char> = Vec::new();
    push_b62(user, &mut out);
    out.push(':');
    push_b62(value, &mut out);
    let r = chars_to_string(&out);
    proof {
        assert(out@ =~= token_chars(user, value));
    }
    r
}

} // verus!
