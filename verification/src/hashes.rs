//! The texts that block hashes are kept as.

use crate::text::{digit, lower_hex};
use vstd::prelude::*;

verus! {

/// A hash of 32 bytes.
pub type HashBytes = [u8; 32];

/// The character of one digit below sixteen, letters in upper case.
pub open spec fn upper_digit(d: nat) -> char {
    if d < 10 {
        (48 + d) as char
    } else {
        (55 + d) as char
    }
}

/// Bytes as hexadecimal digits in upper case, two for each byte, the high one first.
pub open spec fn upper_hex(bytes: Seq<u8>) -> Seq<char> {
    Seq::new(
        2 * bytes.len(),
        |i: int|
            if i % 2 == 0 {
                upper_digit(bytes[i / 2] as nat / 16)
            } else {
                upper_digit(bytes[i / 2] as nat % 16)
            },
    )
}

/// The number that bytes stand for, the highest byte first.
pub open spec fn number_of(bytes: Seq<u8>) -> nat
    decreases bytes.len(),
{
    if bytes.len() == 0 {
        0
    } else {
        number_of(bytes.drop_last()) * 256 + bytes.last() as nat
    }
}

/// The digits of base 58, which leave out what is easily mistaken.
pub open spec fn base58_alphabet() -> Seq<char> {
    "123456789ABCDEFGHJKLMNPQRSTUVWXYZabcdefghijkmnopqrstuvwxyz"@
}

/// A number in base 58, without leading zeros; nothing for zero.
pub open spec fn base58_digits(n: nat) -> Seq<char>
    decreases n,
{
    if n == 0 {
        seq![]
    } else {
        base58_digits(n / 58).push(base58_alphabet()[(n % 58) as int])
    }
}

/// How many zero bytes come first.
pub open spec fn leading_zeros(bytes: Seq<u8>) -> nat
    decreases bytes.len(),
{
    if bytes.len() == 0 || bytes.first() != 0 {
        0
    } else {
        1 + leading_zeros(bytes.drop_first())
    }
}

/// Bytes in base 58: the digit for zero once for each leading zero byte, then the
/// number that the bytes stand for.
pub open spec fn base58(bytes: Seq<u8>) -> Seq<char> {
    Seq::new(leading_zeros(bytes), |i: int| '1') + base58_digits(number_of(bytes))
}

/// The text of an optional hash in upper-case hexadecimal; empty for none.
pub open spec fn tendermint_hash(hash: Option<HashBytes>) -> Seq<char> {
    match hash {
        Some(bytes) => upper_hex(bytes@),
        None => seq![],
    }
}

/// Calls the `Display` of `near_primitives::hash::CryptoHash`, by `to_string`. Its
/// source writes the 32 bytes in base 58, with the alphabet above.
#[verifier::external_body]
pub(crate) fn near_hash_text(hash: HashBytes) -> (text: String)
    ensures
        text@ == base58(hash@),
{
    near_primitives::hash::CryptoHash(hash).to_string()
}

/// Calls the `Display` of `tendermint::Hash`, by `to_string`. Its source writes a
/// SHA-256 hash in upper-case hexadecimal, and nothing for the empty hash.
#[verifier::external_body]
pub(crate) fn tendermint_hash_text(hash: Option<HashBytes>) -> (text: String)
    ensures
        text@ == tendermint_hash(hash),
{
    match hash {
        Some(bytes) => tendermint::Hash::Sha256(bytes).to_string(),
        None => tendermint::Hash::None.to_string(),
    }
}

/// Different bytes have different texts in lower-case hexadecimal.
pub proof fn law_lower_hex_tells_bytes_apart(a: Seq<u8>, b: Seq<u8>)
    ensures
        lower_hex(a) == lower_hex(b) <==> a == b,
{
    if lower_hex(a) == lower_hex(b) {
        assert(lower_hex(a).len() == lower_hex(b).len());
        assert forall|i: int| 0 <= i < a.len() implies a[i] == b[i] by {
            assert(lower_hex(a)[2 * i] == lower_hex(b)[2 * i]);
            assert(lower_hex(a)[2 * i + 1] == lower_hex(b)[2 * i + 1]);
        }
        assert(a =~= b);
    }
}

/// Different hashes, or a hash and none, have different texts.
pub proof fn law_upper_hex_tells_hashes_apart(a: Option<HashBytes>, b: Option<HashBytes>)
    ensures
        tendermint_hash(a) == tendermint_hash(b) <==> (a is Some <==> b is Some) && (a is Some
            ==> a->Some_0@ == b->Some_0@),
{
    if tendermint_hash(a) == tendermint_hash(b) {
        assert(tendermint_hash(a).len() == tendermint_hash(b).len());
        if let (Some(x), Some(y)) = (a, b) {
            let (s, t) = (x@, y@);
            assert forall|i: int| 0 <= i < s.len() implies s[i] == t[i] by {
                assert(upper_hex(s)[2 * i] == upper_hex(t)[2 * i]);
                assert(upper_hex(s)[2 * i + 1] == upper_hex(t)[2 * i + 1]);
            }
            assert(s =~= t);
        }
    }
}

/// The digit of base 58 at a place, by the stretches of characters that follow each other.
spec fn base58_char(d: int) -> int {
    if d < 9 {
        49 + d
    } else if d < 17 {
        56 + d
    } else if d < 22 {
        57 + d
    } else if d < 33 {
        58 + d
    } else if d < 44 {
        64 + d
    } else {
        65 + d
    }
}

proof fn lemma_alphabet(d: int)
    requires
        0 <= d < 58,
    ensures
        base58_alphabet()[d] as int == base58_char(d),
{
    reveal_strlit("123456789ABCDEFGHJKLMNPQRSTUVWXYZabcdefghijkmnopqrstuvwxyz");
}

/// A number above zero does not begin with the digit for zero.
proof fn lemma_no_leading_one(n: nat)
    requires
        n > 0,
    ensures
        base58_digits(n).len() > 0,
        base58_digits(n)[0] != '1',
    decreases n,
{
    if n >= 58 {
        lemma_no_leading_one(n / 58);
        assert(base58_digits(n)[0] == base58_digits(n / 58)[0]);
    } else {
        lemma_alphabet((n % 58) as int);
        assert(base58_digits(0) =~= seq![]);
    }
}

proof fn lemma_base58_digits_injective(m: nat, n: nat)
    requires
        base58_digits(m) == base58_digits(n),
    ensures
        m == n,
    decreases m,
{
    if m > 0 && n > 0 {
        lemma_alphabet((m % 58) as int);
        lemma_alphabet((n % 58) as int);
        assert(base58_digits(m).last() == base58_alphabet()[(m % 58) as int]);
        assert(base58_digits(n).last() == base58_alphabet()[(n % 58) as int]);
        assert(m % 58 == n % 58);
        assert(base58_digits(m).drop_last() =~= base58_digits(m / 58));
        assert(base58_digits(n).drop_last() =~= base58_digits(n / 58));
        lemma_base58_digits_injective(m / 58, n / 58);
    } else if m > 0 {
        lemma_no_leading_one(m);
    } else if n > 0 {
        lemma_no_leading_one(n);
    }
}

proof fn lemma_number_of_injective(a: Seq<u8>, b: Seq<u8>)
    requires
        a.len() == b.len(),
        number_of(a) == number_of(b),
    ensures
        a == b,
    decreases a.len(),
{
    if a.len() > 0 {
        lemma_number_of_injective(a.drop_last(), b.drop_last());
        assert(a.drop_last().push(a.last()) =~= a);
        assert(b.drop_last().push(b.last()) =~= b);
    } else {
        assert(a =~= b);
    }
}

/// Different hashes have different texts in base 58.
pub proof fn law_base58_tells_hashes_apart(a: HashBytes, b: HashBytes)
    ensures
        base58(a@) == base58(b@) <==> a@ == b@,
{
    let (s, t) = (base58(a@), base58(b@));
    if s == t {
        let (zs, zt) = (leading_zeros(a@), leading_zeros(b@));
        let (m, n) = (number_of(a@), number_of(b@));
        if m > 0 {
            lemma_no_leading_one(m);
        }
        if n > 0 {
            lemma_no_leading_one(n);
        }
        assert(base58_digits(0) =~= seq![]);
        if zs < zt {
            assert(t[zs as int] == '1');
            assert(s.len() == zs + base58_digits(m).len());
            assert(s[zs as int] == base58_digits(m)[0]);
        }
        if zt < zs {
            assert(s[zt as int] == '1');
            assert(t.len() == zt + base58_digits(n).len());
            assert(t[zt as int] == base58_digits(n)[0]);
        }
        assert(base58_digits(m) =~= s.skip(zs as int));
        assert(base58_digits(n) =~= t.skip(zt as int));
        lemma_base58_digits_injective(m, n);
        lemma_number_of_injective(a@, b@);
    }
}

/// Two characters in upper-case hexadecimal stand for each byte of a hash, the high digit
/// first: read back, they are that byte. No hash has no text.
pub proof fn law_upper_hex_reads_as_its_bytes(hash: HashBytes, i: int)
    requires
        0 <= i < 32,
    ensures
        tendermint_hash(None).len() == 0,
        tendermint_hash(Some(hash)).len() == 64,
        ({
            let text = tendermint_hash(Some(hash));
            let (high, low) = (text[2 * i] as int, text[2 * i + 1] as int);
            let value = |c: int| if c < 'A' as int {
                c - '0' as int
            } else {
                c - 'A' as int + 10
            };
            &&& '0' as int <= high <= '9' as int || 'A' as int <= high <= 'F' as int
            &&& '0' as int <= low <= '9' as int || 'A' as int <= low <= 'F' as int
            &&& 16 * value(high) + value(low) == hash[i]
        }),
{
}

/// The place of a character in the alphabet of base 58: the digits without zero, the
/// capitals without `I` and `O`, and the small letters without `l`.
pub open spec fn base58_place(c: char) -> int {
    let code = c as int;
    if code <= '9' as int {
        code - '1' as int
    } else if code <= 'H' as int {
        code - 'A' as int + 9
    } else if code <= 'N' as int {
        code - 'J' as int + 17
    } else if code <= 'Z' as int {
        code - 'P' as int + 22
    } else if code <= 'k' as int {
        code - 'a' as int + 33
    } else {
        code - 'm' as int + 44
    }
}

/// The number that a text in base 58 stands for.
pub open spec fn base58_value(text: Seq<char>) -> int {
    text.fold_left(0int, |value: int, c: char| 58 * value + base58_place(c))
}

/// The number that bytes stand for, the highest byte first.
pub open spec fn bytes_value(bytes: Seq<u8>) -> int {
    bytes.fold_left(0int, |value: int, byte: u8| 256 * value + byte as int)
}

proof fn lemma_base58_digits_value(n: nat)
    ensures
        base58_value(base58_digits(n)) == n,
    decreases n,
{
    if n > 0 {
        let text = base58_digits(n);
        let step = |value: int, c: char| 58 * value + base58_place(c);
        lemma_base58_digits_value(n / 58);
        lemma_alphabet((n % 58) as int);
        assert(text.drop_last() =~= base58_digits(n / 58));
        assert(text.fold_left(0int, step) == step(
            text.drop_last().fold_left(0int, step),
            text.last(),
        ));
    }
}

/// Zeros in front do not change what a text in base 58 stands for.
proof fn lemma_base58_leading_ones(zeros: nat, text: Seq<char>)
    ensures
        base58_value(Seq::new(zeros, |i: int| '1') + text) == base58_value(text),
    decreases text.len(), zeros,
{
    let ones = Seq::new(zeros, |i: int| '1');
    let whole = ones + text;
    let step = |value: int, c: char| 58 * value + base58_place(c);
    if text.len() > 0 {
        lemma_base58_leading_ones(zeros, text.drop_last());
        assert(whole.drop_last() =~= ones + text.drop_last());
        assert(whole.fold_left(0int, step) == step(
            whole.drop_last().fold_left(0int, step),
            whole.last(),
        ));
        assert(text.fold_left(0int, step) == step(
            text.drop_last().fold_left(0int, step),
            text.last(),
        ));
    } else if zeros > 0 {
        let fewer = (zeros - 1) as nat;
        lemma_base58_leading_ones(fewer, text);
        assert(whole.drop_last() =~= Seq::new(fewer, |i: int| '1') + text);
        assert(whole.last() == '1');
    } else {
        assert(whole =~= text);
    }
}

proof fn lemma_number_of_value(bytes: Seq<u8>)
    ensures
        number_of(bytes) == bytes_value(bytes),
    decreases bytes.len(),
{
    if bytes.len() > 0 {
        lemma_number_of_value(bytes.drop_last());
    }
}

proof fn lemma_leading_zeros(bytes: Seq<u8>)
    ensures
        leading_zeros(bytes) <= bytes.len(),
        forall|i: int| 0 <= i < leading_zeros(bytes) ==> bytes[i] == 0,
        leading_zeros(bytes) < bytes.len() ==> bytes[leading_zeros(bytes) as int] != 0,
    decreases bytes.len(),
{
    if bytes.len() > 0 && bytes.first() == 0 {
        let rest = bytes.drop_first();
        lemma_leading_zeros(rest);
        assert forall|i: int| 0 <= i < leading_zeros(bytes) implies bytes[i] == 0 by {
            if i > 0 {
                assert(rest[i - 1] == 0);
            }
        }
    }
}

/// Bytes that are not all zero stand for a number above zero.
proof fn lemma_number_of_positive(bytes: Seq<u8>, i: int)
    requires
        0 <= i < bytes.len(),
        bytes[i] != 0,
    ensures
        number_of(bytes) > 0,
    decreases bytes.len(),
{
    if i < bytes.len() - 1 {
        lemma_number_of_positive(bytes.drop_last(), i);
    }
}

/// A hash's text in base 58 reads as the number that its bytes stand for, and begins with
/// as many digits for zero as the hash begins with zero bytes.
pub proof fn law_base58_reads_as_its_bytes(bytes: Seq<u8>, zeros: int)
    requires
        0 <= zeros <= bytes.len(),
    ensures
        base58_value(base58(bytes)) == bytes_value(bytes),
        (forall|i: int| 0 <= i < zeros ==> bytes[i] == 0) <==> zeros <= base58(bytes).len() && (
        forall|i: int| 0 <= i < zeros ==> base58(bytes)[i] == '1'),
{
    let (n, lead, text) = (number_of(bytes), leading_zeros(bytes), base58(bytes));
    lemma_base58_digits_value(n);
    lemma_base58_leading_ones(lead, base58_digits(n));
    lemma_number_of_value(bytes);
    lemma_leading_zeros(bytes);
    if zeros > lead {
        lemma_number_of_positive(bytes, lead as int);
        lemma_no_leading_one(n);
        assert(bytes[lead as int] != 0);
        assert(text[lead as int] == base58_digits(n)[0]);
    }
}

} // verus!
