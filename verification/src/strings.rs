//! Verified text utilities: string equality, UTF-8 conversion, and decimal
//! rendering, used by the record codec and the proof-summary builder.

use vstd::prelude::*;
use vstd::string::StrSliceExecFns;
use vstd::string::StringSliceAdditionalSpecFns;
use vstd::utf8::*;

verus! {

/// Concatenating character sequences concatenates their UTF-8 encodings.
pub proof fn lemma_encode_utf8_concat(a: Seq<char>, b: Seq<char>)
    ensures
        encode_utf8(a + b) == encode_utf8(a) + encode_utf8(b),
    decreases a.len(),
{
    if a.len() == 0 {
        assert(a + b =~= b);
        assert(encode_utf8(a) + encode_utf8(b) =~= encode_utf8(b));
    } else {
        assert((a + b).drop_first() =~= a.drop_first() + b);
        lemma_encode_utf8_concat(a.drop_first(), b);
        assert(encode_utf8(a + b) =~= encode_utf8(a) + encode_utf8(b));
    }
}

/// Character-for-character equality of two string slices.
pub fn str_eq(a: &str, b: &str) -> (r: bool)
    ensures
        r == (a@ == b@),
{
    let av = a.as_bytes_vec();
    let bv = b.as_bytes_vec();
    if av.len() != bv.len() {
        proof {
            if a@ == b@ {
                assert(a.spec_bytes() == b.spec_bytes());
            }
        }
        return false;
    }
    let n = av.len();
    let mut i: usize = 0;
    while i < n
        invariant
            n == av.len() == bv.len(),
            av@ == a.spec_bytes(),
            bv@ == b.spec_bytes(),
            i <= n,
            forall|j: int| 0 <= j < i ==> av@[j] == bv@[j],
        decreases n - i,
    {
        if av[i] != bv[i] {
            proof {
                if a@ == b@ {
                    assert(a.spec_bytes() == b.spec_bytes());
                }
            }
            return false;
        }
        i += 1;
    }
    proof {
        assert(av@ =~= bv@);
        encode_utf8_decode_utf8(a@);
        encode_utf8_decode_utf8(b@);
    }
    true
}

/// Relies on String::from_utf8: it succeeds exactly on valid UTF-8 input and
/// returns the string whose characters the bytes encode.
#[verifier::external_body]
pub(crate) fn string_from_utf8(bytes: Vec<u8>) -> (r: Option<String>)
    ensures
        match r {
            Some(s) => valid_utf8(bytes@) && s@ == decode_utf8(bytes@),
            None => !valid_utf8(bytes@),
        },
{
    match String::from_utf8(bytes) {
        Ok(s) => Some(s),
        Err(_) => None,
    }
}

/// Appends the UTF-8 bytes of a string slice to a byte buffer.
pub fn push_str_bytes(out: &mut Vec<u8>, s: &str)
    ensures
        final(out)@ == old(out)@ + s.spec_bytes(),
{
    let bv = s.as_bytes_vec();
    let n = bv.len();
    let mut i: usize = 0;
    while i < n
        invariant
            n == bv.len(),
            bv@ == s.spec_bytes(),
            i <= n,
            out@ == old(out)@ + bv@.take(i as int),
        decreases n - i,
    {
        let byte = bv[i];
        out.push(byte);
        proof {
            assert(bv@.take(i + 1 as int) =~= bv@.take(i as int).push(bv@[i as int]));
        }
        i += 1;
    }
    proof {
        assert(bv@.take(n as int) =~= bv@);
    }
}

/// Whether the text opens with the hexadecimal address marker.
pub fn str_starts_with_0x(s: &str) -> (r: bool)
    ensures
        r == (s@.len() >= 2 && s@[0] == '0' && s@[1] == 'x'),
{
    if s.unicode_len() < 2 {
        return false;
    }
    let c0 = s.get_char(0);
    if c0 != '0' {
        return false;
    }
    let c1 = s.get_char(1);
    c1 == 'x'
}

/// The decimal digits of a non-negative number, empty for zero.
pub open spec fn spec_decimal_rec(n: int) -> Seq<char>
    decreases n,
{
    if n <= 0 {
        Seq::<char>::empty()
    } else {
        spec_decimal_rec(n / 10) + seq![crate::hashing::spec_hex_digit(n % 10)]
    }
}

/// The decimal rendering of a non-negative number, `'0'` for zero.
pub open spec fn spec_decimal_of(n: int) -> Seq<char> {
    if n == 0 {
        seq!['0']
    } else {
        spec_decimal_rec(n)
    }
}

/// Decimal digits are ASCII characters.
pub proof fn lemma_decimal_rec_ascii(n: int)
    ensures
        is_ascii_chars(spec_decimal_rec(n)),
    decreases n,
{
    if n > 0 {
        lemma_decimal_rec_ascii(n / 10);
        assert(is_ascii_chars(spec_decimal_rec(n)));
    }
}

/// The decimal rendering of a non-negative number is ASCII.
pub proof fn lemma_decimal_ascii(n: int)
    ensures
        is_ascii_chars(spec_decimal_of(n)),
{
    lemma_decimal_rec_ascii(n);
    if n == 0 {
        assert(is_ascii_chars(seq!['0']));
    }
}

/// Appends the UTF-8 bytes of the decimal rendering of `n` to a byte buffer.
pub fn push_decimal(out: &mut Vec<u8>, n: u64)
    ensures
        final(out)@ == old(out)@ + encode_utf8(spec_decimal_of(n as int)),
{
    if n == 0 {
        out.push(48);
        proof {
            let d = spec_decimal_of(0);
            lemma_decimal_ascii(0);
            is_ascii_chars_encode_utf8(d);
            assert(encode_utf8(d).len() == 1);
            assert(encode_utf8(d)[0] == 48);
            assert(old(out)@ + encode_utf8(d) =~= old(out)@.push(48u8));
        }
        return ;
    }
    let mut rev: Vec<u8> = Vec::new();
    let mut m: u64 = n;
    while m > 0
        invariant
            encode_utf8(spec_decimal_rec(n as int)) == encode_utf8(spec_decimal_rec(m as int))
                + rev@.reverse(),
        decreases m,
    {
        let digit: u8 = (m % 10) as u8 + 48;
        proof {
            let q = m as int / 10;
            let r = m as int % 10;
            assert(spec_decimal_rec(m as int) == spec_decimal_rec(q) + seq![
                crate::hashing::spec_hex_digit(r),
            ]);
            lemma_encode_utf8_concat(spec_decimal_rec(q), seq![crate::hashing::spec_hex_digit(r)]);
            let dseq = seq![crate::hashing::spec_hex_digit(r)];
            assert(is_ascii_chars(dseq));
            is_ascii_chars_encode_utf8(dseq);
            assert(encode_utf8(dseq).len() == 1);
            assert(encode_utf8(dseq)[0] == digit);
            assert(encode_utf8(dseq) =~= seq![digit]);
            assert(rev@.push(digit).reverse() =~= seq![digit] + rev@.reverse());
            assert(encode_utf8(spec_decimal_rec(q)) + (seq![digit] + rev@.reverse())
                =~= encode_utf8(spec_decimal_rec(q)) + seq![digit] + rev@.reverse());
        }
        rev.push(digit);
        m = m / 10;
    }
    let k = rev.len();
    let mut j: usize = 0;
    while j < k
        invariant
            k == rev.len(),
            j <= k,
            encode_utf8(spec_decimal_rec(n as int)) == rev@.reverse(),
            out@ == old(out)@ + rev@.reverse().take(j as int),
        decreases k - j,
    {
        let byte = rev[k - 1 - j];
        out.push(byte);
        proof {
            assert(rev@.reverse()[j as int] == rev@[k - 1 - j as int]);
            assert(rev@.reverse().take(j + 1 as int) =~= rev@.reverse().take(j as int).push(
                rev@.reverse()[j as int],
            ));
        }
        j += 1;
    }
    proof {
        assert(rev@.reverse().take(k as int) =~= rev@.reverse());
        assert(spec_decimal_of(n as int) == spec_decimal_rec(n as int));
    }
}

} // verus!
