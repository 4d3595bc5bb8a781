use vstd::prelude::*;
use crate::ascii::ascii_of;
use crate::is_digit;

verus! {

/// Decimal representation of `n`, most significant digit first, no leading
/// zeros (a single `0` for zero).
pub open spec fn dec_digits(n: nat) -> Seq<u8>
    decreases n,
{
    if n < 10 {
        seq![(0x30 + n) as u8]
    } else {
        dec_digits(n / 10).push((0x30 + n % 10) as u8)
    }
}

/// Decimal representation of a signed value.
pub open spec fn i32_dec_bytes(n: int) -> Seq<u8> {
    if n < 0 {
        seq![0x2du8] + dec_digits((-n) as nat)
    } else {
        dec_digits(n as nat)
    }
}

pub open spec fn i32_dec_chars(n: int) -> Seq<char> {
    i32_dec_bytes(n).map_values(|b: u8| b as char)
}

/// Value of a digit string.
pub open spec fn dec_val(s: Seq<u8>) -> int
    decreases s.len(),
{
    if s.len() == 0 {
        0
    } else {
        dec_val(s.drop_last()) * 10 + (s.last() - 0x30)
    }
}

pub open spec fn all_digits(s: Seq<u8>) -> bool {
    forall|i: int| 0 <= i < s.len() ==> is_digit(#[trigger] s[i])
}

pub proof fn lemma_dec_digits_are_digits(n: nat)
    ensures
        dec_digits(n).len() >= 1,
        all_digits(dec_digits(n)),
    decreases n,
{
    if n >= 10 {
        lemma_dec_digits_are_digits(n / 10);
        assert forall|i: int| 0 <= i < dec_digits(n).len() implies is_digit(
            #[trigger] dec_digits(n)[i],
        ) by {
            if i < dec_digits(n / 10).len() {
                assert(dec_digits(n)[i] == dec_digits(n / 10)[i]);
            }
        }
    }
}

pub proof fn lemma_dec_val_of_dec_digits(n: nat)
    ensures
        dec_val(dec_digits(n)) == n,
    decreases n,
{
    if n < 10 {
        let s = dec_digits(n);
        assert(s.len() == 1);
        assert(s.last() == (0x30 + n) as u8);
        assert(s.drop_last() =~= Seq::<u8>::empty());
        assert(dec_val(s.drop_last()) == 0);
        assert(dec_val(s) == dec_val(s.drop_last()) * 10 + (s.last() - 0x30));
    } else {
        lemma_dec_val_of_dec_digits(n / 10);
        let s = dec_digits(n);
        assert(s == dec_digits(n / 10).push((0x30 + n % 10) as u8));
        assert(s.drop_last() =~= dec_digits(n / 10));
        assert(s.last() == (0x30 + n % 10) as u8);
        assert(dec_val(s) == dec_val(s.drop_last()) * 10 + (s.last() - 0x30));
        vstd::arithmetic::div_mod::lemma_fundamental_div_mod(n as int, 10);
    }
}

pub proof fn lemma_dec_val_nonneg(s: Seq<u8>)
    requires
        all_digits(s),
    ensures
        dec_val(s) >= 0,
    decreases s.len(),
{
    if s.len() > 0 {
        assert(all_digits(s.drop_last()));
        lemma_dec_val_nonneg(s.drop_last());
    }
}

/// The value of a digit string is at least the value of any of its prefixes.
pub proof fn lemma_dec_val_prefix(s: Seq<u8>, k: int)
    requires
        all_digits(s),
        0 <= k <= s.len(),
    ensures
        dec_val(s.take(k)) <= dec_val(s),
    decreases s.len() - k,
{
    if k < s.len() {
        lemma_dec_val_prefix(s, k + 1);
        let t = s.take(k + 1);
        assert(t.drop_last() =~= s.take(k));
        assert(all_digits(s.take(k)));
        lemma_dec_val_nonneg(s.take(k));
        assert(t.last() == s[k]);
        assert(is_digit(s[k]));
        assert(dec_val(t) == dec_val(s.take(k)) * 10 + (t.last() - 0x30));
        assert(dec_val(s.take(k)) <= dec_val(s.take(k)) * 10 + (t.last() - 0x30));
    } else {
        assert(s.take(k) =~= s);
    }
}

/// Decimal digits of `n`, most significant first.
pub fn u64_to_dec(n: u64) -> (r: Vec<u8>)
    ensures
        r@ == dec_digits(n as nat),
    decreases n,
{
    if n < 10 {
        let mut v: Vec<u8> = Vec::new();
        v.push(0x30 + (n as u8));
        proof {
            assert(v@ =~= dec_digits(n as nat));
        }
        v
    } else {
        let mut v = u64_to_dec(n / 10);
        v.push(0x30 + ((n % 10) as u8));
        proof {
            assert(v@ =~= dec_digits(n as nat));
        }
        v
    }
}

pub proof fn lemma_i32_dec_bytes_plain(n: int)
    ensures
        forall|i: int| 0 <= i < i32_dec_bytes(n).len() ==> crate::ascii::plain_byte(
            #[trigger] i32_dec_bytes(n)[i],
        ),
{
    if n < 0 {
        lemma_dec_digits_are_digits((-n) as nat);
        assert forall|i: int| 0 <= i < i32_dec_bytes(n).len() implies crate::ascii::plain_byte(
            #[trigger] i32_dec_bytes(n)[i],
        ) by {
            if i > 0 {
                assert(i32_dec_bytes(n)[i] == dec_digits((-n) as nat)[i - 1]);
                assert(is_digit(dec_digits((-n) as nat)[i - 1]));
            }
        }
    } else {
        lemma_dec_digits_are_digits(n as nat);
        assert forall|i: int| 0 <= i < i32_dec_bytes(n).len() implies crate::ascii::plain_byte(
            #[trigger] i32_dec_bytes(n)[i],
        ) by {
            assert(is_digit(dec_digits(n as nat)[i]));
        }
    }
}

/// Decimal text of a signed 32-bit value.
pub fn i32_to_string(n: i32) -> (r: String)
    ensures
        r@ == i32_dec_chars(n as int),
        ascii_of(r@) == i32_dec_bytes(n as int),
        crate::ascii::json_plain(r@),
{
    let mag: u64 = if n < 0 {
        (-(n as i64)) as u64
    } else {
        n as u64
    };
    let digits = u64_to_dec(mag);
    let mut out: Vec<u8> = Vec::new();
    if n < 0 {
        out.push(0x2d);
    }
    out.extend_from_slice(digits.as_slice());
    proof {
        assert(out@ =~= i32_dec_bytes(n as int));
        lemma_i32_dec_bytes_plain(n as int);
    }
    let s = crate::ascii::string_from_ascii(out);
    proof {
        let bs = i32_dec_bytes(n as int);
        assert forall|i: int| 0 <= i < bs.len() implies s@[i] == i32_dec_chars(n as int)[i] by {
            assert(s@[i] == (bs[i] as char));
        }
        assert(s@ =~= i32_dec_chars(n as int));
        crate::ascii::lemma_string_from_ascii_bytes(s@, bs);
        assert forall|i: int| 0 <= i < s@.len() implies crate::ascii::plain_char(
            #[trigger] s@[i],
        ) by {
            assert(crate::ascii::plain_byte(bs[i]));
            assert(s@[i] == (bs[i] as char));
        }
    }
    s
}

} // verus!
