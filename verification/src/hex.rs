//! Lowercase hex encoding and decoding, verified against exact
//! specifications. Decoding accepts both cases, as the text forms of
//! keys may have been written by other tools.
use vstd::prelude::*;

verus! {

pub const HEX_LOWER: [char; 16] = ['0', '1', '2', '3', '4', '5', '6', '7', '8', '9', 'a', 'b', 'c', 'd', 'e', 'f'];

/// The lowercase hex digit for a nibble.
pub open spec fn spec_hex_digit(n: u8) -> char {
    HEX_LOWER@[n as int]
}

/// Lowercase hex encoding of a byte sequence: two digits per byte,
/// high nibble first.
pub open spec fn spec_hex_of(data: Seq<u8>) -> Seq<char>
    decreases data.len(),
{
    if data.len() == 0 {
        seq![]
    } else {
        seq![spec_hex_digit(data.first() / 16), spec_hex_digit(data.first() % 16)]
            + spec_hex_of(data.drop_first())
    }
}

/// The value of one hex digit, either case; `None` for any other character.
pub open spec fn spec_hex_val(c: char) -> Option<u8> {
    let n = c as u32;
    if '0' as u32 <= n <= '9' as u32 {
        Some((n - '0' as u32) as u8)
    } else if 'a' as u32 <= n <= 'f' as u32 {
        Some((n - 'a' as u32 + 10) as u8)
    } else if 'A' as u32 <= n <= 'F' as u32 {
        Some((n - 'A' as u32 + 10) as u8)
    } else {
        None
    }
}

/// Hex decoding: `None` for odd length or any non-hex character.
pub open spec fn spec_hex_decode(s: Seq<char>) -> Option<Seq<u8>>
    decreases s.len(),
{
    if s.len() == 0 {
        Some(seq![])
    } else if s.len() == 1 {
        None
    } else {
        match (spec_hex_val(s[0]), spec_hex_val(s[1])) {
            (Some(h), Some(l)) => match spec_hex_decode(s.skip(2)) {
                Some(rest) => Some(seq![(16 * h + l) as u8] + rest),
                None => None,
            },
            _ => None,
        }
    }
}

use crate::strutil::push_char;

/// Encode bytes as lowercase hex.
pub fn encode_hex(data: &Vec<u8>) -> (r: String)
    ensures
        r@ == spec_hex_of(data@),
        r@.len() == 2 * data@.len(),
{
    let mut r = String::new();
    let n = data.len();
    assert(data@.skip(0) == data@);
    let mut i: usize = 0;
    while i < n
        invariant
            n == data@.len(),
            i <= n,
            spec_hex_of(data@) =~= r@ + spec_hex_of(data@.skip(i as int)),
            r@.len() == 2 * i,
        decreases n - i,
    {
        let b = data[i];
        push_char(&mut r, HEX_LOWER[(b / 16) as usize]);
        push_char(&mut r, HEX_LOWER[(b % 16) as usize]);
        assert(data@.skip(i as int).drop_first() =~= data@.skip(i + 1));
        i = i + 1;
    }
    proof {
        lemma_hex_of_len(data@);
    }
    r
}

/// Hex encoding doubles the length.
pub proof fn lemma_hex_of_len(data: Seq<u8>)
    ensures
        spec_hex_of(data).len() == 2 * data.len(),
    decreases data.len(),
{
    if data.len() > 0 {
        lemma_hex_of_len(data.drop_first());
    }
}

/// The value of one hex digit character, either case.
fn hex_val(c: char) -> (r: Option<u8>)
    ensures
        r == spec_hex_val(c),
{
    let n = c as u32;
    if '0' as u32 <= n && n <= '9' as u32 {
        Some((n - '0' as u32) as u8)
    } else if 'a' as u32 <= n && n <= 'f' as u32 {
        Some((n - 'a' as u32 + 10) as u8)
    } else if 'A' as u32 <= n && n <= 'F' as u32 {
        Some((n - 'A' as u32 + 10) as u8)
    } else {
        None
    }
}

/// Decode a hex string into bytes; `None` for odd length or a non-hex
/// character.
pub fn decode_hex(s: &str) -> (r: Option<Vec<u8>>)
    ensures
        match r {
            Some(v) => spec_hex_decode(s@) == Some(v@),
            None => spec_hex_decode(s@) is None,
        },
{
    let n = s.unicode_len();
    let mut out: Vec<u8> = Vec::new();
    assert(s@.skip(0) == s@);
    let mut i: usize = 0;
    while i < n
        invariant
            n == s@.len(),
            i <= n,
            match spec_hex_decode(s@.skip(i as int)) {
                Some(rest) => spec_hex_decode(s@) == Some(out@ + rest),
                None => spec_hex_decode(s@) is None,
            },
        decreases n - i,
    {
        if i + 1 == n {
            return None;
        }
        let h = hex_val(s.get_char(i));
        let l = hex_val(s.get_char(i + 1));
        match (h, l) {
            (Some(hv), Some(lv)) => {
                out.push(16 * hv + lv);
                assert(s@.skip(i as int).skip(2) =~= s@.skip(i + 2));
                proof {
                    let rest2 = spec_hex_decode(s@.skip(i + 2));
                    if rest2 is Some {
                        assert(out@ + rest2.unwrap() =~= out@.drop_last() + spec_hex_decode(
                            s@.skip(i as int),
                        ).unwrap());
                    }
                }
                i = i + 2;
            },
            _ => {
                return None;
            },
        }
    }
    assert(s@.skip(n as int) =~= Seq::<char>::empty());
    assert(out@ + Seq::<u8>::empty() =~= out@);
    Some(out)
}

/// Decoding inverts encoding.
pub proof fn lemma_hex_round_trip(data: Seq<u8>)
    ensures
        spec_hex_decode(spec_hex_of(data)) == Some(data),
    decreases data.len(),
{
    if data.len() == 0 {
        assert(spec_hex_of(data) =~= Seq::<char>::empty());
    } else {
        let b = data.first();
        let hc = spec_hex_digit(b / 16);
        let lc = spec_hex_digit(b % 16);
        lemma_hex_digit_val(b / 16);
        lemma_hex_digit_val(b % 16);
        lemma_hex_round_trip(data.drop_first());
        let s = spec_hex_of(data);
        assert(s[0] == hc && s[1] == lc);
        assert(s.skip(2) =~= spec_hex_of(data.drop_first()));
        assert(16 * (b / 16) + (b % 16) == b) by (nonlinear_arith);
        assert(seq![(16 * (b / 16) + b % 16) as u8] + data.drop_first() =~= data);
    }
}

/// Each nibble's digit decodes back to the nibble.
pub proof fn lemma_hex_digit_val(n: u8)
    requires
        n < 16,
    ensures
        spec_hex_val(spec_hex_digit(n)) == Some(n),
{
}

/// A lowercase hex digit.
pub open spec fn spec_is_lower_hex_char(c: char) -> bool {
    ('0' as u32 <= c as u32 <= '9' as u32) || ('a' as u32 <= c as u32 <= 'f' as u32)
}

/// A string of lowercase hex digits.
pub open spec fn spec_is_lower_hex(s: Seq<char>) -> bool {
    forall|i: int| 0 <= i < s.len() ==> spec_is_lower_hex_char(s[i])
}

/// Hex encoding emits lowercase digits only.
pub proof fn lemma_hex_of_lower(data: Seq<u8>)
    ensures
        spec_is_lower_hex(spec_hex_of(data)),
    decreases data.len(),
{
    if data.len() > 0 {
        lemma_hex_of_lower(data.drop_first());
        assert(spec_is_lower_hex_char(spec_hex_digit(data.first() / 16)));
        assert(spec_is_lower_hex_char(spec_hex_digit(data.first() % 16)));
        let s = spec_hex_of(data);
        let t = spec_hex_of(data.drop_first());
        assert forall|i: int| 0 <= i < s.len() implies spec_is_lower_hex_char(s[i]) by {
            if i >= 2 {
                assert(s[i] == t[i - 2]);
            }
        }
    }
}

} // verus!
