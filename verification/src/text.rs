//! Text on the wire: comparing, trimming and reading numbers, on the bytes of
//! UTF-8 text.

use vstd::prelude::*;
use vstd::utf8::*;

verus! {

/// `core::str::from_utf8`: the text some bytes are the UTF-8 encoding of, or
/// nothing where they are not valid UTF-8.
#[verifier::external_body]
pub(crate) fn text_of(bytes: &[u8]) -> (r: Option<&str>)
    ensures
        r is Some <==> valid_utf8(bytes@),
        r matches Some(s) ==> encode_utf8(s@) == bytes@,
{
    core::str::from_utf8(bytes).ok()
}

pub open spec fn begins(bytes: Seq<u8>, prefix: Seq<u8>) -> bool {
    prefix.len() <= bytes.len() && bytes.take(prefix.len() as int) == prefix
}

/// Whether `bytes` begin with `prefix`.
pub fn starts_with(bytes: &[u8], prefix: &[u8]) -> (r: bool)
    ensures
        r == begins(bytes@, prefix@),
{
    if bytes.len() < prefix.len() {
        return false;
    }
    let mut i: usize = 0;
    while i < prefix.len()
        invariant
            i <= prefix@.len() <= bytes@.len(),
            forall|k: int| 0 <= k < i ==> bytes@[k] == prefix@[k],
        decreases prefix@.len() - i,
    {
        if bytes[i] != prefix[i] {
            assert(bytes@.take(prefix@.len() as int)[i as int] != prefix@[i as int]);
            return false;
        }
        i = i + 1;
    }
    assert(bytes@.take(prefix@.len() as int) =~= prefix@);
    true
}

/// Whether two texts are the same.
pub fn same_text(a: &str, b: &str) -> (r: bool)
    ensures
        r == (a@ == b@),
{
    let (x, y) = (a.as_bytes(), b.as_bytes());
    proof {
        encode_utf8_decode_utf8(a@);
        encode_utf8_decode_utf8(b@);
        if x@.len() == y@.len() {
            assert(x@.take(y@.len() as int) =~= x@);
        }
    }
    x.len() == y.len() && starts_with(x, y)
}

// ==========================================
// WHITE SPACE
// ==========================================

/// How many bytes at the start of a text encode a white-space character: 0
/// where it starts with none.
pub open spec fn space_at_start(s: Seq<u8>) -> int {
    if s.len() >= 1 && (9 <= s[0] <= 13 || s[0] == 32) {
        1
    } else if s.len() >= 2 && s[0] == 0xC2 && (s[1] == 0x85 || s[1] == 0xA0) {
        2
    } else if s.len() >= 3 && wide_space(s[0], s[1], s[2]) {
        3
    } else {
        0
    }
}

/// Likewise, at the end.
pub open spec fn space_at_end(s: Seq<u8>) -> int {
    let n = s.len() as int;
    if n >= 1 && (9 <= s[n - 1] <= 13 || s[n - 1] == 32) {
        1
    } else if n >= 2 && s[n - 2] == 0xC2 && (s[n - 1] == 0x85 || s[n - 1] == 0xA0) {
        2
    } else if n >= 3 && wide_space(s[n - 3], s[n - 2], s[n - 1]) {
        3
    } else {
        0
    }
}

/// Three bytes that encode a white-space character.
pub open spec fn wide_space(a: u8, b: u8, c: u8) -> bool {
    ||| a == 0xE1 && b == 0x9A && c == 0x80
    ||| a == 0xE2 && b == 0x80 && (0x80 <= c <= 0x8A || c == 0xA8 || c == 0xA9 || c == 0xAF)
    ||| a == 0xE2 && b == 0x81 && c == 0x9F
    ||| a == 0xE3 && b == 0x80 && c == 0x80
}

fn is_wide_space(a: u8, b: u8, c: u8) -> (r: bool)
    ensures
        r == wide_space(a, b, c),
{
    (a == 0xE1 && b == 0x9A && c == 0x80) || (a == 0xE2 && b == 0x80 && ((0x80 <= c && c <= 0x8A)
        || c == 0xA8 || c == 0xA9 || c == 0xAF)) || (a == 0xE2 && b == 0x81 && c == 0x9F) || (a
        == 0xE3 && b == 0x80 && c == 0x80)
}

pub open spec fn trimmed_start(s: Seq<u8>) -> Seq<u8>
    decreases s.len(),
{
    if space_at_start(s) > 0 {
        trimmed_start(s.skip(space_at_start(s)))
    } else {
        s
    }
}

pub open spec fn trimmed_end(s: Seq<u8>) -> Seq<u8>
    decreases s.len(),
{
    if space_at_end(s) > 0 {
        trimmed_end(s.take(s.len() - space_at_end(s)))
    } else {
        s
    }
}

/// A text without the white space around it.
pub open spec fn trimmed(s: Seq<u8>) -> Seq<u8> {
    trimmed_end(trimmed_start(s))
}

pub fn trim(s: &[u8]) -> (r: &[u8])
    ensures
        r@ == trimmed(s@),
{
    let mut lo: usize = 0;
    let mut hi: usize = s.len();
    assert(s@.subrange(0, hi as int) =~= s@);
    loop
        invariant_except_break
            trimmed_start(s@.subrange(lo as int, hi as int)) == trimmed_start(s@),
        invariant
            lo <= hi == s@.len(),
        ensures
            s@.subrange(lo as int, hi as int) == trimmed_start(s@),
        decreases hi - lo,
    {
        let ghost rest = s@.subrange(lo as int, hi as int);
        let n: usize = if hi - lo >= 1 && ((9 <= s[lo] && s[lo] <= 13) || s[lo] == 32) {
            1
        } else if hi - lo >= 2 && s[lo] == 0xC2 && (s[lo + 1] == 0x85 || s[lo + 1] == 0xA0) {
            2
        } else if hi - lo >= 3 && is_wide_space(s[lo], s[lo + 1], s[lo + 2]) {
            3
        } else {
            0
        };
        assert(n == space_at_start(rest));
        if n == 0 {
            break;
        }
        assert(rest.skip(n as int) =~= s@.subrange(lo + n, hi as int));
        lo = lo + n;
    }
    loop
        invariant_except_break
            trimmed_end(s@.subrange(lo as int, hi as int)) == trimmed(s@),
        invariant
            lo <= hi <= s@.len(),
        ensures
            s@.subrange(lo as int, hi as int) == trimmed(s@),
        decreases hi - lo,
    {
        let ghost rest = s@.subrange(lo as int, hi as int);
        let n: usize = if hi - lo >= 1 && ((9 <= s[hi - 1] && s[hi - 1] <= 13) || s[hi - 1] == 32) {
            1
        } else if hi - lo >= 2 && s[hi - 2] == 0xC2 && (s[hi - 1] == 0x85 || s[hi - 1] == 0xA0) {
            2
        } else if hi - lo >= 3 && is_wide_space(s[hi - 3], s[hi - 2], s[hi - 1]) {
            3
        } else {
            0
        };
        assert(n == space_at_end(rest));
        if n == 0 {
            break;
        }
        assert(rest.take(rest.len() - n) =~= s@.subrange(lo as int, hi - n));
        hi = hi - n;
    }
    &s[lo..hi]
}

// ==========================================
// NUMBERS
// ==========================================

pub open spec fn all_digits(s: Seq<u8>) -> bool {
    forall|i: int| 0 <= i < s.len() ==> 48 <= #[trigger] s[i] <= 57
}

pub open spec fn decimal(s: Seq<u8>) -> int
    decreases s.len(),
{
    if s.len() == 0 {
        0
    } else {
        10 * decimal(s.drop_last()) + (s.last() - 48)
    }
}

/// The whole number a text reads as: digits, after a plus sign or not.
pub open spec fn number(s: Seq<u8>) -> Option<int> {
    let t = if s.len() > 1 && s[0] == 43 {
        s.skip(1)
    } else {
        s
    };
    if t.len() > 0 && all_digits(t) {
        Some(decimal(t))
    } else {
        None
    }
}

proof fn lemma_decimal_grows(s: Seq<u8>, i: int)
    requires
        all_digits(s),
        0 <= i <= s.len(),
    ensures
        0 <= decimal(s.take(i)) <= decimal(s),
    decreases s.len(),
{
    if i < s.len() {
        let t = s.drop_last();
        assert(all_digits(t));
        assert(t.take(i) =~= s.take(i));
        lemma_decimal_grows(t, i);
        assert(48 <= s[s.len() - 1]);
    } else {
        assert(s.take(i) =~= s);
        lemma_decimal_nonneg(s);
    }
}

proof fn lemma_decimal_nonneg(s: Seq<u8>)
    requires
        all_digits(s),
    ensures
        decimal(s) >= 0,
    decreases s.len(),
{
    if s.len() > 0 {
        assert(all_digits(s.drop_last()));
        lemma_decimal_nonneg(s.drop_last());
        assert(48 <= s[s.len() - 1]);
    }
}

/// A number that is read is not negative.
pub proof fn lemma_number_nonneg(s: Seq<u8>)
    ensures
        number(s) matches Some(n) ==> n >= 0,
{
    if s.len() > 1 && s[0] == 43 {
        if all_digits(s.skip(1)) {
            lemma_decimal_nonneg(s.skip(1));
        }
    } else if all_digits(s) {
        lemma_decimal_nonneg(s);
    }
}

/// The whole number a text reads as, where it is at most `max`.
pub fn parse_number(s: &[u8], max: usize) -> (r: Option<usize>)
    ensures
        match r {
            Some(v) => number(s@) == Some(v as int) && v <= max,
            None => number(s@) is None || number(s@)->0 > max,
        },
{
    let start: usize = if s.len() > 1 && s[0] == 43 {
        1
    } else {
        0
    };
    let ghost t = s@.skip(start as int);
    assert(s@.skip(0) =~= s@);
    if s.len() == 0 {
        return None;
    }
    let mut v: usize = 0;
    let mut i: usize = start;
    while i < s.len()
        invariant
            start <= i <= s@.len(),
            t == s@.skip(start as int),
            t.len() > 0,
            number(s@) == (if all_digits(t) {
                Some(decimal(t))
            } else {
                None
            }),
            all_digits(t.take(i - start)),
            v == decimal(t.take(i - start)),
            v <= max,
        decreases s@.len() - i,
    {
        let b: u8 = s[i];
        assert(t[i - start] == b);
        if !(48 <= b && b <= 57) {
            return None;
        }
        let ghost next = t.take(i + 1 - start);
        proof {
            assert(next.drop_last() =~= t.take(i - start));
            assert(decimal(next) == 10 * v + (b - 48));
            assert(all_digits(next)) by {
                assert forall|k: int| 0 <= k < next.len() implies 48 <= #[trigger] next[k] <= 57 by {
                    if k < i - start {
                        assert(t.take(i - start)[k] == next[k]);
                    }
                }
            }
            if all_digits(t) {
                lemma_decimal_grows(t, i + 1 - start);
            }
        }
        let d: usize = (b - 48) as usize;
        v = match v.checked_mul(10) {
            Some(x) => match x.checked_add(d) {
                Some(y) if y <= max => y,
                _ => return None,
            },
            None => return None,
        };
        i = i + 1;
    }
    assert(t.take(t.len() as int) =~= t);
    Some(v)
}

} // verus!
