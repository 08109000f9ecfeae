//! Content-length metadata: the header value is a decimal non-negative
//! integer. A value that is absent, empty, holds a non-digit, or does not
//! fit `u64` is malformed, and the content length stays unknown rather than
//! failing the session.
use vstd::prelude::*;

verus! {

/// Every byte of `s` is an ASCII decimal digit.
pub open spec fn all_digits(s: Seq<u8>) -> bool {
    forall|i: int| 0 <= i < s.len() ==> 48 <= #[trigger] s[i] <= 57
}

/// The non-negative integer a string of ASCII digits denotes.
pub open spec fn decimal_value(s: Seq<u8>) -> int
    decreases s.len(),
{
    if s.len() == 0 {
        0
    } else {
        decimal_value(s.drop_last()) * 10 + (s.last() - 48)
    }
}

/// Every prefix of a digit string is a digit string.
proof fn lemma_all_digits_take(s: Seq<u8>, j: int)
    requires
        0 <= j <= s.len(),
        all_digits(s),
    ensures
        all_digits(s.take(j)),
{
    assert forall|i: int| 0 <= i < s.take(j).len() implies 48 <= #[trigger] s.take(j)[i]
        <= 57 by {
        assert(s.take(j)[i] == s[i]);
    }
}

/// A digit string denotes a non-negative value.
proof fn lemma_decimal_nonneg(s: Seq<u8>)
    requires
        all_digits(s),
    ensures
        decimal_value(s) >= 0,
    decreases s.len(),
{
    if s.len() > 0 {
        lemma_all_digits_take(s, s.len() - 1);
        assert(s.drop_last() =~= s.take(s.len() - 1));
        lemma_decimal_nonneg(s.drop_last());
        assert(48 <= s[s.len() - 1] <= 57);
    }
}

/// A digit string denotes at least what any of its prefixes denotes.
proof fn lemma_decimal_prefix_le(s: Seq<u8>, j: int)
    requires
        0 <= j <= s.len(),
        all_digits(s),
    ensures
        decimal_value(s.take(j)) <= decimal_value(s),
    decreases s.len() - j,
{
    if j == s.len() {
        assert(s.take(j) =~= s);
    } else {
        lemma_all_digits_take(s, j);
        lemma_decimal_nonneg(s.take(j));
        assert(s.take(j + 1).drop_last() =~= s.take(j));
        assert(s.take(j + 1).last() == s[j]);
        assert(48 <= s[j] <= 57);
        lemma_decimal_prefix_le(s, j + 1);
    }
}

/// Parse a `Content-Length` header value: a non-empty run of decimal digits
/// denoting a value that fits `u64`. Anything else is malformed and yields
/// `None`.
pub fn parse_content_length(s: &[u8]) -> (r: Option<u64>)
    ensures
        r matches Some(v) ==> s@.len() > 0 && all_digits(s@) && v == decimal_value(s@),
        r is None <==> s@.len() == 0 || !all_digits(s@) || decimal_value(s@) > u64::MAX,
{
    if s.len() == 0 {
        return None;
    }
    let mut acc: u64 = 0;
    let mut i: usize = 0;
    while i < s.len()
        invariant
            0 < s@.len() <= usize::MAX,
            i <= s@.len(),
            all_digits(s@.take(i as int)),
            acc == decimal_value(s@.take(i as int)),
        decreases s@.len() - i,
    {
        let b = s[i];
        if b < 48 || b > 57 {
            proof {
                assert(!(48 <= s@[i as int] <= 57));
            }
            return None;
        }
        let d = (b - 48) as u64;
        if acc > u64::MAX / 10 || (acc == u64::MAX / 10 && d > u64::MAX % 10) {
            proof {
                assert(s@.take(i + 1).drop_last() =~= s@.take(i as int));
                assert(s@.take(i + 1).last() == s@[i as int]);
                assert(decimal_value(s@.take(i + 1)) > u64::MAX);
                if all_digits(s@) {
                    lemma_decimal_prefix_le(s@, i + 1);
                }
            }
            return None;
        }
        proof {
            assert(s@.take(i + 1).drop_last() =~= s@.take(i as int));
            assert(s@.take(i + 1).last() == s@[i as int]);
        }
        acc = acc * 10 + d;
        i += 1;
    }
    proof {
        assert(s@.take(i as int) =~= s@);
    }
    Some(acc)
}

} // verus!
