//! Small text parsers for configuration values: decimal integers, dotted
//! IPv4 addresses, and comma-separated lists, over ASCII bytes.

use vstd::prelude::*;

verus! {

/// Whether `b` is an ASCII decimal digit.
pub open spec fn is_digit(b: u8) -> bool {
    48 <= b <= 57
}

/// The value of a digit string, most significant first.
pub open spec fn digits_value(s: Seq<u8>) -> int
    decreases s.len(),
{
    if s.len() == 0 {
        0
    } else {
        digits_value(s.drop_last()) * 10 + (s.last() - 48)
    }
}

/// A digit string's value only grows as digits are appended.
proof fn lemma_digits_value_monotone(s: Seq<u8>, i: int)
    requires
        0 <= i <= s.len(),
        forall|j: int| 0 <= j < s.len() ==> is_digit(#[trigger] s[j]),
    ensures
        0 <= digits_value(s.subrange(0, i)),
        digits_value(s.subrange(0, i)) <= digits_value(s),
    decreases s.len() - i,
{
    if i == s.len() {
        assert(s.subrange(0, i) =~= s);
        lemma_digits_value_nonneg(s);
    } else {
        lemma_digits_value_monotone(s, i + 1);
        let a = s.subrange(0, i);
        let b = s.subrange(0, i + 1);
        assert(b.drop_last() =~= a);
        assert(b.last() == s[i]);
        lemma_digits_value_nonneg(a);
        assert(digits_value(a) * 10 >= digits_value(a)) by (nonlinear_arith)
            requires
                digits_value(a) >= 0,
        ;
    }
}

/// A digit string's value is not negative.
proof fn lemma_digits_value_nonneg(s: Seq<u8>)
    requires
        forall|j: int| 0 <= j < s.len() ==> is_digit(#[trigger] s[j]),
    ensures
        digits_value(s) >= 0,
    decreases s.len(),
{
    if s.len() > 0 {
        assert(forall|j: int| 0 <= j < s.drop_last().len() ==> is_digit(
            #[trigger] s.drop_last()[j]));
        lemma_digits_value_nonneg(s.drop_last());
        assert(digits_value(s.drop_last()) * 10 >= 0) by (nonlinear_arith)
            requires
                digits_value(s.drop_last()) >= 0,
        ;
    }
}

/// What parsing a decimal integer yields: the value of a nonempty
/// all-digit string that fits, and nothing otherwise.
pub open spec fn sp_parse_u64(s: Seq<u8>) -> Option<u64> {
    if s.len() >= 1 && (forall|j: int| 0 <= j < s.len() ==> is_digit(#[trigger] s[j]))
        && digits_value(s) <= u64::MAX {
        Some(digits_value(s) as u64)
    } else {
        None
    }
}

/// Parses a nonempty decimal integer that fits in 64 bits.
pub fn parse_u64_ascii(s: &Vec<u8>) -> (r: Option<u64>)
    ensures
        r == sp_parse_u64(s@),
{
    if s.len() == 0 {
        return None;
    }
    let mut cur: u64 = 0;
    let mut i: usize = 0;
    while i < s.len()
        invariant
            i <= s@.len(),
            forall|j: int| 0 <= j < i ==> is_digit(#[trigger] s@[j]),
            cur == digits_value(s@.subrange(0, i as int)),
        decreases s@.len() - i,
    {
        let b = s[i];
        if b < 48 || b > 57 {
            return None;
        }
        let d = (b - 48) as u64;
        proof {
            let pref = s@.subrange(0, i + 1);
            assert(pref.drop_last() =~= s@.subrange(0, i as int));
            assert(pref.last() == s@[i as int]);
        }
        if cur > (u64::MAX - d) / 10 {
            proof {
                assert(cur * 10 + d > u64::MAX) by (nonlinear_arith)
                    requires
                        cur > (u64::MAX - d) / 10,
                        d <= 9,
                ;
                assert(digits_value(s@.subrange(0, i + 1)) == cur * 10 + d);
                if forall|j: int| 0 <= j < s@.len() ==> is_digit(#[trigger] s@[j]) {
                    lemma_digits_value_monotone(s@, i + 1);
                    assert(digits_value(s@) > u64::MAX);
                }
            }
            return None;
        }
        proof {
            assert(cur * 10 + d <= u64::MAX) by (nonlinear_arith)
                requires
                    cur <= (u64::MAX - d) / 10,
                    d <= 9,
            ;
        }
        cur = cur * 10 + d;
        i = i + 1;
    }
    proof {
        assert(s@.subrange(0, s@.len() as int) =~= s@);
    }
    Some(cur)
}

/// What parsing a 16-bit decimal integer yields.
pub open spec fn sp_parse_u16(s: Seq<u8>) -> Option<u16> {
    match sp_parse_u64(s) {
        Some(v) => if v <= u16::MAX {
            Some(v as u16)
        } else {
            None
        },
        None => None,
    }
}

/// Parses a nonempty decimal integer that fits in 16 bits: a port number.
pub fn parse_u16_ascii(s: &Vec<u8>) -> (r: Option<u16>)
    ensures
        r == sp_parse_u16(s@),
{
    match parse_u64_ascii(s) {
        Some(v) => if v <= 65535 {
            Some(v as u16)
        } else {
            None
        },
        None => None,
    }
}

// ------------------------------------------------------------------
// Splitting on a separator

/// The first position of `sep` in `s`.
pub open spec fn first_sep(s: Seq<u8>, sep: u8) -> Option<int>
    decreases s.len(),
{
    if s.len() == 0 {
        None
    } else if s[0] == sep {
        Some(0)
    } else {
        match first_sep(s.drop_first(), sep) {
            Some(i) => Some(i + 1),
            None => None,
        }
    }
}

/// The pieces of `s` between occurrences of `sep`: always at least one
/// piece, and none holds the separator.
pub open spec fn split_seq(s: Seq<u8>, sep: u8) -> Seq<Seq<u8>>
    decreases s.len(),
{
    match first_sep(s, sep) {
        None => seq![s],
        Some(i) => if 0 <= i < s.len() {
            seq![s.subrange(0, i)] + split_seq(s.subrange(i + 1, s.len() as int), sep)
        } else {
            seq![s]
        },
    }
}

/// `first_sep` finds exactly the first occurrence.
proof fn lemma_first_sep_at(s: Seq<u8>, sep: u8, i: int)
    requires
        0 <= i < s.len(),
        s[i] == sep,
        forall|j: int| 0 <= j < i ==> s[j] != sep,
    ensures
        first_sep(s, sep) == Some(i),
    decreases s.len(),
{
    if s[0] != sep {
        assert(s.drop_first()[i - 1] == sep);
        assert forall|j: int| 0 <= j < i - 1 implies s.drop_first()[j] != sep by {
            assert(s[j + 1] != sep);
        }
        lemma_first_sep_at(s.drop_first(), sep, i - 1);
    }
}

/// Where `sep` does not occur, `first_sep` finds nothing.
proof fn lemma_first_sep_none(s: Seq<u8>, sep: u8)
    requires
        forall|j: int| 0 <= j < s.len() ==> s[j] != sep,
    ensures
        first_sep(s, sep) is None,
    decreases s.len(),
{
    if s.len() > 0 {
        assert forall|j: int| 0 <= j < s.drop_first().len() implies s.drop_first()[j] != sep by {
            assert(s[j + 1] != sep);
        }
        lemma_first_sep_none(s.drop_first(), sep);
    }
}

/// Splits `b` from `start` on at the separator.
fn split_from(b: &Vec<u8>, start: usize, sep: u8) -> (r: Vec<Vec<u8>>)
    requires
        start <= b@.len(),
    ensures
        Seq::new(r@.len(), |i: int| r@[i]@)
            == split_seq(b@.subrange(start as int, b@.len() as int), sep),
    decreases b@.len() - start,
{
    let n = b.len();
    let mut i = start;
    while i < n
        invariant
            start <= i <= n,
            n == b@.len(),
            forall|j: int| start <= j < i ==> b@[j] != sep,
        decreases n - i,
    {
        if b[i] == sep {
            let ghost tail = b@.subrange(start as int, n as int);
            proof {
                assert(tail[i - start] == sep);
                assert forall|j: int| 0 <= j < i - start implies tail[j] != sep by {
                    assert(tail[j] == b@[start + j]);
                }
                lemma_first_sep_at(tail, sep, i - start);
            }
            let mut part: Vec<u8> = Vec::new();
            let mut k = start;
            while k < i
                invariant
                    start <= k <= i,
                    i < n,
                    n == b@.len(),
                    part@ == b@.subrange(start as int, k as int),
                decreases i - k,
            {
                part.push(b[k]);
                proof {
                    assert(part@ =~= b@.subrange(start as int, k + 1));
                }
                k = k + 1;
            }
            let rest = split_from(b, i + 1, sep);
            let mut out: Vec<Vec<u8>> = Vec::new();
            out.push(part);
            let mut m: usize = 0;
            while m < rest.len()
                invariant
                    m <= rest@.len(),
                    out@.len() == m + 1,
                    out@[0]@ == b@.subrange(start as int, i as int),
                    forall|j: int| 1 <= j < m + 1 ==> (#[trigger] out@[j])@ == rest@[j - 1]@,
                decreases rest@.len() - m,
            {
                let mut copy: Vec<u8> = Vec::new();
                crate::store::copy_bytes(&rest[m], &mut copy);
                proof {
                    assert(copy@ =~= rest@[m as int]@);
                }
                out.push(copy);
                m = m + 1;
            }
            proof {
                assert(tail.subrange(0, i - start) =~= b@.subrange(start as int, i as int));
                assert(tail.subrange(i - start + 1, tail.len() as int)
                    =~= b@.subrange(i + 1, n as int));
                let a = Seq::new(out@.len(), |j: int| out@[j]@);
                let rest_views = Seq::new(rest@.len(), |j: int| rest@[j]@);
                let bspec = split_seq(tail, sep);
                assert(bspec == seq![tail.subrange(0, i - start)]
                    + split_seq(tail.subrange(i - start + 1, tail.len() as int), sep));
                assert(split_seq(tail.subrange(i - start + 1, tail.len() as int), sep)
                    == rest_views);
                assert(a.len() == bspec.len());
                assert(a[0] == bspec[0]);
                assert forall|k: int| 1 <= k < a.len() implies a[k] == bspec[k] by {
                    assert(a[k] == out@[k]@);
                    assert((out@[k])@ == rest@[k - 1]@);
                    assert(bspec[k] == rest_views[k - 1]);
                    assert(rest_views[k - 1] == rest@[k - 1]@);
                }
                assert(a =~= bspec);
            }
            return out;
        }
        i = i + 1;
    }
    let ghost tail = b@.subrange(start as int, n as int);
    proof {
        assert forall|j: int| 0 <= j < tail.len() implies tail[j] != sep by {
            assert(tail[j] == b@[start + j]);
        }
        lemma_first_sep_none(tail, sep);
    }
    let mut part: Vec<u8> = Vec::new();
    let mut k = start;
    while k < n
        invariant
            start <= k <= n,
            n == b@.len(),
            part@ == b@.subrange(start as int, k as int),
        decreases n - k,
    {
        part.push(b[k]);
        proof {
            assert(part@ =~= b@.subrange(start as int, k + 1));
        }
        k = k + 1;
    }
    let mut out: Vec<Vec<u8>> = Vec::new();
    out.push(part);
    proof {
        assert(Seq::new(out@.len(), |j: int| out@[j]@) =~= split_seq(tail, sep));
    }
    out
}

/// Splits a byte string at every occurrence of the separator.
pub fn split_bytes(b: &Vec<u8>, sep: u8) -> (r: Vec<Vec<u8>>)
    ensures
        Seq::new(r@.len(), |i: int| r@[i]@) == split_seq(b@, sep),
{
    let r = split_from(b, 0, sep);
    proof {
        assert(b@.subrange(0, b@.len() as int) =~= b@);
    }
    r
}

// ------------------------------------------------------------------
// IPv4 addresses

/// What parsing a dotted-decimal IPv4 address yields: four nonempty digit
/// pieces, each no more than 255.
pub open spec fn sp_parse_ipv4(s: Seq<u8>) -> Option<(u8, u8, u8, u8)> {
    let parts = split_seq(s, 46);
    if parts.len() == 4 {
        match (sp_parse_u64(parts[0]), sp_parse_u64(parts[1]), sp_parse_u64(parts[2]),
            sp_parse_u64(parts[3])) {
            (Some(a), Some(b), Some(c), Some(d)) => if a <= 255 && b <= 255 && c <= 255
                && d <= 255 {
                Some((a as u8, b as u8, c as u8, d as u8))
            } else {
                None
            },
            _ => None,
        }
    } else {
        None
    }
}

/// Parses a dotted-decimal IPv4 address.
pub fn parse_ipv4(s: &Vec<u8>) -> (r: Option<(u8, u8, u8, u8)>)
    ensures
        r == sp_parse_ipv4(s@),
{
    let parts = split_bytes(s, 46);
    if parts.len() != 4 {
        return None;
    }
    let a = parse_u64_ascii(&parts[0]);
    let b = parse_u64_ascii(&parts[1]);
    let c = parse_u64_ascii(&parts[2]);
    let d = parse_u64_ascii(&parts[3]);
    proof {
        let views = Seq::new(parts@.len(), |i: int| parts@[i]@);
        assert(parts@[0]@ == views[0]);
        assert(parts@[1]@ == views[1]);
        assert(parts@[2]@ == views[2]);
        assert(parts@[3]@ == views[3]);
    }
    match (a, b, c, d) {
        (Some(a), Some(b), Some(c), Some(d)) => if a <= 255 && b <= 255 && c <= 255 && d <= 255 {
            Some((a as u8, b as u8, c as u8, d as u8))
        } else {
            None
        },
        _ => None,
    }
}

} // verus!
