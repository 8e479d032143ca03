use vstd::prelude::*;

verus! {

/// The value of an ASCII digit in base 10 or 16 (either case), or -1.
pub open spec fn digit_value(b: u8, base: nat) -> int {
    if 48 <= b <= 57 {
        b - 48
    } else if base == 16 && 97 <= b <= 102 {
        b - 87
    } else if base == 16 && 65 <= b <= 70 {
        b - 55
    } else {
        -1
    }
}

pub open spec fn all_digits(s: Seq<u8>, base: nat) -> bool {
    forall|i: int| 0 <= i < s.len() ==> digit_value(#[trigger] s[i], base) >= 0
}

/// The number that the digits of `s` write, most significant first.
pub open spec fn number_value(s: Seq<u8>, base: nat) -> nat
    decreases s.len(),
{
    if s.len() == 0 {
        0
    } else {
        number_value(s.drop_last(), base) * base + digit_value(s.last(), base) as nat
    }
}

/// A number in `base`: one digit or more, and nothing else.
pub open spec fn spec_number(s: Seq<u8>, base: nat) -> Option<nat> {
    if s.len() > 0 && all_digits(s, base) {
        Some(number_value(s, base))
    } else {
        None
    }
}

proof fn lemma_number_prefix(s: Seq<u8>, base: nat, i: int)
    requires
        base == 10 || base == 16,
        all_digits(s, base),
        0 <= i <= s.len(),
    ensures
        number_value(s.take(i), base) <= number_value(s, base),
    decreases s.len() - i,
{
    if i < s.len() {
        lemma_number_prefix(s, base, i + 1);
        let t = s.take(i + 1);
        assert(t.drop_last() =~= s.take(i));
        assert(digit_value(s[i], base) >= 0);
        assert(number_value(s.take(i), base) * base >= number_value(s.take(i), base))
            by (nonlinear_arith)
            requires
                base >= 1,
        ;
    } else {
        assert(s.take(i) =~= s);
    }
}

/// Reads a number in base 10 or 16; `None` when `s` is not one, or when it
/// does not fit in 64 bits.
pub fn parse_number(s: &[u8], base: u64) -> (r: Option<u64>)
    requires
        base == 10 || base == 16,
    ensures
        r == (match spec_number(s@, base as nat) {
            Some(v) => if v <= u64::MAX {
                Some(v as u64)
            } else {
                None
            },
            None => None,
        }),
{
    if s.len() == 0 {
        return None;
    }
    let mut v: u64 = 0;
    let mut i: usize = 0;
    while i < s.len()
        invariant
            base == 10 || base == 16,
            i <= s.len(),
            all_digits(s@.take(i as int), base as nat),
            v == number_value(s@.take(i as int), base as nat),
        decreases s.len() - i,
    {
        let b = s[i];
        let d: u64 = if 48 <= b && b <= 57 {
            (b - 48) as u64
        } else if base == 16 && 97 <= b && b <= 102 {
            (b - 87) as u64
        } else if base == 16 && 65 <= b && b <= 70 {
            (b - 55) as u64
        } else {
            assert(!all_digits(s@, base as nat)) by {
                assert(digit_value(s@[i as int], base as nat) < 0);
            }
            return None;
        };
        let ghost t = s@.take(i + 1);
        assert(t.drop_last() =~= s@.take(i as int));
        let lim = (u64::MAX - d) / base;
        if v > lim {
            proof {
                assert(v * base + d > u64::MAX) by (nonlinear_arith)
                    requires
                        v > lim,
                        lim == (u64::MAX - d) / base as int,
                        base > 0,
                        d <= u64::MAX,
                ;
                if all_digits(s@, base as nat) {
                    lemma_number_prefix(s@, base as nat, i + 1);
                }
            }
            return None;
        }
        assert(v * base + d <= u64::MAX) by (nonlinear_arith)
            requires
                v <= lim,
                lim == (u64::MAX - d) / base as int,
                base > 0,
                d <= u64::MAX,
        ;
        v = v * base + d;
        i += 1;
        assert(all_digits(s@.take(i as int), base as nat)) by {
            assert forall|j: int| 0 <= j < i implies digit_value(#[trigger] s@.take(i as int)[j], base as nat) >= 0 by {
                if j < i - 1 {
                    assert(s@.take(i as int)[j] == s@.take(i - 1)[j]);
                }
            }
        }
    }
    assert(s@.take(s.len() as int) =~= s@);
    Some(v)
}

/// ASCII white space: space, tab, line feed, form feed, carriage return.
pub open spec fn is_space(b: u8) -> bool {
    b == 32 || b == 9 || b == 10 || b == 12 || b == 13
}

/// `s` without the white space at its start.
pub open spec fn trim_front(s: Seq<u8>) -> Seq<u8>
    decreases s.len(),
{
    if s.len() > 0 && is_space(s[0]) {
        trim_front(s.drop_first())
    } else {
        s
    }
}

/// `s` without the white space at its end.
pub open spec fn trim_back(s: Seq<u8>) -> Seq<u8>
    decreases s.len(),
{
    if s.len() > 0 && is_space(s.last()) {
        trim_back(s.drop_last())
    } else {
        s
    }
}

/// `s` without white space at either end.
pub open spec fn trim(s: Seq<u8>) -> Seq<u8> {
    trim_back(trim_front(s))
}

/// Bounds of `s@.subrange(a, b)` with the white space at both ends left out.
pub fn trim_bounds(s: &[u8], a: usize, b: usize) -> (r: (usize, usize))
    requires
        a <= b <= s.len(),
    ensures
        a <= r.0 <= r.1 <= b,
        s@.subrange(r.0 as int, r.1 as int) == trim(s@.subrange(a as int, b as int)),
{
    let mut i: usize = a;
    while i < b && is_space_byte(s[i])
        invariant
            a <= i <= b <= s.len(),
            trim_front(s@.subrange(a as int, b as int)) == trim_front(s@.subrange(i as int, b as int)),
        decreases b - i,
    {
        assert(s@.subrange(i as int, b as int).drop_first() =~= s@.subrange(i + 1, b as int));
        i += 1;
    }
    let mut j: usize = b;
    while j > i && is_space_byte(s[j - 1])
        invariant
            a <= i <= j <= b <= s.len(),
            trim_back(s@.subrange(i as int, b as int)) == trim_back(s@.subrange(i as int, j as int)),
        decreases j - i,
    {
        assert(s@.subrange(i as int, j as int).drop_last() =~= s@.subrange(i as int, j - 1));
        j -= 1;
    }
    (i, j)
}

pub fn is_space_byte(b: u8) -> (r: bool)
    ensures
        r == is_space(b),
{
    b == 32 || b == 9 || b == 10 || b == 12 || b == 13
}

/// ASCII upper-case letters made lower-case; other bytes kept.
pub open spec fn ascii_lower(b: u8) -> u8 {
    if 65 <= b <= 90 {
        (b + 32) as u8
    } else {
        b
    }
}

pub open spec fn lower_bytes(s: Seq<u8>) -> Seq<u8> {
    s.map_values(|b: u8| ascii_lower(b))
}

/// The bytes of `s` from `a` up to `b`, ASCII letters made lower-case.
pub fn lowered(s: &[u8], a: usize, b: usize) -> (r: Vec<u8>)
    requires
        a <= b <= s.len(),
    ensures
        r@ == lower_bytes(s@.subrange(a as int, b as int)),
{
    let mut r: Vec<u8> = Vec::new();
    let mut k: usize = a;
    while k < b
        invariant
            a <= k <= b <= s.len(),
            r@ == lower_bytes(s@.subrange(a as int, k as int)),
        decreases b - k,
    {
        let c = s[k];
        let l = if 65 <= c && c <= 90 {
            c + 32
        } else {
            c
        };
        r.push(l);
        k += 1;
        assert(r@ =~= lower_bytes(s@.subrange(a as int, k as int)));
    }
    r
}

/// The bytes of `s` from `a` up to `b`.
pub fn copy_range(s: &[u8], a: usize, b: usize) -> (r: Vec<u8>)
    requires
        a <= b <= s.len(),
    ensures
        r@ == s@.subrange(a as int, b as int),
{
    let mut r: Vec<u8> = Vec::new();
    let mut k: usize = a;
    while k < b
        invariant
            a <= k <= b <= s.len(),
            r@ == s@.subrange(a as int, k as int),
        decreases b - k,
    {
        r.push(s[k]);
        k += 1;
        assert(r@ =~= s@.subrange(a as int, k as int));
    }
    r
}

/// Position of the first `c` in `s` at or after `from`.
pub fn find_byte(s: &[u8], c: u8, from: usize) -> (r: Option<usize>)
    requires
        from <= s.len(),
    ensures
        match r {
            Some(k) => from <= k < s.len() && s@[k as int] == c && forall|j: int|
                from <= j < k ==> s@[j] != c,
            None => forall|j: int| from <= j < s.len() ==> s@[j] != c,
        },
{
    let mut k: usize = from;
    while k < s.len()
        invariant
            from <= k <= s.len(),
            forall|j: int| from <= j < k ==> s@[j] != c,
        decreases s.len() - k,
    {
        if s[k] == c {
            return Some(k);
        }
        k += 1;
    }
    None
}

} // verus!
