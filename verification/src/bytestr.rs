use vstd::prelude::*;

verus! {

/// ASCII '0'.
pub const DIGIT_ZERO: u8 = 48;

/// ASCII '9'.
pub const DIGIT_NINE: u8 = 57;

/// ASCII '+'.
pub const PLUS_SIGN: u8 = 43;

/// Index of the first occurrence of `b` in `s`, or -1 when `b` does not occur.
pub open spec fn first_index(s: Seq<u8>, b: u8) -> int
    decreases s.len(),
{
    if s.len() == 0 {
        -1
    } else if s[0] == b {
        0
    } else {
        let r = first_index(s.subrange(1, s.len() as int), b);
        if r < 0 {
            -1
        } else {
            r + 1
        }
    }
}

pub proof fn lemma_first_index_found(s: Seq<u8>, b: u8, i: int)
    requires
        0 <= i < s.len(),
        s[i] == b,
        forall|k: int| 0 <= k < i ==> s[k] != b,
    ensures
        first_index(s, b) == i,
    decreases i,
{
    if i > 0 {
        let t = s.subrange(1, s.len() as int);
        assert(t[i - 1] == s[i]);
        assert(forall|k: int| 0 <= k < i - 1 ==> t[k] == s[k + 1] && s[k + 1] != b);
        lemma_first_index_found(t, b, i - 1);
    }
}

pub proof fn lemma_first_index_none(s: Seq<u8>, b: u8)
    requires
        forall|k: int| 0 <= k < s.len() ==> s[k] != b,
    ensures
        first_index(s, b) == -1,
    decreases s.len(),
{
    if s.len() > 0 {
        let t = s.subrange(1, s.len() as int);
        assert(forall|k: int| 0 <= k < t.len() ==> t[k] == s[k + 1] && s[k + 1] != b);
        lemma_first_index_none(t, b);
    }
}

/// Finds the first occurrence of `b` in `s` at or after position `from`.
pub fn find_byte(s: &[u8], from: usize, b: u8) -> (r: Option<usize>)
    requires
        from <= s@.len(),
    ensures
        match r {
            Some(j) => {
                &&& from <= j < s@.len()
                &&& s@[j as int] == b
                &&& forall|k: int| from <= k < j ==> s@[k] != b
                &&& first_index(s@.subrange(from as int, s@.len() as int), b) == j - from
            },
            None => {
                &&& forall|k: int| from <= k < s@.len() ==> s@[k] != b
                &&& first_index(s@.subrange(from as int, s@.len() as int), b) == -1
            },
        },
{
    let ghost t = s@.subrange(from as int, s@.len() as int);
    let mut i = from;
    while i < s.len()
        invariant
            from <= i <= s@.len(),
            forall|k: int| from <= k < i ==> s@[k] != b,
        decreases s@.len() - i,
    {
        if s[i] == b {
            proof {
                let t = s@.subrange(from as int, s@.len() as int);
                assert(t[i - from] == s@[i as int]);
                assert(forall|k: int| 0 <= k < i - from ==> t[k] == s@[k + from] && s@[k + from] != b);
                lemma_first_index_found(t, b, i - from);
            }
            return Some(i);
        }
        i = i + 1;
    }
    proof {
        assert(forall|k: int| 0 <= k < t.len() ==> t[k] == s@[k + from] && s@[k + from] != b);
        lemma_first_index_none(t, b);
    }
    None
}

/// Byte-for-byte equality of two slices.
pub fn bytes_eq(a: &[u8], b: &[u8]) -> (r: bool)
    ensures
        r == (a@ == b@),
{
    if a.len() != b.len() {
        return false;
    }
    let mut i: usize = 0;
    while i < a.len()
        invariant
            a@.len() == b@.len(),
            0 <= i <= a@.len(),
            forall|k: int| 0 <= k < i ==> a@[k] == b@[k],
        decreases a@.len() - i,
    {
        if a[i] != b[i] {
            return false;
        }
        i = i + 1;
    }
    proof {
        assert(a@ =~= b@);
    }
    true
}

/// The segments of `s` between occurrences of the separator `b`, in order.
/// An empty input yields one empty segment, as does every pair of adjacent
/// separators.
pub open spec fn split_on(s: Seq<u8>, b: u8) -> Seq<Seq<u8>>
    decreases s.len(),
{
    if s.len() == 0 {
        seq![Seq::<u8>::empty()]
    } else {
        let prev = split_on(s.drop_last(), b);
        if s.last() == b {
            prev.push(Seq::<u8>::empty())
        } else {
            prev.update(prev.len() - 1, prev.last().push(s.last()))
        }
    }
}

/// Splits `s` into the segments between occurrences of `b`.
pub fn split_bytes(s: &[u8], b: u8) -> (toks: Vec<Vec<u8>>)
    ensures
        toks@.map_values(|t: Vec<u8>| t@) == split_on(s@, b),
{
    let mut toks: Vec<Vec<u8>> = Vec::new();
    let mut cur: Vec<u8> = Vec::new();
    let mut i: usize = 0;
    proof {
        assert(s@.subrange(0, 0) =~= Seq::<u8>::empty());
        assert(toks@.map_values(|t: Vec<u8>| t@).push(cur@) =~= split_on(s@.subrange(0, 0), b));
    }
    while i < s.len()
        invariant
            0 <= i <= s@.len(),
            toks@.map_values(|t: Vec<u8>| t@).push(cur@) == split_on(s@.subrange(0, i as int), b),
        decreases s@.len() - i,
    {
        let ghost pre = s@.subrange(0, i as int);
        let ghost post = s@.subrange(0, i as int + 1);
        let ghost old_toks = toks@;
        let ghost old_cur = cur@;
        proof {
            assert(post.drop_last() =~= pre);
            assert(post.last() == s@[i as int]);
        }
        if s[i] == b {
            toks.push(cur);
            cur = Vec::new();
            proof {
                assert(toks@.map_values(|t: Vec<u8>| t@).push(cur@) =~= split_on(post, b));
            }
        } else {
            cur.push(s[i]);
            proof {
                let prev = split_on(pre, b);
                assert(prev.last() == old_cur);
                assert(prev.len() == old_toks.map_values(|t: Vec<u8>| t@).len() + 1);
                assert(toks@.map_values(|t: Vec<u8>| t@).push(cur@) =~= prev.update(
                    prev.len() - 1,
                    prev.last().push(s@[i as int]),
                ));
            }
        }
        i = i + 1;
    }
    proof {
        assert(s@.subrange(0, s@.len() as int) =~= s@);
    }
    toks.push(cur);
    proof {
        assert(toks@.map_values(|t: Vec<u8>| t@) =~= split_on(s@, b));
    }
    toks
}

pub open spec fn is_dec_digit(c: u8) -> bool {
    DIGIT_ZERO <= c <= DIGIT_NINE
}

pub open spec fn all_dec_digits(s: Seq<u8>) -> bool {
    forall|i: int| 0 <= i < s.len() ==> is_dec_digit(s[i])
}

/// The value of `s` read as a decimal numeral, most significant digit first.
pub open spec fn dec_value(s: Seq<u8>) -> int
    decreases s.len(),
{
    if s.len() == 0 {
        0
    } else {
        dec_value(s.drop_last()) * 10 + (s.last() - DIGIT_ZERO)
    }
}

pub proof fn lemma_dec_value_nonneg(s: Seq<u8>)
    requires
        all_dec_digits(s),
    ensures
        dec_value(s) >= 0,
    decreases s.len(),
{
    if s.len() > 0 {
        assert(forall|k: int| 0 <= k < s.len() - 1 ==> s.drop_last()[k] == s[k]);
        lemma_dec_value_nonneg(s.drop_last());
    }
}

/// A decimal numeral only grows as digits are appended on the right.
pub proof fn lemma_dec_value_prefix(t: Seq<u8>, j: int)
    requires
        0 <= j <= t.len(),
        all_dec_digits(t),
    ensures
        dec_value(t) >= dec_value(t.subrange(0, j)),
    decreases t.len() - j,
{
    if j < t.len() {
        let p = t.subrange(0, j);
        let q = t.subrange(0, j + 1);
        assert(q.drop_last() =~= p);
        assert(q.last() == t[j]);
        assert(forall|k: int| 0 <= k < p.len() ==> p[k] == t[k]);
        lemma_dec_value_nonneg(p);
        assert(dec_value(q) == dec_value(p) * 10 + (t[j] - DIGIT_ZERO));
        assert(dec_value(p) * 10 >= dec_value(p)) by (nonlinear_arith)
            requires
                dec_value(p) >= 0,
        ;
        lemma_dec_value_prefix(t, j + 1);
    } else {
        assert(t.subrange(0, t.len() as int) =~= t);
    }
}

/// The digits of a numeral after an optional single leading plus sign.
pub open spec fn digits_of(s: Seq<u8>) -> Seq<u8> {
    if s.len() >= 1 && s[0] == PLUS_SIGN {
        s.subrange(1, s.len() as int)
    } else {
        s
    }
}

/// What reading `s` as an unsigned 64-bit decimal yields: the numeral's value
/// when `s` is one or more decimal digits after an optional leading plus sign
/// and the value fits, nothing otherwise.
pub open spec fn spec_parse_u64(s: Seq<u8>) -> Option<u64> {
    let d = digits_of(s);
    if d.len() > 0 && all_dec_digits(d) && dec_value(d) <= u64::MAX {
        Some(dec_value(d) as u64)
    } else {
        None
    }
}

/// Reads `s` as an unsigned 64-bit decimal numeral.
pub fn parse_u64(s: &[u8]) -> (r: Option<u64>)
    ensures
        r == spec_parse_u64(s@),
{
    let start: usize = if s.len() >= 1 && s[0] == PLUS_SIGN {
        1
    } else {
        0
    };
    let ghost d = digits_of(s@);
    proof {
        assert(d =~= s@.subrange(start as int, s@.len() as int));
    }
    if s.len() == start {
        return None;
    }
    let mut acc: u64 = 0;
    let mut i = start;
    proof {
        assert(s@.subrange(start as int, start as int) =~= Seq::<u8>::empty());
    }
    while i < s.len()
        invariant
            start <= i <= s@.len(),
            start < s@.len(),
            d == s@.subrange(start as int, s@.len() as int),
            d == digits_of(s@),
            all_dec_digits(s@.subrange(start as int, i as int)),
            acc == dec_value(s@.subrange(start as int, i as int)),
        decreases s@.len() - i,
    {
        let ghost pre = s@.subrange(start as int, i as int);
        let ghost post = s@.subrange(start as int, i as int + 1);
        proof {
            assert(post.drop_last() =~= pre);
            assert(post.last() == s@[i as int]);
        }
        let c = s[i];
        if c < DIGIT_ZERO || c > DIGIT_NINE {
            proof {
                assert(d[i - start] == s@[i as int]);
                assert(!all_dec_digits(d));
            }
            return None;
        }
        let dd = (c - DIGIT_ZERO) as u64;
        if acc > (u64::MAX - dd) / 10 {
            proof {
                assert(acc * 10 + dd > u64::MAX) by (nonlinear_arith)
                    requires
                        acc > (u64::MAX - dd) / 10,
                        0 <= dd <= 9,
                ;
                if all_dec_digits(d) {
                    assert(forall|k: int| 0 <= k < post.len() ==> post[k] == d[k]);
                    lemma_dec_value_prefix(d, i as int + 1 - start);
                    assert(d.subrange(0, i as int + 1 - start) =~= post);
                    assert(dec_value(d) > u64::MAX);
                }
            }
            return None;
        }
        proof {
            assert(acc * 10 + dd <= u64::MAX) by (nonlinear_arith)
                requires
                    acc <= (u64::MAX - dd) / 10,
                    0 <= dd <= 9,
            ;
        }
        acc = acc * 10 + dd;
        proof {
            assert(forall|k: int| 0 <= k < pre.len() ==> pre[k] == s@[start + k]);
            assert(dec_value(post) == dec_value(pre) * 10 + (s@[i as int] - DIGIT_ZERO));
        }
        i = i + 1;
    }
    proof {
        assert(s@.subrange(start as int, i as int) =~= d);
    }
    Some(acc)
}

} // verus!
