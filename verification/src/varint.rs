use vstd::prelude::*;

use crate::error::CodecError;

verus! {

/// Value of a little-endian base-128 digit sequence: the low seven bits of
/// each byte, least significant group first.
pub open spec fn digits_value(s: Seq<u8>) -> nat
    decreases s.len(),
{
    if s.len() == 0 {
        0
    } else {
        (s[0] % 128) as nat + 128 * digits_value(s.drop_first())
    }
}

/// Number of bytes of the varint at the front of `s`: up to and including the
/// first byte whose high bit is clear; `None` when no such byte is present.
pub open spec fn varint_len(s: Seq<u8>) -> Option<nat>
    decreases s.len(),
{
    if s.len() == 0 {
        None
    } else if s[0] < 128 {
        Some(1)
    } else {
        match varint_len(s.drop_first()) {
            Some(n) => Some(n + 1),
            None => None,
        }
    }
}

/// What reading a `usize` varint from the front of `s` gives: `Ok(None)` while
/// the varint is incomplete, the value and the number of bytes it takes when it
/// is complete, and an overflow error when its value exceeds `usize::MAX`.
pub open spec fn spec_decode_varint(s: Seq<u8>) -> Result<Option<(usize, nat)>, CodecError> {
    match varint_len(s) {
        None => Ok(None),
        Some(n) => {
            let v = digits_value(s.take(n as int));
            if v <= usize::MAX {
                Ok(Some((v as usize, n)))
            } else {
                Err(CodecError::VarIntOverflow)
            }
        },
    }
}

/// The shortest varint encoding of `v`.
pub open spec fn spec_encode_varint(v: nat) -> Seq<u8>
    decreases v,
{
    if v < 128 {
        seq![v as u8]
    } else {
        seq![(v % 128 + 128) as u8] + spec_encode_varint(v / 128)
    }
}

proof fn lemma_varint_len_scan(s: Seq<u8>, i: int)
    requires
        0 <= i <= s.len(),
        forall|j: int| 0 <= j < i ==> s[j] >= 128,
    ensures
        i == s.len() ==> varint_len(s) is None,
        i < s.len() && s[i] < 128 ==> varint_len(s) == Some((i + 1) as nat),
    decreases i,
{
    if i > 0 {
        let t = s.drop_first();
        assert forall|j: int| 0 <= j < i - 1 implies t[j] >= 128 by {
            assert(t[j] == s[j + 1]);
        }
        lemma_varint_len_scan(t, i - 1);
        if i < s.len() {
            assert(t[i - 1] == s[i]);
        }
    }
}

proof fn lemma_digits_step(s: Seq<u8>, j: int, n: int)
    requires
        0 <= j < n <= s.len(),
    ensures
        digits_value(s.subrange(j, n)) == (s[j] % 128) as nat + 128 * digits_value(
            s.subrange(j + 1, n),
        ),
{
    assert(s.subrange(j, n).drop_first() =~= s.subrange(j + 1, n));
}

proof fn lemma_digits_monotone(s: Seq<u8>, a: int, b: int, n: int)
    requires
        0 <= a <= b <= n <= s.len(),
    ensures
        digits_value(s.subrange(a, n)) >= digits_value(s.subrange(b, n)),
    decreases b - a,
{
    if a < b {
        lemma_digits_monotone(s, a + 1, b, n);
        lemma_digits_step(s, a, n);
    }
}

/// Number of bytes of the varint at the front of `src`, when its last byte is
/// there.
pub fn varint_end(src: &[u8]) -> (r: Option<usize>)
    ensures
        match r {
            Some(n) => varint_len(src@) == Some(n as nat) && 1 <= n <= src@.len(),
            None => varint_len(src@) is None,
        },
{
    let mut i: usize = 0;
    while i < src.len() && src[i] >= 128
        invariant
            i <= src@.len(),
            forall|j: int| 0 <= j < i ==> src@[j] >= 128,
        decreases src@.len() - i,
    {
        i = i + 1;
    }
    proof {
        lemma_varint_len_scan(src@, i as int);
    }
    if i == src.len() {
        None
    } else {
        Some(i + 1)
    }
}

/// A prefix read as the executable code returns it (the byte count as a
/// `usize`), widened to the form of the specifications (the count as a `nat`).
pub open spec fn widen(r: Result<Option<(usize, usize)>, CodecError>) -> Result<
    Option<(usize, nat)>,
    CodecError,
> {
    match r {
        Ok(Some((v, n))) => Ok(Some((v, n as nat))),
        Ok(None) => Ok(None),
        Err(e) => Err(e),
    }
}

/// Reads a `usize` varint from the front of `src`, returning its value and the
/// number of bytes it takes.
pub fn decode_varint(src: &[u8]) -> (r: Result<Option<(usize, usize)>, CodecError>)
    ensures
        widen(r) == spec_decode_varint(src@),
        r matches Ok(Some((v, n))) ==> 1 <= n <= src@.len(),
{
    let mut i: usize = match varint_end(src) {
        None => {
            return Ok(None);
        },
        Some(n) => n - 1,
    };
    let n: usize = i + 1;
    let ghost s = src@;
    let mut v: usize = (src[i] % 128) as usize;
    proof {
        lemma_digits_step(s, i as int, n as int);
        assert(s.subrange(n as int, n as int) =~= Seq::<u8>::empty());
    }
    while i > 0
        invariant
            s == src@,
            i < n <= s.len(),
            s.len() == src@.len(),
            varint_len(s) == Some(n as nat),
            v == digits_value(s.subrange(i as int, n as int)),
        decreases i,
    {
        i = i - 1;
        let p: usize = (src[i] % 128) as usize;
        proof {
            lemma_digits_step(s, i as int, n as int);
        }
        if v > (usize::MAX - p) / 128 {
            proof {
                let m = usize::MAX - p;
                assert(p + 128 * v > usize::MAX) by (nonlinear_arith)
                    requires
                        v > m / 128,
                        m == usize::MAX - p,
                        m >= 0,
                ;
                lemma_digits_monotone(s, 0, i as int, n as int);
                assert(s.take(n as int) =~= s.subrange(0, n as int));
            }
            return Err(CodecError::VarIntOverflow);
        }
        v = v * 128 + p;
    }
    proof {
        assert(s.take(n as int) =~= s.subrange(0, n as int));
    }
    Ok(Some((v, n)))
}

/// Writes the varint encoding of `v`.
pub fn encode_varint(v: usize) -> (out: Vec<u8>)
    ensures
        out@ == spec_encode_varint(v as nat),
{
    let mut out: Vec<u8> = Vec::new();
    let mut x: usize = v;
    while x >= 128
        invariant
            out@ + spec_encode_varint(x as nat) == spec_encode_varint(v as nat),
        decreases x,
    {
        let b: u8 = (x % 128 + 128) as u8;
        let ghost before = out@;
        out.push(b);
        proof {
            assert(spec_encode_varint(x as nat) == seq![b] + spec_encode_varint((x / 128) as nat));
            assert(before + spec_encode_varint(x as nat) =~= out@ + spec_encode_varint(
                (x / 128) as nat,
            ));
        }
        x = x / 128;
    }
    let ghost before = out@;
    out.push(x as u8);
    proof {
        assert(out@ =~= before + spec_encode_varint(x as nat));
    }
    out
}

/// Number of bytes in the varint encoding of `v`.
pub fn encoded_varint_len(v: usize) -> (n: usize)
    ensures
        n == spec_encode_varint(v as nat).len(),
{
    let mut n: usize = 1;
    let mut x: usize = v;
    while x >= 128
        invariant
            1 <= n <= v + 1 - x,
            x <= v,
            n - 1 + spec_encode_varint(x as nat).len() == spec_encode_varint(v as nat).len(),
        decreases x,
    {
        x = x / 128;
        n = n + 1;
    }
    n
}

/// Every byte of an encoding but the last has its high bit set; the last has
/// it clear; and the digits give the value back.
pub proof fn lemma_encoding_shape(v: nat)
    ensures
        spec_encode_varint(v).len() >= 1,
        forall|j: int|
            0 <= j < spec_encode_varint(v).len() - 1 ==> #[trigger] spec_encode_varint(v)[j] >= 128,
        spec_encode_varint(v)[spec_encode_varint(v).len() - 1] < 128,
        digits_value(spec_encode_varint(v)) == v,
    decreases v,
{
    let e = spec_encode_varint(v);
    if v < 128 {
        assert(e.drop_first() =~= Seq::<u8>::empty());
        assert(e[0] == v);
        assert(digits_value(e.drop_first()) == 0);
        assert(digits_value(e) == (e[0] % 128) as nat + 128 * digits_value(e.drop_first()));
    } else {
        let b = (v % 128 + 128) as u8;
        assert(e[0] == b);
        assert(b % 128 == v % 128);
        assert(v == v % 128 + 128 * (v / 128));
        let t = spec_encode_varint(v / 128);
        lemma_encoding_shape(v / 128);
        assert(e.drop_first() =~= t);
        assert forall|j: int| 0 <= j < e.len() - 1 implies #[trigger] e[j] >= 128 by {
            if j > 0 {
                assert(e[j] == t[j - 1]);
            }
        }
        assert(e[e.len() - 1] == t[t.len() - 1]);
        assert(digits_value(e) == (e[0] % 128) as nat + 128 * digits_value(e.drop_first()));
    }
}

/// The encoding is the shortest one: it is one byte exactly for values below
/// 128, and its last byte is zero only when it is the single byte 0.
pub proof fn lemma_encoding_minimal(v: nat)
    ensures
        (spec_encode_varint(v).len() == 1) <==> v < 128,
        spec_encode_varint(v)[spec_encode_varint(v).len() - 1] == 0 ==> v == 0
            && spec_encode_varint(v) == seq![0u8],
    decreases v,
{
    let e = spec_encode_varint(v);
    if v < 128 {
        assert(e[0] == v);
        if v == 0 {
            assert(e =~= seq![0u8]);
        }
    } else {
        let t = spec_encode_varint(v / 128);
        lemma_encoding_minimal(v / 128);
        lemma_encoding_shape(v / 128);
        assert(e[e.len() - 1] == t[t.len() - 1]);
    }
}

proof fn lemma_zero_digits_last(s: Seq<u8>)
    requires
        s.len() >= 1,
        digits_value(s) == 0,
    ensures
        s[s.len() - 1] % 128 == 0,
    decreases s.len(),
{
    if s.len() > 1 {
        let t = s.drop_first();
        lemma_zero_digits_last(t);
        assert(s[s.len() - 1] == t[t.len() - 1]);
    }
}

/// A varint with a non-zero last byte (or of a single byte) is the encoding
/// of its value: the shortest encoding is the only such one.
pub proof fn lemma_canonical_encoding_unique(s: Seq<u8>)
    requires
        s.len() >= 1,
        forall|j: int| 0 <= j < s.len() - 1 ==> #[trigger] s[j] >= 128,
        s[s.len() - 1] < 128,
        s.len() == 1 || s[s.len() - 1] != 0,
    ensures
        s == spec_encode_varint(digits_value(s)),
    decreases s.len(),
{
    let v = digits_value(s);
    let t = s.drop_first();
    if s.len() == 1 {
        assert(t =~= Seq::<u8>::empty());
        assert(digits_value(t) == 0);
        assert(v == s[0] % 128);
        assert(s =~= spec_encode_varint(v));
    } else {
        assert forall|j: int| 0 <= j < t.len() - 1 implies #[trigger] t[j] >= 128 by {
            assert(t[j] == s[j + 1]);
        }
        assert(t[t.len() - 1] == s[s.len() - 1]);
        lemma_canonical_encoding_unique(t);
        let w = digits_value(t);
        if w == 0 {
            lemma_zero_digits_last(t);
        }
        assert(s[0] >= 128);
        assert(v == (s[0] % 128) as nat + 128 * w);
        assert(v / 128 == w);
        assert(v % 128 == s[0] % 128);
        assert(s[0] == (v % 128 + 128) as u8);
        assert(s =~= seq![(v % 128 + 128) as u8] + spec_encode_varint(w));
    }
}

/// Decoding the varint encoding of `v`, followed by any bytes at all, gives
/// `v` back together with the length of its encoding.
pub proof fn lemma_decode_encode_varint(v: usize, rest: Seq<u8>)
    ensures
        spec_decode_varint(spec_encode_varint(v as nat) + rest) == Ok::<
            Option<(usize, nat)>,
            CodecError,
        >(Some((v, spec_encode_varint(v as nat).len()))),
{
    let e = spec_encode_varint(v as nat);
    let s = e + rest;
    lemma_encoding_shape(v as nat);
    assert forall|j: int| 0 <= j < e.len() - 1 implies s[j] >= 128 by {
        assert(s[j] == e[j]);
    }
    lemma_varint_len_scan(s, e.len() - 1);
    assert(s.take(e.len() as int) =~= e);
}

/// A proper prefix of the varint encoding of `v` is an incomplete varint.
pub proof fn lemma_decode_encode_varint_prefix(v: usize, k: int)
    requires
        0 <= k < spec_encode_varint(v as nat).len(),
    ensures
        spec_decode_varint(spec_encode_varint(v as nat).take(k)) == Ok::<
            Option<(usize, nat)>,
            CodecError,
        >(None),
{
    let e = spec_encode_varint(v as nat);
    let s = e.take(k);
    lemma_encoding_shape(v as nat);
    assert forall|j: int| 0 <= j < k implies s[j] >= 128 by {
        assert(s[j] == e[j]);
    }
    lemma_varint_len_scan(s, k);
}

} // verus!
