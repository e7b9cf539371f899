//! Byte-string utilities shared by the sprite manifest parser and the
//! emitter: splitting on a separator byte, and unsigned decimal numbers.

use vstd::prelude::*;

verus! {

/// `i` is the position of the first `b` in `s`.
pub open spec fn is_first_at(s: Seq<u8>, b: u8, i: int) -> bool {
    &&& 0 <= i < s.len()
    &&& s[i] == b
    &&& forall|j: int| 0 <= j < i ==> s[j] != b
}

/// Split `s` on every occurrence of `sep`. An empty input gives one empty
/// piece; a separator at the end gives a trailing empty piece.
pub open spec fn split_on(s: Seq<u8>, sep: u8) -> Seq<Seq<u8>>
    decreases s.len(),
{
    if exists|i: int| is_first_at(s, sep, i) {
        let i = choose|i: int| is_first_at(s, sep, i);
        seq![s.subrange(0, i)] + split_on(s.subrange(i + 1, s.len() as int), sep)
    } else {
        seq![s]
    }
}

/// `b` is an ASCII decimal digit.
pub open spec fn is_dec_digit(b: u8) -> bool {
    48 <= b <= 57
}

/// The value of a string of decimal digits, most significant first.
pub open spec fn dec_value(s: Seq<u8>) -> nat
    decreases s.len(),
{
    if s.len() == 0 {
        0
    } else {
        (dec_value(s.drop_last()) * 10 + (s.last() - 48)) as nat
    }
}

/// A field holding a decimal number that fits an unsigned 32-bit integer:
/// non-empty, digits only, value in range.
pub open spec fn valid_u32_field(s: Seq<u8>) -> bool {
    &&& s.len() > 0
    &&& forall|i: int| 0 <= i < s.len() ==> is_dec_digit(#[trigger] s[i])
    &&& dec_value(s) <= u32::MAX
}

/// The shortest decimal rendering of `n`, most significant digit first.
pub open spec fn dec_digits(n: nat) -> Seq<u8>
    decreases n,
{
    if n < 10 {
        seq![(n + 48) as u8]
    } else {
        dec_digits(n / 10) + seq![(n % 10 + 48) as u8]
    }
}

/// Extending a digit string on the right never shrinks its value.
pub proof fn lemma_dec_value_prefix_le(s: Seq<u8>, k: int)
    requires
        0 <= k <= s.len(),
        forall|i: int| k <= i < s.len() ==> is_dec_digit(#[trigger] s[i]),
    ensures
        dec_value(s.subrange(0, k)) <= dec_value(s),
    decreases s.len() - k,
{
    if k < s.len() {
        lemma_dec_value_prefix_le(s, k + 1);
        let p = s.subrange(0, k + 1);
        assert(p.drop_last() =~= s.subrange(0, k));
        assert(dec_value(s.subrange(0, k)) <= dec_value(p));
    } else {
        assert(s.subrange(0, k) =~= s);
    }
}

/// Position of the first `sep` at or after `from`, if any.
pub fn find_from(v: &Vec<u8>, from: usize, sep: u8) -> (r: Option<usize>)
    requires
        from <= v@.len(),
    ensures
        match r {
            Some(i) => {
                &&& from <= i < v@.len()
                &&& v@[i as int] == sep
                &&& forall|j: int| from <= j < i ==> v@[j] != sep
            },
            None => forall|j: int| from <= j < v@.len() ==> v@[j] != sep,
        },
{
    let n = v.len();
    let mut i = from;
    while i < n && v[i] != sep
        invariant
            from <= i <= n,
            n == v@.len(),
            forall|j: int| from <= j < i as int ==> v@[j] != sep,
        decreases n - i,
    {
        i += 1;
    }
    if i == n {
        None
    } else {
        Some(i)
    }
}

/// Copies `v[from..to]`.
pub fn sub_bytes(v: &Vec<u8>, from: usize, to: usize) -> (r: Vec<u8>)
    requires
        from <= to <= v@.len(),
    ensures
        r@ == v@.subrange(from as int, to as int),
{
    let mut r: Vec<u8> = Vec::new();
    let mut i = from;
    while i < to
        invariant
            from <= i <= to <= v@.len(),
            r@ =~= v@.subrange(from as int, i as int),
        decreases to - i,
    {
        r.push(v[i]);
        proof {
            assert(v@.subrange(from as int, i + 1 as int) =~= v@.subrange(from as int, i as int)
                .push(v@[i as int]));
        }
        i += 1;
    }
    r
}

/// Copies a byte string.
pub fn copy_bytes(v: &Vec<u8>) -> (r: Vec<u8>)
    ensures
        r@ == v@,
{
    let r = v.clone();
    proof {
        assert forall|i: int| 0 <= i < r@.len() implies r@[i] == v@[i] by {
            assert(cloned::<u8>(v[i], r[i]));
        }
        assert(r@ =~= v@);
    }
    r
}

/// Whether two byte strings hold the same bytes.
pub fn bytes_eq(a: &Vec<u8>, b: &Vec<u8>) -> (r: bool)
    ensures
        r == (a@ == b@),
{
    let n = a.len();
    if n != b.len() {
        return false;
    }
    let mut i: usize = 0;
    while i < n
        invariant
            i <= n,
            n == a@.len(),
            n == b@.len(),
            forall|k: int| 0 <= k < i as int ==> a@[k] == b@[k],
        decreases n - i,
    {
        if a[i] != b[i] {
            return false;
        }
        i += 1;
    }
    proof {
        assert(a@ =~= b@);
    }
    true
}

/// Appends all of `src` to `dst`.
pub fn append_bytes(dst: &mut Vec<u8>, src: &Vec<u8>)
    ensures
        final(dst)@ == old(dst)@ + src@,
{
    let n = src.len();
    let mut i: usize = 0;
    while i < n
        invariant
            i <= n,
            n == src@.len(),
            dst@ =~= old(dst)@ + src@.subrange(0, i as int),
        decreases n - i,
    {
        dst.push(src[i]);
        proof {
            assert(src@.subrange(0, i + 1 as int) =~= src@.subrange(0, i as int).push(
                src@[i as int],
            ));
        }
        i += 1;
    }
    proof {
        assert(src@.subrange(0, n as int) =~= src@);
    }
}

/// Split `v` on every occurrence of `sep`, each piece copied out.
pub fn split_bytes(v: &Vec<u8>, sep: u8) -> (r: Vec<Vec<u8>>)
    ensures
        r@.len() == split_on(v@, sep).len(),
        forall|k: int| 0 <= k < r@.len() ==> (#[trigger] r@[k])@ == split_on(v@, sep)[k],
{
    let n = v.len();
    let mut out: Vec<Vec<u8>> = Vec::new();
    let mut start: usize = 0;
    proof {
        assert(v@.subrange(0, n as int) =~= v@);
    }
    loop
        invariant
            start <= n,
            n == v@.len(),
            split_on(v@, sep) =~= Seq::new(out@.len(), |k: int| out@[k]@) + split_on(
                v@.subrange(start as int, n as int),
                sep,
            ),
        decreases n - start,
    {
        let ghost rest = v@.subrange(start as int, n as int);
        match find_from(v, start, sep) {
            Some(i) => {
                proof {
                    let ri = i as int - start as int;
                    assert(is_first_at(rest, sep, ri));
                    let w = choose|k: int| is_first_at(rest, sep, k);
                    assert(is_first_at(rest, sep, w));
                    if w < ri {
                        assert(rest[w] == v@[start as int + w]);
                        assert(rest[w] != sep);
                    }
                    if w > ri {
                        assert(rest[ri] != sep);
                    }
                    assert(w == ri);
                    assert(rest.subrange(0, ri) =~= v@.subrange(start as int, i as int));
                    assert(rest.subrange(ri + 1, rest.len() as int) =~= v@.subrange(
                        i + 1 as int,
                        n as int,
                    ));
                }
                let piece = sub_bytes(v, start, i);
                out.push(piece);
                proof {
                    assert(split_on(v@, sep) =~= Seq::new(out@.len(), |k: int| out@[k]@)
                        + split_on(v@.subrange(i + 1 as int, n as int), sep));
                }
                start = i + 1;
            },
            None => {
                proof {
                    assert forall|k: int| !is_first_at(rest, sep, k) by {
                        if 0 <= k < rest.len() {
                            assert(rest[k] == v@[start as int + k]);
                            assert(rest[k] != sep);
                        }
                    }
                    assert(split_on(rest, sep) =~= seq![rest]);
                }
                let piece = sub_bytes(v, start, n);
                out.push(piece);
                proof {
                    assert(split_on(v@, sep) =~= Seq::new(out@.len(), |k: int| out@[k]@));
                }
                return out;
            },
        }
    }
}

/// Parses a whole field as an unsigned 32-bit decimal number. `None` exactly
/// when the field is empty, holds a non-digit, or overflows the range.
pub fn parse_u32(field: &Vec<u8>) -> (r: Option<u32>)
    ensures
        match r {
            Some(x) => valid_u32_field(field@) && x == dec_value(field@),
            None => !valid_u32_field(field@),
        },
{
    let n = field.len();
    if n == 0 {
        return None;
    }
    let mut acc: u32 = 0;
    let mut i: usize = 0;
    while i < n
        invariant
            0 < n == field@.len(),
            i <= n,
            forall|j: int| 0 <= j < i as int ==> is_dec_digit(#[trigger] field@[j]),
            acc == dec_value(field@.subrange(0, i as int)),
        decreases n - i,
    {
        let b = field[i];
        if b < 48 || b > 57 {
            return None;
        }
        let d = (b - 48) as u32;
        if acc > (u32::MAX - d) / 10 {
            proof {
                let p = field@.subrange(0, i + 1 as int);
                assert(p.drop_last() =~= field@.subrange(0, i as int));
                assert(dec_value(p) == acc * 10 + d);
                assert(acc * 10 + d > u32::MAX);
                if valid_u32_field(field@) {
                    lemma_dec_value_prefix_le(field@, i + 1 as int);
                }
            }
            return None;
        }
        proof {
            let p = field@.subrange(0, i + 1 as int);
            assert(p.drop_last() =~= field@.subrange(0, i as int));
            assert(dec_value(p) == acc * 10 + d);
        }
        acc = acc * 10 + d;
        i += 1;
    }
    proof {
        assert(field@.subrange(0, n as int) =~= field@);
    }
    Some(acc)
}

/// Renders `x` as shortest decimal, most significant digit first.
pub fn render_u32(x: u32) -> (r: Vec<u8>)
    ensures
        r@ == dec_digits(x as nat),
{
    let mut r: Vec<u8> = Vec::new();
    if x == 0 {
        r.push(48u8);
        proof {
            assert(r@ =~= dec_digits(0));
        }
        return r;
    }
    let mut rest: u32 = x;
    while rest > 0
        invariant
            rest > 0 ==> dec_digits(x as nat) =~= dec_digits(rest as nat) + r@,
            rest == 0 ==> dec_digits(x as nat) =~= r@,
        decreases rest,
    {
        let d = (rest % 10) as u8 + 48;
        let next = rest / 10;
        r.insert(0, d);
        proof {
            if next > 0 {
                assert(dec_digits(rest as nat) =~= dec_digits(next as nat) + seq![d]) by {
                    assert(rest as nat / 10 == next as nat);
                    assert((rest as nat % 10 + 48) as u8 == d);
                }
                assert(dec_digits(x as nat) =~= dec_digits(next as nat) + r@);
            } else {
                assert(dec_digits(rest as nat) =~= seq![d]);
                assert(dec_digits(x as nat) =~= r@);
            }
        }
        rest = next;
    }
    r
}

} // verus!
