//! Identifier synthesizer: derives the flattened symbolic name and the
//! rooted relative path of an entry from its path segment chain. Both are
//! pure functions of the chain's segments.

use vstd::prelude::*;

use crate::chain::PathChain;
use crate::chain::segment_ok;

verus! {

/// Identifier normal form of one byte: a literal dot becomes an underscore
/// and an ASCII upper-case letter folds to lower case; every other byte is
/// kept as it is.
pub open spec fn ident_byte(b: u8) -> u8 {
    if b == 46u8 {
        95u8
    } else if 65u8 <= b && b <= 90u8 {
        (b + 32) as u8
    } else {
        b
    }
}

/// Identifier normal form of one segment, byte for byte.
pub open spec fn ident_segment(s: Seq<u8>) -> Seq<u8> {
    Seq::new(s.len(), |i: int| ident_byte(s[i]))
}

/// The flat identifier of a chain: the segments in identifier normal form,
/// joined with underscores.
pub open spec fn flat_identifier_of(chain: Seq<Seq<u8>>) -> Seq<u8>
    decreases chain.len(),
{
    if chain.len() == 0 {
        Seq::empty()
    } else if chain.len() == 1 {
        ident_segment(chain[0])
    } else {
        flat_identifier_of(chain.drop_last()) + seq![95u8] + ident_segment(chain.last())
    }
}

/// The rooted relative path of a chain: a slash before each segment, original
/// casing and dots kept.
pub open spec fn relative_path_of(chain: Seq<Seq<u8>>) -> Seq<u8>
    decreases chain.len(),
{
    if chain.len() == 0 {
        Seq::empty()
    } else {
        relative_path_of(chain.drop_last()) + seq![47u8] + chain.last()
    }
}

/// Law: identifier synthesis is a pure, deterministic function of the chain's
/// segments; two chains with equal segment sequences get equal identifiers
/// and equal relative paths, on any run.
pub proof fn lemma_identifier_deterministic(p: Seq<Seq<u8>>, q: Seq<Seq<u8>>)
    requires
        p == q,
    ensures
        flat_identifier_of(p) == flat_identifier_of(q),
        relative_path_of(p) == relative_path_of(q),
{
}

/// A non-empty chain of acceptable segments has a non-empty flat identifier
/// holding no path separator.
pub proof fn lemma_identifier_shape(chain: Seq<Seq<u8>>)
    requires
        chain.len() > 0,
        forall|i: int| 0 <= i < chain.len() ==> segment_ok(#[trigger] chain[i]),
    ensures
        flat_identifier_of(chain).len() > 0,
        !flat_identifier_of(chain).contains(47u8),
    decreases chain.len(),
{
    let r = flat_identifier_of(chain);
    if chain.len() == 1 {
        assert(segment_ok(chain[0]));
        assert(r.len() == chain[0].len());
        assert forall|i: int| 0 <= i < r.len() implies r[i] != 47u8 by {
            assert(chain[0][i] != 47u8) by {
                assert(!chain[0].contains(47u8));
            }
        }
        assert(!r.contains(47u8));
    } else {
        let parent = chain.drop_last();
        assert(forall|i: int|
            0 <= i < parent.len() ==> segment_ok(#[trigger] parent[i])) by {
            assert(forall|i: int| 0 <= i < parent.len() ==> parent[i] == chain[i]);
        }
        lemma_identifier_shape(parent);
        let tail = ident_segment(chain.last());
        assert(segment_ok(chain.last()));
        assert forall|i: int| 0 <= i < r.len() implies r[i] != 47u8 by {
            let p = flat_identifier_of(parent);
            if i < p.len() {
                assert(!p.contains(47u8));
                assert(r[i] == p[i]);
            } else if i == p.len() {
                assert(r[i] == 95u8);
            } else {
                let j = i - p.len() - 1;
                assert(r[i] == tail[j]);
                assert(chain.last()[j] != 47u8) by {
                    assert(!chain.last().contains(47u8));
                }
            }
        }
        assert(!r.contains(47u8));
    }
}

/// Builds the flat identifier of a chain: join all segments with `_`, fold to
/// lower case, and turn each literal `.` into `_`.
pub fn flat_identifier(chain: &PathChain) -> (r: Vec<u8>)
    ensures
        r@ == flat_identifier_of(chain@),
{
    let mut out: Vec<u8> = Vec::new();
    let n = chain.len();
    let mut i: usize = 0;
    while i < n
        invariant
            i <= n,
            n == chain@.len(),
            out@ == flat_identifier_of(chain@.subrange(0, i as int)),
        decreases n - i,
    {
        if i > 0 {
            out.push(95u8);
        }
        let seg = chain.segment(i);
        let ghost base = out@;
        let mut j: usize = 0;
        while j < seg.len()
            invariant
                j <= seg@.len(),
                seg@ == chain@[i as int],
                out@ == base + ident_segment(seg@).subrange(0, j as int),
            decreases seg@.len() - j,
        {
            let b = seg[j];
            let folded = if b == 46u8 {
                95u8
            } else if 65u8 <= b && b <= 90u8 {
                b + 32
            } else {
                b
            };
            out.push(folded);
            proof {
                assert(ident_segment(seg@).subrange(0, j + 1 as int) =~= ident_segment(
                    seg@,
                ).subrange(0, j as int).push(ident_byte(seg@[j as int])));
            }
            j += 1;
        }
        proof {
            let sub = chain@.subrange(0, i + 1 as int);
            assert(sub.drop_last() =~= chain@.subrange(0, i as int));
            assert(sub.last() == chain@[i as int]);
            assert(ident_segment(seg@).subrange(0, seg@.len() as int) =~= ident_segment(seg@));
            assert(out@ =~= flat_identifier_of(sub));
        }
        i += 1;
    }
    proof {
        assert(chain@.subrange(0, n as int) =~= chain@);
    }
    out
}

/// Builds the rooted relative path of a chain: a `/` before each segment,
/// original bytes kept.
pub fn relative_path(chain: &PathChain) -> (r: Vec<u8>)
    ensures
        r@ == relative_path_of(chain@),
{
    let mut out: Vec<u8> = Vec::new();
    let n = chain.len();
    let mut i: usize = 0;
    while i < n
        invariant
            i <= n,
            n == chain@.len(),
            out@ == relative_path_of(chain@.subrange(0, i as int)),
        decreases n - i,
    {
        out.push(47u8);
        let seg = chain.segment(i);
        let ghost base = out@;
        let mut j: usize = 0;
        while j < seg.len()
            invariant
                j <= seg@.len(),
                seg@ == chain@[i as int],
                out@ == base + seg@.subrange(0, j as int),
            decreases seg@.len() - j,
        {
            let b = seg[j];
            out.push(b);
            proof {
                assert(seg@.subrange(0, j + 1 as int) =~= seg@.subrange(0, j as int).push(
                    seg@[j as int],
                ));
            }
            j += 1;
        }
        proof {
            let sub = chain@.subrange(0, i + 1 as int);
            assert(sub.drop_last() =~= chain@.subrange(0, i as int));
            assert(sub.last() == chain@[i as int]);
            assert(seg@.subrange(0, seg@.len() as int) =~= seg@);
            assert(out@ =~= relative_path_of(sub));
        }
        i += 1;
    }
    proof {
        assert(chain@.subrange(0, n as int) =~= chain@);
    }
    out
}

} // verus!
