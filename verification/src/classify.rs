//! Asset classifier: maps a leaf file's basename to an asset kind and MIME
//! string, or rejects the file silently when the suffix is unrecognized.
//!
//! The basename is split once on the first dot; everything after that dot is
//! the suffix, matched as a literal. The multi-part sprite-manifest suffix is
//! its own case, so `sprites.csv` never falls through to a plain `csv` rule,
//! and `png` and `ttf` must match the whole suffix exactly.

use vstd::prelude::*;

use crate::text::bytes_eq;
use crate::text::is_first_at;

verus! {

/// The kind of an embeddable asset.
#[derive(Clone, Copy, PartialEq, Eq, Debug, Structural)]
pub enum AssetKind {
    Image,
    Font,
}

/// What the classifier says about a leaf file.
#[derive(Clone, Copy, PartialEq, Eq, Debug, Structural)]
pub enum FileClass {
    /// An embeddable asset of the given kind.
    Asset(AssetKind),
    /// A sprite manifest, to be parsed rather than embedded.
    SpriteManifest,
}

/// The suffix `png`.
pub open spec fn png_suffix() -> Seq<u8> {
    seq![112u8, 110u8, 103u8]
}

/// The suffix `ttf`.
pub open spec fn ttf_suffix() -> Seq<u8> {
    seq![116u8, 116u8, 102u8]
}

/// The suffix `sprites.csv`.
pub open spec fn sprites_suffix() -> Seq<u8> {
    seq![115u8, 112u8, 114u8, 105u8, 116u8, 101u8, 115u8, 46u8, 99u8, 115u8, 118u8]
}

/// The MIME string of an asset kind: `image/png` or `font/ttf`.
pub open spec fn mime_of(kind: AssetKind) -> Seq<u8> {
    match kind {
        AssetKind::Image => seq![105u8, 109u8, 97u8, 103u8, 101u8, 47u8, 112u8, 110u8, 103u8],
        AssetKind::Font => seq![102u8, 111u8, 110u8, 116u8, 47u8, 116u8, 116u8, 102u8],
    }
}

/// The classification of a basename. A name that is the sprite-manifest
/// suffix itself is a sprite manifest. Otherwise the name is split once on
/// the first dot and the whole suffix is matched against the recognized
/// literals, the multi-part sprite-manifest suffix before the plain ones;
/// anything else is rejected.
pub open spec fn classify_of(name: Seq<u8>) -> Option<FileClass> {
    if name == sprites_suffix() {
        Some(FileClass::SpriteManifest)
    } else if exists|i: int| is_first_at(name, 46u8, i) {
        let i = choose|i: int| is_first_at(name, 46u8, i);
        let suffix = name.subrange(i + 1, name.len() as int);
        if suffix == png_suffix() {
            Some(FileClass::Asset(AssetKind::Image))
        } else if suffix == ttf_suffix() {
            Some(FileClass::Asset(AssetKind::Font))
        } else if suffix == sprites_suffix() {
            Some(FileClass::SpriteManifest)
        } else {
            None
        }
    } else {
        None
    }
}

/// The MIME string of an asset kind, as bytes.
pub fn mime_bytes(kind: AssetKind) -> (r: Vec<u8>)
    ensures
        r@ == mime_of(kind),
{
    let mut r: Vec<u8> = Vec::new();
    match kind {
        AssetKind::Image => {
            r.push(105u8);
            r.push(109u8);
            r.push(97u8);
            r.push(103u8);
            r.push(101u8);
            r.push(47u8);
            r.push(112u8);
            r.push(110u8);
            r.push(103u8);
        },
        AssetKind::Font => {
            r.push(102u8);
            r.push(111u8);
            r.push(110u8);
            r.push(116u8);
            r.push(47u8);
            r.push(116u8);
            r.push(116u8);
            r.push(102u8);
        },
    }
    proof {
        assert(r@ =~= mime_of(kind));
    }
    r
}

/// Whether the bytes of `name` from position `from` on equal `pat` exactly.
fn tail_matches(name: &Vec<u8>, from: usize, pat: &Vec<u8>) -> (r: bool)
    requires
        from <= name@.len(),
    ensures
        r == (name@.subrange(from as int, name@.len() as int) == pat@),
{
    let n = name.len();
    if n - from != pat.len() {
        proof {
            assert(name@.subrange(from as int, name@.len() as int).len() != pat@.len());
        }
        return false;
    }
    let mut j: usize = 0;
    while j < pat.len()
        invariant
            n == name@.len(),
            from + pat@.len() == n as int,
            j <= pat@.len(),
            forall|k: int| 0 <= k < j as int ==> name@[from + k] == pat@[k],
        decreases pat@.len() - j,
    {
        if name[from + j] != pat[j] {
            proof {
                assert(name@.subrange(from as int, name@.len() as int)[j as int] != pat@[j as int]);
            }
            return false;
        }
        j += 1;
    }
    proof {
        assert(name@.subrange(from as int, name@.len() as int) =~= pat@);
    }
    true
}

/// The suffix `png`, as bytes.
fn png_pattern() -> (r: Vec<u8>)
    ensures
        r@ == png_suffix(),
{
    let mut r: Vec<u8> = Vec::new();
    r.push(112u8);
    r.push(110u8);
    r.push(103u8);
    proof {
        assert(r@ =~= png_suffix());
    }
    r
}

/// The suffix `ttf`, as bytes.
fn ttf_pattern() -> (r: Vec<u8>)
    ensures
        r@ == ttf_suffix(),
{
    let mut r: Vec<u8> = Vec::new();
    r.push(116u8);
    r.push(116u8);
    r.push(102u8);
    proof {
        assert(r@ =~= ttf_suffix());
    }
    r
}

/// The suffix `sprites.csv`, as bytes.
fn sprites_pattern() -> (r: Vec<u8>)
    ensures
        r@ == sprites_suffix(),
{
    let mut r: Vec<u8> = Vec::new();
    r.push(115u8);
    r.push(112u8);
    r.push(114u8);
    r.push(105u8);
    r.push(116u8);
    r.push(101u8);
    r.push(115u8);
    r.push(46u8);
    r.push(99u8);
    r.push(115u8);
    r.push(118u8);
    proof {
        assert(r@ =~= sprites_suffix());
    }
    r
}

/// Classifies a leaf file's basename. Returns `None` for an unrecognized
/// suffix: such files are skipped silently.
pub fn classify(name: &Vec<u8>) -> (r: Option<FileClass>)
    ensures
        r == classify_of(name@),
{
    if bytes_eq(name, &sprites_pattern()) {
        return Some(FileClass::SpriteManifest);
    }
    let n = name.len();
    let mut i: usize = 0;
    while i < n && name[i] != 46u8
        invariant
            i <= n,
            n == name@.len(),
            forall|j: int| 0 <= j < i as int ==> name@[j] != 46u8,
        decreases n - i,
    {
        i += 1;
    }
    if i == n {
        proof {
            assert forall|k: int| !is_first_at(name@, 46u8, k) by {
                if 0 <= k < name@.len() {
                    assert(name@[k] != 46u8);
                }
            }
        }
        return None;
    }
    proof {
        assert(is_first_at(name@, 46u8, i as int));
        let w = choose|k: int| is_first_at(name@, 46u8, k);
        assert(is_first_at(name@, 46u8, w));
        if w < i as int {
            assert(name@[w] != 46u8);
        }
        if w > i as int {
            assert(name@[i as int] != 46u8);
        }
        assert(w == i as int);
    }
    let from = i + 1;
    if tail_matches(name, from, &png_pattern()) {
        Some(FileClass::Asset(AssetKind::Image))
    } else if tail_matches(name, from, &ttf_pattern()) {
        Some(FileClass::Asset(AssetKind::Font))
    } else if tail_matches(name, from, &sprites_pattern()) {
        Some(FileClass::SpriteManifest)
    } else {
        None
    }
}

} // verus!
