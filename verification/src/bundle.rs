//! The two-phase loading protocol over a catalogue, as verified code: the
//! same contract the generated template promises its consumer. Phase one
//! hands every asset's raw descriptor to the decode transform of its kind,
//! one transform per kind; phase two, for hosts that need it, re-wraps every
//! bound value through a second per-kind transform. No asset's construction
//! observes another asset's decoded value, so the entries are mutually
//! independent.

use vstd::prelude::*;

use crate::catalogue::Manifest;
use crate::catalogue::ManifestView;
use crate::classify::AssetKind;
use crate::text::copy_bytes;
use crate::sprite::SpriteRegion;
use crate::text::bytes_eq;

verus! {

/// A raw asset descriptor, as handed to a decode transform.
pub struct RawAsset {
    /// The asset's bytes, fetched by the host.
    pub bytes: Vec<u8>,
    /// Rooted relative path.
    pub path: Vec<u8>,
    /// MIME string.
    pub mime: Vec<u8>,
}

/// Mathematical model of a raw asset descriptor.
pub ghost struct RawAssetView {
    pub bytes: Seq<u8>,
    pub path: Seq<u8>,
    pub mime: Seq<u8>,
}

impl View for RawAsset {
    type V = RawAssetView;

    open spec fn view(&self) -> RawAssetView {
        RawAssetView { bytes: self.bytes@, path: self.path@, mime: self.mime@ }
    }
}

/// A decoded value, tagged by its asset's kind.
pub enum Loaded<T, F> {
    Image(T),
    Font(F),
}

/// A resource bundle value: one decoded entry per asset, in schema order,
/// each keyed by its identifier, plus the sprite regions.
pub struct Bundle<T, F> {
    pub entries: Vec<(Vec<u8>, Loaded<T, F>)>,
    pub regions: Vec<SpriteRegion>,
}

/// The raw descriptor of asset `i`, given the bytes the host fetched.
pub open spec fn raw_view_at(m: ManifestView, raw_bytes: Seq<Seq<u8>>, i: int) -> RawAssetView {
    RawAssetView {
        bytes: raw_bytes[i],
        path: m.assets[i].relative_path,
        mime: m.assets[i].mime,
    }
}

/// The decoded entry of one asset: the decode transform of its kind,
/// applied to its raw descriptor, produced the held value.
pub open spec fn entry_decodes<T, F, FI: Fn(RawAsset) -> T, FF: Fn(RawAsset) -> F>(
    decode_image: FI,
    decode_font: FF,
    rv: RawAssetView,
    kind: AssetKind,
    l: Loaded<T, F>,
) -> bool {
    match kind {
        AssetKind::Image => exists|raw: RawAsset, t: T|
            {
                &&& raw@ == rv
                &&& l == Loaded::<T, F>::Image(t)
                &&& #[trigger] call_ensures(decode_image, (raw,), t)
            },
        AssetKind::Font => exists|raw: RawAsset, f: F|
            {
                &&& raw@ == rv
                &&& l == Loaded::<T, F>::Font(f)
                &&& #[trigger] call_ensures(decode_font, (raw,), f)
            },
    }
}

/// One re-wrapped entry: the override transform of the held value's kind
/// turned `before` into `after`.
pub open spec fn entry_rewraps<T, F, T2, F2, GI: Fn(T) -> T2, GF: Fn(F) -> F2>(
    over_image: GI,
    over_font: GF,
    before: Loaded<T, F>,
    after: Loaded<T2, F2>,
) -> bool {
    match before {
        Loaded::Image(t) => exists|t2: T2|
            {
                &&& after == Loaded::<T2, F2>::Image(t2)
                &&& #[trigger] call_ensures(over_image, (t,), t2)
            },
        Loaded::Font(f) => exists|f2: F2|
            {
                &&& after == Loaded::<T2, F2>::Font(f2)
                &&& #[trigger] call_ensures(over_font, (f,), f2)
            },
    }
}

/// Copies a sprite region.
fn copy_region(s: &SpriteRegion) -> (r: SpriteRegion)
    ensures
        r@ == s@,
{
    SpriteRegion {
        identifier: copy_bytes(&s.identifier),
        texture_identifier: copy_bytes(&s.texture_identifier),
        rect: s.rect,
    }
}

/// Copies the sprite regions of a manifest.
fn copy_regions(m: &Manifest) -> (r: Vec<SpriteRegion>)
    ensures
        r.deep_view() == m@.regions,
{
    let mut r: Vec<SpriteRegion> = Vec::new();
    let n = m.regions.len();
    let mut i: usize = 0;
    while i < n
        invariant
            i <= n,
            n == m.regions@.len(),
            r@.len() == i as int,
            forall|k: int| 0 <= k < i as int ==> (#[trigger] r@[k])@ == m.regions@[k]@,
        decreases n - i,
    {
        r.push(copy_region(&m.regions[i]));
        i += 1;
    }
    proof {
        assert(r.deep_view() =~= m@.regions);
    }
    r
}

/// Phase one: builds the bundle by applying the decode transform of each
/// asset's kind to its raw descriptor, in schema order. `raw_bytes` holds
/// the bytes the host fetched for each asset, in the same order.
pub fn build_bundle<T, F, FI: Fn(RawAsset) -> T, FF: Fn(RawAsset) -> F>(
    m: &Manifest,
    raw_bytes: Vec<Vec<u8>>,
    decode_image: FI,
    decode_font: FF,
) -> (b: Bundle<T, F>)
    requires
        raw_bytes@.len() == m.assets@.len(),
        forall|i: int, raw: RawAsset|
            #![trigger m.assets@[i], call_requires(decode_image, (raw,))]
            0 <= i < m.assets@.len() && raw@ == raw_view_at(m@, raw_bytes.deep_view(), i)
                && m.assets@[i]@.kind == AssetKind::Image ==> call_requires(decode_image, (raw,)),
        forall|i: int, raw: RawAsset|
            #![trigger m.assets@[i], call_requires(decode_font, (raw,))]
            0 <= i < m.assets@.len() && raw@ == raw_view_at(m@, raw_bytes.deep_view(), i)
                && m.assets@[i]@.kind == AssetKind::Font ==> call_requires(decode_font, (raw,)),
    ensures
        b.regions.deep_view() == m@.regions,
        b.entries@.len() == m.assets@.len(),
        forall|i: int|
            0 <= i < b.entries@.len() ==> (#[trigger] b.entries@[i]).0@
                == m.assets@[i]@.identifier,
        forall|i: int|
            0 <= i < b.entries@.len() ==> entry_decodes(
                decode_image,
                decode_font,
                raw_view_at(m@, raw_bytes.deep_view(), i),
                m.assets@[i]@.kind,
                (#[trigger] b.entries@[i]).1,
            ),
{
    let ghost all_raw = raw_bytes.deep_view();
    let mut rest = raw_bytes;
    let mut entries: Vec<(Vec<u8>, Loaded<T, F>)> = Vec::new();
    let n = m.assets.len();
    let mut i: usize = 0;
    while i < n
        invariant
            i <= n,
            n == m.assets@.len(),
            all_raw.len() == n as int,
            rest.deep_view() =~= all_raw.subrange(i as int, n as int),
            forall|k: int, raw: RawAsset|
                #![trigger m.assets@[k], call_requires(decode_image, (raw,))]
                0 <= k < m.assets@.len() && raw@ == raw_view_at(m@, all_raw, k)
                    && m.assets@[k]@.kind == AssetKind::Image ==> call_requires(
                    decode_image,
                    (raw,),
                ),
            forall|k: int, raw: RawAsset|
                #![trigger m.assets@[k], call_requires(decode_font, (raw,))]
                0 <= k < m.assets@.len() && raw@ == raw_view_at(m@, all_raw, k)
                    && m.assets@[k]@.kind == AssetKind::Font ==> call_requires(
                    decode_font,
                    (raw,),
                ),
            entries@.len() == i as int,
            forall|k: int|
                0 <= k < i as int ==> (#[trigger] entries@[k]).0@ == m.assets@[k]@.identifier,
            forall|k: int|
                0 <= k < i as int ==> entry_decodes(
                    decode_image,
                    decode_font,
                    raw_view_at(m@, all_raw, k),
                    m.assets@[k]@.kind,
                    (#[trigger] entries@[k]).1,
                ),
        decreases n - i,
    {
        proof {
            assert(rest.deep_view().len() == n - i);
            assert(rest@.len() == rest.deep_view().len());
            assert(rest@[0]@ == rest.deep_view()[0]);
            assert(rest.deep_view()[0] == all_raw[i as int]);
        }
        let ghost rest_pre = rest@;
        let ghost dv_pre = rest.deep_view();
        let bytes = rest.remove(0);
        proof {
            assert(bytes@ =~= all_raw[i as int]);
            assert forall|k: int|
                0 <= k < rest@.len() implies #[trigger] rest.deep_view()[k] == all_raw[i + 1
                + k] by {
                assert(rest@[k] == rest_pre[k + 1]);
                assert(rest.deep_view()[k] == rest@[k].deep_view());
                assert(dv_pre[k + 1] == rest_pre[k + 1].deep_view());
                assert(dv_pre[k + 1] == all_raw[i + 1 + k]);
            }
            assert(rest.deep_view() =~= all_raw.subrange(i + 1 as int, n as int));
        }
        let a = &m.assets[i];
        let raw = RawAsset {
            bytes,
            path: copy_bytes(&a.relative_path),
            mime: copy_bytes(&a.mime),
        };
        proof {
            assert(raw@ == raw_view_at(m@, all_raw, i as int));
        }
        let ident = copy_bytes(&a.identifier);
        let ghost raw_snapshot = raw;
        match a.kind {
            AssetKind::Image => {
                let t = decode_image(raw);
                let ghost t_snapshot = t;
                entries.push((ident, Loaded::Image(t)));
                proof {
                    assert(entries@[i as int].1 == Loaded::<T, F>::Image(t_snapshot));
                    assert(call_ensures(decode_image, (raw_snapshot,), t_snapshot));
                    assert(raw_snapshot@ == raw_view_at(m@, all_raw, i as int));
                    assert(entry_decodes(
                        decode_image,
                        decode_font,
                        raw_view_at(m@, all_raw, i as int),
                        AssetKind::Image,
                        entries@[i as int].1,
                    ));
                }
            },
            AssetKind::Font => {
                let f = decode_font(raw);
                let ghost f_snapshot = f;
                entries.push((ident, Loaded::Font(f)));
                proof {
                    assert(entries@[i as int].1 == Loaded::<T, F>::Font(f_snapshot));
                    assert(call_ensures(decode_font, (raw_snapshot,), f_snapshot));
                    assert(raw_snapshot@ == raw_view_at(m@, all_raw, i as int));
                    assert(entry_decodes(
                        decode_image,
                        decode_font,
                        raw_view_at(m@, all_raw, i as int),
                        AssetKind::Font,
                        entries@[i as int].1,
                    ));
                }
            },
        }
        i += 1;
    }
    let regions = copy_regions(m);
    Bundle { entries, regions }
}

/// Phase two: re-wraps every already-bound value through a second per-kind
/// transform, leaving keys, order and regions untouched.
pub fn rewrap_bundle<T, F, T2, F2, GI: Fn(T) -> T2, GF: Fn(F) -> F2>(
    b: Bundle<T, F>,
    over_image: GI,
    over_font: GF,
) -> (r: Bundle<T2, F2>)
    requires
        forall|i: int, t: T|
            #![trigger b.entries@[i], call_requires(over_image, (t,))]
            0 <= i < b.entries@.len() && b.entries@[i].1 == Loaded::<T, F>::Image(t)
                ==> call_requires(over_image, (t,)),
        forall|i: int, f: F|
            #![trigger b.entries@[i], call_requires(over_font, (f,))]
            0 <= i < b.entries@.len() && b.entries@[i].1 == Loaded::<T, F>::Font(f)
                ==> call_requires(over_font, (f,)),
    ensures
        r.regions.deep_view() == b.regions.deep_view(),
        r.entries@.len() == b.entries@.len(),
        forall|i: int|
            0 <= i < r.entries@.len() ==> (#[trigger] r.entries@[i]).0@ == b.entries@[i].0@,
        forall|i: int|
            0 <= i < r.entries@.len() ==> entry_rewraps(
                over_image,
                over_font,
                b.entries@[i].1,
                (#[trigger] r.entries@[i]).1,
            ),
{
    let ghost all = b.entries@;
    let Bundle { entries, regions } = b;
    let mut rest = entries;
    let mut out: Vec<(Vec<u8>, Loaded<T2, F2>)> = Vec::new();
    let n = rest.len();
    let mut i: usize = 0;
    while i < n
        invariant
            i <= n,
            n == all.len(),
            rest@ =~= all.subrange(i as int, n as int),
            forall|k: int, t: T|
                #![trigger all[k], call_requires(over_image, (t,))]
                0 <= k < all.len() && all[k].1 == Loaded::<T, F>::Image(t)
                    ==> call_requires(over_image, (t,)),
            forall|k: int, f: F|
                #![trigger all[k], call_requires(over_font, (f,))]
                0 <= k < all.len() && all[k].1 == Loaded::<T, F>::Font(f)
                    ==> call_requires(over_font, (f,)),
            out@.len() == i as int,
            forall|k: int| 0 <= k < i as int ==> (#[trigger] out@[k]).0@ == all[k].0@,
            forall|k: int|
                0 <= k < i as int ==> entry_rewraps(
                    over_image,
                    over_font,
                    all[k].1,
                    (#[trigger] out@[k]).1,
                ),
        decreases n - i,
    {
        let (ident, loaded) = rest.remove(0);
        proof {
            assert((ident, loaded) == all[i as int]);
            assert(rest@ =~= all.subrange(i + 1 as int, n as int));
        }
        match loaded {
            Loaded::Image(t) => {
                let ghost t_snapshot = t;
                let t2 = over_image(t);
                let ghost t2_snapshot = t2;
                out.push((ident, Loaded::Image(t2)));
                proof {
                    assert(out@[i as int].1 == Loaded::<T2, F2>::Image(t2_snapshot));
                    assert(call_ensures(over_image, (t_snapshot,), t2_snapshot));
                    assert(entry_rewraps(over_image, over_font, all[i as int].1, out@[i as int].1));
                }
            },
            Loaded::Font(f) => {
                let ghost f_snapshot = f;
                let f2 = over_font(f);
                let ghost f2_snapshot = f2;
                out.push((ident, Loaded::Font(f2)));
                proof {
                    assert(out@[i as int].1 == Loaded::<T2, F2>::Font(f2_snapshot));
                    assert(call_ensures(over_font, (f_snapshot,), f2_snapshot));
                    assert(entry_rewraps(over_image, over_font, all[i as int].1, out@[i as int].1));
                }
            },
        }
        i += 1;
    }
    Bundle { entries: out, regions }
}

/// `i` is the first entry whose key is `ident`.
pub open spec fn is_first_entry<T, F>(
    entries: Seq<(Vec<u8>, Loaded<T, F>)>,
    ident: Seq<u8>,
    i: int,
) -> bool {
    &&& 0 <= i < entries.len()
    &&& entries[i].0@ == ident
    &&& forall|j: int| 0 <= j < i ==> (#[trigger] entries[j]).0@ != ident
}

/// `j` is the first region whose identifier is `ident`.
pub open spec fn is_first_region(regions: Seq<SpriteRegion>, ident: Seq<u8>, j: int) -> bool {
    &&& 0 <= j < regions.len()
    &&& regions[j]@.identifier == ident
    &&& forall|k: int| 0 <= k < j ==> (#[trigger] regions[k])@.identifier != ident
}

impl<T, F> Bundle<T, F> {
    /// The decoded value bound to `identifier`: the first entry with that
    /// key, as the generated schema's field access would resolve it. Later
    /// entries under a colliding identifier are shadowed.
    pub fn field<'a>(&'a self, identifier: &Vec<u8>) -> (r: Option<&'a Loaded<T, F>>)
        ensures
            ({
                if exists|i: int| is_first_entry(self.entries@, identifier@, i) {
                    let i = choose|i: int| is_first_entry(self.entries@, identifier@, i);
                    r matches Some(l) && *l == self.entries@[i].1
                } else {
                    r is None
                }
            }),
    {
        let n = self.entries.len();
        let mut i: usize = 0;
        while i < n
            invariant
                i <= n,
                n == self.entries@.len(),
                forall|j: int|
                    0 <= j < i as int ==> (#[trigger] self.entries@[j]).0@ != identifier@,
            decreases n - i,
        {
            if bytes_eq(&self.entries[i].0, identifier) {
                proof {
                    assert(is_first_entry(self.entries@, identifier@, i as int));
                    let w = choose|k: int| is_first_entry(self.entries@, identifier@, k);
                    assert(is_first_entry(self.entries@, identifier@, w));
                    if w < i as int {
                        assert(self.entries@[w].0@ != identifier@);
                    }
                    if w > i as int {
                        assert(self.entries@[i as int].0@ != identifier@);
                    }
                    assert(w == i as int);
                }
                return Some(&self.entries[i].1);
            }
            i += 1;
        }
        proof {
            assert forall|k: int| !is_first_entry(self.entries@, identifier@, k) by {
                if 0 <= k < self.entries@.len() {
                    assert(self.entries@[k].0@ != identifier@);
                }
            }
        }
        None
    }

    /// The sprite bound to `identifier`: a reference to its texture's
    /// decoded value plus its rect, as the generated accessor would resolve
    /// it. `None` when the region is unknown or its texture reference is
    /// broken: that is a consumer-time fault, not caught at build time.
    pub fn sprite<'a>(&'a self, identifier: &Vec<u8>) -> (r: Option<(&'a T, (u32, u32, u32, u32))>)
        ensures
            ({
                if exists|j: int| is_first_region(self.regions@, identifier@, j) {
                    let j = choose|j: int| is_first_region(self.regions@, identifier@, j);
                    let tex = self.regions@[j]@.texture_identifier;
                    if exists|i: int| is_first_entry(self.entries@, tex, i) {
                        let i = choose|i: int| is_first_entry(self.entries@, tex, i);
                        match self.entries@[i].1 {
                            Loaded::Image(t) => r matches Some(p) && *p.0 == t && p.1
                                == self.regions@[j]@.rect,
                            Loaded::Font(_) => r is None,
                        }
                    } else {
                        r is None
                    }
                } else {
                    r is None
                }
            }),
    {
        let rn = self.regions.len();
        let mut j: usize = 0;
        while j < rn
            invariant
                j <= rn,
                rn == self.regions@.len(),
                forall|k: int|
                    0 <= k < j as int ==> (#[trigger] self.regions@[k])@.identifier != identifier@,
            decreases rn - j,
        {
            if bytes_eq(&self.regions[j].identifier, identifier) {
                proof {
                    assert(is_first_region(self.regions@, identifier@, j as int));
                    let w = choose|k: int| is_first_region(self.regions@, identifier@, k);
                    assert(is_first_region(self.regions@, identifier@, w));
                    if w < j as int {
                        assert(self.regions@[w]@.identifier != identifier@);
                    }
                    if w > j as int {
                        assert(self.regions@[j as int]@.identifier != identifier@);
                    }
                    assert(w == j as int);
                }
                let region = &self.regions[j];
                match self.field(&region.texture_identifier) {
                    Some(l) => match l {
                        Loaded::Image(t) => {
                            return Some((t, region.rect));
                        },
                        Loaded::Font(_) => {
                            return None;
                        },
                    },
                    None => {
                        return None;
                    },
                }
            }
            j += 1;
        }
        proof {
            assert forall|k: int| !is_first_region(self.regions@, identifier@, k) by {
                if 0 <= k < self.regions@.len() {
                    assert(self.regions@[k]@.identifier != identifier@);
                }
            }
        }
        None
    }
}

/// Phase one with identity decode transforms: every entry holds exactly the
/// raw bytes the host fetched for its asset.
pub fn build_bundle_raw(m: &Manifest, raw_bytes: Vec<Vec<u8>>) -> (b: Bundle<Vec<u8>, Vec<u8>>)
    requires
        raw_bytes@.len() == m.assets@.len(),
    ensures
        b.regions.deep_view() == m@.regions,
        b.entries@.len() == m.assets@.len(),
        forall|i: int|
            0 <= i < b.entries@.len() ==> (#[trigger] b.entries@[i]).0@
                == m.assets@[i]@.identifier,
        forall|i: int|
            0 <= i < b.entries@.len() ==> match m.assets@[i]@.kind {
                AssetKind::Image => (#[trigger] b.entries@[i]).1 matches Loaded::Image(t) && t@
                    == raw_bytes.deep_view()[i],
                AssetKind::Font => (#[trigger] b.entries@[i]).1 matches Loaded::Font(f) && f@
                    == raw_bytes.deep_view()[i],
            },
{
    let ghost all_raw = raw_bytes.deep_view();
    let decode_image = |raw: RawAsset| -> (v: Vec<u8>)
        ensures
            v@ == raw.bytes@,
        { raw.bytes };
    let decode_font = |raw: RawAsset| -> (v: Vec<u8>)
        ensures
            v@ == raw.bytes@,
        { raw.bytes };
    let b = build_bundle(m, raw_bytes, decode_image, decode_font);
    proof {
        assert forall|i: int| 0 <= i < b.entries@.len() implies match m.assets@[i]@.kind {
            AssetKind::Image => (#[trigger] b.entries@[i]).1 matches Loaded::Image(t) && t@
                == all_raw[i],
            AssetKind::Font => (#[trigger] b.entries@[i]).1 matches Loaded::Font(f) && f@
                == all_raw[i],
        } by {
            assert(entry_decodes(
                decode_image,
                decode_font,
                raw_view_at(m@, all_raw, i),
                m.assets@[i]@.kind,
                b.entries@[i].1,
            ));
            match m.assets@[i]@.kind {
                AssetKind::Image => {
                    let (raw, t) = choose|raw: RawAsset, t: Vec<u8>|
                        {
                            &&& raw@ == raw_view_at(m@, all_raw, i)
                            &&& b.entries@[i].1 == Loaded::<Vec<u8>, Vec<u8>>::Image(t)
                            &&& #[trigger] call_ensures(decode_image, (raw,), t)
                        };
                    assert(t@ == raw.bytes@);
                },
                AssetKind::Font => {
                    let (raw, f) = choose|raw: RawAsset, f: Vec<u8>|
                        {
                            &&& raw@ == raw_view_at(m@, all_raw, i)
                            &&& b.entries@[i].1 == Loaded::<Vec<u8>, Vec<u8>>::Font(f)
                            &&& #[trigger] call_ensures(decode_font, (raw,), f)
                        };
                    assert(f@ == raw.bytes@);
                },
            }
        }
    }
    b
}

/// Law: the round trip closes. A bundle built over a manifest with distinct
/// identifiers and identity decode transforms resolves every asset's
/// identifier to that asset's own entry, which holds exactly the raw bytes
/// recorded for the asset.
pub proof fn lemma_identity_round_trip(
    m: ManifestView,
    raws: Seq<Seq<u8>>,
    entries: Seq<(Vec<u8>, Loaded<Vec<u8>, Vec<u8>>)>,
    k: int,
)
    requires
        entries.len() == m.assets.len(),
        raws.len() == m.assets.len(),
        forall|i: int|
            0 <= i < entries.len() ==> (#[trigger] entries[i]).0@ == m.assets[i].identifier,
        forall|i: int|
            0 <= i < entries.len() ==> match m.assets[i].kind {
                AssetKind::Image => (#[trigger] entries[i]).1 matches Loaded::Image(t) && t@
                    == raws[i],
                AssetKind::Font => (#[trigger] entries[i]).1 matches Loaded::Font(f) && f@
                    == raws[i],
            },
        forall|i: int, j: int|
            0 <= i < j < m.assets.len() ==> (#[trigger] m.assets[i]).identifier != (
            #[trigger] m.assets[j]).identifier,
        0 <= k < entries.len(),
    ensures
        is_first_entry(entries, m.assets[k].identifier, k),
        match m.assets[k].kind {
            AssetKind::Image => entries[k].1 matches Loaded::Image(t) && t@ == raws[k],
            AssetKind::Font => entries[k].1 matches Loaded::Font(f) && f@ == raws[k],
        },
{
    let idents = Seq::new(m.assets.len(), |i: int| m.assets[i].identifier);
    lemma_bundle_round_trip(entries, idents, k);
}

/// Looking an identifier up in entries keyed by distinct identifiers
/// resolves to the entry's own position.
pub proof fn lemma_bundle_round_trip<T, F>(
    entries: Seq<(Vec<u8>, Loaded<T, F>)>,
    idents: Seq<Seq<u8>>,
    k: int,
)
    requires
        entries.len() == idents.len(),
        forall|i: int| 0 <= i < entries.len() ==> (#[trigger] entries[i]).0@ == idents[i],
        forall|i: int, j: int| 0 <= i < j < idents.len() ==> idents[i] != idents[j],
        0 <= k < entries.len(),
    ensures
        is_first_entry(entries, idents[k], k),
{
    assert forall|j: int| 0 <= j < k implies (#[trigger] entries[j]).0@ != idents[k] by {
        assert(idents[j] != idents[k]);
    }
}

} // verus!
