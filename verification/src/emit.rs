//! Emitter: serializes one manifest into the generated loading contract, a
//! single deterministic text artifact holding four coupled pieces that
//! reference each other by the same identifiers:
//!
//! 1. a resource bundle schema: a record type with one field per asset;
//! 2. per-asset binding statements inside a `build` template, which hand a
//!    raw descriptor `{bytes, path, mime}` to the decode transform of the
//!    asset's kind (one transform per kind, not per asset);
//! 3. an override pass `rewrap`, re-wrapping every already-bound identifier
//!    through a second per-kind transform without touching the first pass;
//! 4. one accessor per sprite region, returning a reference to the region's
//!    texture field plus its rect.
//!
//! Raw bytes are looked up by rooted relative path through a host-supplied
//! `fetch`, so the artifact depends on the manifest alone: the same tree
//! gives the same bytes, on any machine and any run.

use vstd::prelude::*;

use vstd::string::StrSliceExecFns;
use vstd::string::StringSliceAdditionalSpecFns;

use crate::catalogue::AssetRecordView;
use crate::catalogue::Manifest;
use crate::catalogue::ManifestView;
use crate::classify::AssetKind;
use crate::sprite::SpriteRegionView;
use crate::text::append_bytes;
use crate::text::dec_digits;
use crate::text::render_u32;

verus! {

/// The text before the schema fields: the raw descriptor type, the sprite
/// reference type, and the head of the bundle record type.
pub open spec fn prologue_text() -> Seq<u8> {
    "pub struct Raw{pub bytes:&'static [u8],pub path:&'static str,pub mime:&'static str}\npub struct Sprite<'a,Tex>{pub tex:&'a Tex,pub rect:(u32,u32,u32,u32)}\npub struct Resources<Tex,Font>{\n".spec_bytes()
}

/// The text between the schema fields and the binding statements.
pub open spec fn build_head_text() -> Seq<u8> {
    "}\nimpl<Tex,Font> Resources<Tex,Font>{\npub fn build(mut fetch:impl FnMut(&'static str)->&'static [u8],mut png:impl FnMut(Raw)->Tex,mut ttf:impl FnMut(Raw)->Font)->Self{\nResources{\n".spec_bytes()
}

/// The text between the binding statements and the override pass.
pub open spec fn rewrap_head_text() -> Seq<u8> {
    "}\n}\npub fn rewrap<Tex2,Font2>(self,mut png:impl FnMut(Tex)->Tex2,mut ttf:impl FnMut(Font)->Font2)->Resources<Tex2,Font2>{\nResources{\n".spec_bytes()
}

/// The text between the override pass and the sprite accessors.
pub open spec fn accessors_head_text() -> Seq<u8> {
    "}\n}\n".spec_bytes()
}

/// The closing text.
pub open spec fn epilogue_text() -> Seq<u8> {
    "}\n".spec_bytes()
}

/// The name of the decoded value type of a kind.
pub open spec fn kind_type_text(kind: AssetKind) -> Seq<u8> {
    match kind {
        AssetKind::Image => "Tex".spec_bytes(),
        AssetKind::Font => "Font".spec_bytes(),
    }
}

/// The name of the decode transform of a kind.
pub open spec fn kind_fn_text(kind: AssetKind) -> Seq<u8> {
    match kind {
        AssetKind::Image => "png".spec_bytes(),
        AssetKind::Font => "ttf".spec_bytes(),
    }
}

/// One schema field: `pub <identifier>:<type>,`.
pub open spec fn field_of(a: AssetRecordView) -> Seq<u8> {
    "pub ".spec_bytes() + a.identifier + ":".spec_bytes() + kind_type_text(a.kind)
        + ",\n".spec_bytes()
}

/// One binding statement: the raw descriptor of the asset handed to the
/// decode transform of its kind.
pub open spec fn binding_of(a: AssetRecordView) -> Seq<u8> {
    a.identifier + ":".spec_bytes() + kind_fn_text(a.kind) + "(Raw{bytes:fetch(\"".spec_bytes()
        + a.relative_path + "\"),path:\"".spec_bytes() + a.relative_path + "\",mime:\"".spec_bytes()
        + a.mime + "\"}),\n".spec_bytes()
}

/// One override line: the bound value handed to the second transform.
pub open spec fn rewrap_of(a: AssetRecordView) -> Seq<u8> {
    a.identifier + ":".spec_bytes() + kind_fn_text(a.kind) + "(self.".spec_bytes() + a.identifier
        + "),\n".spec_bytes()
}

/// One sprite accessor: a reference to the texture field plus the rect.
pub open spec fn accessor_of(s: SpriteRegionView) -> Seq<u8> {
    "pub fn ".spec_bytes() + s.identifier + "(&self)->Sprite<Tex>{\nSprite{tex:&self.".spec_bytes()
        + s.texture_identifier + ",rect:(".spec_bytes() + dec_digits(s.rect.0 as nat)
        + ",".spec_bytes() + dec_digits(s.rect.1 as nat) + ",".spec_bytes() + dec_digits(
        s.rect.2 as nat,
    ) + ",".spec_bytes() + dec_digits(s.rect.3 as nat) + ")}\n}\n".spec_bytes()
}

/// All schema fields, in discovery order.
pub open spec fn fields_of(assets: Seq<AssetRecordView>) -> Seq<u8>
    decreases assets.len(),
{
    if assets.len() == 0 {
        Seq::empty()
    } else {
        fields_of(assets.drop_last()) + field_of(assets.last())
    }
}

/// All binding statements, in discovery order.
pub open spec fn bindings_of(assets: Seq<AssetRecordView>) -> Seq<u8>
    decreases assets.len(),
{
    if assets.len() == 0 {
        Seq::empty()
    } else {
        bindings_of(assets.drop_last()) + binding_of(assets.last())
    }
}

/// All override lines, in discovery order.
pub open spec fn rewraps_of(assets: Seq<AssetRecordView>) -> Seq<u8>
    decreases assets.len(),
{
    if assets.len() == 0 {
        Seq::empty()
    } else {
        rewraps_of(assets.drop_last()) + rewrap_of(assets.last())
    }
}

/// All sprite accessors, in file order.
pub open spec fn accessors_of(regions: Seq<SpriteRegionView>) -> Seq<u8>
    decreases regions.len(),
{
    if regions.len() == 0 {
        Seq::empty()
    } else {
        accessors_of(regions.drop_last()) + accessor_of(regions.last())
    }
}

/// The whole generated artifact of a manifest.
pub open spec fn emit_of(m: ManifestView) -> Seq<u8> {
    prologue_text() + fields_of(m.assets) + build_head_text() + bindings_of(m.assets)
        + rewrap_head_text() + rewraps_of(m.assets) + accessors_head_text() + accessors_of(
        m.regions,
    ) + epilogue_text()
}

/// Law: emission is deterministic; equal manifests give byte-identical
/// artifacts, on any run.
pub proof fn lemma_emit_deterministic(a: ManifestView, b: ManifestView)
    requires
        a == b,
    ensures
        emit_of(a) == emit_of(b),
{
}

/// Appends the bytes of a fixed text chunk.
fn push_text(out: &mut Vec<u8>, chunk: &str)
    ensures
        final(out)@ == old(out)@ + chunk.spec_bytes(),
{
    let bytes = chunk.as_bytes_vec();
    append_bytes(out, &bytes);
}

/// Appends one schema field.
fn push_field(out: &mut Vec<u8>, a: &crate::catalogue::AssetRecord)
    ensures
        final(out)@ == old(out)@ + field_of(a@),
{
    push_text(out, "pub ");
    append_bytes(out, &a.identifier);
    push_text(out, ":");
    match a.kind {
        AssetKind::Image => push_text(out, "Tex"),
        AssetKind::Font => push_text(out, "Font"),
    }
    push_text(out, ",\n");
    proof {
        assert(out@ =~= old(out)@ + field_of(a@));
    }
}

/// Appends one binding statement.
fn push_binding(out: &mut Vec<u8>, a: &crate::catalogue::AssetRecord)
    ensures
        final(out)@ == old(out)@ + binding_of(a@),
{
    append_bytes(out, &a.identifier);
    push_text(out, ":");
    match a.kind {
        AssetKind::Image => push_text(out, "png"),
        AssetKind::Font => push_text(out, "ttf"),
    }
    push_text(out, "(Raw{bytes:fetch(\"");
    append_bytes(out, &a.relative_path);
    push_text(out, "\"),path:\"");
    append_bytes(out, &a.relative_path);
    push_text(out, "\",mime:\"");
    append_bytes(out, &a.mime);
    push_text(out, "\"}),\n");
    proof {
        assert(out@ =~= old(out)@ + binding_of(a@));
    }
}

/// Appends one override line.
fn push_rewrap(out: &mut Vec<u8>, a: &crate::catalogue::AssetRecord)
    ensures
        final(out)@ == old(out)@ + rewrap_of(a@),
{
    append_bytes(out, &a.identifier);
    push_text(out, ":");
    match a.kind {
        AssetKind::Image => push_text(out, "png"),
        AssetKind::Font => push_text(out, "ttf"),
    }
    push_text(out, "(self.");
    append_bytes(out, &a.identifier);
    push_text(out, "),\n");
    proof {
        assert(out@ =~= old(out)@ + rewrap_of(a@));
    }
}

/// Appends one sprite accessor.
fn push_accessor(out: &mut Vec<u8>, s: &crate::sprite::SpriteRegion)
    ensures
        final(out)@ == old(out)@ + accessor_of(s@),
{
    push_text(out, "pub fn ");
    append_bytes(out, &s.identifier);
    push_text(out, "(&self)->Sprite<Tex>{\nSprite{tex:&self.");
    append_bytes(out, &s.texture_identifier);
    push_text(out, ",rect:(");
    let x = render_u32(s.rect.0);
    append_bytes(out, &x);
    push_text(out, ",");
    let y = render_u32(s.rect.1);
    append_bytes(out, &y);
    push_text(out, ",");
    let w = render_u32(s.rect.2);
    append_bytes(out, &w);
    push_text(out, ",");
    let h = render_u32(s.rect.3);
    append_bytes(out, &h);
    push_text(out, ")}\n}\n");
    proof {
        assert(out@ =~= old(out)@ + accessor_of(s@));
    }
}

/// Serializes the manifest into the generated artifact.
#[verifier::rlimit(60)]
pub fn emit(m: &Manifest) -> (r: Vec<u8>)
    ensures
        r@ == emit_of(m@),
{
    let mut out: Vec<u8> = Vec::new();
    push_text(&mut out, "pub struct Raw{pub bytes:&'static [u8],pub path:&'static str,pub mime:&'static str}\npub struct Sprite<'a,Tex>{pub tex:&'a Tex,pub rect:(u32,u32,u32,u32)}\npub struct Resources<Tex,Font>{\n");
    let ghost with_prologue = out@;

    let n = m.assets.len();
    let mut i: usize = 0;
    while i < n
        invariant
            i <= n,
            n == m.assets@.len(),
            out@ == with_prologue + fields_of(m.assets.deep_view().subrange(0, i as int)),
        decreases n - i,
    {
        push_field(&mut out, &m.assets[i]);
        proof {
            let dv = m.assets.deep_view();
            let sub = dv.subrange(0, i + 1 as int);
            assert(sub.drop_last() =~= dv.subrange(0, i as int));
            assert(sub.last() == m.assets@[i as int]@);
            assert(out@ =~= with_prologue + fields_of(sub));
        }
        i += 1;
    }
    proof {
        assert(m.assets.deep_view().subrange(0, n as int) =~= m.assets.deep_view());
    }

    push_text(&mut out, "}\nimpl<Tex,Font> Resources<Tex,Font>{\npub fn build(mut fetch:impl FnMut(&'static str)->&'static [u8],mut png:impl FnMut(Raw)->Tex,mut ttf:impl FnMut(Raw)->Font)->Self{\nResources{\n");
    let ghost with_build_head = out@;

    let mut i: usize = 0;
    while i < n
        invariant
            i <= n,
            n == m.assets@.len(),
            out@ == with_build_head + bindings_of(m.assets.deep_view().subrange(0, i as int)),
        decreases n - i,
    {
        push_binding(&mut out, &m.assets[i]);
        proof {
            let dv = m.assets.deep_view();
            let sub = dv.subrange(0, i + 1 as int);
            assert(sub.drop_last() =~= dv.subrange(0, i as int));
            assert(sub.last() == m.assets@[i as int]@);
            assert(out@ =~= with_build_head + bindings_of(sub));
        }
        i += 1;
    }
    proof {
        assert(m.assets.deep_view().subrange(0, n as int) =~= m.assets.deep_view());
    }

    push_text(&mut out, "}\n}\npub fn rewrap<Tex2,Font2>(self,mut png:impl FnMut(Tex)->Tex2,mut ttf:impl FnMut(Font)->Font2)->Resources<Tex2,Font2>{\nResources{\n");
    let ghost with_rewrap_head = out@;

    let mut i: usize = 0;
    while i < n
        invariant
            i <= n,
            n == m.assets@.len(),
            out@ == with_rewrap_head + rewraps_of(m.assets.deep_view().subrange(0, i as int)),
        decreases n - i,
    {
        push_rewrap(&mut out, &m.assets[i]);
        proof {
            let dv = m.assets.deep_view();
            let sub = dv.subrange(0, i + 1 as int);
            assert(sub.drop_last() =~= dv.subrange(0, i as int));
            assert(sub.last() == m.assets@[i as int]@);
            assert(out@ =~= with_rewrap_head + rewraps_of(sub));
        }
        i += 1;
    }
    proof {
        assert(m.assets.deep_view().subrange(0, n as int) =~= m.assets.deep_view());
    }

    push_text(&mut out, "}\n}\n");
    let ghost with_accessors_head = out@;

    let rn = m.regions.len();
    let mut i: usize = 0;
    while i < rn
        invariant
            i <= rn,
            rn == m.regions@.len(),
            out@ == with_accessors_head + accessors_of(m.regions.deep_view().subrange(0, i as int)),
        decreases rn - i,
    {
        push_accessor(&mut out, &m.regions[i]);
        proof {
            let dv = m.regions.deep_view();
            let sub = dv.subrange(0, i + 1 as int);
            assert(sub.drop_last() =~= dv.subrange(0, i as int));
            assert(sub.last() == m.regions@[i as int]@);
            assert(out@ =~= with_accessors_head + accessors_of(sub));
        }
        i += 1;
    }
    proof {
        assert(m.regions.deep_view().subrange(0, rn as int) =~= m.regions.deep_view());
    }

    push_text(&mut out, "}\n");
    proof {
        assert(out@ =~= emit_of(m@));
    }
    out
}

} // verus!
