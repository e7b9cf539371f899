//! Sprite manifest parser: reads a structured text manifest, one sprite
//! sub-region per line, and produces named rectangular regions bound to a
//! texture identifier.
//!
//! A line holds exactly six comma-separated fields, in this order:
//! `texture_token, region_name, x, y, w, h`. Any other field count, and any
//! non-numeric coordinate, is a fatal parse error; there is no line-skipping
//! and no partial recovery.

use vstd::prelude::*;

use crate::text::append_bytes;
use crate::text::copy_bytes;
use crate::text::dec_value;
use crate::text::parse_u32;
use crate::text::split_bytes;
use crate::text::split_on;
use crate::text::sub_bytes;
use crate::text::valid_u32_field;

verus! {

/// A named rectangular sub-region of a texture asset.
#[derive(Debug, PartialEq, Eq)]
pub struct SpriteRegion {
    /// The manifest file's own identifier, an underscore, and the region name.
    pub identifier: Vec<u8>,
    /// Identifier of the texture asset this region refers to. The reference
    /// is not checked here: a broken one is a consumer-time error.
    pub texture_identifier: Vec<u8>,
    /// `(x, y, w, h)`, four non-negative integers.
    pub rect: (u32, u32, u32, u32),
}

/// Mathematical model of a sprite region.
pub ghost struct SpriteRegionView {
    pub identifier: Seq<u8>,
    pub texture_identifier: Seq<u8>,
    pub rect: (u32, u32, u32, u32),
}

impl View for SpriteRegion {
    type V = SpriteRegionView;

    open spec fn view(&self) -> SpriteRegionView {
        SpriteRegionView {
            identifier: self.identifier@,
            texture_identifier: self.texture_identifier@,
            rect: self.rect,
        }
    }
}

impl DeepView for SpriteRegion {
    type V = SpriteRegionView;

    open spec fn deep_view(&self) -> SpriteRegionView {
        self@
    }
}

/// Why one manifest line was rejected.
#[derive(Clone, Copy, PartialEq, Eq, Debug, Structural)]
pub enum LineFault {
    /// The line has this many comma-separated fields instead of six.
    FieldCount(usize),
    /// One of the four coordinates is not an unsigned decimal number that
    /// fits 32 bits.
    BadCoordinate,
}

/// A fatal fault in a sprite manifest: the offending line and its fault.
#[derive(Clone, Copy, PartialEq, Eq, Debug, Structural)]
pub struct ManifestFault {
    /// Index of the offending line, counted from zero.
    pub line: usize,
    /// What was wrong with it.
    pub fault: LineFault,
}

/// Mathematical model of a manifest fault.
pub ghost struct ManifestFaultView {
    pub line: int,
    pub fault: LineFault,
}

impl View for ManifestFault {
    type V = ManifestFaultView;

    open spec fn view(&self) -> ManifestFaultView {
        ManifestFaultView { line: self.line as int, fault: self.fault }
    }
}

/// Texture-token normal form of one byte: a dot or a slash becomes an
/// underscore, matching the identifier the classifier synthesizes for the
/// texture's path.
pub open spec fn texture_byte(b: u8) -> u8 {
    if b == 46u8 || b == 47u8 {
        95u8
    } else {
        b
    }
}

/// The texture identifier a texture token normalizes to.
pub open spec fn texture_identifier_of(token: Seq<u8>) -> Seq<u8> {
    Seq::new(token.len(), |i: int| texture_byte(token[i]))
}

/// The result of parsing one manifest line against the identifier of the
/// manifest file it stands in.
pub open spec fn parse_line_of(file_ident: Seq<u8>, line: Seq<u8>) -> Result<
    SpriteRegionView,
    LineFault,
> {
    let fields = split_on(line, 44u8);
    if fields.len() != 6 {
        Err(LineFault::FieldCount(fields.len() as usize))
    } else if !(valid_u32_field(fields[2]) && valid_u32_field(fields[3]) && valid_u32_field(
        fields[4],
    ) && valid_u32_field(fields[5])) {
        Err(LineFault::BadCoordinate)
    } else {
        Ok(
            SpriteRegionView {
                identifier: file_ident + seq![95u8] + fields[1],
                texture_identifier: texture_identifier_of(fields[0]),
                rect: (
                    dec_value(fields[2]) as u32,
                    dec_value(fields[3]) as u32,
                    dec_value(fields[4]) as u32,
                    dec_value(fields[5]) as u32,
                ),
            },
        )
    }
}

/// A line with a trailing carriage return sheds it.
pub open spec fn strip_cr(line: Seq<u8>) -> Seq<u8> {
    if line.len() > 0 && line.last() == 13u8 {
        line.drop_last()
    } else {
        line
    }
}

/// The lines of a manifest text: split on every newline, drop the empty
/// trailing piece a final newline leaves, shed one trailing carriage return
/// per line.
pub open spec fn manifest_lines(text: Seq<u8>) -> Seq<Seq<u8>> {
    let raw = split_on(text, 10u8);
    let trimmed = if raw.len() > 0 && raw.last().len() == 0 {
        raw.drop_last()
    } else {
        raw
    };
    trimmed.map_values(|l: Seq<u8>| strip_cr(l))
}

/// The result of parsing a sequence of manifest lines: the regions of every
/// line, in file order, or the first fault with its line index.
pub open spec fn parse_lines_of(file_ident: Seq<u8>, lines: Seq<Seq<u8>>) -> Result<
    Seq<SpriteRegionView>,
    ManifestFaultView,
>
    decreases lines.len(),
{
    if lines.len() == 0 {
        Ok(Seq::empty())
    } else {
        match parse_line_of(file_ident, lines.first()) {
            Err(fault) => Err(ManifestFaultView { line: 0, fault }),
            Ok(region) => match parse_lines_of(file_ident, lines.drop_first()) {
                Err(mf) => Err(ManifestFaultView { line: mf.line + 1, fault: mf.fault }),
                Ok(rest) => Ok(seq![region] + rest),
            },
        }
    }
}

/// The result of parsing a whole manifest text.
pub open spec fn parse_manifest_of(file_ident: Seq<u8>, text: Seq<u8>) -> Result<
    Seq<SpriteRegionView>,
    ManifestFaultView,
> {
    parse_lines_of(file_ident, manifest_lines(text))
}

/// The regions of the lines before `k`, in order, assuming they all parse.
pub open spec fn parsed_prefix(file_ident: Seq<u8>, lines: Seq<Seq<u8>>, k: int) -> Seq<
    SpriteRegionView,
> {
    Seq::new(k as nat, |j: int| parse_line_of(file_ident, lines[j])->Ok_0)
}

/// Parsing a line sequence whose first `k` lines parse cleanly is: parse the
/// rest, shift any fault by `k`, and put the first `k` regions in front.
pub proof fn lemma_parse_lines_split(file_ident: Seq<u8>, lines: Seq<Seq<u8>>, k: int)
    requires
        0 <= k <= lines.len(),
        forall|j: int| 0 <= j < k ==> parse_line_of(file_ident, #[trigger] lines[j]) is Ok,
    ensures
        parse_lines_of(file_ident, lines) == match parse_lines_of(
            file_ident,
            lines.subrange(k, lines.len() as int),
        ) {
            Ok(rest) => Ok::<Seq<SpriteRegionView>, ManifestFaultView>(
                parsed_prefix(file_ident, lines, k) + rest,
            ),
            Err(mf) => Err::<Seq<SpriteRegionView>, ManifestFaultView>(
                ManifestFaultView { line: mf.line + k, fault: mf.fault },
            ),
        },
    decreases k,
{
    let n = lines.len() as int;
    if k == 0 {
        assert(lines.subrange(0, n) =~= lines);
        match parse_lines_of(file_ident, lines) {
            Ok(rest) => {
                assert(parsed_prefix(file_ident, lines, 0) + rest =~= rest);
            },
            Err(_) => {},
        }
    } else {
        lemma_parse_lines_split(file_ident, lines, k - 1);
        let tail = lines.subrange(k - 1, n);
        assert(tail.first() == lines[k - 1]);
        assert(tail.drop_first() =~= lines.subrange(k, n));
        let region = parse_line_of(file_ident, lines[k - 1])->Ok_0;
        match parse_lines_of(file_ident, lines.subrange(k, n)) {
            Ok(rest) => {
                assert(parse_lines_of(file_ident, tail) == Ok::<
                    Seq<SpriteRegionView>,
                    ManifestFaultView,
                >(seq![region] + rest));
                assert(parsed_prefix(file_ident, lines, k - 1) + (seq![region] + rest)
                    =~= parsed_prefix(file_ident, lines, k) + rest);
            },
            Err(mf) => {
                assert(parse_lines_of(file_ident, tail) == Err::<
                    Seq<SpriteRegionView>,
                    ManifestFaultView,
                >(ManifestFaultView { line: mf.line + 1, fault: mf.fault }));
            },
        }
    }
}

/// Normalizes a texture token into the identifier form of the texture it
/// refers to: `.` and `/` become `_`.
pub fn normalize_texture(token: &Vec<u8>) -> (r: Vec<u8>)
    ensures
        r@ == texture_identifier_of(token@),
{
    let mut r: Vec<u8> = Vec::new();
    let n = token.len();
    let mut i: usize = 0;
    while i < n
        invariant
            i <= n,
            n == token@.len(),
            r@ =~= texture_identifier_of(token@).subrange(0, i as int),
        decreases n - i,
    {
        let b = token[i];
        if b == 46u8 || b == 47u8 {
            r.push(95u8);
        } else {
            r.push(b);
        }
        proof {
            assert(texture_identifier_of(token@).subrange(0, i + 1 as int)
                =~= texture_identifier_of(token@).subrange(0, i as int).push(
                texture_byte(token@[i as int]),
            ));
        }
        i += 1;
    }
    proof {
        assert(texture_identifier_of(token@).subrange(0, n as int) =~= texture_identifier_of(
            token@,
        ));
    }
    r
}

/// Parses one manifest line. Exactly six comma-separated fields are required;
/// the last four must be unsigned decimal numbers.
pub fn parse_line(file_ident: &Vec<u8>, line: &Vec<u8>) -> (r: Result<SpriteRegion, LineFault>)
    ensures
        match r {
            Ok(region) => parse_line_of(file_ident@, line@) == Ok::<SpriteRegionView, LineFault>(
                region@,
            ),
            Err(fault) => parse_line_of(file_ident@, line@) == Err::<SpriteRegionView, LineFault>(
                fault,
            ),
        },
{
    let fields = split_bytes(line, 44u8);
    if fields.len() != 6 {
        return Err(LineFault::FieldCount(fields.len()));
    }
    let x = match parse_u32(&fields[2]) {
        Some(x) => x,
        None => {
            return Err(LineFault::BadCoordinate);
        },
    };
    let y = match parse_u32(&fields[3]) {
        Some(y) => y,
        None => {
            return Err(LineFault::BadCoordinate);
        },
    };
    let w = match parse_u32(&fields[4]) {
        Some(w) => w,
        None => {
            return Err(LineFault::BadCoordinate);
        },
    };
    let h = match parse_u32(&fields[5]) {
        Some(h) => h,
        None => {
            return Err(LineFault::BadCoordinate);
        },
    };
    let mut identifier = copy_bytes(file_ident);
    identifier.push(95u8);
    append_bytes(&mut identifier, &fields[1]);
    let texture_identifier = normalize_texture(&fields[0]);
    let region = SpriteRegion { identifier, texture_identifier, rect: (x, y, w, h) };
    proof {
        assert(identifier@ =~= file_ident@ + seq![95u8] + split_on(line@, 44u8)[1]);
    }
    Ok(region)
}

/// The lines of a manifest text, ready to parse.
pub fn split_lines(text: &Vec<u8>) -> (r: Vec<Vec<u8>>)
    ensures
        r@.len() == manifest_lines(text@).len(),
        forall|k: int| 0 <= k < r@.len() ==> (#[trigger] r@[k])@ == manifest_lines(text@)[k],
{
    let mut raw = split_bytes(text, 10u8);
    let ghost spec_raw = split_on(text@, 10u8);
    if raw.len() > 0 && raw[raw.len() - 1].len() == 0 {
        proof {
            assert(spec_raw.last().len() == 0);
        }
        raw.pop();
    }
    let ghost trimmed = if spec_raw.len() > 0 && spec_raw.last().len() == 0 {
        spec_raw.drop_last()
    } else {
        spec_raw
    };
    let mut out: Vec<Vec<u8>> = Vec::new();
    let n = raw.len();
    let mut i: usize = 0;
    while i < n
        invariant
            i <= n,
            n == raw@.len(),
            raw@.len() == trimmed.len(),
            forall|k: int| 0 <= k < raw@.len() ==> (#[trigger] raw@[k])@ == trimmed[k],
            out@.len() == i as int,
            forall|k: int| 0 <= k < i as int ==> (#[trigger] out@[k])@ == strip_cr(trimmed[k]),
        decreases n - i,
    {
        let piece = &raw[i];
        let m = piece.len();
        let stripped = if m > 0 && piece[m - 1] == 13u8 {
            let s = sub_bytes(piece, 0, m - 1);
            proof {
                assert(s@ =~= strip_cr(piece@));
            }
            s
        } else {
            let s = copy_bytes(piece);
            proof {
                assert(s@ =~= strip_cr(piece@));
            }
            s
        };
        out.push(stripped);
        i += 1;
    }
    proof {
        assert(manifest_lines(text@) =~= trimmed.map_values(|l: Seq<u8>| strip_cr(l)));
    }
    out
}

/// Parses a whole sprite manifest text against the identifier of the manifest
/// file. All lines parse, in file order, or the first fault aborts.
pub fn parse_manifest(file_ident: &Vec<u8>, text: &Vec<u8>) -> (r: Result<
    Vec<SpriteRegion>,
    ManifestFault,
>)
    ensures
        match r {
            Ok(regions) => parse_manifest_of(file_ident@, text@) == Ok::<
                Seq<SpriteRegionView>,
                ManifestFaultView,
            >(regions.deep_view()),
            Err(mf) => parse_manifest_of(file_ident@, text@) == Err::<
                Seq<SpriteRegionView>,
                ManifestFaultView,
            >(mf@),
        },
{
    let lines = split_lines(text);
    let ghost spec_lines = manifest_lines(text@);
    let n = lines.len();
    let mut out: Vec<SpriteRegion> = Vec::new();
    let mut i: usize = 0;
    while i < n
        invariant
            i <= n,
            n == lines@.len(),
            spec_lines == manifest_lines(text@),
            lines@.len() == spec_lines.len(),
            forall|k: int| 0 <= k < lines@.len() ==> (#[trigger] lines@[k])@ == spec_lines[k],
            out@.len() == i as int,
            forall|j: int|
                0 <= j < i as int ==> parse_line_of(file_ident@, #[trigger] spec_lines[j]) is Ok,
            forall|j: int|
                0 <= j < i as int ==> (#[trigger] out@[j])@ == parse_line_of(
                    file_ident@,
                    spec_lines[j],
                )->Ok_0,
        decreases n - i,
    {
        match parse_line(file_ident, &lines[i]) {
            Ok(region) => {
                out.push(region);
            },
            Err(fault) => {
                proof {
                    lemma_parse_lines_split(file_ident@, spec_lines, i as int);
                    let tail = spec_lines.subrange(i as int, spec_lines.len() as int);
                    assert(tail.first() == spec_lines[i as int]);
                    assert(parse_line_of(file_ident@, tail.first()) == Err::<
                        SpriteRegionView,
                        LineFault,
                    >(fault));
                    assert(parse_lines_of(file_ident@, tail) == Err::<
                        Seq<SpriteRegionView>,
                        ManifestFaultView,
                    >(ManifestFaultView { line: 0, fault }));
                }
                return Err(ManifestFault { line: i, fault });
            },
        }
        i += 1;
    }
    proof {
        lemma_parse_lines_split(file_ident@, spec_lines, n as int);
        let tail = spec_lines.subrange(n as int, spec_lines.len() as int);
        assert(tail.len() == 0);
        assert(parse_lines_of(file_ident@, tail) == Ok::<Seq<SpriteRegionView>, ManifestFaultView>(
            Seq::empty(),
        ));
        assert(out.deep_view() =~= parsed_prefix(file_ident@, spec_lines, n as int)
            + Seq::<SpriteRegionView>::empty());
    }
    Ok(out)
}

/// Law: a line with exactly six comma-separated fields whose last four are
/// unsigned decimal numbers parses, and the region carries exactly the
/// specified rect, name and normalized texture reference.
pub proof fn lemma_line_accepted(file_ident: Seq<u8>, line: Seq<u8>)
    requires
        split_on(line, 44u8).len() == 6,
        valid_u32_field(split_on(line, 44u8)[2]),
        valid_u32_field(split_on(line, 44u8)[3]),
        valid_u32_field(split_on(line, 44u8)[4]),
        valid_u32_field(split_on(line, 44u8)[5]),
    ensures
        parse_line_of(file_ident, line) == Ok::<SpriteRegionView, LineFault>(
            SpriteRegionView {
                identifier: file_ident + seq![95u8] + split_on(line, 44u8)[1],
                texture_identifier: texture_identifier_of(split_on(line, 44u8)[0]),
                rect: (
                    dec_value(split_on(line, 44u8)[2]) as u32,
                    dec_value(split_on(line, 44u8)[3]) as u32,
                    dec_value(split_on(line, 44u8)[4]) as u32,
                    dec_value(split_on(line, 44u8)[5]) as u32,
                ),
            },
        ),
{
}

/// Law: a line with fewer or more than six comma-separated fields is a
/// fatal parse error and yields no region; the fault names the count found.
pub proof fn lemma_line_rejected(file_ident: Seq<u8>, line: Seq<u8>)
    requires
        split_on(line, 44u8).len() != 6,
    ensures
        parse_line_of(file_ident, line) == Err::<SpriteRegionView, LineFault>(
            LineFault::FieldCount(split_on(line, 44u8).len() as usize),
        ),
{
}

/// Law: a fatal line makes the whole manifest fatal: no region of any line
/// survives, and the fault names the first offending line.
pub proof fn lemma_manifest_aborts(file_ident: Seq<u8>, text: Seq<u8>, k: int)
    requires
        0 <= k < manifest_lines(text).len(),
        parse_line_of(file_ident, manifest_lines(text)[k]) is Err,
        forall|j: int|
            0 <= j < k ==> parse_line_of(file_ident, #[trigger] manifest_lines(text)[j]) is Ok,
    ensures
        parse_manifest_of(file_ident, text) is Err,
        parse_manifest_of(file_ident, text)->Err_0.line == k,
{
    let lines = manifest_lines(text);
    lemma_parse_lines_split(file_ident, lines, k);
    let tail = lines.subrange(k, lines.len() as int);
    assert(tail.first() == lines[k]);
}

} // verus!
