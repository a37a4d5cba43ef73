use vstd::prelude::*;
use crate::keyword::{lower_of, same_text, to_lowercase, trim, trimmed};

verus! {

/// What the output is made of.
#[derive(Clone, Copy, Debug, PartialEq, Eq, Structural)]
pub enum ProgType {
    TXT,
    BRAILE,
}

/// How the source is brought down to the output grid.
#[derive(Clone, Copy, Debug, PartialEq, Eq, Structural)]
pub enum SegType {
    RESIZE,
    LEGACY,
}

/// Which quantization policy the ditherer follows.
#[derive(Clone, Copy, Debug, PartialEq, Eq, Structural)]
pub enum DithType {
    ONOFF,
    INTER,
}

/// A choice of options that cannot be served together.
#[derive(Clone, Copy, Debug, PartialEq, Eq, Structural)]
pub enum OptionConflict {
    /// Breakpoints were given to the on/off ditherer.
    PointsForOnOff,
}

pub open spec fn spec_prog_type(s: Seq<char>) -> Option<ProgType> {
    if s == seq!['t', 'x', 't'] {
        Some(ProgType::TXT)
    } else if s == seq!['b', 'r', 'a', 'i', 'l', 'e'] {
        Some(ProgType::BRAILE)
    } else {
        None
    }
}

pub open spec fn spec_seg_type(s: Seq<char>) -> Option<SegType> {
    if s == seq!['r', 'e', 's', 'i', 'z', 'e'] {
        Some(SegType::RESIZE)
    } else if s == seq!['l', 'e', 'g', 'a', 'c', 'y'] {
        Some(SegType::LEGACY)
    } else {
        None
    }
}

pub open spec fn spec_dith_type(s: Seq<char>) -> Option<DithType> {
    if s == seq!['o', 'n', 'o', 'f', 'f'] {
        Some(DithType::ONOFF)
    } else if s == seq!['i', 'n', 't', 'e', 'r'] || s == seq![
        'i', 'n', 't', 'e', 'r', 'p', 'o', 'l', 'a', 't', 'i', 'n', 'g',
    ] {
        Some(DithType::INTER)
    } else {
        None
    }
}

impl ProgType {
    /// The output type a lower-case word names: `txt` or `braile`.
    pub fn from_lower(word: &str) -> (r: Option<ProgType>)
        ensures
            r == spec_prog_type(word@),
    {
        proof {
            reveal_strlit("txt");
            assert("txt"@ =~= seq!['t', 'x', 't']);
            reveal_strlit("braile");
            assert("braile"@ =~= seq!['b', 'r', 'a', 'i', 'l', 'e']);
        }
        if same_text(word, "txt") {
            Some(ProgType::TXT)
        } else if same_text(word, "braile") {
            Some(ProgType::BRAILE)
        } else {
            None
        }
    }

    /// The output type an option value names, trimmed and in any case.
    pub fn parse(s: &str) -> (r: Option<ProgType>)
        ensures
            r == spec_prog_type(lower_of(trimmed(s@))),
    {
        let word = to_lowercase(trim(s));
        ProgType::from_lower(word.as_str())
    }
}

impl SegType {
    /// The segmentation a lower-case word names: `resize` or `legacy`.
    pub fn from_lower(word: &str) -> (r: Option<SegType>)
        ensures
            r == spec_seg_type(word@),
    {
        proof {
            reveal_strlit("resize");
            assert("resize"@ =~= seq!['r', 'e', 's', 'i', 'z', 'e']);
            reveal_strlit("legacy");
            assert("legacy"@ =~= seq!['l', 'e', 'g', 'a', 'c', 'y']);
        }
        if same_text(word, "resize") {
            Some(SegType::RESIZE)
        } else if same_text(word, "legacy") {
            Some(SegType::LEGACY)
        } else {
            None
        }
    }

    /// The segmentation an option value names, trimmed and in any case.
    pub fn parse(s: &str) -> (r: Option<SegType>)
        ensures
            r == spec_seg_type(lower_of(trimmed(s@))),
    {
        let word = to_lowercase(trim(s));
        SegType::from_lower(word.as_str())
    }
}

impl DithType {
    /// The ditherer a lower-case word names: `onoff`, or `inter` /
    /// `interpolating`.
    pub fn from_lower(word: &str) -> (r: Option<DithType>)
        ensures
            r == spec_dith_type(word@),
    {
        proof {
            reveal_strlit("onoff");
            assert("onoff"@ =~= seq!['o', 'n', 'o', 'f', 'f']);
            reveal_strlit("inter");
            assert("inter"@ =~= seq!['i', 'n', 't', 'e', 'r']);
            reveal_strlit("interpolating");
            assert("interpolating"@ =~= seq!['i', 'n', 't', 'e', 'r', 'p', 'o', 'l', 'a', 't', 'i', 'n', 'g']);
        }
        if same_text(word, "onoff") {
            Some(DithType::ONOFF)
        } else if same_text(word, "inter") || same_text(word, "interpolating") {
            Some(DithType::INTER)
        } else {
            None
        }
    }

    /// The ditherer an option value names, trimmed and in any case.
    pub fn parse(s: &str) -> (r: Option<DithType>)
        ensures
            r == spec_dith_type(lower_of(trimmed(s@))),
    {
        let word = to_lowercase(trim(s));
        DithType::from_lower(word.as_str())
    }
}

/// The warnings that Braille output draws where a ditherer or a
/// segmentation was asked for that it cannot serve.
pub open spec fn braille_fallbacks(dith_type: Option<DithType>, seg_type: Option<SegType>) -> Seq<
    Advisory,
> {
    (if dith_type == Some(DithType::INTER) {
        seq![Advisory::InterpolatingForBraille]
    } else {
        Seq::empty()
    }) + (if seg_type == Some(SegType::LEGACY) {
        seq![Advisory::LegacyForBraille]
    } else {
        Seq::empty()
    })
}

/// Settles the ditherer and the segmentation from what was asked for
/// (`None`: not asked). Breakpoints given to the on/off ditherer are refused.
/// Braille output always uses the on/off ditherer on a resized image; where
/// the interpolating ditherer or block averaging was asked for, it falls
/// back to them and reports the fact. Text output takes what was asked for,
/// by default the interpolating ditherer and block averaging.
pub fn check_combination(
    out_type: ProgType,
    dith_type: Option<DithType>,
    seg_type: Option<SegType>,
    has_points: bool,
) -> (r: Result<(DithType, SegType, Vec<Advisory>), OptionConflict>)
    ensures
        r is Err <==> dith_type == Some(DithType::ONOFF) && has_points,
        r matches Err(e) ==> e == OptionConflict::PointsForOnOff,
        r matches Ok(chosen) ==> out_type == ProgType::BRAILE ==> chosen.0 == DithType::ONOFF
            && chosen.1 == SegType::RESIZE && chosen.2@ == braille_fallbacks(dith_type, seg_type),
        r matches Ok(chosen) ==> out_type == ProgType::TXT ==> chosen.0 == (match dith_type {
            Some(d) => d,
            None => DithType::INTER,
        }) && chosen.1 == (match seg_type {
            Some(s) => s,
            None => SegType::LEGACY,
        }) && chosen.2@.len() == 0,
{
    if dith_type == Some(DithType::ONOFF) && has_points {
        return Err(OptionConflict::PointsForOnOff);
    }
    let mut warnings: Vec<Advisory> = Vec::new();
    match out_type {
        ProgType::BRAILE => {
            if dith_type == Some(DithType::INTER) {
                warnings.push(Advisory::InterpolatingForBraille);
            }
            if seg_type == Some(SegType::LEGACY) {
                warnings.push(Advisory::LegacyForBraille);
            }
            proof {
                assert(warnings@ =~= braille_fallbacks(dith_type, seg_type));
            }
            Ok((DithType::ONOFF, SegType::RESIZE, warnings))
        },
        ProgType::TXT => {
            let dith = match dith_type {
                Some(d) => d,
                None => DithType::INTER,
            };
            let seg = match seg_type {
                Some(s) => s,
                None => SegType::LEGACY,
            };
            Ok((dith, seg, warnings))
        },
    }
}

/// A warning about a request that is served, though not as asked.
#[derive(Clone, Copy, Debug, PartialEq, Eq, Structural)]
pub enum Advisory {
    /// More glyphs than breakpoints: some glyphs are never used.
    MoreGlyphsThanPoints,
    /// The on/off ditherer was given other than two glyphs: only the first
    /// and the last are used.
    OnOffUsesEndGlyphs,
    /// The on/off ditherer was given no threshold: one half is used.
    ThresholdAssumed,
    /// The interpolating ditherer was asked for Braille output, which only
    /// shows on/off dots: the on/off ditherer is used.
    InterpolatingForBraille,
    /// Block averaging was asked for Braille output: the image is resized
    /// instead.
    LegacyForBraille,
}

/// The warnings a dithering request draws, in the order they are reported:
/// for the interpolating ditherer with `points` breakpoints, whether there
/// are more glyphs than breakpoints; for the on/off ditherer, whether the
/// glyph count is other than two, then whether the threshold is missing.
pub fn advisories(dith_type: DithType, glyph_count: usize, points: Option<usize>, threshold_given: bool) -> (r:
    Vec<Advisory>)
    ensures
        dith_type == DithType::INTER ==> r@ == (match points {
            Some(n) => if glyph_count > n {
                seq![Advisory::MoreGlyphsThanPoints]
            } else {
                Seq::empty()
            },
            None => Seq::empty(),
        }),
        dith_type == DithType::ONOFF ==> r@ == (if glyph_count != 2 {
            seq![Advisory::OnOffUsesEndGlyphs]
        } else {
            Seq::empty()
        }) + (if threshold_given {
            Seq::empty()
        } else {
            seq![Advisory::ThresholdAssumed]
        }),
{
    let mut r: Vec<Advisory> = Vec::new();
    match dith_type {
        DithType::INTER => {
            match points {
                Some(n) => {
                    if glyph_count > n {
                        r.push(Advisory::MoreGlyphsThanPoints);
                    }
                },
                None => {},
            }
            proof {
                assert(r@ =~= (match points {
                    Some(n) => if glyph_count > n {
                        seq![Advisory::MoreGlyphsThanPoints]
                    } else {
                        Seq::empty()
                    },
                    None => Seq::empty(),
                }));
            }
        },
        DithType::ONOFF => {
            if glyph_count != 2 {
                r.push(Advisory::OnOffUsesEndGlyphs);
            }
            if !threshold_given {
                r.push(Advisory::ThresholdAssumed);
            }
            proof {
                assert(r@ =~= (if glyph_count != 2 {
                    seq![Advisory::OnOffUsesEndGlyphs]
                } else {
                    Seq::empty()
                }) + (if threshold_given {
                    Seq::empty()
                } else {
                    seq![Advisory::ThresholdAssumed]
                }));
            }
        },
    }
    r
}

/// The grid a Braille rendering works on: the width rounded up to an even
/// number, the height to the nearest multiple of four (a height two past a
/// multiple of four goes down).
pub fn braille_dims(width: u32, height: u32) -> (r: (u32, u32))
    requires
        width < u32::MAX,
        height < u32::MAX - 2,
    ensures
        r.0 == (if width % 2 == 0 {
            width as int
        } else {
            width + 1
        }),
        r.1 == (if height % 4 == 0 {
            height as int
        } else if height % 4 == 1 {
            height + 3
        } else if height % 4 == 2 {
            height - 2
        } else {
            height + 1
        }),
        r.0 % 2 == 0,
        r.1 % 4 == 0,
{
    let w = if width % 2 == 0 {
        width
    } else {
        width + 1
    };
    let rest = height % 4;
    let h = if rest == 0 {
        height
    } else if rest == 1 {
        height + 3
    } else if rest == 2 {
        height - 2
    } else {
        height + 1
    };
    (w, h)
}

} // verus!
