//! Composition helpers that do not draw: output dimensions, brand slugs and
//! the provenance of the font a text is drawn with.
use vstd::prelude::*;

pub mod bounds;
pub mod brand;
pub mod matte;
pub mod text_style;

verus! {

/// Output canvas dimensions in pixels.
pub struct ComposeTarget {
    pub width: u32,
    pub height: u32,
}

/// Where the font of a text came from: the record's own font symbol, or one
/// of the fallbacks tried in turn.
#[derive(Debug, Clone, Copy, PartialEq, Eq, Structural)]
pub enum FontSelectionSource {
    ResolvedRecordSymbol,
    Title3ExportFallback,
    PreferredExportFallback,
    PreferredNameFallback,
}

impl FontSelectionSource {
    /// The label of the source in diagnostics.
    pub fn as_str(self) -> (r: &'static str)
        ensures
            r@ == match self {
                FontSelectionSource::ResolvedRecordSymbol => "resolved-record-symbol"@,
                FontSelectionSource::Title3ExportFallback => "title3-export-fallback"@,
                FontSelectionSource::PreferredExportFallback => "preferred-export-fallback"@,
                FontSelectionSource::PreferredNameFallback => "preferred-name-fallback"@,
            },
    {
        match self {
            FontSelectionSource::ResolvedRecordSymbol => "resolved-record-symbol",
            FontSelectionSource::Title3ExportFallback => "title3-export-fallback",
            FontSelectionSource::PreferredExportFallback => "preferred-export-fallback",
            FontSelectionSource::PreferredNameFallback => "preferred-name-fallback",
        }
    }

    /// Every source but the record's own symbol is a fallback.
    pub fn is_fallback(self) -> (r: bool)
        ensures
            r == !(self is ResolvedRecordSymbol),
    {
        !matches!(self, FontSelectionSource::ResolvedRecordSymbol)
    }
}

} // verus!
