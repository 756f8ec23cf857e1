//! Node identifiers, node kinds and coordinate methods of BuildingBlocks scenes.
use vstd::prelude::*;

use crate::strs::{chars_eq_str, chars_of, copy_chars, string_of, strip_prefix, strip_prefix_str};

verus! {

/// The integer N extracted from a `"ptr:N"` pointer string.
pub type BbNodeId = u32;

/// Authoring rule for mapping canvas units into the render target.
#[derive(Debug, Clone, Copy, PartialEq, Eq, Structural)]
pub enum BbCoordinateMethod {
    UseRaw,
    Auto,
    AspectOverridesWidth,
    AspectOverridesHeight,
}

impl Default for BbCoordinateMethod {
    fn default() -> (r: Self)
        ensures
            r == BbCoordinateMethod::UseRaw,
    {
        BbCoordinateMethod::UseRaw
    }
}

/// The coordinate method named by a `coordinateMethod` value (absent means `useRaw`).
pub open spec fn spec_coordinate_method(value: Option<Seq<char>>) -> BbCoordinateMethod {
    match value {
        Some(v) => if v == "auto"@ {
            BbCoordinateMethod::Auto
        } else if v == "aspectOverridesWidth"@ {
            BbCoordinateMethod::AspectOverridesWidth
        } else if v == "aspectOverridesHeight"@ {
            BbCoordinateMethod::AspectOverridesHeight
        } else {
            BbCoordinateMethod::UseRaw
        },
        None => BbCoordinateMethod::UseRaw,
    }
}

impl BbCoordinateMethod {
    pub fn from_raw(value: Option<&str>) -> (r: Self)
        ensures
            r == spec_coordinate_method(
                match value {
                    Some(s) => Some(s@),
                    None => None,
                },
            ),
    {
        match value {
            None => BbCoordinateMethod::UseRaw,
            Some(s) => {
                let v = chars_of(s);
                if chars_eq_str(v.as_slice(), "auto") {
                    BbCoordinateMethod::Auto
                } else if chars_eq_str(v.as_slice(), "aspectOverridesWidth") {
                    BbCoordinateMethod::AspectOverridesWidth
                } else if chars_eq_str(v.as_slice(), "aspectOverridesHeight") {
                    BbCoordinateMethod::AspectOverridesHeight
                } else {
                    BbCoordinateMethod::UseRaw
                }
            },
        }
    }
}

/// Discriminant derived from the `_Type_` field of each scene element.
#[derive(Debug, Clone, PartialEq, Eq)]
pub enum BbNodeType {
    DisplayWidget,
    WidgetCanvas,
    WidgetIcon,
    WidgetCard,
    WidgetTextField,
    ComponentGeneralButton,
    ComponentGeneralButtonSecondary,
    WidgetImage,
    WidgetText,
    WidgetCustomShape,
    WidgetBodyBackground,
    /// Any `_Type_` not in the list above; the inner string is the full
    /// `BuildingBlocks_*` type name.
    Other(String),
}

/// `r` is the node kind of type string `s`: the part after an optional
/// `BuildingBlocks_` prefix names a known kind, or `r` is `Other(s)`.
pub open spec fn is_node_type_of(r: BbNodeType, s: Seq<char>) -> bool {
    let tail = match strip_prefix(s, "BuildingBlocks_"@) {
        Some(t) => t,
        None => s,
    };
    if tail == "DisplayWidget"@ {
        r == BbNodeType::DisplayWidget
    } else if tail == "WidgetCanvas"@ {
        r == BbNodeType::WidgetCanvas
    } else if tail == "WidgetIcon"@ {
        r == BbNodeType::WidgetIcon
    } else if tail == "WidgetCard"@ {
        r == BbNodeType::WidgetCard
    } else if tail == "WidgetTextField"@ {
        r == BbNodeType::WidgetTextField
    } else if tail == "ComponentGeneralButton"@ {
        r == BbNodeType::ComponentGeneralButton
    } else if tail == "ComponentGeneralButtonSecondary"@ {
        r == BbNodeType::ComponentGeneralButtonSecondary
    } else if tail == "WidgetImage"@ {
        r == BbNodeType::WidgetImage
    } else if tail == "WidgetText"@ {
        r == BbNodeType::WidgetText
    } else if tail == "WidgetCustomShape"@ {
        r == BbNodeType::WidgetCustomShape
    } else if tail == "WidgetBodyBackground"@ {
        r == BbNodeType::WidgetBodyBackground
    } else {
        r matches BbNodeType::Other(full) && full@ == s
    }
}

impl BbNodeType {
    pub fn from_type_str(s: &str) -> (r: Self)
        ensures
            is_node_type_of(r, s@),
    {
        let v = chars_of(s);
        let tail = match strip_prefix_str(v.as_slice(), "BuildingBlocks_") {
            Some(t) => t,
            None => copy_chars(v.as_slice()),
        };
        let t = tail.as_slice();
        if chars_eq_str(t, "DisplayWidget") {
            BbNodeType::DisplayWidget
        } else if chars_eq_str(t, "WidgetCanvas") {
            BbNodeType::WidgetCanvas
        } else if chars_eq_str(t, "WidgetIcon") {
            BbNodeType::WidgetIcon
        } else if chars_eq_str(t, "WidgetCard") {
            BbNodeType::WidgetCard
        } else if chars_eq_str(t, "WidgetTextField") {
            BbNodeType::WidgetTextField
        } else if chars_eq_str(t, "ComponentGeneralButton") {
            BbNodeType::ComponentGeneralButton
        } else if chars_eq_str(t, "ComponentGeneralButtonSecondary") {
            BbNodeType::ComponentGeneralButtonSecondary
        } else if chars_eq_str(t, "WidgetImage") {
            BbNodeType::WidgetImage
        } else if chars_eq_str(t, "WidgetText") {
            BbNodeType::WidgetText
        } else if chars_eq_str(t, "WidgetCustomShape") {
            BbNodeType::WidgetCustomShape
        } else if chars_eq_str(t, "WidgetBodyBackground") {
            BbNodeType::WidgetBodyBackground
        } else {
            BbNodeType::Other(string_of(v.as_slice()))
        }
    }
}

} // verus!
