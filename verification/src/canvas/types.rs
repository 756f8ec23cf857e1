//! Typed data models for BuildingBlocks canvas records.
use vstd::prelude::*;

use crate::json::{Json, JsonNumber, JsonV};

verus! {

/// An RGBA colour stored as 8-bit components.
#[derive(Debug, Clone, Copy, PartialEq, Eq, Structural)]
pub struct RgbaColor {
    pub r: u8,
    pub g: u8,
    pub b: u8,
    pub a: u8,
}

impl RgbaColor {
    /// Opaque white.
    pub fn white() -> (r: Self)
        ensures
            r == (RgbaColor { r: 255, g: 255, b: 255, a: 255 }),
    {
        RgbaColor { r: 255, g: 255, b: 255, a: 255 }
    }
}

/// A typed default value of a binding slot. A float default keeps the JSON
/// number it was read from.
#[derive(Debug, PartialEq)]
pub enum Value {
    Bool(bool),
    Int(i64),
    Float(JsonNumber),
    Str(String),
    Guid(String),
}

/// The mathematical value of a [`Value`].
pub enum ValueV {
    Bool(bool),
    Int(i64),
    Float(JsonNumber),
    Str(Seq<char>),
    Guid(Seq<char>),
}

impl View for Value {
    type V = ValueV;

    open spec fn view(&self) -> ValueV {
        match self {
            Value::Bool(b) => ValueV::Bool(*b),
            Value::Int(i) => ValueV::Int(*i),
            Value::Float(f) => ValueV::Float(*f),
            Value::Str(s) => ValueV::Str(s@),
            Value::Guid(s) => ValueV::Guid(s@),
        }
    }
}

/// A typed widget component parsed from a `scene[]` entry.
#[derive(Debug)]
pub enum ViewComponent {
    WidgetCanvas {
        canvas_path: Option<String>,
        url_postfix: Option<String>,
        url_optional: Option<String>,
        sub_guid: Option<String>,
    },
    Sprite { swf_path: String, linkage_name: String },
    TextField {
        binding_path: Option<String>,
        default_text: Option<String>,
        font_id: Option<String>,
        color: Option<u32>,
    },
    Shape { shape_id: Option<u16>, fill: Option<u32> },
    Image { texture_path: String },
    Container { children: Vec<ViewComponent> },
}

/// The mathematical value of a [`ViewComponent`].
pub enum ViewComponentV {
    WidgetCanvas {
        canvas_path: Option<Seq<char>>,
        url_postfix: Option<Seq<char>>,
        url_optional: Option<Seq<char>>,
        sub_guid: Option<Seq<char>>,
    },
    Sprite { swf_path: Seq<char>, linkage_name: Seq<char> },
    TextField {
        binding_path: Option<Seq<char>>,
        default_text: Option<Seq<char>>,
        font_id: Option<Seq<char>>,
        color: Option<u32>,
    },
    Shape { shape_id: Option<u16>, fill: Option<u32> },
    Image { texture_path: Seq<char> },
    Container { children: Seq<ViewComponentV> },
}

pub open spec fn opt_string_view(o: Option<String>) -> Option<Seq<char>> {
    match o {
        Some(s) => Some(s@),
        None => None,
    }
}

pub open spec fn component_view(c: ViewComponent) -> ViewComponentV
    decreases c,
{
    match c {
        ViewComponent::WidgetCanvas { canvas_path, url_postfix, url_optional, sub_guid } =>
            ViewComponentV::WidgetCanvas {
            canvas_path: opt_string_view(canvas_path),
            url_postfix: opt_string_view(url_postfix),
            url_optional: opt_string_view(url_optional),
            sub_guid: opt_string_view(sub_guid),
        },
        ViewComponent::Sprite { swf_path, linkage_name } => ViewComponentV::Sprite {
            swf_path: swf_path@,
            linkage_name: linkage_name@,
        },
        ViewComponent::TextField { binding_path, default_text, font_id, color } =>
            ViewComponentV::TextField {
            binding_path: opt_string_view(binding_path),
            default_text: opt_string_view(default_text),
            font_id: opt_string_view(font_id),
            color,
        },
        ViewComponent::Shape { shape_id, fill } => ViewComponentV::Shape { shape_id, fill },
        ViewComponent::Image { texture_path } => ViewComponentV::Image { texture_path: texture_path@ },
        ViewComponent::Container { children } => ViewComponentV::Container {
            children: Seq::new(
                children@.len(),
                |i: int|
                    if 0 <= i < children@.len() {
                        component_view(children@[i])
                    } else {
                        ViewComponentV::Container { children: Seq::empty() }
                    },
            ),
        },
    }
}

impl View for ViewComponent {
    type V = ViewComponentV;

    open spec fn view(&self) -> ViewComponentV {
        component_view(*self)
    }
}

pub open spec fn components_view(s: Seq<ViewComponent>) -> Seq<ViewComponentV> {
    s.map_values(|c: ViewComponent| c@)
}

/// The view of a container holds the views of its children.
pub proof fn lemma_container_view(children: Vec<ViewComponent>)
    ensures
        component_view(ViewComponent::Container { children }) == (ViewComponentV::Container {
            children: components_view(children@),
        }),
{
    assert(component_view(ViewComponent::Container { children })->children =~= components_view(
        children@,
    ));
}

/// A named view definition within a canvas record.
#[derive(Debug)]
pub struct CanvasView {
    pub name: String,
    pub ordinal: u32,
    pub components: Vec<ViewComponent>,
    pub default: bool,
}

/// The mathematical value of a [`CanvasView`].
pub struct CanvasViewV {
    pub name: Seq<char>,
    pub ordinal: u32,
    pub components: Seq<ViewComponentV>,
    pub default: bool,
}

impl View for CanvasView {
    type V = CanvasViewV;

    open spec fn view(&self) -> CanvasViewV {
        CanvasViewV {
            name: self.name@,
            ordinal: self.ordinal,
            components: components_view(self.components@),
            default: self.default,
        }
    }
}

/// A flat scene-graph item from the `scene[]` array. Its `transform` is kept
/// as the JSON value it was read from; the remaining members are kept in
/// `properties` in record order.
#[derive(Debug)]
pub struct SceneItem {
    pub kind: String,
    pub guid: Option<String>,
    pub url_postfix: Option<String>,
    pub url_optional: Option<String>,
    pub transform: Option<Json>,
    pub color: Option<RgbaColor>,
    pub properties: Vec<(String, Json)>,
}

/// The mathematical value of a [`SceneItem`].
pub struct SceneItemV {
    pub kind: Seq<char>,
    pub guid: Option<Seq<char>>,
    pub url_postfix: Option<Seq<char>>,
    pub url_optional: Option<Seq<char>>,
    pub transform: Option<JsonV>,
    pub color: Option<RgbaColor>,
    pub properties: Seq<(Seq<char>, JsonV)>,
}

impl View for SceneItem {
    type V = SceneItemV;

    open spec fn view(&self) -> SceneItemV {
        SceneItemV {
            kind: self.kind@,
            guid: opt_string_view(self.guid),
            url_postfix: opt_string_view(self.url_postfix),
            url_optional: opt_string_view(self.url_optional),
            transform: match self.transform {
                Some(t) => Some(t@),
                None => None,
            },
            color: self.color,
            properties: self.properties@.map_values(|p: (String, Json)| (p.0@, p.1@)),
        }
    }
}

/// A data-binding operation from the `operations[]` array.
#[derive(Debug)]
pub struct Operation {
    pub kind: String,
    pub binding_path: Option<String>,
    pub target_property: Option<String>,
    pub default_value: Option<Value>,
}

/// The mathematical value of an [`Operation`].
pub struct OperationV {
    pub kind: Seq<char>,
    pub binding_path: Option<Seq<char>>,
    pub target_property: Option<Seq<char>>,
    pub default_value: Option<ValueV>,
}

impl View for Operation {
    type V = OperationV;

    open spec fn view(&self) -> OperationV {
        OperationV {
            kind: self.kind@,
            binding_path: opt_string_view(self.binding_path),
            target_property: opt_string_view(self.target_property),
            default_value: match self.default_value {
                Some(v) => Some(v@),
                None => None,
            },
        }
    }
}

/// The parsed in-memory representation of a BuildingBlocks canvas record.
#[derive(Debug)]
pub struct CanvasRecord {
    pub guid: String,
    pub name: String,
    pub views: Vec<CanvasView>,
    pub scene: Vec<SceneItem>,
    pub operations: Vec<Operation>,
}

/// The mathematical value of a [`CanvasRecord`].
pub struct CanvasRecordV {
    pub guid: Seq<char>,
    pub name: Seq<char>,
    pub views: Seq<CanvasViewV>,
    pub scene: Seq<SceneItemV>,
    pub operations: Seq<OperationV>,
}

impl View for CanvasRecord {
    type V = CanvasRecordV;

    open spec fn view(&self) -> CanvasRecordV {
        CanvasRecordV {
            guid: self.guid@,
            name: self.name@,
            views: self.views@.map_values(|v: CanvasView| v@),
            scene: self.scene@.map_values(|s: SceneItem| s@),
            operations: self.operations@.map_values(|o: Operation| o@),
        }
    }
}

} // verus!
