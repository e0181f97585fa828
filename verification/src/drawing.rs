//! The artwork to convert, with everything resolved that the conversion looks at.

use crate::binary64::Binary64;
use crate::error::ConversionError;
use crate::rings::{Contour, FillRule};
use vstd::prelude::*;

verus! {

/// A screen color.
#[derive(Debug, Clone, Copy, PartialEq, Eq, Structural)]
pub struct Color {
    /// The red channel.
    pub red: u8,
    /// The green channel.
    pub green: u8,
    /// The blue channel.
    pub blue: u8,
}

/// How opaque something is: nothing shows at zero, nothing shines through at one.
#[derive(Debug)]
pub struct Opacity {
    /// The value.
    pub value: Binary64,
    /// The value as text with three decimals.
    pub text: String,
}

/// A color that runs from one to the next.
#[derive(Debug)]
pub struct Gradient {
    /// The average color.
    pub average: Color,
    /// The opacity of every color stop.
    pub stop_opacities: Vec<Binary64>,
}

/// What something is painted with.
#[derive(Debug)]
pub enum Paint {
    /// One color.
    Color(Color),
    /// A gradient along a line.
    LinearGradient(Gradient),
    /// A gradient around a point.
    RadialGradient(Gradient),
    /// Repeated artwork.
    Pattern,
}

/// The closed contours of an outline, or why it has none.
pub type Outline = Result<Vec<Contour>, ConversionError>;

/// How the inside of a shape is painted.
pub struct Fill {
    /// How opaque the paint is.
    pub opacity: Opacity,
    /// The paint.
    pub paint: Paint,
    /// What counts as inside.
    pub rule: FillRule,
    /// The outline of the shape.
    pub outline: Outline,
}

/// What a line of some width covers.
pub enum StrokeOutline {
    /// The line could not be broken into dashes.
    DashFailed,
    /// The line could not be widened.
    ExpansionFailed,
    /// The outline of what it covers.
    Covered(Outline),
}

/// How the line along the edge of a shape is painted.
pub struct Stroke {
    /// How opaque the paint is.
    pub opacity: Opacity,
    /// The paint.
    pub paint: Paint,
    /// What the line covers.
    pub outline: StrokeOutline,
}

/// Which of the two is painted over the other.
#[derive(Debug, Clone, Copy, PartialEq, Eq, Structural)]
pub enum PaintOrder {
    /// The stroke over the fill.
    FillAndStroke,
    /// The fill over the stroke.
    StrokeAndFill,
}

/// One shape.
pub struct Shape {
    /// Its name in the artwork; may be empty.
    pub id: String,
    /// Whether it is shown.
    pub visible: bool,
    /// What is painted first.
    pub paint_order: PaintOrder,
    /// The inside, if it is painted.
    pub fill: Option<Fill>,
    /// The edge, if it is painted.
    pub stroke: Option<Stroke>,
}

/// How a group mixes with what lies below it.
#[derive(Debug, Clone, Copy, PartialEq, Eq, Structural)]
pub enum BlendMode {
    Normal,
    Multiply,
    Screen,
    Overlay,
    Darken,
    Lighten,
    ColorDodge,
    ColorBurn,
    HardLight,
    SoftLight,
    Difference,
    Exclusion,
    Hue,
    Saturation,
    Color,
    Luminosity,
    PlusLighter,
}

/// Shapes and images that belong together.
pub struct Group {
    /// How opaque the group is as a whole.
    pub opacity: Opacity,
    /// How it mixes with what lies below it.
    pub blend_mode: BlendMode,
    /// Whether it is clipped.
    pub has_clip_path: bool,
    /// Whether it is masked.
    pub has_mask: bool,
    /// Whether it is filtered.
    pub has_filters: bool,
    /// What it consists of, from the bottom up.
    pub children: Vec<Node>,
}

/// One part of the artwork.
pub enum Node {
    /// A group.
    Group(Group),
    /// A shape.
    Shape(Shape),
    /// Text, as the shapes of its letters.
    Text(Group),
    /// A raster or embedded image.
    Image,
}

/// The whole artwork.
pub struct Drawing {
    /// Physical width in millimetres.
    pub width_mm: Binary64,
    /// Physical height in millimetres.
    pub height_mm: Binary64,
    /// The outermost group.
    pub root: Group,
}

impl BlendMode {
    /// The name of the mode.
    pub open spec fn named(self) -> Seq<char> {
        match self {
            BlendMode::Normal => "Normal"@,
            BlendMode::Multiply => "Multiply"@,
            BlendMode::Screen => "Screen"@,
            BlendMode::Overlay => "Overlay"@,
            BlendMode::Darken => "Darken"@,
            BlendMode::Lighten => "Lighten"@,
            BlendMode::ColorDodge => "ColorDodge"@,
            BlendMode::ColorBurn => "ColorBurn"@,
            BlendMode::HardLight => "HardLight"@,
            BlendMode::SoftLight => "SoftLight"@,
            BlendMode::Difference => "Difference"@,
            BlendMode::Exclusion => "Exclusion"@,
            BlendMode::Hue => "Hue"@,
            BlendMode::Saturation => "Saturation"@,
            BlendMode::Color => "Color"@,
            BlendMode::Luminosity => "Luminosity"@,
            BlendMode::PlusLighter => "PlusLighter"@,
        }
    }

    /// The name of the mode.
    pub fn name(self) -> (name: &'static str)
        ensures
            name@ == self.named(),
    {
        match self {
            BlendMode::Normal => "Normal",
            BlendMode::Multiply => "Multiply",
            BlendMode::Screen => "Screen",
            BlendMode::Overlay => "Overlay",
            BlendMode::Darken => "Darken",
            BlendMode::Lighten => "Lighten",
            BlendMode::ColorDodge => "ColorDodge",
            BlendMode::ColorBurn => "ColorBurn",
            BlendMode::HardLight => "HardLight",
            BlendMode::SoftLight => "SoftLight",
            BlendMode::Difference => "Difference",
            BlendMode::Exclusion => "Exclusion",
            BlendMode::Hue => "Hue",
            BlendMode::Saturation => "Saturation",
            BlendMode::Color => "Color",
            BlendMode::Luminosity => "Luminosity",
            BlendMode::PlusLighter => "PlusLighter",
        }
    }
}

impl Shape {
    /// How messages refer to the shape.
    pub open spec fn described(self) -> Seq<char> {
        if self.id@.len() == 0 {
            "an unnamed SVG path"@
        } else {
            self.id@
        }
    }

    /// How messages refer to the shape.
    pub fn description(&self) -> (description: &str)
        ensures
            description@ == self.described(),
    {
        if self.id.as_str().is_empty() {
            "an unnamed SVG path"
        } else {
            self.id.as_str()
        }
    }
}

} // verus!
