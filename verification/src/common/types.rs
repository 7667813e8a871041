//! Shared enumerations used across the application.

use vstd::prelude::*;

verus! {

/// Supported machine types.
#[derive(Debug, Clone, Copy, PartialEq, Eq, Structural)]
pub enum DeviceType {
    GrblLaser,
    GrblSpindle,
    VinylCutter,
    Marlin,
    RuidaLaser,
    VevorSmart1,
}

impl Default for DeviceType {
    fn default() -> (r: Self)
        ensures
            r == DeviceType::GrblLaser,
    {
        DeviceType::GrblLaser
    }
}

impl DeviceType {
    /// Display name.
    pub fn label(&self) -> (r: &'static str)
        ensures
            r@ == (match *self {
                DeviceType::GrblLaser => "GRBL Laser"@,
                DeviceType::GrblSpindle => "GRBL Spindle"@,
                DeviceType::VinylCutter => "Vinyl Cutter"@,
                DeviceType::Marlin => "Marlin"@,
                DeviceType::RuidaLaser => "Ruida Laser"@,
                DeviceType::VevorSmart1 => "Vevor Smart 1"@,
            }),
    {
        match self {
            DeviceType::GrblLaser => "GRBL Laser",
            DeviceType::GrblSpindle => "GRBL Spindle",
            DeviceType::VinylCutter => "Vinyl Cutter",
            DeviceType::Marlin => "Marlin",
            DeviceType::RuidaLaser => "Ruida Laser",
            DeviceType::VevorSmart1 => "Vevor Smart 1",
        }
    }

    /// All machine types, in menu order.
    pub fn all() -> (r: &'static [DeviceType])
        ensures
            r@ == seq![
                DeviceType::GrblLaser,
                DeviceType::GrblSpindle,
                DeviceType::VinylCutter,
                DeviceType::Marlin,
                DeviceType::RuidaLaser,
                DeviceType::VevorSmart1,
            ],
    {
        &[
            DeviceType::GrblLaser,
            DeviceType::GrblSpindle,
            DeviceType::VinylCutter,
            DeviceType::Marlin,
            DeviceType::RuidaLaser,
            DeviceType::VevorSmart1,
        ]
    }
}

/// How a cut layer is processed.
#[derive(Debug, Clone, Copy, PartialEq, Eq, Structural)]
pub enum LayerMode {
    /// Vector cut along the path.
    Line,
    /// Raster-fill the enclosed area.
    Fill,
    /// Concentric offset fill.
    OffsetFill,
    /// Grayscale image engraving.
    Image,
}

impl Default for LayerMode {
    fn default() -> (r: Self)
        ensures
            r == LayerMode::Line,
    {
        LayerMode::Line
    }
}

impl LayerMode {
    /// Display name.
    pub fn label(&self) -> (r: &'static str)
        ensures
            r@ == (match *self {
                LayerMode::Line => "Line"@,
                LayerMode::Fill => "Fill"@,
                LayerMode::OffsetFill => "Offset Fill"@,
                LayerMode::Image => "Image"@,
            }),
    {
        match self {
            LayerMode::Line => "Line",
            LayerMode::Fill => "Fill",
            LayerMode::OffsetFill => "Offset Fill",
            LayerMode::Image => "Image",
        }
    }

    /// All layer modes, in menu order.
    pub fn all() -> (r: &'static [LayerMode])
        ensures
            r@ == seq![LayerMode::Line, LayerMode::Fill, LayerMode::OffsetFill, LayerMode::Image],
    {
        &[LayerMode::Line, LayerMode::Fill, LayerMode::OffsetFill, LayerMode::Image]
    }
}

/// Canvas drawing tool identifiers.
#[derive(Debug, Clone, Copy, PartialEq, Eq, Structural)]
pub enum ToolType {
    Select,
    Pan,
    Rectangle,
    Ellipse,
    Line,
    Polyline,
    Bezier,
    Text,
    Image,
    Measure,
}

impl Default for ToolType {
    fn default() -> (r: Self)
        ensures
            r == ToolType::Select,
    {
        ToolType::Select
    }
}

impl ToolType {
    /// Display name.
    pub fn label(&self) -> (r: &'static str)
        ensures
            r@ == (match *self {
                ToolType::Select => "Select"@,
                ToolType::Pan => "Pan"@,
                ToolType::Rectangle => "Rectangle"@,
                ToolType::Ellipse => "Ellipse"@,
                ToolType::Line => "Line"@,
                ToolType::Polyline => "Polyline"@,
                ToolType::Bezier => "Bezier"@,
                ToolType::Text => "Text"@,
                ToolType::Image => "Image"@,
                ToolType::Measure => "Measure"@,
            }),
    {
        match self {
            ToolType::Select => "Select",
            ToolType::Pan => "Pan",
            ToolType::Rectangle => "Rectangle",
            ToolType::Ellipse => "Ellipse",
            ToolType::Line => "Line",
            ToolType::Polyline => "Polyline",
            ToolType::Bezier => "Bezier",
            ToolType::Text => "Text",
            ToolType::Image => "Image",
            ToolType::Measure => "Measure",
        }
    }

    /// The tools offered in the toolbar, in order (text, image and measure
    /// are not offered).
    pub fn all() -> (r: &'static [ToolType])
        ensures
            r@ == seq![
                ToolType::Select,
                ToolType::Pan,
                ToolType::Rectangle,
                ToolType::Ellipse,
                ToolType::Line,
                ToolType::Polyline,
                ToolType::Bezier,
            ],
    {
        &[
            ToolType::Select,
            ToolType::Pan,
            ToolType::Rectangle,
            ToolType::Ellipse,
            ToolType::Line,
            ToolType::Polyline,
            ToolType::Bezier,
        ]
    }
}

/// The toolbar glyph of a tool (`?` for tools without one).
pub fn tool_icon(tool: ToolType) -> (r: &'static str)
    ensures
        r@ == (match tool {
            ToolType::Select => "↖"@,
            ToolType::Pan => "✋"@,
            ToolType::Rectangle => "▭"@,
            ToolType::Ellipse => "⬭"@,
            ToolType::Line => "╱"@,
            ToolType::Polyline => "⌇"@,
            ToolType::Bezier => "⌢"@,
            _ => "?"@,
        }),
{
    match tool {
        ToolType::Select => "↖",
        ToolType::Pan => "✋",
        ToolType::Rectangle => "▭",
        ToolType::Ellipse => "⬭",
        ToolType::Line => "╱",
        ToolType::Polyline => "⌇",
        ToolType::Bezier => "⌢",
        _ => "?",
    }
}

/// Linear measurement units shown in the UI.
#[derive(Debug, Clone, Copy, PartialEq, Eq, Structural)]
pub enum Units {
    Mm,
    Inch,
}

impl Default for Units {
    fn default() -> (r: Self)
        ensures
            r == Units::Mm,
    {
        Units::Mm
    }
}

/// Air-assist state for a laser pass.
#[derive(Debug, Clone, Copy, PartialEq, Eq, Structural)]
pub enum AirAssist {
    Off,
    On,
    Auto,
}

impl Default for AirAssist {
    fn default() -> (r: Self)
        ensures
            r == AirAssist::Auto,
    {
        AirAssist::Auto
    }
}

impl AirAssist {
    /// Display name.
    pub fn label(&self) -> (r: &'static str)
        ensures
            r@ == (match *self {
                AirAssist::Off => "Off"@,
                AirAssist::On => "On"@,
                AirAssist::Auto => "Auto"@,
            }),
    {
        match self {
            AirAssist::Off => "Off",
            AirAssist::On => "On",
            AirAssist::Auto => "Auto",
        }
    }

    /// All air-assist states, in menu order.
    pub fn all() -> (r: &'static [AirAssist])
        ensures
            r@ == seq![AirAssist::Off, AirAssist::On, AirAssist::Auto],
    {
        &[AirAssist::Off, AirAssist::On, AirAssist::Auto]
    }
}

} // verus!
