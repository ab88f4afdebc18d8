//! The dashboard layout's content items that the core routes, and the colour
//! of each kind of section.
use vstd::prelude::*;

verus! {

/// A map item of a layout section.
#[derive(Debug)]
pub struct MapContent {
    pub route: Option<String>,
}

/// A media-player item of a layout section.
#[derive(Debug)]
pub enum PlayerContent {
    Status { text: String },
    Track { text: String },
    Volume { level: String },
}

/// The kinds of section that a dashboard layout names.
#[derive(Clone, Copy, Debug, PartialEq, Eq, Structural)]
pub enum SectionKind {
    Messages,
    CarCondition,
    TimeCondition,
    Speedometer,
    Media,
    Stats,
    Other,
}

/// A colour as red, green and blue.
#[derive(Clone, Copy, Debug, PartialEq, Eq, Structural)]
pub struct Rgb {
    pub r: u8,
    pub g: u8,
    pub b: u8,
}

pub open spec fn kind_of(id: Seq<char>) -> SectionKind {
    if id == "messages"@ {
        SectionKind::Messages
    } else if id == "carCondition"@ {
        SectionKind::CarCondition
    } else if id == "timeCondition"@ {
        SectionKind::TimeCondition
    } else if id == "speedometer"@ {
        SectionKind::Speedometer
    } else if id == "media"@ {
        SectionKind::Media
    } else if id == "stats"@ {
        SectionKind::Stats
    } else {
        SectionKind::Other
    }
}

pub open spec fn color_of(kind: SectionKind) -> Rgb {
    match kind {
        SectionKind::Messages => Rgb { r: 40, g: 40, b: 80 },
        SectionKind::CarCondition => Rgb { r: 60, g: 40, b: 40 },
        SectionKind::TimeCondition => Rgb { r: 40, g: 60, b: 40 },
        SectionKind::Speedometer => Rgb { r: 40, g: 40, b: 60 },
        SectionKind::Media => Rgb { r: 60, g: 60, b: 40 },
        SectionKind::Stats => Rgb { r: 40, g: 60, b: 60 },
        SectionKind::Other => Rgb { r: 30, g: 30, b: 40 },
    }
}

impl SectionKind {
    /// The kind of the section with id `id`; unknown ids are `Other`.
    pub fn from_id(id: &str) -> (r: SectionKind)
        ensures
            r == kind_of(id@),
    {
        let s = String::from_str(id);
        if s == String::from_str("messages") {
            SectionKind::Messages
        } else if s == String::from_str("carCondition") {
            SectionKind::CarCondition
        } else if s == String::from_str("timeCondition") {
            SectionKind::TimeCondition
        } else if s == String::from_str("speedometer") {
            SectionKind::Speedometer
        } else if s == String::from_str("media") {
            SectionKind::Media
        } else if s == String::from_str("stats") {
            SectionKind::Stats
        } else {
            SectionKind::Other
        }
    }

    /// The fill colour of sections of this kind.
    pub fn color(self) -> (r: Rgb)
        ensures
            r == color_of(self),
    {
        match self {
            SectionKind::Messages => Rgb { r: 40, g: 40, b: 80 },
            SectionKind::CarCondition => Rgb { r: 60, g: 40, b: 40 },
            SectionKind::TimeCondition => Rgb { r: 40, g: 60, b: 40 },
            SectionKind::Speedometer => Rgb { r: 40, g: 40, b: 60 },
            SectionKind::Media => Rgb { r: 60, g: 60, b: 40 },
            SectionKind::Stats => Rgb { r: 40, g: 60, b: 60 },
            SectionKind::Other => Rgb { r: 30, g: 30, b: 40 },
        }
    }
}

/// The fill colour of the section with id `id`.
pub fn custom_color_for_section(id: &str) -> (r: Rgb)
    ensures
        r == color_of(kind_of(id@)),
{
    SectionKind::from_id(id).color()
}

} // verus!
