//! The vocabulary of a word-processor package.

use crate::text::str_eq;
use vstd::prelude::*;

verus! {

/// Content types that a package declares for its parts.
#[derive(Debug, Clone, PartialEq, Eq, Hash)]
pub enum ContentType {
    /// Main document body (word/document.xml)
    MainDocument,
    /// Document styles (word/styles.xml)
    Styles,
    /// Theme colors and fonts (word/theme/theme1.xml)
    Theme,
    /// Document settings (word/settings.xml)
    Settings,
    /// Core properties (docProps/core.xml)
    CoreProperties,
    /// App properties (docProps/app.xml)
    AppProperties,
    /// Web settings (word/webSettings.xml)
    WebSettings,
    /// Numbering definitions (word/numbering.xml)
    Numbering,
    /// Custom XML properties
    CustomXml,
    /// Thumbnail image
    Thumbnail,
    /// Relationships file
    Relationships,
    /// Any other content type, by its name
    Unknown(String),
}

impl ContentType {
    /// Whether this is the content type that the name `s` stands for.
    pub open spec fn is_named(&self, s: Seq<char>) -> bool {
        if s == "application/vnd.openxmlformats-officedocument.wordprocessingml.document.main+xml"@ {
            *self == ContentType::MainDocument
        } else if s == "application/vnd.openxmlformats-officedocument.wordprocessingml.styles+xml"@ {
            *self == ContentType::Styles
        } else if s == "application/vnd.openxmlformats-officedocument.wordprocessingml.theme+xml"@ {
            *self == ContentType::Theme
        } else if s
            == "application/vnd.openxmlformats-officedocument.wordprocessingml.settings+xml"@ {
            *self == ContentType::Settings
        } else if s == "application/vnd.openxmlformats-package.core-properties+xml"@ {
            *self == ContentType::CoreProperties
        } else if s == "application/vnd.openxmlformats-officedocument.extended-properties+xml"@ {
            *self == ContentType::AppProperties
        } else if s
            == "application/vnd.openxmlformats-officedocument.wordprocessingml.webSettings+xml"@ {
            *self == ContentType::WebSettings
        } else if s
            == "application/vnd.openxmlformats-officedocument.wordprocessingml.numbering+xml"@ {
            *self == ContentType::Numbering
        } else if s == "application/xml"@ || s
            == "application/vnd.openxmlformats-officedocument.customXmlProperties+xml"@ {
            *self == ContentType::CustomXml
        } else if s == "image/png"@ || s == "image/jpeg"@ || s == "image/gif"@ || s == "image/bmp"@ {
            *self == ContentType::Thumbnail
        } else if s == "application/vnd.openxmlformats-package.relationships+xml"@ {
            *self == ContentType::Relationships
        } else {
            *self matches ContentType::Unknown(name) && name@ == s
        }
    }

    /// The content type that the name `s` stands for; a name that is not
    /// known is kept as it is.
    pub fn from_string(s: &str) -> (r: Self)
        ensures
            r.is_named(s@),
    {
        if str_eq(
            s,
            "application/vnd.openxmlformats-officedocument.wordprocessingml.document.main+xml",
        ) {
            ContentType::MainDocument
        } else if str_eq(
            s,
            "application/vnd.openxmlformats-officedocument.wordprocessingml.styles+xml",
        ) {
            ContentType::Styles
        } else if str_eq(
            s,
            "application/vnd.openxmlformats-officedocument.wordprocessingml.theme+xml",
        ) {
            ContentType::Theme
        } else if str_eq(
            s,
            "application/vnd.openxmlformats-officedocument.wordprocessingml.settings+xml",
        ) {
            ContentType::Settings
        } else if str_eq(s, "application/vnd.openxmlformats-package.core-properties+xml") {
            ContentType::CoreProperties
        } else if str_eq(s, "application/vnd.openxmlformats-officedocument.extended-properties+xml") {
            ContentType::AppProperties
        } else if str_eq(
            s,
            "application/vnd.openxmlformats-officedocument.wordprocessingml.webSettings+xml",
        ) {
            ContentType::WebSettings
        } else if str_eq(
            s,
            "application/vnd.openxmlformats-officedocument.wordprocessingml.numbering+xml",
        ) {
            ContentType::Numbering
        } else if str_eq(s, "application/xml") || str_eq(
            s,
            "application/vnd.openxmlformats-officedocument.customXmlProperties+xml",
        ) {
            ContentType::CustomXml
        } else if str_eq(s, "image/png") || str_eq(s, "image/jpeg") || str_eq(s, "image/gif")
            || str_eq(s, "image/bmp") {
            ContentType::Thumbnail
        } else if str_eq(s, "application/vnd.openxmlformats-package.relationships+xml") {
            ContentType::Relationships
        } else {
            ContentType::Unknown(s.to_owned())
        }
    }

    /// Where a part of this content type is found unless the package says
    /// otherwise.
    pub open spec fn default_part(&self) -> Option<Seq<char>> {
        match *self {
            ContentType::MainDocument => Some("/word/document.xml"@),
            ContentType::Styles => Some("/word/styles.xml"@),
            ContentType::Theme => Some("/word/theme/theme1.xml"@),
            ContentType::Settings => Some("/word/settings.xml"@),
            ContentType::CoreProperties => Some("/docProps/core.xml"@),
            ContentType::AppProperties => Some("/docProps/app.xml"@),
            ContentType::WebSettings => Some("/word/webSettings.xml"@),
            ContentType::Numbering => Some("/word/numbering.xml"@),
            _ => None,
        }
    }

    /// Name of the part that holds content of this type by default, for the
    /// types that have one.
    pub fn default_part_name(&self) -> (r: Option<&'static str>)
        ensures
            match r {
                Some(name) => self.default_part() == Some(name@),
                None => self.default_part() is None,
            },
    {
        match self {
            ContentType::MainDocument => Some("/word/document.xml"),
            ContentType::Styles => Some("/word/styles.xml"),
            ContentType::Theme => Some("/word/theme/theme1.xml"),
            ContentType::Settings => Some("/word/settings.xml"),
            ContentType::CoreProperties => Some("/docProps/core.xml"),
            ContentType::AppProperties => Some("/docProps/app.xml"),
            ContentType::WebSettings => Some("/word/webSettings.xml"),
            ContentType::Numbering => Some("/word/numbering.xml"),
            _ => None,
        }
    }
}

/// Kinds of relationship between the parts of a package.
#[derive(Debug, Clone, PartialEq, Eq, Hash)]
pub enum RelationshipType {
    /// Main document relationship
    Document,
    /// Styles relationship
    Styles,
    /// Theme relationship
    Theme,
    /// Settings relationship
    Settings,
    /// Core properties relationship
    CoreProperties,
    /// Custom XML relationship
    CustomXml,
    /// Thumbnail relationship
    Thumbnail,
    /// Office document relationship
    OfficeDocument,
    /// Any other relationship, by its name
    Unknown(String),
}

impl RelationshipType {
    /// Whether this is the relationship that the name `s` stands for.
    pub open spec fn is_named(&self, s: Seq<char>) -> bool {
        if s == "http://schemas.openxmlformats.org/officeDocument/2006/relationships/officeDocument"@ {
            *self == RelationshipType::OfficeDocument
        } else if s
            == "http://schemas.openxmlformats.org/officeDocument/2006/relationships/mainDocument"@ {
            *self == RelationshipType::Document
        } else if s == "http://schemas.openxmlformats.org/officeDocument/2006/relationships/styles"@ {
            *self == RelationshipType::Styles
        } else if s == "http://schemas.openxmlformats.org/officeDocument/2006/relationships/theme"@ {
            *self == RelationshipType::Theme
        } else if s == "http://schemas.openxmlformats.org/officeDocument/2006/relationships/settings"@ {
            *self == RelationshipType::Settings
        } else if s
            == "http://schemas.openxmlformats.org/package/2006/relationships/metadata/core-properties"@ {
            *self == RelationshipType::CoreProperties
        } else if s == "http://schemas.openxmlformats.org/officeDocument/2006/relationships/customXml"@ {
            *self == RelationshipType::CustomXml
        } else if s
            == "http://schemas.openxmlformats.org/package/2006/relationships/metadata/thumbnail"@ {
            *self == RelationshipType::Thumbnail
        } else {
            *self matches RelationshipType::Unknown(name) && name@ == s
        }
    }

    /// The relationship that the name `s` stands for; a name that is not
    /// known is kept as it is.
    pub fn from_string(s: &str) -> (r: Self)
        ensures
            r.is_named(s@),
    {
        if str_eq(
            s,
            "http://schemas.openxmlformats.org/officeDocument/2006/relationships/officeDocument",
        ) {
            RelationshipType::OfficeDocument
        } else if str_eq(
            s,
            "http://schemas.openxmlformats.org/officeDocument/2006/relationships/mainDocument",
        ) {
            RelationshipType::Document
        } else if str_eq(
            s,
            "http://schemas.openxmlformats.org/officeDocument/2006/relationships/styles",
        ) {
            RelationshipType::Styles
        } else if str_eq(
            s,
            "http://schemas.openxmlformats.org/officeDocument/2006/relationships/theme",
        ) {
            RelationshipType::Theme
        } else if str_eq(
            s,
            "http://schemas.openxmlformats.org/officeDocument/2006/relationships/settings",
        ) {
            RelationshipType::Settings
        } else if str_eq(
            s,
            "http://schemas.openxmlformats.org/package/2006/relationships/metadata/core-properties",
        ) {
            RelationshipType::CoreProperties
        } else if str_eq(
            s,
            "http://schemas.openxmlformats.org/officeDocument/2006/relationships/customXml",
        ) {
            RelationshipType::CustomXml
        } else if str_eq(
            s,
            "http://schemas.openxmlformats.org/package/2006/relationships/metadata/thumbnail",
        ) {
            RelationshipType::Thumbnail
        } else {
            RelationshipType::Unknown(s.to_owned())
        }
    }
}

/// A relationship between parts of the package.
#[derive(Debug, Clone, PartialEq, Eq)]
pub struct Relationship {
    /// Relationship ID (e.g., "rId1")
    pub id: String,
    /// Type of relationship
    pub relationship_type: RelationshipType,
    /// Target URI (can be relative or absolute)
    pub target: String,
    /// Target mode (Internal or External)
    pub target_mode: Option<String>,
}

/// A part of the package.
#[derive(Debug, Clone, PartialEq, Eq)]
pub struct PackagePart {
    /// Part name (e.g., "/word/document.xml")
    pub name: String,
    /// Content type of the part
    pub content_type: ContentType,
    /// Raw binary data of the part
    pub data: Vec<u8>,
}

/// Properties of a paragraph.
#[derive(Debug, Clone, PartialEq, Eq)]
pub struct ParagraphProperties {
    /// Paragraph alignment
    pub alignment: Option<String>,
    /// Left indentation in twips (1/20 of a point)
    pub indent_left: Option<i32>,
    /// Right indentation in twips
    pub indent_right: Option<i32>,
    /// First line indentation in twips
    pub indent_first_line: Option<i32>,
    /// Space before paragraph in twips
    pub spacing_before: Option<i32>,
    /// Space after paragraph in twips
    pub spacing_after: Option<i32>,
    /// Line spacing
    pub spacing_line: Option<i32>,
}

impl ParagraphProperties {
    /// The properties with nothing set.
    pub open spec fn blank() -> Self {
        ParagraphProperties {
            alignment: None,
            indent_left: None,
            indent_right: None,
            indent_first_line: None,
            spacing_before: None,
            spacing_after: None,
            spacing_line: None,
        }
    }
}

impl Default for ParagraphProperties {
    fn default() -> (r: Self)
        ensures
            r == ParagraphProperties::blank(),
    {
        ParagraphProperties {
            alignment: None,
            indent_left: None,
            indent_right: None,
            indent_first_line: None,
            spacing_before: None,
            spacing_after: None,
            spacing_line: None,
        }
    }
}

/// Properties of a run (text formatting).
#[derive(Debug, Clone, PartialEq, Eq)]
pub struct RunProperties {
    /// Bold formatting
    pub bold: Option<bool>,
    /// Italic formatting
    pub italic: Option<bool>,
    /// Underline type
    pub underline: Option<String>,
    /// Font size in points
    pub font_size: Option<i32>,
    /// Font name
    pub font_name: Option<String>,
    /// Text color (hex RGB)
    pub color: Option<String>,
    /// Background color (hex RGB)
    pub background_color: Option<String>,
}

impl Default for RunProperties {
    fn default() -> (r: Self)
        ensures
            r == RunProperties::blank(),
    {
        RunProperties {
            bold: None,
            italic: None,
            underline: None,
            font_size: None,
            font_name: None,
            color: None,
            background_color: None,
        }
    }
}

impl RunProperties {
    /// The properties with nothing set.
    pub open spec fn blank() -> Self {
        RunProperties {
            bold: None,
            italic: None,
            underline: None,
            font_size: None,
            font_name: None,
            color: None,
            background_color: None,
        }
    }

    /// Whether no formatting is set at all.
    pub fn is_default(&self) -> (b: bool)
        ensures
            b == (*self == RunProperties::blank()),
    {
        self.bold.is_none() && self.italic.is_none() && self.underline.is_none()
            && self.font_size.is_none() && self.font_name.is_none() && self.color.is_none()
            && self.background_color.is_none()
    }
}

/// A run of text with common formatting.
#[derive(Debug, Clone, PartialEq, Eq)]
pub struct Run {
    /// Text content of the run
    pub text: String,
    /// Run properties
    pub properties: RunProperties,
}

impl Default for Run {
    fn default() -> (r: Self)
        ensures
            r.text@ == Seq::<char>::empty(),
            r.properties == RunProperties::blank(),
    {
        Run { text: String::new(), properties: RunProperties::default() }
    }
}

/// A parsed paragraph of the document.
#[derive(Debug, Clone, PartialEq, Eq)]
pub struct Paragraph {
    /// Paragraph text content
    pub text: String,
    /// Paragraph properties (indentation, alignment, etc.)
    pub properties: ParagraphProperties,
    /// List of runs in this paragraph
    pub runs: Vec<Run>,
}

impl Default for Paragraph {
    fn default() -> (r: Self)
        ensures
            r.text@ == Seq::<char>::empty(),
            r.properties == ParagraphProperties::blank(),
            r.runs@ == Seq::<Run>::empty(),
    {
        Paragraph {
            text: String::new(),
            properties: ParagraphProperties::default(),
            runs: Vec::new(),
        }
    }
}

/// A style definition.
#[derive(Debug, Clone, PartialEq, Eq)]
pub struct Style {
    /// Style ID (e.g., "Normal", "Heading1")
    pub id: String,
    /// Style name (e.g., "Normal", "Heading 1")
    pub name: Option<String>,
    /// Style type (paragraph, character, table, number)
    pub style_type: String,
    /// Style ID of the parent style
    pub based_on: Option<String>,
    /// Paragraph properties
    pub paragraph_properties: ParagraphProperties,
    /// Run properties
    pub run_properties: RunProperties,
    /// Whether this is the default style
    pub is_default: bool,
}

impl Default for Style {
    fn default() -> (r: Self)
        ensures
            r.id@ == Seq::<char>::empty(),
            r.name is None,
            r.style_type@ == Seq::<char>::empty(),
            r.based_on is None,
            r.paragraph_properties == ParagraphProperties::blank(),
            r.run_properties == RunProperties::blank(),
            !r.is_default,
    {
        Style {
            id: String::new(),
            name: None,
            style_type: String::new(),
            based_on: None,
            paragraph_properties: ParagraphProperties::default(),
            run_properties: RunProperties::default(),
            is_default: false,
        }
    }
}

/// Theme font definitions.
#[derive(Debug, Clone, PartialEq, Eq)]
pub struct ThemeFonts {
    /// Major font (headings)
    pub major_font: String,
    /// Minor font (body text)
    pub minor_font: String,
    /// Symbol font
    pub symbol_font: String,
}

impl Default for ThemeFonts {
    fn default() -> (r: Self)
        ensures
            r.major_font@ == Seq::<char>::empty(),
            r.minor_font@ == Seq::<char>::empty(),
            r.symbol_font@ == Seq::<char>::empty(),
    {
        ThemeFonts {
            major_font: String::new(),
            minor_font: String::new(),
            symbol_font: String::new(),
        }
    }
}

/// Theme colors and fonts.
#[derive(Debug, Clone, PartialEq, Eq)]
pub struct Theme {
    /// Theme name
    pub name: String,
    /// Color scheme: the name of each color with its value. No name occurs
    /// twice.
    pub colors: Vec<(String, String)>,
    /// Font scheme
    pub fonts: ThemeFonts,
}

impl Theme {
    /// No color is named twice.
    pub open spec fn wf(&self) -> bool {
        forall|i: int, j: int|
            0 <= i < j < self.colors@.len() ==> (#[trigger] self.colors@[i]).0@
                != (#[trigger] self.colors@[j]).0@
    }
}

impl Default for Theme {
    fn default() -> (r: Self)
        ensures
            r.name@ == Seq::<char>::empty(),
            r.colors@ == Seq::<(String, String)>::empty(),
            r.fonts.major_font@ == Seq::<char>::empty(),
            r.fonts.minor_font@ == Seq::<char>::empty(),
            r.fonts.symbol_font@ == Seq::<char>::empty(),
            r.wf(),
    {
        Theme { name: String::new(), colors: Vec::new(), fonts: ThemeFonts::default() }
    }
}

} // verus!
