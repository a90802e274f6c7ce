//! What an importer of word-processor packages hands to the editor: the
//! parts of a package, and the paragraphs, runs and styles read out of them.

pub mod document;
pub mod error;
pub mod import;
pub mod number;
pub mod opc;
pub mod pattern;
pub mod types;

pub use document::{CoreProperties, WordDocument};
pub use error::OoxmlError;
pub use opc::OpcPackage;
pub use types::{
    ContentType, PackagePart, Paragraph, ParagraphProperties, Relationship, RelationshipType, Run,
    RunProperties, Style, Theme, ThemeFonts,
};
