//! Reading a word-processing document out of the parts of a package: its
//! paragraphs and runs, its styles, its theme and its core properties.
//!
//! The markup is searched with patterns. Paragraphs, the runs of a
//! paragraph and styles are read one for each match, in the order in which
//! they stand; of what a run, a style or the properties part holds once, the
//! first match is read. What each step makes of the text that a pattern
//! found is stated exactly; what a pattern finds is the `regex` crate's to
//! say.

use crate::ooxml::error::OoxmlError;
use crate::ooxml::number::{decimal_i32, parse_decimal};
use crate::ooxml::opc::OpcPackage;
use crate::ooxml::pattern::{
    check_pattern, fails_on, find_all, find_group, first_group, group_of, is_pattern_error,
    match_view, matches_anywhere, matches_view, opt_view, pick_group, regex_all_captures,
    regex_compiles, regex_is_match,
};
use crate::ooxml::types::{
    Paragraph, ParagraphProperties, Run, RunProperties, Style, Theme, ThemeFonts,
};
use crate::text::str_eq;
use vstd::prelude::*;
use vstd::string::StringExecFns;

verus! {

/// Run properties as contracts see them.
pub struct RunPropertiesView {
    pub bold: Option<bool>,
    pub italic: Option<bool>,
    pub underline: Option<Seq<char>>,
    pub font_size: Option<i32>,
    pub font_name: Option<Seq<char>>,
    pub color: Option<Seq<char>>,
    pub background_color: Option<Seq<char>>,
}

impl View for RunProperties {
    type V = RunPropertiesView;

    open spec fn view(&self) -> RunPropertiesView {
        RunPropertiesView {
            bold: self.bold,
            italic: self.italic,
            underline: opt_view(self.underline),
            font_size: self.font_size,
            font_name: opt_view(self.font_name),
            color: opt_view(self.color),
            background_color: opt_view(self.background_color),
        }
    }
}

/// A run as contracts see it.
pub struct RunView {
    pub text: Seq<char>,
    pub properties: RunPropertiesView,
}

impl View for Run {
    type V = RunView;

    open spec fn view(&self) -> RunView {
        RunView { text: self.text@, properties: self.properties@ }
    }
}

/// The runs of a list as contracts see them.
pub open spec fn runs_view(runs: Seq<Run>) -> Seq<RunView> {
    Seq::new(runs.len(), |i: int| runs[i]@)
}

/// A paragraph as contracts see it.
pub struct ParagraphView {
    pub text: Seq<char>,
    pub properties: ParagraphProperties,
    pub runs: Seq<RunView>,
}

impl View for Paragraph {
    type V = ParagraphView;

    open spec fn view(&self) -> ParagraphView {
        ParagraphView {
            text: self.text@,
            properties: self.properties,
            runs: runs_view(self.runs@),
        }
    }
}

/// The paragraphs of a list as contracts see them.
pub open spec fn paragraphs_view(paragraphs: Seq<Paragraph>) -> Seq<ParagraphView> {
    Seq::new(paragraphs.len(), |i: int| paragraphs[i]@)
}

/// A style as contracts see it.
pub struct StyleView {
    pub id: Seq<char>,
    pub name: Option<Seq<char>>,
    pub style_type: Seq<char>,
    pub based_on: Option<Seq<char>>,
    pub paragraph_properties: ParagraphProperties,
    pub run_properties: RunPropertiesView,
    pub is_default: bool,
}

impl View for Style {
    type V = StyleView;

    open spec fn view(&self) -> StyleView {
        StyleView {
            id: self.id@,
            name: opt_view(self.name),
            style_type: self.style_type@,
            based_on: opt_view(self.based_on),
            paragraph_properties: self.paragraph_properties,
            run_properties: self.run_properties@,
            is_default: self.is_default,
        }
    }
}

/// The styles of a list as contracts see them.
pub open spec fn styles_view(styles: Seq<Style>) -> Seq<StyleView> {
    Seq::new(styles.len(), |i: int| styles[i]@)
}

/// A theme as contracts see it.
pub struct ThemeView {
    pub name: Seq<char>,
    pub colors: Seq<(Seq<char>, Seq<char>)>,
    pub major_font: Seq<char>,
    pub minor_font: Seq<char>,
    pub symbol_font: Seq<char>,
}

impl View for Theme {
    type V = ThemeView;

    open spec fn view(&self) -> ThemeView {
        ThemeView {
            name: self.name@,
            colors: Seq::new(
                self.colors@.len(),
                |i: int| (self.colors@[i].0@, self.colors@[i].1@),
            ),
            major_font: self.fonts.major_font@,
            minor_font: self.fonts.minor_font@,
            symbol_font: self.fonts.symbol_font@,
        }
    }
}

/// Core document properties.
#[derive(Debug, Clone, PartialEq, Eq)]
pub struct CoreProperties {
    pub title: Option<String>,
    pub subject: Option<String>,
    pub creator: Option<String>,
    pub keywords: Option<String>,
    pub description: Option<String>,
    pub last_modified_by: Option<String>,
    pub created: Option<String>,
    pub modified: Option<String>,
}

/// Core properties as contracts see them.
pub struct CorePropertiesView {
    pub title: Option<Seq<char>>,
    pub subject: Option<Seq<char>>,
    pub creator: Option<Seq<char>>,
    pub keywords: Option<Seq<char>>,
    pub description: Option<Seq<char>>,
    pub last_modified_by: Option<Seq<char>>,
    pub created: Option<Seq<char>>,
    pub modified: Option<Seq<char>>,
}

impl View for CoreProperties {
    type V = CorePropertiesView;

    open spec fn view(&self) -> CorePropertiesView {
        CorePropertiesView {
            title: opt_view(self.title),
            subject: opt_view(self.subject),
            creator: opt_view(self.creator),
            keywords: opt_view(self.keywords),
            description: opt_view(self.description),
            last_modified_by: opt_view(self.last_modified_by),
            created: opt_view(self.created),
            modified: opt_view(self.modified),
        }
    }
}

impl Default for CoreProperties {
    fn default() -> (r: Self)
        ensures
            r == (CoreProperties {
                title: None,
                subject: None,
                creator: None,
                keywords: None,
                description: None,
                last_modified_by: None,
                created: None,
                modified: None,
            }),
    {
        CoreProperties {
            title: None,
            subject: None,
            creator: None,
            keywords: None,
            description: None,
            last_modified_by: None,
            created: None,
            modified: None,
        }
    }
}

/// A word-processing document as read from a package.
#[derive(Debug, Clone, PartialEq, Eq)]
pub struct WordDocument {
    /// Extracted text content: the paragraphs' texts, one per line
    pub text: String,
    /// Parsed paragraphs
    pub paragraphs: Vec<Paragraph>,
    /// Document styles. No two share an id.
    pub styles: Vec<Style>,
    /// Document theme (colors/fonts)
    pub theme: Option<Theme>,
    /// Core properties (title, author, etc.)
    pub core_properties: Option<CoreProperties>,
}

/// A document as contracts see it.
pub struct WordDocumentView {
    pub text: Seq<char>,
    pub paragraphs: Seq<ParagraphView>,
    pub styles: Seq<StyleView>,
    pub theme: Option<ThemeView>,
    pub core_properties: Option<CorePropertiesView>,
}

impl View for WordDocument {
    type V = WordDocumentView;

    open spec fn view(&self) -> WordDocumentView {
        WordDocumentView {
            text: self.text@,
            paragraphs: paragraphs_view(self.paragraphs@),
            styles: styles_view(self.styles@),
            theme: match self.theme {
                Some(t) => Some(t@),
                None => None,
            },
            core_properties: match self.core_properties {
                Some(p) => Some(p@),
                None => None,
            },
        }
    }
}

pub const MAIN_PART: &'static str = "/word/document.xml";

pub const STYLES_PART: &'static str = "/word/styles.xml";

pub const CORE_PART: &'static str = "/docProps/core.xml";

pub const PARAGRAPH: &'static str = "<w:p[^>]*>(.*?)</w:p>";

pub const RUN: &'static str = "<w:r[^>]*>(.*?)</w:r>";

pub const RUN_TEXT: &'static str = "<w:t[^>]*>([^<]*)</w:t>";

pub const RUN_PROPERTIES: &'static str = "<w:rPr[^>]*>(.*?)</w:rPr>";

pub const BOLD: &'static str = "<w:b[^>]*val=\"([^\"]*)\"";

pub const ITALIC: &'static str = "<w:i[^>]*val=\"([^\"]*)\"";

pub const UNDERLINE: &'static str = "<w:u[^>]*val=\"([^\"]*)\"";

pub const FONT_SIZE: &'static str = "<w:sz[^>]*val=\"(\\d+)\"";

pub const COLOR: &'static str = "<w:color[^>]*val=\"([^\"]*)\"";

pub const FONT_NAME: &'static str = "<w:rFonts[^>]*w:ascii=\"([^\"]*)\"";

pub const STYLE: &'static str =
    "<w:style[^>]*w:styleId=\"([^\"]*)\"[^>]*w:type=\"([^\"]*)\"[^>]*>(.*?)</w:style>";

pub const STYLE_NAME: &'static str = "<w:name[^>]*w:val=\"([^\"]*)\"";

pub const BASED_ON: &'static str = "<w:basedOn[^>]*w:val=\"([^\"]*)\"";

pub const DEFAULT_FLAG: &'static str = "w:default=\"1\"";

pub const THEME_PART: &'static str = "/word/theme/theme1.xml";

pub const THEME_PART_UNNUMBERED: &'static str = "/word/theme/theme.xml";

pub const THEME_PART_PLURAL: &'static str = "/word/themes/theme1.xml";

pub const TITLE: &'static str = "<dc:title[^>]*>([^<]*)</dc:title>";

pub const CREATOR: &'static str = "<dc:creator[^>]*>([^<]*)</dc:creator>";

pub const CREATED: &'static str = "<dcterms:created[^>]*>([^<]*)</dcterms:created>";

pub const MODIFIED: &'static str = "<dcterms:modified[^>]*>([^<]*)</dcterms:modified>";

/// The first of the patterns for run properties that does not compile.
pub open spec fn bad_run_property_pattern() -> Option<Seq<char>> {
    if !regex_compiles(BOLD@) {
        Some(BOLD@)
    } else if !regex_compiles(ITALIC@) {
        Some(ITALIC@)
    } else if !regex_compiles(UNDERLINE@) {
        Some(UNDERLINE@)
    } else if !regex_compiles(FONT_SIZE@) {
        Some(FONT_SIZE@)
    } else if !regex_compiles(COLOR@) {
        Some(COLOR@)
    } else if !regex_compiles(FONT_NAME@) {
        Some(FONT_NAME@)
    } else {
        None
    }
}

/// The first of the patterns for a run that does not compile.
pub open spec fn bad_run_pattern() -> Option<Seq<char>> {
    if !regex_compiles(RUN_TEXT@) {
        Some(RUN_TEXT@)
    } else if !regex_compiles(RUN_PROPERTIES@) {
        Some(RUN_PROPERTIES@)
    } else {
        bad_run_property_pattern()
    }
}

/// The first of the patterns for the runs of a paragraph that does not
/// compile.
pub open spec fn bad_runs_pattern() -> Option<Seq<char>> {
    if !regex_compiles(RUN@) {
        Some(RUN@)
    } else {
        bad_run_pattern()
    }
}

/// The first of the patterns for the paragraphs of a body that does not
/// compile.
pub open spec fn bad_paragraph_pattern() -> Option<Seq<char>> {
    if !regex_compiles(PARAGRAPH@) {
        Some(PARAGRAPH@)
    } else {
        bad_runs_pattern()
    }
}

/// The first of the patterns for a style that does not compile.
pub open spec fn bad_style_pattern() -> Option<Seq<char>> {
    if !regex_compiles(STYLE@) {
        Some(STYLE@)
    } else if !regex_compiles(STYLE_NAME@) {
        Some(STYLE_NAME@)
    } else if !regex_compiles(BASED_ON@) {
        Some(BASED_ON@)
    } else if !regex_compiles(DEFAULT_FLAG@) {
        Some(DEFAULT_FLAG@)
    } else {
        None
    }
}

/// The first of the patterns for the core properties that does not compile.
pub open spec fn bad_core_pattern() -> Option<Seq<char>> {
    if !regex_compiles(TITLE@) {
        Some(TITLE@)
    } else if !regex_compiles(CREATOR@) {
        Some(CREATOR@)
    } else if !regex_compiles(CREATED@) {
        Some(CREATED@)
    } else if !regex_compiles(MODIFIED@) {
        Some(MODIFIED@)
    } else {
        None
    }
}

/// The pattern that reading `package` fails on: the first that does not
/// compile among those for the parts that the package has, taken in the
/// order in which the parts are read.
pub open spec fn bad_document_pattern(package: OpcPackage) -> Option<Seq<char>> {
    if bad_paragraph_pattern() is Some {
        bad_paragraph_pattern()
    } else if package.has_part(STYLES_PART@) && bad_style_pattern() is Some {
        bad_style_pattern()
    } else if package.has_part(CORE_PART@) {
        bad_core_pattern()
    } else {
        None
    }
}

/// The run properties with nothing set, as contracts see them.
pub open spec fn blank_run_properties() -> RunPropertiesView {
    RunPropertiesView {
        bold: None,
        italic: None,
        underline: None,
        font_size: None,
        font_name: None,
        color: None,
        background_color: None,
    }
}

/// A flag's value switches it off if it is `0`, and on if it is anything
/// else.
pub open spec fn found_flag(found: Option<Seq<char>>, otherwise: Option<bool>) -> Option<bool> {
    match found {
        Some(v) => Some(v != "0"@),
        None => otherwise,
    }
}

/// A value that was found replaces the one held.
pub open spec fn found_text(found: Option<Seq<char>>, otherwise: Option<Seq<char>>) -> Option<
    Seq<char>,
> {
    match found {
        Some(v) => Some(v),
        None => otherwise,
    }
}

/// A size is given in half-points and held in points; one that is no number
/// leaves the size as it was.
pub open spec fn found_size(found: Option<Seq<char>>, otherwise: Option<i32>) -> Option<i32> {
    match found {
        Some(v) => match decimal_i32(v) {
            Some(n) => Some((n / 2) as i32),
            None => otherwise,
        },
        None => otherwise,
    }
}

/// The run properties `base` with each value that was found put in.
pub open spec fn with_run_properties(
    base: RunPropertiesView,
    bold: Option<Seq<char>>,
    italic: Option<Seq<char>>,
    underline: Option<Seq<char>>,
    size: Option<Seq<char>>,
    color: Option<Seq<char>>,
    font_name: Option<Seq<char>>,
) -> RunPropertiesView {
    RunPropertiesView {
        bold: found_flag(bold, base.bold),
        italic: found_flag(italic, base.italic),
        underline: found_text(underline, base.underline),
        font_size: found_size(size, base.font_size),
        font_name: found_text(font_name, base.font_name),
        color: found_text(color, base.color),
        background_color: base.background_color,
    }
}

/// The run properties that the markup `xml` gives, starting from `base`.
pub open spec fn parsed_run_properties(xml: Seq<char>, base: RunPropertiesView) -> RunPropertiesView {
    with_run_properties(
        base,
        first_group(BOLD@, xml, 1),
        first_group(ITALIC@, xml, 1),
        first_group(UNDERLINE@, xml, 1),
        first_group(FONT_SIZE@, xml, 1),
        first_group(COLOR@, xml, 1),
        first_group(FONT_NAME@, xml, 1),
    )
}

/// The run that the markup `xml` gives: its text, empty if there is none,
/// and its properties.
pub open spec fn parsed_run(xml: Seq<char>) -> RunView {
    RunView {
        text: match first_group(RUN_TEXT@, xml, 1) {
            Some(t) => t,
            None => Seq::empty(),
        },
        properties: match first_group(RUN_PROPERTIES@, xml, 1) {
            Some(inner) => parsed_run_properties(inner, blank_run_properties()),
            None => blank_run_properties(),
        },
    }
}

/// A run is worth keeping if it has text or sets some formatting.
pub open spec fn run_is_kept(r: RunView) -> bool {
    r.text.len() > 0 || r.properties != blank_run_properties()
}

/// The runs that the matches of the run pattern give, in order: of each
/// match the run that its markup gives, if that run is worth keeping.
pub open spec fn runs_of(found: Seq<Seq<Option<Seq<char>>>>) -> Seq<RunView>
    decreases found.len(),
{
    if found.len() == 0 {
        Seq::empty()
    } else {
        match group_of(found.last(), 1) {
            Some(inner) => if run_is_kept(parsed_run(inner)) {
                runs_of(found.drop_last()).push(parsed_run(inner))
            } else {
                runs_of(found.drop_last())
            },
            None => runs_of(found.drop_last()),
        }
    }
}

/// The runs read from the markup of a paragraph: every run in it that is
/// worth keeping, in the order in which they stand.
pub open spec fn parsed_runs(xml: Seq<char>) -> Seq<RunView> {
    runs_of(regex_all_captures(RUN@, xml))
}

/// The texts of the runs, one after another.
pub open spec fn runs_text(runs: Seq<RunView>) -> Seq<char>
    decreases runs.len(),
{
    if runs.len() == 0 {
        Seq::empty()
    } else {
        runs_text(runs.drop_last()) + runs.last().text
    }
}

/// The paragraph made of the given runs.
pub open spec fn paragraph_of(runs: Seq<RunView>) -> ParagraphView {
    ParagraphView { text: runs_text(runs), properties: ParagraphProperties::blank(), runs }
}

/// The paragraphs that the matches of the paragraph pattern give, in order:
/// of each match the paragraph made of its runs, if it has a run worth
/// keeping.
pub open spec fn paragraphs_of(found: Seq<Seq<Option<Seq<char>>>>) -> Seq<ParagraphView>
    decreases found.len(),
{
    if found.len() == 0 {
        Seq::empty()
    } else {
        match group_of(found.last(), 1) {
            Some(inner) => if parsed_runs(inner).len() > 0 {
                paragraphs_of(found.drop_last()).push(paragraph_of(parsed_runs(inner)))
            } else {
                paragraphs_of(found.drop_last())
            },
            None => paragraphs_of(found.drop_last()),
        }
    }
}

/// The paragraphs read from the markup of a document body: every paragraph
/// in it that has a run worth keeping, in the order in which they stand.
pub open spec fn parsed_paragraphs(xml: Seq<char>) -> Seq<ParagraphView> {
    paragraphs_of(regex_all_captures(PARAGRAPH@, xml))
}

/// The texts of the paragraphs, a line terminator between each two.
pub open spec fn joined_text(paragraphs: Seq<ParagraphView>) -> Seq<char>
    decreases paragraphs.len(),
{
    if paragraphs.len() == 0 {
        Seq::empty()
    } else if paragraphs.len() == 1 {
        paragraphs[0].text
    } else {
        joined_text(paragraphs.drop_last()) + seq!['\n'] + paragraphs.last().text
    }
}

/// The style with the given id and the values found for it; a style whose
/// type was not found is a paragraph style.
pub open spec fn style_of(
    id: Seq<char>,
    style_type: Option<Seq<char>>,
    name: Option<Seq<char>>,
    based_on: Option<Seq<char>>,
    is_default: bool,
) -> StyleView {
    StyleView {
        id,
        name,
        style_type: match style_type {
            Some(t) => t,
            None => "paragraph"@,
        },
        based_on,
        paragraph_properties: ParagraphProperties::blank(),
        run_properties: blank_run_properties(),
        is_default,
    }
}

/// The style that one match of the style pattern gives, if it has an id.
pub open spec fn style_in(groups: Seq<Option<Seq<char>>>) -> Option<StyleView> {
    match group_of(groups, 1) {
        Some(id) => {
            let inner = match group_of(groups, 3) {
                Some(x) => x,
                None => Seq::empty(),
            };
            Some(
                style_of(
                    id,
                    group_of(groups, 2),
                    first_group(STYLE_NAME@, inner, 1),
                    first_group(BASED_ON@, inner, 1),
                    regex_is_match(DEFAULT_FLAG@, inner),
                ),
            )
        },
        None => None,
    }
}

/// The styles that the matches of the style pattern give, in order.
pub open spec fn styles_of(found: Seq<Seq<Option<Seq<char>>>>) -> Seq<StyleView>
    decreases found.len(),
{
    if found.len() == 0 {
        Seq::empty()
    } else {
        match style_in(found.last()) {
            Some(style) => styles_of(found.drop_last()).push(style),
            None => styles_of(found.drop_last()),
        }
    }
}

/// The styles read from the markup of a style sheet: every style in it that
/// has an id, in the order in which they stand.
pub open spec fn parsed_styles(xml: Seq<char>) -> Seq<StyleView> {
    styles_of(regex_all_captures(STYLE@, xml))
}

/// Index of the first style from `from` on whose id is `id`.
pub open spec fn style_index(styles: Seq<StyleView>, id: Seq<char>, from: int) -> Option<int>
    decreases styles.len() - from,
{
    if from < 0 || from >= styles.len() {
        None
    } else if styles[from].id == id {
        Some(from)
    } else {
        style_index(styles, id, from + 1)
    }
}

/// The styles with `style` put in: in place of the first style of the same
/// id if there is one, at the end if there is none.
pub open spec fn styles_with(styles: Seq<StyleView>, style: StyleView) -> Seq<StyleView> {
    match style_index(styles, style.id, 0) {
        Some(i) => styles.update(i, style),
        None => styles.push(style),
    }
}

/// The styles with each of `new` put in, one after the other: of two styles
/// of one id the later one stays.
pub open spec fn styles_with_all(styles: Seq<StyleView>, new: Seq<StyleView>) -> Seq<StyleView>
    decreases new.len(),
{
    if new.len() == 0 {
        styles
    } else {
        styles_with(styles_with_all(styles, new.drop_last()), new.last())
    }
}

/// No two styles share an id.
pub open spec fn distinct_ids(styles: Seq<StyleView>) -> bool {
    forall|i: int, j: int|
        0 <= i < j < styles.len() ==> (#[trigger] styles[i]).id != (#[trigger] styles[j]).id
}

/// The theme that every document with a theme part is given.
pub open spec fn office_theme() -> ThemeView {
    ThemeView {
        name: "Office Theme"@,
        colors: Seq::empty(),
        major_font: "Calibri"@,
        minor_font: "Calibri"@,
        symbol_font: "Symbol"@,
    }
}

/// The core properties read from the markup of the properties part.
pub open spec fn parsed_core_properties(xml: Seq<char>) -> CorePropertiesView {
    CorePropertiesView {
        title: first_group(TITLE@, xml, 1),
        subject: None,
        creator: first_group(CREATOR@, xml, 1),
        keywords: None,
        description: None,
        last_modified_by: None,
        created: first_group(CREATED@, xml, 1),
        modified: first_group(MODIFIED@, xml, 1),
    }
}

/// Whether the package has a theme part under one of the names in use.
pub open spec fn has_theme_part(package: OpcPackage) -> bool {
    package.has_part(THEME_PART@) || package.has_part(THEME_PART_UNNUMBERED@) || package.has_part(
        THEME_PART_PLURAL@,
    )
}

/// The document that the parts of `package` give. The package has a main
/// part.
pub open spec fn parsed_document(package: OpcPackage) -> WordDocumentView {
    let paragraphs = parsed_paragraphs(package.part_text(MAIN_PART@));
    WordDocumentView {
        text: joined_text(paragraphs),
        paragraphs,
        styles: if package.has_part(STYLES_PART@) {
            styles_with_all(Seq::empty(), parsed_styles(package.part_text(STYLES_PART@)))
        } else {
            Seq::empty()
        },
        theme: if has_theme_part(package) {
            Some(office_theme())
        } else {
            None
        },
        core_properties: if package.has_part(CORE_PART@) {
            Some(parsed_core_properties(package.part_text(CORE_PART@)))
        } else {
            None
        },
    }
}

/// The failure says that the part called `name` is missing.
pub open spec fn is_missing_part(e: OoxmlError, name: Seq<char>) -> bool {
    e matches OoxmlError::PartNotFound(s) && s@ == name
}

fn flag_value(found: Option<String>, otherwise: Option<bool>) -> (r: Option<bool>)
    ensures
        r == found_flag(opt_view(found), otherwise),
{
    match found {
        Some(v) => Some(!str_eq(v.as_str(), "0")),
        None => otherwise,
    }
}

fn text_value(found: Option<String>, otherwise: Option<String>) -> (r: Option<String>)
    ensures
        opt_view(r) == found_text(opt_view(found), opt_view(otherwise)),
{
    match found {
        Some(v) => Some(v),
        None => otherwise,
    }
}

fn size_value(found: Option<String>, otherwise: Option<i32>) -> (r: Option<i32>)
    ensures
        r == found_size(opt_view(found), otherwise),
{
    match found {
        Some(v) => match parse_decimal(v.as_str()) {
            Some(n) => Some(n / 2),
            None => otherwise,
        },
        None => otherwise,
    }
}

impl RunProperties {
    /// These properties with each value that was found in the markup put in:
    /// a flag is on unless its value is `0`, a size is halved, a text is
    /// taken as it is.
    pub fn with_found(
        self,
        bold: Option<String>,
        italic: Option<String>,
        underline: Option<String>,
        size: Option<String>,
        color: Option<String>,
        font_name: Option<String>,
    ) -> (r: RunProperties)
        ensures
            r@ == with_run_properties(
                self@,
                opt_view(bold),
                opt_view(italic),
                opt_view(underline),
                opt_view(size),
                opt_view(color),
                opt_view(font_name),
            ),
    {
        RunProperties {
            bold: flag_value(bold, self.bold),
            italic: flag_value(italic, self.italic),
            underline: text_value(underline, self.underline),
            font_size: size_value(size, self.font_size),
            font_name: text_value(font_name, self.font_name),
            color: text_value(color, self.color),
            background_color: self.background_color,
        }
    }
}

impl Run {
    /// The run with the text that was found, or none, and the given
    /// properties.
    pub fn from_found(text: Option<String>, properties: RunProperties) -> (r: Run)
        ensures
            r@ == (RunView {
                text: match opt_view(text) {
                    Some(t) => t,
                    None => Seq::empty(),
                },
                properties: properties@,
            }),
    {
        match text {
            Some(t) => Run { text: t, properties },
            None => Run { text: String::new(), properties },
        }
    }

    /// Whether the run has text or sets some formatting.
    pub fn is_kept(&self) -> (b: bool)
        ensures
            b == run_is_kept(self@),
    {
        !self.text.as_str().is_empty() || !self.properties.is_default()
    }
}

impl Paragraph {
    /// The paragraph made of `runs`, its text being theirs; none where there
    /// are no runs.
    pub fn from_runs(runs: Vec<Run>) -> (r: Option<Paragraph>)
        ensures
            runs@.len() == 0 ==> r is None,
            runs@.len() > 0 ==> r is Some && r->0@ == paragraph_of(runs_view(runs@)),
    {
        if runs.len() == 0 {
            return None;
        }
        let mut text = String::new();
        let mut i: usize = 0;
        while i < runs.len()
            invariant
                i <= runs.len(),
                text@ == runs_text(runs_view(runs@).take(i as int)),
            decreases runs.len() - i,
        {
            proof {
                let all = runs_view(runs@);
                assert(all.take(i + 1).drop_last() =~= all.take(i as int));
                assert(all.take(i + 1).last() == runs@[i as int]@);
            }
            text.append(runs[i].text.as_str());
            i += 1;
        }
        proof {
            assert(runs_view(runs@).take(i as int) =~= runs_view(runs@));
        }
        Some(Paragraph { text, properties: ParagraphProperties::default(), runs })
    }
}

/// The texts of the paragraphs, a line terminator between each two.
pub fn join_texts(paragraphs: &Vec<Paragraph>) -> (text: String)
    ensures
        text@ == joined_text(paragraphs_view(paragraphs@)),
{
    let mut text = String::new();
    let mut i: usize = 0;
    while i < paragraphs.len()
        invariant
            i <= paragraphs.len(),
            text@ == joined_text(paragraphs_view(paragraphs@).take(i as int)),
        decreases paragraphs.len() - i,
    {
        proof {
            let all = paragraphs_view(paragraphs@);
            assert(all.take(i + 1).drop_last() =~= all.take(i as int));
            assert(all.take(i + 1).last() == paragraphs@[i as int]@);
            assert(all.take(i + 1)[0] == all[0]);
            reveal_strlit("\n");
            assert("\n"@ =~= seq!['\n']);
            if i == 0 {
                assert(Seq::<char>::empty() + paragraphs@[0]@.text =~= paragraphs@[0]@.text);
            }
        }
        if i > 0 {
            text.append("\n");
        }
        text.append(paragraphs[i].text.as_str());
        i += 1;
    }
    proof {
        assert(paragraphs_view(paragraphs@).take(i as int) =~= paragraphs_view(paragraphs@));
    }
    text
}

impl Style {
    /// The style with the given id and the values found for it.
    pub fn from_found(
        id: String,
        style_type: Option<String>,
        name: Option<String>,
        based_on: Option<String>,
        is_default: bool,
    ) -> (r: Style)
        ensures
            r@ == style_of(id@, opt_view(style_type), opt_view(name), opt_view(based_on), is_default),
    {
        let style_type = match style_type {
            Some(t) => t,
            None => "paragraph".to_owned(),
        };
        Style {
            id,
            name,
            style_type,
            based_on,
            paragraph_properties: ParagraphProperties::default(),
            run_properties: RunProperties::default(),
            is_default,
        }
    }
}

/// Puts `style` among `styles`: in place of the style of the same id if there
/// is one, at the end if there is none.
pub fn put_style(styles: &mut Vec<Style>, style: Style)
    ensures
        styles_view(final(styles)@) == styles_with(styles_view(old(styles)@), style@),
        distinct_ids(styles_view(old(styles)@)) ==> distinct_ids(styles_view(final(styles)@)),
{
    let ghost before = styles_view(styles@);
    let ghost new = style@;
    let mut i: usize = 0;
    while i < styles.len()
        invariant
            i <= styles.len(),
            styles@ == old(styles)@,
            style_index(before, new.id, 0) == style_index(before, new.id, i as int),
            forall|k: int| 0 <= k < i ==> before[k].id != new.id,
            before == styles_view(styles@),
            new == style@,
        decreases styles.len() - i,
    {
        if str_eq(styles[i].id.as_str(), style.id.as_str()) {
            styles[i] = style;
            proof {
                assert(styles_view(styles@) =~= before.update(i as int, new));
                if distinct_ids(before) {
                    let after = styles_view(styles@);
                    assert forall|a: int, b: int| 0 <= a < b < after.len() implies (
                    #[trigger] after[a]).id != (#[trigger] after[b]).id by {
                        assert(before[a].id != before[b].id);
                    }
                }
            }
            return ;
        }
        i += 1;
    }
    styles.push(style);
    proof {
        assert(styles_view(styles@) =~= before.push(new));
        if distinct_ids(before) {
            let after = styles_view(styles@);
            assert forall|a: int, b: int| 0 <= a < b < after.len() implies (#[trigger] after[a]).id
                != (#[trigger] after[b]).id by {
                if b < before.len() {
                    assert(before[a].id != before[b].id);
                }
            }
        }
    }
}

/// Fails on the first of the patterns for run properties that does not
/// compile.
pub fn check_run_property_patterns() -> (r: Result<(), OoxmlError>)
    ensures
        fails_on(r, bad_run_property_pattern()),
{
    check_pattern(BOLD)?;
    check_pattern(ITALIC)?;
    check_pattern(UNDERLINE)?;
    check_pattern(FONT_SIZE)?;
    check_pattern(COLOR)?;
    check_pattern(FONT_NAME)?;
    Ok(())
}

/// Fails on the first of the patterns for a run that does not compile.
pub fn check_run_patterns() -> (r: Result<(), OoxmlError>)
    ensures
        fails_on(r, bad_run_pattern()),
{
    check_pattern(RUN_TEXT)?;
    check_pattern(RUN_PROPERTIES)?;
    check_run_property_patterns()
}

/// Fails on the first of the patterns for the runs of a paragraph that does
/// not compile.
pub fn check_runs_patterns() -> (r: Result<(), OoxmlError>)
    ensures
        fails_on(r, bad_runs_pattern()),
{
    check_pattern(RUN)?;
    check_run_patterns()
}

/// Fails on the first of the patterns for the paragraphs of a body that does
/// not compile.
pub fn check_paragraph_patterns() -> (r: Result<(), OoxmlError>)
    ensures
        fails_on(r, bad_paragraph_pattern()),
{
    check_pattern(PARAGRAPH)?;
    check_runs_patterns()
}

/// Fails on the first of the patterns for a style that does not compile.
pub fn check_style_patterns() -> (r: Result<(), OoxmlError>)
    ensures
        fails_on(r, bad_style_pattern()),
{
    check_pattern(STYLE)?;
    check_pattern(STYLE_NAME)?;
    check_pattern(BASED_ON)?;
    check_pattern(DEFAULT_FLAG)?;
    Ok(())
}

/// Fails on the first of the patterns for the core properties that does not
/// compile.
pub fn check_core_patterns() -> (r: Result<(), OoxmlError>)
    ensures
        fails_on(r, bad_core_pattern()),
{
    check_pattern(TITLE)?;
    check_pattern(CREATOR)?;
    check_pattern(CREATED)?;
    check_pattern(MODIFIED)?;
    Ok(())
}

/// Reads the styles of the markup of a style sheet and puts each among
/// `styles`, in the order in which they stand. Fails on a pattern for a
/// style that does not compile; `styles` is then left as it was.
pub fn put_parsed_styles(styles: &mut Vec<Style>, xml: &str) -> (r: Result<(), OoxmlError>)
    ensures
        fails_on(r, bad_style_pattern()),
        r is Ok ==> styles_view(final(styles)@) == styles_with_all(
            styles_view(old(styles)@),
            parsed_styles(xml@),
        ),
        r is Ok && distinct_ids(styles_view(old(styles)@)) ==> distinct_ids(
            styles_view(final(styles)@),
        ),
        r is Err ==> *final(styles) == *old(styles),
{
    check_style_patterns()?;
    let found = find_all(STYLE, xml)?;
    let mut i: usize = 0;
    while i < found.len()
        invariant
            i <= found.len(),
            bad_style_pattern() is None,
            styles_view(styles@) == styles_with_all(
                styles_view(old(styles)@),
                styles_of(matches_view(found@).take(i as int)),
            ),
            distinct_ids(styles_view(old(styles)@)) ==> distinct_ids(styles_view(styles@)),
        decreases found.len() - i,
    {
        let ghost all = matches_view(found@);
        proof {
            assert(all.take(i + 1).drop_last() =~= all.take(i as int));
            assert(all.take(i + 1).last() == match_view(found@[i as int]));
        }
        match WordDocument::parse_style(&found[i])? {
            Some(style) => {
                proof {
                    let so_far = styles_of(all.take(i as int));
                    assert(so_far.push(style@).drop_last() =~= so_far);
                }
                put_style(styles, style);
            },
            None => {},
        }
        i += 1;
    }
    proof {
        assert(matches_view(found@).take(i as int) =~= matches_view(found@));
    }
    Ok(())
}

impl WordDocument {
    /// A document with nothing in it.
    pub fn empty() -> (r: Self)
        ensures
            r@ == (WordDocumentView {
                text: Seq::empty(),
                paragraphs: Seq::empty(),
                styles: Seq::empty(),
                theme: None,
                core_properties: None,
            }),
    {
        let r = WordDocument {
            text: String::new(),
            paragraphs: Vec::new(),
            styles: Vec::new(),
            theme: None,
            core_properties: None,
        };
        proof {
            assert(r@.paragraphs =~= Seq::empty());
            assert(r@.styles =~= Seq::empty());
        }
        r
    }

    /// Reads the document out of the parts of `package`: the main part,
    /// then the styles, the theme and the core properties where the package
    /// has them.
    ///
    /// Fails with `PartNotFound` when the package has no main document part,
    /// and else with a `ParseError` that names the pattern when one of the
    /// patterns for a part that the package has does not compile.
    pub fn parse(package: &OpcPackage) -> (r: Result<WordDocument, OoxmlError>)
        ensures
            !package.has_part(MAIN_PART@) ==> r is Err && is_missing_part(r->Err_0, MAIN_PART@),
            package.has_part(MAIN_PART@) ==> match bad_document_pattern(*package) {
                Some(p) => r is Err && is_pattern_error(r->Err_0, p),
                None => r is Ok && r->Ok_0@ == parsed_document(*package) && distinct_ids(
                    r->Ok_0@.styles,
                ),
            },
    {
        let mut document = WordDocument::empty();
        document.parse_main_document(package)?;
        document.parse_styles(package)?;
        document.parse_theme(package);
        document.parse_core_properties(package)?;
        Ok(document)
    }

    /// Reads the paragraphs of the main document part, adds them to those
    /// held, and sets the text to that of all paragraphs.
    ///
    /// Fails with `PartNotFound` when the package has no main document part,
    /// and else on a pattern for a paragraph that does not compile; the
    /// document is then left as it was.
    pub fn parse_main_document(&mut self, package: &OpcPackage) -> (r: Result<(), OoxmlError>)
        ensures
            !package.has_part(MAIN_PART@) ==> r is Err && is_missing_part(r->Err_0, MAIN_PART@),
            package.has_part(MAIN_PART@) ==> fails_on(r, bad_paragraph_pattern()),
            r is Ok ==> final(self)@ == (WordDocumentView {
                text: joined_text(
                    old(self)@.paragraphs + parsed_paragraphs(package.part_text(MAIN_PART@)),
                ),
                paragraphs: old(self)@.paragraphs + parsed_paragraphs(
                    package.part_text(MAIN_PART@),
                ),
                ..old(self)@
            }),
            r is Err ==> *final(self) == *old(self),
    {
        let part = match package.get_part(MAIN_PART) {
            Some(part) => part,
            None => {
                return Err(OoxmlError::PartNotFound(MAIN_PART.to_owned()));
            },
        };
        let xml = part.text();
        let mut found = Self::parse_paragraphs(xml.as_str())?;
        let ghost before = paragraphs_view(self.paragraphs@);
        self.paragraphs.append(&mut found);
        proof {
            assert(paragraphs_view(self.paragraphs@) =~= before + parsed_paragraphs(xml@));
        }
        self.text = join_texts(&self.paragraphs);
        Ok(())
    }

    /// Reads the paragraphs of the markup of a document body: every
    /// paragraph that has a run worth keeping, in the order in which they
    /// stand. Fails on a pattern for a paragraph that does not compile.
    pub fn parse_paragraphs(xml: &str) -> (r: Result<Vec<Paragraph>, OoxmlError>)
        ensures
            match bad_paragraph_pattern() {
                Some(p) => r is Err && is_pattern_error(r->Err_0, p),
                None => r is Ok && paragraphs_view(r->Ok_0@) == parsed_paragraphs(xml@),
            },
    {
        check_paragraph_patterns()?;
        let found = find_all(PARAGRAPH, xml)?;
        let mut paragraphs: Vec<Paragraph> = Vec::new();
        let mut i: usize = 0;
        proof {
            assert(paragraphs_view(paragraphs@) =~= Seq::empty());
        }
        while i < found.len()
            invariant
                i <= found.len(),
                bad_paragraph_pattern() is None,
                paragraphs_view(paragraphs@) == paragraphs_of(matches_view(found@).take(i as int)),
            decreases found.len() - i,
        {
            let ghost all = matches_view(found@);
            let ghost held = paragraphs@;
            proof {
                assert(all.take(i + 1).drop_last() =~= all.take(i as int));
                assert(all.take(i + 1).last() == match_view(found@[i as int]));
            }
            match pick_group(&found[i], 1) {
                Some(inner) => {
                    let runs = Self::parse_runs(inner.as_str())?;
                    match Paragraph::from_runs(runs) {
                        Some(paragraph) => {
                            paragraphs.push(paragraph);
                            proof {
                                assert(paragraphs_view(paragraphs@) =~= paragraphs_view(held).push(
                                    paragraph@,
                                ));
                            }
                        },
                        None => {},
                    }
                },
                None => {},
            }
            i += 1;
        }
        proof {
            assert(matches_view(found@).take(i as int) =~= matches_view(found@));
        }
        Ok(paragraphs)
    }

    /// Reads the runs of the markup of a paragraph: every run that is worth
    /// keeping, in the order in which they stand. Fails on a pattern for a
    /// run that does not compile.
    pub fn parse_runs(xml: &str) -> (r: Result<Vec<Run>, OoxmlError>)
        ensures
            match bad_runs_pattern() {
                Some(p) => r is Err && is_pattern_error(r->Err_0, p),
                None => r is Ok && runs_view(r->Ok_0@) == parsed_runs(xml@),
            },
    {
        check_runs_patterns()?;
        let found = find_all(RUN, xml)?;
        let mut runs: Vec<Run> = Vec::new();
        let mut i: usize = 0;
        proof {
            assert(runs_view(runs@) =~= Seq::empty());
        }
        while i < found.len()
            invariant
                i <= found.len(),
                bad_runs_pattern() is None,
                runs_view(runs@) == runs_of(matches_view(found@).take(i as int)),
            decreases found.len() - i,
        {
            let ghost all = matches_view(found@);
            let ghost held = runs@;
            proof {
                assert(all.take(i + 1).drop_last() =~= all.take(i as int));
                assert(all.take(i + 1).last() == match_view(found@[i as int]));
            }
            match pick_group(&found[i], 1) {
                Some(inner) => {
                    let run = Self::parse_run(inner.as_str())?;
                    if run.is_kept() {
                        runs.push(run);
                        proof {
                            assert(runs_view(runs@) =~= runs_view(held).push(run@));
                        }
                    }
                },
                None => {},
            }
            i += 1;
        }
        proof {
            assert(matches_view(found@).take(i as int) =~= matches_view(found@));
        }
        Ok(runs)
    }

    /// Reads a run from its markup. Fails on a pattern for a run that does
    /// not compile.
    pub fn parse_run(xml: &str) -> (r: Result<Run, OoxmlError>)
        ensures
            match bad_run_pattern() {
                Some(p) => r is Err && is_pattern_error(r->Err_0, p),
                None => r is Ok && r->Ok_0@ == parsed_run(xml@),
            },
    {
        check_run_patterns()?;
        let text = find_group(RUN_TEXT, xml, 1)?;
        let mut properties = RunProperties::default();
        match find_group(RUN_PROPERTIES, xml, 1)? {
            Some(inner) => {
                Self::parse_run_properties(inner.as_str(), &mut properties)?;
            },
            None => {},
        }
        Ok(Run::from_found(text, properties))
    }

    /// Reads run properties from their markup into `props`; what the markup
    /// does not set stays as it is. Fails on a pattern for run properties
    /// that does not compile; `props` is then left as it was.
    pub fn parse_run_properties(xml: &str, props: &mut RunProperties) -> (r: Result<(), OoxmlError>)
        ensures
            fails_on(r, bad_run_property_pattern()),
            r is Ok ==> final(props)@ == parsed_run_properties(xml@, old(props)@),
            r is Err ==> *final(props) == *old(props),
    {
        let bold = find_group(BOLD, xml, 1)?;
        let italic = find_group(ITALIC, xml, 1)?;
        let underline = find_group(UNDERLINE, xml, 1)?;
        let size = find_group(FONT_SIZE, xml, 1)?;
        let color = find_group(COLOR, xml, 1)?;
        let font_name = find_group(FONT_NAME, xml, 1)?;
        let mut held = RunProperties::default();
        std::mem::swap(props, &mut held);
        *props = held.with_found(bold, italic, underline, size, color, font_name);
        Ok(())
    }

    /// Reads the styles of the styles part, if the package has that part,
    /// and puts each among the styles held, in the order in which they stand.
    /// Fails on a pattern for a style that does not compile, if the package
    /// has the part; the document is then left as it was.
    pub fn parse_styles(&mut self, package: &OpcPackage) -> (r: Result<(), OoxmlError>)
        ensures
            !package.has_part(STYLES_PART@) ==> r is Ok,
            package.has_part(STYLES_PART@) ==> fails_on(r, bad_style_pattern()),
            r is Ok ==> final(self)@ == (WordDocumentView {
                styles: if package.has_part(STYLES_PART@) {
                    styles_with_all(
                        old(self)@.styles,
                        parsed_styles(package.part_text(STYLES_PART@)),
                    )
                } else {
                    old(self)@.styles
                },
                ..old(self)@
            }),
            r is Ok && distinct_ids(old(self)@.styles) ==> distinct_ids(final(self)@.styles),
            r is Err ==> *final(self) == *old(self),
    {
        let part = match package.get_part(STYLES_PART) {
            Some(part) => part,
            None => {
                return Ok(());
            },
        };
        let xml = part.text();
        put_parsed_styles(&mut self.styles, xml.as_str())
    }

    /// Reads the style that one match of the style pattern gives, if it has
    /// an id. Fails on a pattern for a style that does not compile.
    pub fn parse_style(groups: &Vec<Option<String>>) -> (r: Result<Option<Style>, OoxmlError>)
        ensures
            match bad_style_pattern() {
                Some(p) => r is Err && is_pattern_error(r->Err_0, p),
                None => r is Ok && match r->Ok_0 {
                    Some(s) => style_in(match_view(*groups)) == Some(s@),
                    None => style_in(match_view(*groups)) is None,
                },
            },
    {
        check_style_patterns()?;
        let id = match pick_group(groups, 1) {
            Some(id) => id,
            None => {
                return Ok(None);
            },
        };
        let style_type = pick_group(groups, 2);
        let inner = match pick_group(groups, 3) {
            Some(inner) => inner,
            None => String::new(),
        };
        let name = find_group(STYLE_NAME, inner.as_str(), 1)?;
        let based_on = find_group(BASED_ON, inner.as_str(), 1)?;
        let is_default = matches_anywhere(DEFAULT_FLAG, inner.as_str())?;
        Ok(Some(Style::from_found(id, style_type, name, based_on, is_default)))
    }

    /// Gives the document the office theme if the package has a theme part
    /// under one of the names in use, and leaves it as it is if not.
    pub fn parse_theme(&mut self, package: &OpcPackage)
        ensures
            final(self)@ == (WordDocumentView {
                theme: if has_theme_part(*package) {
                    Some(office_theme())
                } else {
                    old(self)@.theme
                },
                ..old(self)@
            }),
    {
        let found = package.get_part(THEME_PART).is_some() || package.get_part(
            THEME_PART_UNNUMBERED,
        ).is_some() || package.get_part(THEME_PART_PLURAL).is_some();
        if found {
            let theme = Theme {
                name: "Office Theme".to_owned(),
                colors: Vec::new(),
                fonts: ThemeFonts {
                    major_font: "Calibri".to_owned(),
                    minor_font: "Calibri".to_owned(),
                    symbol_font: "Symbol".to_owned(),
                },
            };
            proof {
                assert(theme@.colors =~= Seq::empty());
            }
            self.theme = Some(theme);
        }
    }

    /// Reads the core properties if the package has the part that holds
    /// them, and leaves the document as it is if not. Fails on a pattern for
    /// the core properties that does not compile, if the package has the
    /// part; the document is then left as it was.
    pub fn parse_core_properties(&mut self, package: &OpcPackage) -> (r: Result<(), OoxmlError>)
        ensures
            !package.has_part(CORE_PART@) ==> r is Ok,
            package.has_part(CORE_PART@) ==> fails_on(r, bad_core_pattern()),
            r is Ok ==> final(self)@ == (WordDocumentView {
                core_properties: if package.has_part(CORE_PART@) {
                    Some(parsed_core_properties(package.part_text(CORE_PART@)))
                } else {
                    old(self)@.core_properties
                },
                ..old(self)@
            }),
            r is Err ==> *final(self) == *old(self),
    {
        let part = match package.get_part(CORE_PART) {
            Some(part) => part,
            None => {
                return Ok(());
            },
        };
        let xml = part.text();
        let title = find_group(TITLE, xml.as_str(), 1)?;
        let creator = find_group(CREATOR, xml.as_str(), 1)?;
        let created = find_group(CREATED, xml.as_str(), 1)?;
        let modified = find_group(MODIFIED, xml.as_str(), 1)?;
        self.core_properties = Some(
            CoreProperties {
                title,
                subject: None,
                creator,
                keywords: None,
                description: None,
                last_modified_by: None,
                created,
                modified,
            },
        );
        Ok(())
    }
}

} // verus!
