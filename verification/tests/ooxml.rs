use velum_core::ooxml::document::{
    check_core_patterns, check_paragraph_patterns, check_run_patterns,
    check_run_property_patterns, check_runs_patterns, check_style_patterns, put_parsed_styles,
    put_style, CoreProperties, WordDocument,
};
use velum_core::ooxml::error::OoxmlError;
use velum_core::piece_tree::{TextAttributes, TextSegment};
use velum_core::session::Session;
use velum_core::ooxml::number::parse_decimal;
use velum_core::ooxml::opc::OpcPackage;
use velum_core::ooxml::pattern::{
    check_pattern, find_all, find_group, find_groups, matches_anywhere, pick_group,
};
use velum_core::ooxml::types::{
    ContentType, PackagePart, Paragraph, ParagraphProperties, RelationshipType, Run,
    RunProperties, Style, Theme, ThemeFonts,
};

fn part(name: &str, xml: &str) -> PackagePart {
    PackagePart {
        name: name.to_string(),
        content_type: ContentType::Unknown(String::new()),
        data: xml.as_bytes().to_vec(),
    }
}

const BODY: &str = "<w:document><w:body><w:p><w:r><w:rPr><w:b w:val=\"1\"/><w:i w:val=\"0\"/>\
<w:u w:val=\"single\"/><w:sz w:val=\"24\"/><w:color w:val=\"FF0000\"/>\
<w:rFonts w:ascii=\"Arial\"/></w:rPr><w:t>Hello</w:t></w:r></w:p>\
<w:p><w:r><w:t>second</w:t></w:r></w:p></w:body></w:document>";

const STYLES: &str = "<w:styles><w:style w:styleId=\"Heading1\" w:type=\"character\">\
<w:name w:val=\"heading 1\"/><w:basedOn w:val=\"Normal\"/><w:rPr w:default=\"1\"/></w:style>\
</w:styles>";

const CORE: &str = "<cp:coreProperties><dc:title>My Doc</dc:title><dc:creator>Ann</dc:creator>\
<dcterms:created xsi:type=\"dcterms:W3CDTF\">2024-01-01T00:00:00Z</dcterms:created>\
<dcterms:modified xsi:type=\"dcterms:W3CDTF\">2024-02-02T00:00:00Z</dcterms:modified>\
</cp:coreProperties>";

#[test]
fn content_types_by_name() {
    assert_eq!(
        ContentType::from_string(
            "application/vnd.openxmlformats-officedocument.wordprocessingml.document.main+xml"
        ),
        ContentType::MainDocument
    );
    assert_eq!(
        ContentType::from_string(
            "application/vnd.openxmlformats-officedocument.wordprocessingml.styles+xml"
        ),
        ContentType::Styles
    );
    assert_eq!(
        ContentType::from_string(
            "application/vnd.openxmlformats-officedocument.wordprocessingml.theme+xml"
        ),
        ContentType::Theme
    );
    assert_eq!(
        ContentType::from_string(
            "application/vnd.openxmlformats-officedocument.wordprocessingml.settings+xml"
        ),
        ContentType::Settings
    );
    assert_eq!(
        ContentType::from_string("application/vnd.openxmlformats-package.core-properties+xml"),
        ContentType::CoreProperties
    );
    assert_eq!(
        ContentType::from_string(
            "application/vnd.openxmlformats-officedocument.extended-properties+xml"
        ),
        ContentType::AppProperties
    );
    assert_eq!(
        ContentType::from_string(
            "application/vnd.openxmlformats-officedocument.wordprocessingml.webSettings+xml"
        ),
        ContentType::WebSettings
    );
    assert_eq!(
        ContentType::from_string(
            "application/vnd.openxmlformats-officedocument.wordprocessingml.numbering+xml"
        ),
        ContentType::Numbering
    );
    assert_eq!(ContentType::from_string("application/xml"), ContentType::CustomXml);
    assert_eq!(
        ContentType::from_string(
            "application/vnd.openxmlformats-officedocument.customXmlProperties+xml"
        ),
        ContentType::CustomXml
    );
    assert_eq!(ContentType::from_string("image/png"), ContentType::Thumbnail);
    assert_eq!(ContentType::from_string("image/jpeg"), ContentType::Thumbnail);
    assert_eq!(ContentType::from_string("image/gif"), ContentType::Thumbnail);
    assert_eq!(ContentType::from_string("image/bmp"), ContentType::Thumbnail);
    assert_eq!(
        ContentType::from_string("application/vnd.openxmlformats-package.relationships+xml"),
        ContentType::Relationships
    );
    assert_eq!(
        ContentType::from_string("text/plain"),
        ContentType::Unknown("text/plain".to_string())
    );
    assert_eq!(ContentType::from_string(""), ContentType::Unknown(String::new()));
    assert_eq!(
        ContentType::from_string("image/PNG"),
        ContentType::Unknown("image/PNG".to_string())
    );
}

#[test]
fn default_part_names() {
    assert_eq!(ContentType::MainDocument.default_part_name(), Some("/word/document.xml"));
    assert_eq!(ContentType::Styles.default_part_name(), Some("/word/styles.xml"));
    assert_eq!(ContentType::Theme.default_part_name(), Some("/word/theme/theme1.xml"));
    assert_eq!(ContentType::Settings.default_part_name(), Some("/word/settings.xml"));
    assert_eq!(ContentType::CoreProperties.default_part_name(), Some("/docProps/core.xml"));
    assert_eq!(ContentType::AppProperties.default_part_name(), Some("/docProps/app.xml"));
    assert_eq!(ContentType::WebSettings.default_part_name(), Some("/word/webSettings.xml"));
    assert_eq!(ContentType::Numbering.default_part_name(), Some("/word/numbering.xml"));
    assert_eq!(ContentType::CustomXml.default_part_name(), None);
    assert_eq!(ContentType::Thumbnail.default_part_name(), None);
    assert_eq!(ContentType::Relationships.default_part_name(), None);
    assert_eq!(ContentType::Unknown("x".to_string()).default_part_name(), None);
}

#[test]
fn relationship_types_by_name() {
    let base = "http://schemas.openxmlformats.org/officeDocument/2006/relationships/";
    let package = "http://schemas.openxmlformats.org/package/2006/relationships/metadata/";
    assert_eq!(
        RelationshipType::from_string(&format!("{}officeDocument", base)),
        RelationshipType::OfficeDocument
    );
    assert_eq!(
        RelationshipType::from_string(&format!("{}mainDocument", base)),
        RelationshipType::Document
    );
    assert_eq!(RelationshipType::from_string(&format!("{}styles", base)), RelationshipType::Styles);
    assert_eq!(RelationshipType::from_string(&format!("{}theme", base)), RelationshipType::Theme);
    assert_eq!(
        RelationshipType::from_string(&format!("{}settings", base)),
        RelationshipType::Settings
    );
    assert_eq!(
        RelationshipType::from_string(&format!("{}core-properties", package)),
        RelationshipType::CoreProperties
    );
    assert_eq!(
        RelationshipType::from_string(&format!("{}customXml", base)),
        RelationshipType::CustomXml
    );
    assert_eq!(
        RelationshipType::from_string(&format!("{}thumbnail", package)),
        RelationshipType::Thumbnail
    );
    assert_eq!(
        RelationshipType::from_string("urn:other"),
        RelationshipType::Unknown("urn:other".to_string())
    );
}

#[test]
fn defaults_set_nothing() {
    assert!(RunProperties::default().is_default());
    let mut props = RunProperties::default();
    props.background_color = Some("FFFF00".to_string());
    assert!(!props.is_default());
    assert_eq!(ParagraphProperties::default().alignment, None);
    assert_eq!(Run::default().text, "");
    assert!(Paragraph::default().runs.is_empty());
    assert_eq!(Style::default().id, "");
    assert!(!Style::default().is_default);
    assert_eq!(ThemeFonts::default().major_font, "");
    assert!(Theme::default().colors.is_empty());
    assert_eq!(CoreProperties::default().title, None);
}

#[test]
fn decimal_numbers() {
    assert_eq!(parse_decimal("24"), Some(24));
    assert_eq!(parse_decimal("0"), Some(0));
    assert_eq!(parse_decimal("007"), Some(7));
    assert_eq!(parse_decimal("2147483647"), Some(2147483647));
    assert_eq!(parse_decimal("2147483648"), None);
    assert_eq!(parse_decimal("99999999999999999999"), None);
    assert_eq!(parse_decimal(""), None);
    assert_eq!(parse_decimal("12a"), None);
    assert_eq!(parse_decimal("-5"), None);
    assert_eq!(parse_decimal("٣"), None);
}

#[test]
fn pattern_search() {
    assert_eq!(find_group("a(b+)c", "xxabbbcx", 1), Ok(Some("bbb".to_string())));
    assert_eq!(find_group("a(b+)c", "xxabbbcx", 0), Ok(Some("abbbc".to_string())));
    assert_eq!(find_group("a(b+)c", "xxabbbcx", 2), Ok(None));
    assert_eq!(find_group("a(b+)c", "nothing", 1), Ok(None));
    assert_eq!(find_group("a(b)|(c)", "c", 1), Ok(None));
    assert_eq!(find_group("a(b)|(c)", "c", 2), Ok(Some("c".to_string())));
    assert_eq!(find_group("a(b", "ab", 1), Err(OoxmlError::ParseError("a(b".to_string())));
    assert_eq!(
        find_groups("(x)(y)?", "x"),
        Ok(Some(vec![Some("x".to_string()), Some("x".to_string()), None]))
    );
    assert_eq!(find_groups("(x)(y)?", "z"), Ok(None));
    assert_eq!(matches_anywhere("b+", "abba"), Ok(true));
    assert_eq!(matches_anywhere("b+", "aa"), Ok(false));
    assert_eq!(matches_anywhere("b(", "aa"), Err(OoxmlError::ParseError("b(".to_string())));
    let groups = vec![Some("whole".to_string()), None];
    assert_eq!(pick_group(&groups, 0), Some("whole".to_string()));
    assert_eq!(pick_group(&groups, 1), None);
    assert_eq!(pick_group(&groups, 2), None);
}

#[test]
fn package_parts_by_name() {
    let package = OpcPackage {
        parts: vec![part("/a", "first"), part("/b", "second"), part("/a", "third")],
    };
    assert_eq!(package.get_part("/a").map(|p| p.text()), Some("first".to_string()));
    assert_eq!(package.get_part("/b").map(|p| p.text()), Some("second".to_string()));
    assert_eq!(package.get_part("/c"), None);
    assert_eq!(OpcPackage::new().get_part("/a"), None);
}

#[test]
fn bytes_that_are_not_text_are_replaced() {
    let broken = PackagePart {
        name: "/x".to_string(),
        content_type: ContentType::CustomXml,
        data: vec![b'a', 0xff, b'b'],
    };
    assert_eq!(broken.text(), "a\u{fffd}b");
}

#[test]
fn a_package_without_main_part_is_refused() {
    let package = OpcPackage { parts: vec![part("/word/styles.xml", STYLES)] };
    assert_eq!(
        WordDocument::parse(&package),
        Err(OoxmlError::PartNotFound("/word/document.xml".to_string()))
    );
    assert_eq!(
        OoxmlError::PartNotFound("/word/document.xml".to_string()).message(),
        "Part not found: /word/document.xml"
    );
}

#[test]
fn error_messages_carry_their_label() {
    let s = || "x".to_string();
    assert_eq!(OoxmlError::IoError(s()).message(), "IO error: x");
    assert_eq!(OoxmlError::ZipError(s()).message(), "ZIP archive error: x");
    assert_eq!(
        OoxmlError::ContentTypeNotFound(s()).message(),
        "Content-Type not found for part: x"
    );
    assert_eq!(OoxmlError::RelationshipNotFound(s()).message(), "Relationship not found: x");
    assert_eq!(OoxmlError::InvalidContentType(s()).message(), "Invalid content type: x");
    assert_eq!(OoxmlError::MissingRequiredPart(s()).message(), "Missing required part: x");
    assert_eq!(OoxmlError::InvalidNamespace(s()).message(), "Invalid namespace: x");
    assert_eq!(OoxmlError::ParseError(s()).message(), "Parse error: x");
    assert_eq!(OoxmlError::UnsupportedContentType(s()).message(), "Unsupported content type: x");
}

#[test]
fn every_paragraph_and_run_is_read() {
    let package = OpcPackage { parts: vec![part("/word/document.xml", BODY)] };
    let document = WordDocument::parse(&package).unwrap();
    assert_eq!(document.text, "Hello\nsecond");
    assert_eq!(document.paragraphs.len(), 2);
    let paragraph = &document.paragraphs[0];
    assert_eq!(paragraph.text, "Hello");
    assert_eq!(paragraph.properties, ParagraphProperties::default());
    assert_eq!(
        paragraph.runs,
        vec![Run {
            text: "Hello".to_string(),
            properties: RunProperties {
                bold: Some(true),
                italic: Some(false),
                underline: Some("single".to_string()),
                font_size: Some(12),
                font_name: Some("Arial".to_string()),
                color: Some("FF0000".to_string()),
                background_color: None,
            },
        }]
    );
    assert_eq!(
        document.paragraphs[1],
        Paragraph {
            text: "second".to_string(),
            properties: ParagraphProperties::default(),
            runs: vec![Run { text: "second".to_string(), properties: RunProperties::default() }],
        }
    );
    assert!(document.styles.is_empty());
    assert_eq!(document.theme, None);
    assert_eq!(document.core_properties, None);
}

#[test]
fn paragraphs_come_in_document_order() {
    let body = "<w:p><w:r><w:t>A</w:t></w:r></w:p><w:p><w:r><w:t>B</w:t></w:r></w:p>";
    let mut document = WordDocument::empty();
    let package = OpcPackage { parts: vec![part("/word/document.xml", body)] };
    assert_eq!(document.parse_main_document(&package), Ok(()));
    assert_eq!(document.paragraphs.len(), 2);
    assert_eq!(document.text, "A\nB");
    assert_eq!(document.parse_main_document(&package), Ok(()));
    assert_eq!(document.paragraphs.len(), 4);
    assert_eq!(document.text, "A\nB\nA\nB");
}

#[test]
fn every_run_of_a_paragraph_is_read() {
    let xml = "<w:r><w:t>one </w:t></w:r><w:r></w:r><w:r><w:rPr><w:b w:val=\"1\"/></w:rPr>\
<w:t>two</w:t></w:r><w:r><w:rPr><w:i w:val=\"0\"/></w:rPr></w:r>";
    let runs = WordDocument::parse_runs(xml).unwrap();
    assert_eq!(runs.len(), 3);
    assert_eq!(runs[0].text, "one ");
    assert_eq!(runs[1].text, "two");
    assert_eq!(runs[1].properties.bold, Some(true));
    assert_eq!(runs[2].text, "");
    assert_eq!(runs[2].properties.italic, Some(false));
    let paragraphs = WordDocument::parse_paragraphs(&format!("<w:p>{}</w:p><w:p></w:p>", xml));
    let paragraphs = paragraphs.unwrap();
    assert_eq!(paragraphs.len(), 1);
    assert_eq!(paragraphs[0].text, "one two");
    assert_eq!(paragraphs[0].runs, runs);
}

#[test]
fn a_body_without_runs_gives_no_paragraph() {
    let package = OpcPackage {
        parts: vec![part("/word/document.xml", "<w:body><w:p><w:r></w:r></w:p></w:body>")],
    };
    let document = WordDocument::parse(&package).unwrap();
    assert_eq!(document.text, "");
    assert!(document.paragraphs.is_empty());
    let package = OpcPackage { parts: vec![part("/word/document.xml", "plain")] };
    assert_eq!(WordDocument::parse(&package), Ok(WordDocument::empty()));
}

#[test]
fn a_run_with_formatting_only_is_kept() {
    let xml = "<w:p><w:r><w:rPr><w:sz w:val=\"31\"/></w:rPr></w:r></w:p>";
    let paragraphs = WordDocument::parse_paragraphs(xml).unwrap();
    assert_eq!(paragraphs.len(), 1);
    let paragraph = &paragraphs[0];
    assert_eq!(paragraph.text, "");
    assert_eq!(paragraph.runs.len(), 1);
    assert_eq!(paragraph.runs[0].properties.font_size, Some(15));
    assert_eq!(paragraph.runs[0].properties.bold, None);
}

#[test]
fn a_size_too_large_to_read_is_left_out() {
    let mut props = RunProperties::default();
    props.font_size = Some(7);
    assert_eq!(
        WordDocument::parse_run_properties("<w:sz w:val=\"99999999999\"/>", &mut props),
        Ok(())
    );
    assert_eq!(props.font_size, Some(7));
    assert_eq!(WordDocument::parse_run_properties("<w:sz w:val=\"9\"/>", &mut props), Ok(()));
    assert_eq!(props.font_size, Some(4));
}

#[test]
fn styles_theme_and_properties() {
    let package = OpcPackage {
        parts: vec![
            part("/word/document.xml", BODY),
            part("/word/styles.xml", STYLES),
            part("/word/theme/theme.xml", "<a:theme/>"),
            part("/docProps/core.xml", CORE),
        ],
    };
    let document = WordDocument::parse(&package).unwrap();
    assert_eq!(
        document.styles,
        vec![Style {
            id: "Heading1".to_string(),
            name: Some("heading 1".to_string()),
            style_type: "character".to_string(),
            based_on: Some("Normal".to_string()),
            paragraph_properties: ParagraphProperties::default(),
            run_properties: RunProperties::default(),
            is_default: true,
        }]
    );
    assert_eq!(
        document.theme,
        Some(Theme {
            name: "Office Theme".to_string(),
            colors: vec![],
            fonts: ThemeFonts {
                major_font: "Calibri".to_string(),
                minor_font: "Calibri".to_string(),
                symbol_font: "Symbol".to_string(),
            },
        })
    );
    assert_eq!(
        document.core_properties,
        Some(CoreProperties {
            title: Some("My Doc".to_string()),
            subject: None,
            creator: Some("Ann".to_string()),
            keywords: None,
            description: None,
            last_modified_by: None,
            created: Some("2024-01-01T00:00:00Z".to_string()),
            modified: Some("2024-02-02T00:00:00Z".to_string()),
        })
    );
}

#[test]
fn a_style_replaces_the_one_of_the_same_id() {
    let mut document = WordDocument::empty();
    let first = OpcPackage { parts: vec![part("/word/styles.xml", STYLES)] };
    let second = OpcPackage {
        parts: vec![part(
            "/word/styles.xml",
            "<w:style w:styleId=\"Heading1\" w:type=\"paragraph\"></w:style>",
        )],
    };
    let third = OpcPackage {
        parts: vec![part(
            "/word/styles.xml",
            "<w:style w:styleId=\"Other\" w:type=\"table\"></w:style>",
        )],
    };
    assert_eq!(document.parse_styles(&first), Ok(()));
    assert_eq!(document.parse_styles(&third), Ok(()));
    assert_eq!(document.parse_styles(&second), Ok(()));
    assert_eq!(document.styles.len(), 2);
    assert_eq!(document.styles[0].id, "Heading1");
    assert_eq!(document.styles[0].style_type, "paragraph");
    assert_eq!(document.styles[0].name, None);
    assert!(!document.styles[0].is_default);
    assert_eq!(document.styles[1].id, "Other");
    assert_eq!(document.parse_styles(&OpcPackage::new()), Ok(()));
    assert_eq!(document.styles.len(), 2);
}

#[test]
fn paragraph_texts_are_joined_by_line() {
    let run = |t: &str| Run { text: t.to_string(), properties: RunProperties::default() };
    let first = Paragraph::from_runs(vec![run("ab"), run("cd")]).unwrap();
    let second = Paragraph::from_runs(vec![run("ef")]).unwrap();
    assert_eq!(first.text, "abcd");
    assert_eq!(Paragraph::from_runs(vec![]), None);
    assert_eq!(velum_core::ooxml::document::join_texts(&vec![first, second]), "abcd\nef");
    assert_eq!(velum_core::ooxml::document::join_texts(&vec![]), "");
}

#[test]
fn every_pattern_of_the_parser_compiles() {
    assert_eq!(check_run_property_patterns(), Ok(()));
    assert_eq!(check_run_patterns(), Ok(()));
    assert_eq!(check_runs_patterns(), Ok(()));
    assert_eq!(check_paragraph_patterns(), Ok(()));
    assert_eq!(check_style_patterns(), Ok(()));
    assert_eq!(check_core_patterns(), Ok(()));
    assert_eq!(check_pattern("[a-z]+"), Ok(()));
    assert_eq!(check_pattern("[a-z"), Err(OoxmlError::ParseError("[a-z".to_string())));
}

#[test]
fn styles_are_kept_by_id() {
    let style = |id: &str, name: &str| Style {
        id: id.to_string(),
        name: Some(name.to_string()),
        ..Style::default()
    };
    let mut styles = Vec::new();
    put_style(&mut styles, style("a", "first"));
    put_style(&mut styles, style("b", "second"));
    put_style(&mut styles, style("a", "third"));
    assert_eq!(styles, vec![style("a", "third"), style("b", "second")]);
}

#[test]
fn every_style_of_a_sheet_is_read() {
    let sheet = "<w:styles>\
<w:style w:styleId=\"Normal\" w:type=\"paragraph\"><w:name w:val=\"Normal\"/></w:style>\
<w:style w:styleId=\"Strong\" w:type=\"character\"><w:basedOn w:val=\"Normal\"/></w:style>\
<w:style w:styleId=\"Normal\" w:type=\"table\"></w:style></w:styles>";
    let package = OpcPackage {
        parts: vec![part("/word/document.xml", BODY), part("/word/styles.xml", sheet)],
    };
    let document = WordDocument::parse(&package).unwrap();
    assert_eq!(document.styles.len(), 2);
    assert_eq!(document.styles[0].id, "Normal");
    assert_eq!(document.styles[0].style_type, "table");
    assert_eq!(document.styles[0].name, None);
    assert_eq!(document.styles[1].id, "Strong");
    assert_eq!(document.styles[1].based_on, Some("Normal".to_string()));
    let mut styles = Vec::new();
    assert_eq!(put_parsed_styles(&mut styles, "no styles here"), Ok(()));
    assert!(styles.is_empty());
}

#[test]
fn all_matches_of_a_pattern() {
    assert_eq!(
        find_all("a(b*)", "ab a abb"),
        Ok(vec![
            vec![Some("ab".to_string()), Some("b".to_string())],
            vec![Some("a".to_string()), Some(String::new())],
            vec![Some("abb".to_string()), Some("bb".to_string())],
        ])
    );
    assert_eq!(find_all("x(y)?", "zzz"), Ok(vec![]));
    assert_eq!(find_all("x(y)?", "x"), Ok(vec![vec![Some("x".to_string()), None]]));
    assert_eq!(find_all("x(", "x"), Err(OoxmlError::ParseError("x(".to_string())));
}

#[test]
fn a_document_is_handed_over_run_by_run() {
    let package = OpcPackage { parts: vec![part("/word/document.xml", BODY)] };
    let document = WordDocument::parse(&package).unwrap();
    let formatted = TextAttributes {
        bold: true,
        italic: false,
        underline: true,
        font_family: Some("Arial".to_string()),
        font_size: Some(24),
        color: Some("FF0000".to_string()),
    };
    let segments = document.to_segments();
    assert_eq!(
        segments,
        vec![
            TextSegment { text: "Hello".to_string(), attributes: Some(formatted.clone()) },
            TextSegment { text: "\n".to_string(), attributes: None },
            TextSegment { text: "second".to_string(), attributes: None },
        ]
    );
    let mut session = Session::new();
    assert_eq!(session.load(&segments), Ok(()));
    assert_eq!(session.get_text(), document.text);
    assert_eq!(session.store().piece_count(), 3);
    assert_eq!(session.store().get_attributes_at(4), Some(formatted));
    assert_eq!(session.store().get_attributes_at(5), None);
    assert_eq!(session.get_line(1), Some("second".to_string()));
    assert!(WordDocument::empty().to_segments().is_empty());
}

#[test]
fn run_properties_as_formatting() {
    assert_eq!(RunProperties::default().to_attributes(), None);
    let mut props = RunProperties::default();
    props.underline = Some("none".to_string());
    props.bold = Some(false);
    props.font_size = Some(-3);
    props.background_color = Some("FFFF00".to_string());
    assert_eq!(
        props.to_attributes(),
        Some(TextAttributes {
            bold: false,
            italic: false,
            underline: false,
            font_family: None,
            font_size: None,
            color: None,
        })
    );
    props.italic = Some(true);
    props.underline = Some("double".to_string());
    props.font_size = Some(i32::MAX);
    let attributes = props.to_attributes().unwrap();
    assert!(attributes.italic);
    assert!(attributes.underline);
    assert_eq!(attributes.font_size, Some(4294967294));
}
