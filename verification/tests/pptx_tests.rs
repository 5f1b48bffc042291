use deckmaster::error::PptxError;
use deckmaster::measure::Measure;
use deckmaster::commands::new_deck;
use deckmaster::model::{Asset, Color, Element, ImageElement, MathElement, Presentation, Rect, Slide, TextElement};
use deckmaster::package::DeckPackage;
use deckmaster::pptx::embedded_json::EmbeddedJsonExporter;
use deckmaster::pptx::export::{
    generate_slide_relationships, generate_slide_xml, is_generated_slide_part, patch_content_types,
    patch_presentation_relationships, patch_presentation_xml, patch_slide_size, pptx_rgb, xml_escape,
    PictureShape, TextShape,
};
use deckmaster::pptx::exporter::{ExportPlan, PptxExporter};
use deckmaster::pptx::import::{slide_part_path, PptxImporter, PresentationParser};
use deckmaster::pptx::package::{Package, PackagePart};
use deckmaster::pptx::paths::{
    file_name, media_type_for_path, normalize_package_path, resolve_relationship_target,
    slide_relationships_path,
};
use deckmaster::pptx::relationships::Relationships;
use deckmaster::pptx::slide_parser::SlideParser;
use deckmaster::pptx::xml::{decode_xml_text, is_tag, XmlEvent};
use deckmaster::pptx::xml_text::{insert_before, remove_relationships_of_type, replace_between};

fn pt(v: f32) -> Measure {
    Measure::new(v.to_bits(), format!("{}", v))
}

fn value(m: &Measure) -> f32 {
    f32::from_bits(m.bits)
}

fn rect(x: f32, y: f32, width: f32, height: f32) -> Rect {
    Rect { x: pt(x), y: pt(y), width: pt(width), height: pt(height) }
}

fn new_id() -> u128 {
    uuid::Uuid::new_v4().as_u128()
}

fn sample_png_bytes() -> Vec<u8> {
    vec![
        0x89, 0x50, 0x4E, 0x47, 0x0D, 0x0A, 0x1A, 0x0A, 0x00, 0x00, 0x00, 0x0D, 0x49, 0x48, 0x44,
        0x52, 0x00, 0x00, 0x00, 0x01, 0x00, 0x00, 0x00, 0x01, 0x08, 0x02, 0x00, 0x00, 0x00, 0x90,
        0x77, 0x53, 0xDE, 0x00, 0x00, 0x00, 0x0C, 0x49, 0x44, 0x41, 0x54, 0x08, 0xD7, 0x63, 0xF8,
        0xCF, 0xC0, 0x00, 0x00, 0x00, 0x03, 0x00, 0x01, 0x00, 0xCD, 0x37, 0x42, 0x49, 0x00, 0x00,
        0x00, 0x00, 0x49, 0x45, 0x4E, 0x44, 0xAE, 0x42, 0x60, 0x82,
    ]
}

fn part(name: &str, text: &str) -> PackagePart {
    PackagePart { name: name.to_string(), bytes: text.as_bytes().to_vec() }
}

/// A small stand-in for the blank template: content types, a
/// presentation with one slide, its relationships, and that slide.
fn template() -> Package {
    Package {
        parts: vec![
            part(
                "[Content_Types].xml",
                r#"<?xml version="1.0" encoding="UTF-8"?><Types xmlns="http://schemas.openxmlformats.org/package/2006/content-types"><Default Extension="xml" ContentType="application/xml"/><Override PartName="/ppt/presentation.xml" ContentType="application/vnd.openxmlformats-officedocument.presentationml.presentation.main+xml"/><Override PartName="/ppt/slides/slide1.xml" ContentType="application/vnd.openxmlformats-officedocument.presentationml.slide+xml"/></Types>"#,
            ),
            part(
                "ppt/presentation.xml",
                r#"<?xml version="1.0" encoding="UTF-8"?><p:presentation xmlns:a="http://schemas.openxmlformats.org/drawingml/2006/main" xmlns:r="http://schemas.openxmlformats.org/officeDocument/2006/relationships" xmlns:p="http://schemas.openxmlformats.org/presentationml/2006/main"><p:sldIdLst><p:sldId id="256" r:id="rId2"/></p:sldIdLst><p:sldSz cx="12192000" cy="6858000"/></p:presentation>"#,
            ),
            part(
                "ppt/_rels/presentation.xml.rels",
                r#"<?xml version="1.0" encoding="UTF-8"?><Relationships xmlns="http://schemas.openxmlformats.org/package/2006/relationships"><Relationship Id="rId1" Type="http://schemas.openxmlformats.org/officeDocument/2006/relationships/slideMaster" Target="slideMasters/slideMaster1.xml"/><Relationship Id="rId2" Type="http://schemas.openxmlformats.org/officeDocument/2006/relationships/slide" Target="slides/slide1.xml"/></Relationships>"#,
            ),
            part("ppt/slides/slide1.xml", "<p:sld/>"),
            part("ppt/slides/_rels/slide1.xml.rels", "<Relationships/>"),
            part("docProps/app.xml", "<Properties/>"),
        ],
    }
}

fn emu(m: &Measure) -> i64 {
    (value(m) * 12700.0).round() as i64
}

/// Converts a plan's lengths to EMU and assembles the parts.
fn export_parts(package: &DeckPackage) -> Result<Vec<PackagePart>, PptxError> {
    let plan: ExportPlan = PptxExporter::plan(package)?;
    let texts: Vec<Vec<TextShape>> = plan
        .slides
        .iter()
        .map(|s| {
            let geometry: Vec<(i64, i64, i64, i64, i64)> = s
                .texts
                .iter()
                .map(|t| {
                    (
                        emu(&t.bounds.x),
                        emu(&t.bounds.y),
                        emu(&t.bounds.width),
                        emu(&t.bounds.height),
                        (value(&t.font_size) * 100.0).round() as i64,
                    )
                })
                .collect();
            PptxExporter::text_shapes(s, &geometry)
        })
        .collect();
    let pictures: Vec<Vec<PictureShape>> = plan
        .slides
        .iter()
        .map(|s| {
            let geometry: Vec<(i64, i64, i64, i64)> = s
                .images
                .iter()
                .map(|i| (emu(&i.bounds.x), emu(&i.bounds.y), emu(&i.bounds.width), emu(&i.bounds.height)))
                .collect();
            PptxExporter::picture_shapes(s, &geometry)
        })
        .collect();
    Ok(PptxExporter::assemble(
        &template(),
        &plan,
        emu(&plan.slide_width),
        emu(&plan.slide_height),
        &texts,
        &pictures,
    ))
}

fn import_parts(parts: Vec<PackagePart>) -> Result<DeckPackage, PptxError> {
    let mut package = Package { parts };
    let to_points = |e: i64| pt(e as f32 / 12700.0);
    let font_points = |sz: String| pt(sz.parse::<f32>().unwrap_or(1800.0) / 100.0);
    PptxImporter::import(&mut package, &to_points, &font_points)
}

fn round_trip(package: &DeckPackage) -> DeckPackage {
    import_parts(export_parts(package).expect("export to pptx")).expect("import from pptx")
}

fn part_text(parts: &[PackagePart], name: &str) -> String {
    let p = parts.iter().find(|p| p.name == name).expect("part present");
    String::from_utf8(p.bytes.clone()).unwrap()
}

fn image_element(asset_id: u128, r: Rect) -> Element {
    Element::Image(ImageElement { id: new_id(), bounds: r, asset_id, render_asset_id: None, alt: None })
}

#[test]
fn mixed_text_and_image_slide_round_trips() {
    let asset_id = new_id();
    let mut presentation = Presentation::new("Mixed Slide Deck");
    presentation.assets.push(Asset {
        id: asset_id,
        media_type: "image/png".to_string(),
        alt: Some("a tiny test square".to_string()),
    });
    let mut slide = Slide::new(Some("Slide 1".to_string()));
    slide.elements.push(Element::Text(TextElement {
        id: new_id(),
        bounds: rect(100.0, 80.0, 600.0, 90.0),
        text: "Mixed content slide".to_string(),
        font_size: pt(30.0),
        color: Color::hex("#222233"),
    }));
    slide.elements.push(Element::Image(ImageElement {
        id: new_id(),
        bounds: rect(100.0, 220.0, 180.0, 180.0),
        asset_id,
        render_asset_id: None,
        alt: Some("a tiny test square".to_string()),
    }));
    presentation.slides.push(slide);
    let mut package = DeckPackage::new(presentation);
    package.asset_bytes.insert(asset_id, sample_png_bytes());

    let reimported = round_trip(&package);
    assert_eq!(reimported.presentation.slides.len(), 1);
    let elements = &reimported.presentation.slides[0].elements;
    let texts: Vec<&TextElement> =
        elements.iter().filter_map(|e| if let Element::Text(t) = e { Some(t) } else { None }).collect();
    let images: Vec<&ImageElement> =
        elements.iter().filter_map(|e| if let Element::Image(i) = e { Some(i) } else { None }).collect();
    assert_eq!(texts.len(), 1);
    assert_eq!(images.len(), 1);
    assert_eq!(texts[0].text, "Mixed content slide");
    assert!((value(&texts[0].bounds.x) - 100.0).abs() < 0.1);
    assert!((value(&texts[0].bounds.y) - 80.0).abs() < 0.1);
    assert!((value(&texts[0].font_size) - 30.0).abs() < 0.01);
    assert_eq!(texts[0].color.value, "#222233");
    assert!((value(&images[0].bounds.width) - 180.0).abs() < 0.1);
    assert!((value(&images[0].bounds.height) - 180.0).abs() < 0.1);

    let asset = reimported.presentation.find_asset(images[0].asset_id).expect("declared asset");
    assert_eq!(asset.media_type, "image/png");
    assert_eq!(reimported.asset_bytes.get(&asset.id), Some(&sample_png_bytes()));
    assert_eq!(images[0].alt.as_deref(), Some("Image500"));
}

#[test]
fn text_with_markup_characters_survives_export_and_import() {
    let written = vec!["A & B", "x < y > z", "&amp; stays literal", "quote \" and 'apostrophe'"];
    let mut presentation = Presentation::new("Escapes");
    let mut slide = Slide::new(Some("Slide 1".to_string()));
    for (k, text) in written.iter().enumerate() {
        slide.elements.push(Element::Text(TextElement {
            id: new_id(),
            bounds: rect(10.0, 10.0 + 60.0 * k as f32, 400.0, 50.0),
            text: text.to_string(),
            font_size: pt(20.0),
            color: Color::hex("#000000"),
        }));
    }
    presentation.slides.push(slide);
    let reimported = round_trip(&DeckPackage::new(presentation));
    let texts: Vec<String> = reimported.presentation.slides[0]
        .elements
        .iter()
        .filter_map(|e| if let Element::Text(t) = e { Some(t.text.clone()) } else { None })
        .collect();
    assert_eq!(texts, written);
}

#[test]
fn xml_text_content_is_decoded() {
    assert_eq!(decode_xml_text("A &amp; B &lt;c&gt; &quot;q&quot; &apos;s&apos;"), "A & B <c> \"q\" 's'");
    assert_eq!(decode_xml_text("&amp;amp;"), "&amp;");
    assert_eq!(decode_xml_text("AT&T &#169; &unknown; &"), "AT&T &#169; &unknown; &");
    let events = vec![
        open("p:sp", &[]),
        open("a:t", &[]),
        text("Fish &amp; Chips"),
        close("a:t"),
        close("p:sp"),
        XmlEvent::Eof,
    ];
    let found = SlideParser::texts_from_events(&events).expect("text boxes");
    assert_eq!(found[0].text, "Fish & Chips");
}

#[test]
fn multiple_images_on_one_slide_round_trip_with_distinct_assets() {
    let a = new_id();
    let b = new_id();
    let mut presentation = Presentation::new("Two Images Deck");
    for id in [a, b] {
        presentation.assets.push(Asset { id, media_type: "image/png".to_string(), alt: None });
    }
    let mut slide = Slide::new(Some("Slide 1".to_string()));
    slide.elements.push(image_element(a, rect(50.0, 50.0, 100.0, 100.0)));
    slide.elements.push(image_element(b, rect(400.0, 50.0, 100.0, 100.0)));
    presentation.slides.push(slide);
    let mut package = DeckPackage::new(presentation);
    package.asset_bytes.insert(a, sample_png_bytes());
    package.asset_bytes.insert(b, sample_png_bytes());

    let reimported = round_trip(&package);
    let images: Vec<&ImageElement> = reimported.presentation.slides[0]
        .elements
        .iter()
        .filter_map(|e| if let Element::Image(i) = e { Some(i) } else { None })
        .collect();
    assert_eq!(images.len(), 2);
    assert_ne!(images[0].asset_id, images[1].asset_id);
    assert_eq!(reimported.presentation.assets.len(), 2);
    for image in &images {
        assert!(reimported.asset_bytes.contains_key(&image.asset_id));
    }
}

#[test]
fn images_across_multiple_slides_round_trip() {
    let a = new_id();
    let b = new_id();
    let mut presentation = Presentation::new("Multi Slide Image Deck");
    for id in [a, b] {
        presentation.assets.push(Asset { id, media_type: "image/png".to_string(), alt: None });
    }
    for (name, id) in [("Slide 1", a), ("Slide 2", b)] {
        let mut slide = Slide::new(Some(name.to_string()));
        slide.elements.push(image_element(id, rect(0.0, 0.0, 100.0, 100.0)));
        presentation.slides.push(slide);
    }
    let mut package = DeckPackage::new(presentation);
    package.asset_bytes.insert(a, sample_png_bytes());
    package.asset_bytes.insert(b, sample_png_bytes());

    let parts = export_parts(&package).unwrap();
    let names: Vec<&str> = parts.iter().map(|p| p.name.as_str()).collect();
    assert!(names.contains(&"ppt/media/image1.png"));
    assert!(names.contains(&"ppt/media/image2.png"));

    let reimported = import_parts(parts).unwrap();
    assert_eq!(reimported.presentation.slides.len(), 2);
    assert_eq!(reimported.presentation.assets.len(), 2);
    for slide in &reimported.presentation.slides {
        assert_eq!(slide.elements.len(), 1);
        assert_eq!(slide.name.as_deref(), Some("Imported Slide"));
    }
    assert_eq!(reimported.presentation.metadata.title, "Imported Presentation");
}

#[test]
fn slide_size_is_preserved_through_export() {
    let mut presentation = Presentation::new("Custom Size Deck");
    let mut slide = Slide::new(Some("Slide 1".to_string()));
    slide.size.width = pt(720.0);
    slide.size.height = pt(405.0);
    slide.add_text("16:9 at a non-default size", pt(50.0), pt(50.0), pt(400.0), pt(60.0));
    presentation.slides.push(slide);
    let package = DeckPackage::new(presentation);

    let parts = export_parts(&package).unwrap();
    let presentation_xml = part_text(&parts, "ppt/presentation.xml");
    assert!(presentation_xml.contains("cx=\"9144000\""));
    assert!(presentation_xml.contains("cy=\"5143500\""));
    assert!(presentation_xml.contains(r#"<p:sldIdLst><p:sldId id="256" r:id="rIdSlide1"/></p:sldIdLst>"#));
}

#[test]
fn math_without_render_fallback_exports_as_visible_tex_text() {
    let mut presentation = Presentation::new("Math Fallback Deck");
    let mut slide = Slide::new(Some("Slide 1".to_string()));
    slide.elements.push(Element::Math(MathElement {
        id: new_id(),
        bounds: rect(100.0, 100.0, 500.0, 80.0),
        tex: "\\alpha + \\beta".to_string(),
        font_size: pt(32.0),
        color: Color::hex("#111111"),
        render_asset_id: None,
    }));
    presentation.slides.push(slide);
    let reimported = round_trip(&DeckPackage::new(presentation));
    let has_tex_text = reimported
        .presentation
        .slides
        .iter()
        .flat_map(|s| &s.elements)
        .any(|e| matches!(e, Element::Text(t) if t.text == "\\alpha + \\beta"));
    assert!(has_tex_text);
}

fn fallback_package(source_type: &str, source_bytes: Vec<u8>) -> DeckPackage {
    let source_id = new_id();
    let fallback_id = new_id();
    let mut presentation = Presentation::new("Fallback Deck");
    presentation.assets.push(Asset { id: source_id, media_type: source_type.to_string(), alt: None });
    presentation.assets.push(Asset { id: fallback_id, media_type: "image/png".to_string(), alt: None });
    let mut slide = Slide::new(Some("Slide 1".to_string()));
    slide.elements.push(Element::Image(ImageElement {
        id: new_id(),
        bounds: rect(100.0, 100.0, 180.0, 120.0),
        asset_id: source_id,
        render_asset_id: Some(fallback_id),
        alt: Some("source".to_string()),
    }));
    presentation.slides.push(slide);
    let mut package = DeckPackage::new(presentation);
    package.asset_bytes.insert(source_id, source_bytes);
    package.asset_bytes.insert(fallback_id, sample_png_bytes());
    package
}

fn image_count(package: &DeckPackage) -> usize {
    package
        .presentation
        .slides
        .iter()
        .flat_map(|s| &s.elements)
        .filter(|e| matches!(e, Element::Image(_)))
        .count()
}

#[test]
fn pdf_image_with_raster_fallback_exports_as_pptx_image() {
    let package = fallback_package("application/pdf", b"%PDF-1.4\n".to_vec());
    assert_eq!(image_count(&round_trip(&package)), 1);
}

#[test]
fn an_image_is_exported_with_its_own_asset_even_with_a_rendering() {
    let mut package = fallback_package("application/pdf", b"%PDF-1.4\n".to_vec());
    let parts = export_parts(&package).unwrap();
    let media: Vec<&PackagePart> = parts.iter().filter(|p| p.name.starts_with("ppt/media/")).collect();
    assert_eq!(media.len(), 1);
    assert_eq!(media[0].name, "ppt/media/image1.pdf");
    assert_eq!(media[0].bytes, b"%PDF-1.4\n".to_vec());

    let source_id = package.presentation.assets[0].id;
    package.asset_bytes.remove(&source_id);
    let m = invalid_source_message(PptxExporter::plan(&package));
    assert!(m.contains("is declared but its bytes are not present"));
}

#[test]
fn a_formula_with_a_rendering_places_nothing_in_the_export() {
    let render_id = new_id();
    let mut presentation = Presentation::new("Formula Deck");
    let mut slide = Slide::new(Some("Slide 1".to_string()));
    slide.elements.push(Element::Math(MathElement {
        id: new_id(),
        bounds: rect(10.0, 10.0, 100.0, 40.0),
        tex: "x^2".to_string(),
        font_size: pt(20.0),
        color: Color::hex("#000000"),
        render_asset_id: Some(render_id),
    }));
    presentation.slides.push(slide);
    let plan = PptxExporter::plan(&DeckPackage::new(presentation)).unwrap();
    assert!(plan.slides[0].texts.is_empty());
    assert!(plan.slides[0].images.is_empty());
}

#[test]
fn svg_image_with_raster_fallback_exports_as_pptx_image() {
    let package = fallback_package("image/svg+xml", br#"<svg xmlns="http://www.w3.org/2000/svg"></svg>"#.to_vec());
    assert_eq!(image_count(&round_trip(&package)), 1);
}

fn presentation_with_one_image(asset_id: u128) -> Presentation {
    let mut presentation = Presentation::new("Failure Cluster Deck");
    presentation.assets.push(Asset { id: asset_id, media_type: "image/png".to_string(), alt: None });
    let mut slide = Slide::new(Some("Slide 1".to_string()));
    slide.elements.push(image_element(asset_id, rect(10.0, 10.0, 100.0, 100.0)));
    presentation.slides.push(slide);
    presentation
}

fn invalid_source_message(r: Result<ExportPlan, PptxError>) -> String {
    match r {
        Err(PptxError::InvalidImageSource(m)) => m,
        _ => panic!("expected an invalid image source"),
    }
}

#[test]
fn export_fails_when_asset_bytes_are_missing_from_the_package() {
    let asset_id = new_id();
    let package = DeckPackage::new(presentation_with_one_image(asset_id));
    let m = invalid_source_message(PptxExporter::plan(&package));
    let id = uuid::Uuid::from_u128(asset_id).to_string();
    assert_eq!(
        m,
        format!("asset {id} ({id}.png) is declared but its bytes are not present in the package -- the .deckpkg is missing assets/{id}.png")
    );
}

#[test]
fn export_fails_when_image_references_an_undeclared_asset_id() {
    let declared = new_id();
    let dangling = new_id();
    let mut presentation = presentation_with_one_image(declared);
    if let Element::Image(image) = &mut presentation.slides[0].elements[0] {
        image.asset_id = dangling;
    }
    let mut package = DeckPackage::new(presentation);
    package.asset_bytes.insert(declared, sample_png_bytes());
    let m = invalid_source_message(PptxExporter::plan(&package));
    assert!(m.contains(&uuid::Uuid::from_u128(dangling).to_string()));
    assert!(m.ends_with("which is not declared in assets[]"));
}

#[test]
fn export_fails_on_an_empty_presentation_with_no_slides() {
    let package = DeckPackage::new(Presentation::new("No Slides Deck"));
    assert_eq!(
        invalid_source_message(PptxExporter::plan(&package)),
        "presentation must contain at least one slide"
    );
}

#[test]
fn export_succeeds_and_produces_a_valid_zip_when_everything_is_present() {
    let asset_id = new_id();
    let mut package = DeckPackage::new(presentation_with_one_image(asset_id));
    package.asset_bytes.insert(asset_id, sample_png_bytes());
    let parts = export_parts(&package).unwrap();
    let names: Vec<&str> = parts.iter().map(|p| p.name.as_str()).collect();
    assert_eq!(
        names,
        vec![
            "[Content_Types].xml",
            "ppt/presentation.xml",
            "ppt/_rels/presentation.xml.rels",
            "docProps/app.xml",
            "ppt/slides/slide1.xml",
            "ppt/media/image1.png",
            "ppt/slides/_rels/slide1.xml.rels",
        ]
    );
    let content_types = part_text(&parts, "[Content_Types].xml");
    assert!(content_types.contains(r#"<Default Extension="png" ContentType="image/png"/>"#));
    assert!(content_types.contains(r#"PartName="/ppt/slides/slide1.xml""#));
    let rels = part_text(&parts, "ppt/_rels/presentation.xml.rels");
    assert!(rels.contains("slideMaster1.xml"));
    assert!(rels.contains(r#"<Relationship Id="rIdSlide1" Type="http://schemas.openxmlformats.org/officeDocument/2006/relationships/slide" Target="slides/slide1.xml"/>"#));
    let slide_rels = part_text(&parts, "ppt/slides/_rels/slide1.xml.rels");
    assert!(slide_rels.contains(r#"Target="../media/image1.png""#));
}

#[test]
fn embedded_json_inlines_a_correct_data_url() {
    let asset_id = new_id();
    let mut package = DeckPackage::new(presentation_with_one_image(asset_id));
    package.asset_bytes.insert(asset_id, sample_png_bytes());
    let url = EmbeddedJsonExporter::image_data_url(&package, asset_id).expect("data url");
    assert!(url.starts_with("data:image/png;base64,"));
    let encoded = url.trim_start_matches("data:image/png;base64,");
    let decoded = base64::Engine::decode(&base64::engine::general_purpose::STANDARD, encoded).unwrap();
    assert_eq!(decoded, sample_png_bytes());
    assert_eq!(EmbeddedJsonExporter::image_data_url(&package, new_id()), None);
    let without_bytes = DeckPackage::new(presentation_with_one_image(asset_id));
    assert_eq!(EmbeddedJsonExporter::image_data_url(&without_bytes, asset_id), None);
}

#[test]
fn embedded_json_inlines_only_images_whose_bytes_are_present() {
    let asset_id = new_id();
    let missing_id = new_id();
    let mut presentation = presentation_with_one_image(asset_id);
    presentation.assets.push(Asset { id: missing_id, media_type: "image/png".to_string(), alt: None });
    presentation.slides[0].elements.push(image_element(missing_id, rect(0.0, 0.0, 5.0, 5.0)));
    presentation.slides.push(Slide::new(Some("Empty".to_string())));
    let mut package = DeckPackage::new(presentation);
    package.asset_bytes.insert(asset_id, b"ab".to_vec());

    let sources = EmbeddedJsonExporter::inlined_sources(&package);
    assert_eq!(sources.len(), 2);
    assert_eq!(sources[0], vec![Some("data:image/png;base64,YWI=".to_string()), None]);
    assert!(sources[1].is_empty());
}

#[test]
fn data_urls_pad_base64() {
    let asset_id = new_id();
    let mut package = DeckPackage::new(presentation_with_one_image(asset_id));
    package.asset_bytes.insert(asset_id, b"hello world~".to_vec());
    assert_eq!(
        EmbeddedJsonExporter::image_data_url(&package, asset_id).unwrap(),
        "data:image/png;base64,aGVsbG8gd29ybGR+"
    );
    package.asset_bytes.insert(asset_id, b"ab".to_vec());
    assert_eq!(EmbeddedJsonExporter::image_data_url(&package, asset_id).unwrap(), "data:image/png;base64,YWI=");
}

const SLIDE: &str = r#"<?xml version="1.0"?>
<p:sld xmlns:a="a" xmlns:p="p" xmlns:r="r"><p:cSld><p:spTree>
<p:sp><p:spPr><a:xfrm><a:off x="1270000" y="254000"/><a:ext cx="2540000" cy="381000"/></a:xfrm></p:spPr>
<p:txBody><a:p><a:r><a:rPr sz="2400"><a:solidFill><a:srgbClr val="FF0000"/></a:solidFill></a:rPr><a:t>First</a:t></a:r></a:p>
<a:p><a:r><a:t>Second</a:t></a:r></a:p></p:txBody></p:sp>
<p:sp><p:txBody><a:p><a:r><a:t>Plain</a:t></a:r></a:p></p:txBody></p:sp>
<p:sp><p:spPr/></p:sp>
<p:pic><p:nvPicPr><p:cNvPr id="5" name="Picture 4" descr="A chart"/></p:nvPicPr>
<p:blipFill><a:blip r:embed="rId7"/></p:blipFill><p:spPr><a:xfrm><a:off x="0" y="12700"/><a:ext cx="127000" cy="254000"/></a:xfrm></p:spPr></p:pic>
<p:pic><p:nvPicPr><p:cNvPr id="6" name="Logo"/></p:nvPicPr><p:blipFill><a:blip r:embed="rId8"/></p:blipFill></p:pic>
</p:spTree></p:cSld></p:sld>"#;

#[test]
fn text_boxes_are_read_with_their_geometry_style_and_runs() {
    let texts = SlideParser::extract_text_elements(SLIDE).unwrap();
    assert_eq!(texts.len(), 2);
    assert_eq!(texts[0].text, "First\nSecond");
    assert_eq!((texts[0].x, texts[0].y, texts[0].width, texts[0].height), (1270000, 254000, 2540000, 381000));
    assert_eq!(texts[0].font_size, "2400");
    assert_eq!(texts[0].color, "#FF0000");
    assert_eq!(texts[1].text, "Plain");
    assert_eq!((texts[1].x, texts[1].y, texts[1].width, texts[1].height), (0, 0, 1270000, 381000));
    assert_eq!(texts[1].font_size, "1800");
    assert_eq!(texts[1].color, "#000000");
    assert_eq!(SlideParser::extract_text(SLIDE).unwrap(), vec!["First\nSecond".to_string(), "Plain".to_string()]);
}

#[test]
fn pictures_are_read_when_their_geometry_is_complete() {
    let images = SlideParser::extract_images(SLIDE).unwrap();
    assert_eq!(images.len(), 1);
    assert_eq!(images[0].relationship_id, "rId7");
    assert_eq!((images[0].x, images[0].y, images[0].width, images[0].height), (0, 12700, 127000, 254000));
    assert_eq!(images[0].alt.as_deref(), Some("A chart"));
}

#[test]
fn unparsable_lengths_read_as_zero() {
    let xml = r#"<p:sp><a:off x="abc" y="-5"/><a:t>T</a:t></p:sp>"#;
    let texts = SlideParser::extract_text_elements(xml).unwrap();
    assert_eq!((texts[0].x, texts[0].y), (0, -5));
}

#[test]
fn malformed_slide_xml_is_an_xml_error() {
    let xml = "<p:sp><a:t>unclosed</a:x></p:sp>";
    assert!(matches!(SlideParser::extract_text_elements(xml), Err(PptxError::Xml(_))));
    assert!(matches!(SlideParser::extract_images(xml), Err(PptxError::Xml(_))));
}

#[test]
fn relationships_are_read_in_order() {
    let xml = r#"<Relationships><Relationship Id="rId1" Target="a.xml"/><Relationship Id="rId2"/><Relationship Target="c.xml" Id="rId3"/></Relationships>"#;
    let rels = Relationships::parse(xml).unwrap();
    let pairs: Vec<(String, String)> = rels.into_iter().map(|r| (r.id, r.target)).collect();
    assert_eq!(pairs, vec![("rId1".to_string(), "a.xml".to_string()), ("rId3".to_string(), "c.xml".to_string())]);
}

#[test]
fn relationship_parts_are_loaded_from_the_package() {
    let mut package = template();
    let rels = Relationships::load_presentation_relationships(&mut package).unwrap();
    assert_eq!(rels.len(), 2);
    let slide_rels = Relationships::load_slide_relationships(&mut package, "slides/slide1.xml").unwrap();
    assert!(slide_rels.is_empty());
    assert!(matches!(
        Relationships::load_slide_relationships(&mut package, "slides/slide9.xml"),
        Err(PptxError::Zip(_))
    ));
}

#[test]
fn the_slide_list_is_read_from_the_presentation_part() {
    let xml = r#"<p:presentation><p:sldIdLst><p:sldId id="256" r:id="rId2"/><p:sldId id="257" r:id="rId3"/></p:sldIdLst></p:presentation>"#;
    let refs = PresentationParser::slide_relationships(xml).unwrap();
    let ids: Vec<String> = refs.into_iter().map(|r| r.relationship_id).collect();
    assert_eq!(ids, vec!["rId2".to_string(), "rId3".to_string()]);
    assert_eq!(slide_part_path("slides/slide1.xml"), "ppt/slides/slide1.xml");
    assert_eq!(slide_part_path("/ppt/slides/slide1.xml"), "ppt/slides/slide1.xml");
}

#[test]
fn importing_a_package_without_a_presentation_part_fails() {
    assert!(matches!(import_parts(vec![]), Err(PptxError::Zip(_))));
}

#[test]
fn package_paths_resolve_like_a_filesystem() {
    assert_eq!(normalize_package_path("ppt/slides/../media/./image1.png"), "ppt/media/image1.png");
    assert_eq!(normalize_package_path("//a///b/"), "a/b");
    assert_eq!(resolve_relationship_target("slides/slide1.xml", "../media/image1.png"), "ppt/media/image1.png");
    assert_eq!(resolve_relationship_target("ppt/slides/slide1.xml", "/ppt/media/x.png"), "ppt/media/x.png");
    assert_eq!(media_type_for_path("ppt/media/image1.JPG"), "image/jpeg");
    assert_eq!(media_type_for_path("ppt/media/image1.emf"), "application/octet-stream");
    assert_eq!(file_name("ppt/media/image1.png"), Some("image1.png".to_string()));
    assert_eq!(file_name("ppt/media/"), None);
    assert_eq!(slide_relationships_path("slides/slide1.xml"), "ppt/slides/_rels/slide1.xml.rels");
    assert_eq!(slide_relationships_path("/ppt/slide1.xml"), "ppt/_rels/slide1.xml.rels");
}

#[test]
fn a_raster_media_type_survives_export_and_import() {
    for t in ["image/png", "image/jpeg", "image/gif", "image/webp", "image/bmp"] {
        let part = format!("ppt/media/image12.{}", deckmaster::model::extension_for_media_type(t));
        assert_eq!(media_type_for_path(&part), t);
    }
}

#[test]
fn the_three_spellings_of_a_slide_target_name_the_same_parts() {
    for t in ["slides/slide2.xml", "ppt/slides/slide2.xml", "/ppt/slides/slide2.xml"] {
        assert_eq!(slide_relationships_path(t), "ppt/slides/_rels/slide2.xml.rels");
        assert_eq!(slide_part_path(t), "ppt/slides/slide2.xml");
    }
}

#[test]
fn the_parts_an_export_writes_are_the_parts_an_import_reads() {
    for n in [1u64, 9, 10, 123] {
        let target = format!("slides/slide{n}.xml");
        assert_eq!(slide_part_path(&target), format!("ppt/slides/slide{n}.xml"));
        assert_eq!(slide_relationships_path(&target), format!("ppt/slides/_rels/slide{n}.xml.rels"));
        assert_eq!(
            resolve_relationship_target(&target, "../media/image7.jpeg"),
            "ppt/media/image7.jpeg"
        );
    }
}

#[test]
fn xml_patching_helpers() {
    assert_eq!(replace_between("a<x>old</x>b", "<x>", "</x>", "new"), "a<x>new</x>b");
    assert_eq!(replace_between("no tags", "<x>", "</x>", "new"), "no tags");
    assert_eq!(insert_before("<a></a>", "</a>", "<b/>"), "<a><b/></a>");
    let rels = r#"<R><Relationship Id="1" Type="t/slide"/><Relationship Id="2" Type="t/slideMaster"/></R>"#;
    assert_eq!(remove_relationships_of_type(rels, "t/slide"), r#"<R><Relationship Id="2" Type="t/slideMaster"/></R>"#);
    assert_eq!(xml_escape("a & <b>"), "a &amp; &lt;b&gt;");
    assert_eq!(pptx_rgb("  #ff00aa "), "FF00AA");
    assert!(is_generated_slide_part("ppt/slides/slide3.xml"));
    assert!(is_generated_slide_part("ppt/slides/_rels/slide3.xml.rels"));
    assert!(!is_generated_slide_part("ppt/slideLayouts/slideLayout1.xml"));
    assert!(is_tag("a:off", "off") && is_tag("off", "off") && !is_tag("xoff", "off"));
}

#[test]
fn template_parts_are_patched_for_the_slides() {
    let xml = r#"<p:presentation><p:sldIdLst><p:sldId id="256" r:id="rId2"/></p:sldIdLst><p:sldSz cx="1" cy="2" type="x"/></p:presentation>"#;
    let patched = patch_presentation_xml(xml, 2);
    assert_eq!(
        patched,
        r#"<p:presentation><p:sldIdLst><p:sldId id="256" r:id="rIdSlide1"/><p:sldId id="257" r:id="rIdSlide2"/></p:sldIdLst><p:sldSz cx="1" cy="2" type="x"/></p:presentation>"#
    );
    assert_eq!(
        patch_slide_size(&patched, 9144000, 5143500),
        r#"<p:presentation><p:sldIdLst><p:sldId id="256" r:id="rIdSlide1"/><p:sldId id="257" r:id="rIdSlide2"/></p:sldIdLst><p:sldSz cx="9144000" cy="5143500"/></p:presentation>"#
    );
    let rels = patch_presentation_relationships("<Relationships></Relationships>", 1);
    assert!(rels.contains("rIdSlide1"));
    let types = patch_content_types(
        r#"<Types><Default Extension="png" ContentType="image/png"/></Types>"#,
        1,
        &vec!["png".to_string(), "gif".to_string()],
    );
    assert_eq!(types.matches("Extension=\"png\"").count(), 1);
    assert!(types.contains(r#"<Default Extension="gif" ContentType="image/gif"/>"#));
}

#[test]
fn generated_slide_parts() {
    let texts = vec![TextShape {
        id: 100,
        x: 1,
        y: -2,
        cx: 3,
        cy: 4,
        font_size: 2400,
        color: "#abcdef".to_string(),
        text: "a<b".to_string(),
    }];
    let pictures = vec![PictureShape { x: 5, y: 6, cx: 7, cy: 8, rel_id: "rId1".to_string() }];
    let xml = generate_slide_xml(&texts, &pictures);
    assert!(xml.contains(r#"<p:cNvPr id="100" name="Text100"/>"#));
    assert!(xml.contains(r#"<a:off x="1" y="-2"/>"#));
    assert!(xml.contains(r#"<a:rPr sz="2400">"#));
    assert!(xml.contains(r#"<a:srgbClr val="ABCDEF"/>"#));
    assert!(xml.contains("<a:t>a&lt;b</a:t>"));
    assert!(xml.contains(r#"<p:cNvPr id="500" name="Image500"/>"#));
    assert!(xml.contains(r#"<a:blip r:embed="rId1"/>"#));
    let rels = generate_slide_relationships(&vec![]);
    assert!(rels.contains("slideLayout1.xml"));
}

#[test]
fn export_pptx_then_import_pptx_preserves_the_default_text() {
    let package = DeckPackage::new(new_deck("Round Trip"));
    let reimported = round_trip(&package);
    let texts: Vec<String> = reimported
        .presentation
        .slides
        .iter()
        .flat_map(|s| &s.elements)
        .filter_map(|e| if let Element::Text(t) = e { Some(t.text.clone()) } else { None })
        .collect();
    assert_eq!(texts, vec!["Welcome to DeckMaster".to_string()]);
}

#[test]
fn export_embedded_json_inlines_a_real_image_as_a_data_url() {
    let asset_id = new_id();
    let mut package = DeckPackage::new(presentation_with_one_image(asset_id));
    package.asset_bytes.insert(asset_id, sample_png_bytes());
    let url = EmbeddedJsonExporter::image_data_url(&package, asset_id).unwrap();
    assert!(url.starts_with("data:image/png;base64,iVBORw0KGgo"));
}

fn open(name: &str, attributes: &[(&str, &str)]) -> XmlEvent {
    XmlEvent::Open {
        name: name.to_string(),
        attributes: attributes.iter().map(|(k, v)| Some((k.to_string(), v.to_string()))).collect(),
    }
}

fn close(name: &str) -> XmlEvent {
    XmlEvent::Close { name: name.to_string() }
}

fn text(content: &str) -> XmlEvent {
    XmlEvent::Text { content: content.to_string() }
}

#[test]
fn text_boxes_are_found_in_given_events() {
    let events = vec![
        open("p:sp", &[]),
        open("a:off", &[("x", "10"), ("y", "20")]),
        open("a:rPr", &[("sz", "2400")]),
        open("a:t", &[]),
        text("Hello"),
        close("a:t"),
        open("a:t", &[]),
        text("World"),
        close("a:t"),
        close("p:sp"),
        open("p:sp", &[]),
        open("a:t", &[]),
        close("a:t"),
        close("p:sp"),
        XmlEvent::Other,
        XmlEvent::Eof,
    ];
    let found = SlideParser::texts_from_events(&events).expect("text boxes");
    assert_eq!(found.len(), 1);
    assert_eq!(found[0].text, "Hello\nWorld");
    assert_eq!((found[0].x, found[0].y, found[0].width, found[0].height), (10, 20, 1270000, 381000));
    assert_eq!(found[0].font_size, "2400");
    assert_eq!(found[0].color, "#000000");

    let unfinished = events[..events.len() - 1].to_vec();
    assert!(SlideParser::texts_from_events(&unfinished).is_none());
    let unreadable = vec![
        open("p:sp", &[]),
        XmlEvent::Open { name: "a:off".to_string(), attributes: vec![None] },
        XmlEvent::Eof,
    ];
    assert!(SlideParser::texts_from_events(&unreadable).is_none());
}

#[test]
fn pictures_are_found_in_given_events() {
    let events = vec![
        open("p:pic", &[]),
        open("p:cNvPr", &[("id", "4"), ("name", "Picture 3")]),
        open("a:blip", &[("r:embed", "rId2")]),
        open("a:off", &[("x", "5"), ("y", "6")]),
        open("a:ext", &[("cx", "70"), ("cy", "80")]),
        close("p:pic"),
        open("p:pic", &[]),
        open("a:blip", &[("r:embed", "rId3")]),
        close("p:pic"),
        XmlEvent::Eof,
    ];
    let found = SlideParser::images_from_events(&events).expect("pictures");
    assert_eq!(found.len(), 1);
    assert_eq!(found[0].relationship_id, "rId2");
    assert_eq!((found[0].x, found[0].y, found[0].width, found[0].height), (5, 6, 70, 80));
    assert_eq!(found[0].alt.as_deref(), Some("Picture 3"));
    assert!(SlideParser::images_from_events(&events[..3].to_vec()).is_none());
}

#[test]
fn relationships_and_the_slide_list_are_found_in_given_events() {
    let rels = vec![
        XmlEvent::Other,
        open("Relationships", &[]),
        open("Relationship", &[("Id", "rId1"), ("Type", "t"), ("Target", "slides/slide1.xml")]),
        open("Relationship", &[("Id", "rId9")]),
        close("Relationships"),
        XmlEvent::Eof,
    ];
    let found = Relationships::from_events(&rels).expect("relationships");
    assert_eq!(found.len(), 1);
    assert_eq!((found[0].id.as_str(), found[0].target.as_str()), ("rId1", "slides/slide1.xml"));

    let list = vec![
        open("p:sldIdLst", &[]),
        open("p:sldId", &[("id", "256"), ("r:id", "rId7")]),
        open("p:sldId", &[("id", "257"), ("r:id", "rId8")]),
        close("p:sldIdLst"),
        XmlEvent::Eof,
    ];
    let refs = PresentationParser::slide_relationships_from_events(&list).expect("slide list");
    let ids: Vec<&str> = refs.iter().map(|r| r.relationship_id.as_str()).collect();
    assert_eq!(ids, vec!["rId7", "rId8"]);
    assert!(PresentationParser::slide_relationships_from_events(&list[..2].to_vec()).is_none());
}

fn xml_message<T>(r: Result<T, PptxError>) -> String {
    match r {
        Err(PptxError::Xml(m)) => m,
        _ => panic!("expected an xml error"),
    }
}

#[test]
fn scans_report_the_same_error_message() {
    let bad_attribute = r#"<p:sp><a:off x=1 y="2"/></p:sp>"#;
    assert_eq!(xml_message(SlideParser::extract_text_elements(bad_attribute)), "unreadable xml attribute");
    assert_eq!(xml_message(SlideParser::extract_text(bad_attribute)), "unreadable xml attribute");
    let mismatched = "<p:sp><a:t>x</a:t></p:nope>";
    let m = xml_message(SlideParser::extract_text_elements(mismatched));
    assert_eq!(xml_message(SlideParser::extract_text(mismatched)), m);
    assert_eq!(xml_message(Relationships::parse(mismatched)), m);
}

#[test]
fn a_relationships_part_that_is_not_utf8_is_reported_by_name() {
    let mut package = Package {
        parts: vec![PackagePart { name: "ppt/_rels/presentation.xml.rels".to_string(), bytes: vec![0xff, 0xfe] }],
    };
    assert_eq!(
        xml_message(Relationships::load_presentation_relationships(&mut package)),
        "part is not UTF-8 text: ppt/_rels/presentation.xml.rels"
    );
}

#[test]
fn every_imported_picture_resolves_to_an_asset_with_bytes() {
    let first = new_id();
    let second = new_id();
    let mut presentation = presentation_with_one_image(first);
    presentation.assets.push(Asset { id: second, media_type: "image/gif".to_string(), alt: None });
    presentation.slides[0].elements.push(image_element(second, rect(0.0, 0.0, 10.0, 10.0)));
    let mut package = DeckPackage::new(presentation);
    package.asset_bytes.insert(first, sample_png_bytes());
    package.asset_bytes.insert(second, b"GIF89a".to_vec());
    let reimported = round_trip(&package);
    let images: Vec<&ImageElement> = reimported.presentation.slides[0]
        .elements
        .iter()
        .filter_map(|e| if let Element::Image(i) = e { Some(i) } else { None })
        .collect();
    assert_eq!(images.len(), 2);
    assert_eq!(reimported.presentation.assets.len(), 2);
    assert_eq!(reimported.asset_bytes.len(), 2);
    for image in images {
        assert!(image.render_asset_id.is_none());
        assert!(reimported.presentation.assets.iter().any(|a| a.id == image.asset_id));
        assert!(reimported.asset_bytes.contains_key(&image.asset_id));
    }
}
