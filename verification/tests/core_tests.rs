use deckmaster::commands::{
    inspect_lines, messages, missing_asset_file, new_deck, pack_refusal, slide_index_for_number,
    validation_verdict,
};
use deckmaster::document::Document;
use deckmaster::error::DeckMasterError;
use deckmaster::measure::Measure;
use deckmaster::model::{
    extension_for_media_type, media_type_for_extension, Asset, Color, Element, ImageElement,
    MathElement, Presentation, Rect, Slide, TextElement,
};
use deckmaster::ops::{move_element, resize_element, update_text, validate, Severity};
use deckmaster::package::DeckPackage;
use deckmaster::pptx::package::{Package, PackagePart};

fn pt(v: f32) -> Measure {
    Measure::new(v.to_bits(), format!("{}", v))
}

fn rect(x: f32, y: f32, width: f32, height: f32) -> Rect {
    Rect { x: pt(x), y: pt(y), width: pt(width), height: pt(height) }
}

fn new_id() -> u128 {
    uuid::Uuid::new_v4().as_u128()
}

fn id_string(id: u128) -> String {
    uuid::Uuid::from_u128(id).to_string()
}

fn sample_png_bytes() -> Vec<u8> {
    vec![
        0x89, 0x50, 0x4E, 0x47, 0x0D, 0x0A, 0x1A, 0x0A, 0x00, 0x00, 0x00, 0x0D, 0x49, 0x48, 0x44,
        0x52, 0x00, 0x00, 0x00, 0x01, 0x00, 0x00, 0x00, 0x01, 0x08, 0x02, 0x00, 0x00, 0x00, 0x90,
        0x77, 0x53, 0xDE, 0x00, 0x00, 0x00, 0x0C, 0x49, 0x44, 0x41, 0x54, 0x08, 0xD7, 0x63, 0xF8,
        0xCF, 0xC0, 0x00, 0x00, 0x00, 0x03, 0x00, 0x01, 0x00, 0xCD, 0x37, 0x42, 0x49, 0x00, 0x00,
        0x00, 0x00, 0x49, 0x45, 0x4E, 0x44, 0xAE, 0x42, 0x60, 0x82,
    ]
}

fn presentation_with_text_only() -> Presentation {
    let mut presentation = Presentation::new("Text Only Deck");
    let mut slide = Slide::new(Some("Slide 1".to_string()));
    slide.add_text("Hello, DeckMaster", pt(100.0), pt(100.0), pt(500.0), pt(80.0));
    presentation.slides.push(slide);
    presentation
}

fn presentation_with_image(asset_id: u128) -> Presentation {
    let mut presentation = Presentation::new("Image Deck");
    presentation.assets.push(Asset {
        id: asset_id,
        media_type: "image/png".to_string(),
        alt: Some("a test image".to_string()),
    });
    let mut slide = Slide::new(Some("Slide 1".to_string()));
    slide.elements.push(Element::Image(ImageElement {
        id: new_id(),
        bounds: rect(50.0, 60.0, 200.0, 150.0),
        asset_id,
        render_asset_id: None,
        alt: Some("a test image".to_string()),
    }));
    presentation.slides.push(slide);
    presentation
}

fn errors_of(package: &DeckPackage) -> Vec<String> {
    validate(package)
        .into_iter()
        .filter(|issue| issue.severity == Severity::Error)
        .map(|issue| issue.message)
        .collect()
}

fn infos_of(package: &DeckPackage) -> Vec<String> {
    validate(package)
        .into_iter()
        .filter(|issue| issue.severity == Severity::Info)
        .map(|issue| issue.message)
        .collect()
}

/// The files a package is saved as: `deck.json`, then its asset files.
fn saved_files(package: &DeckPackage, deck_json: &str) -> Package {
    let mut parts = vec![PackagePart {
        name: "deck.json".to_string(),
        bytes: deck_json.as_bytes().to_vec(),
    }];
    parts.extend(package.asset_entries());
    Package { parts }
}

#[test]
fn pdf_assets_use_pdf_extension() {
    assert_eq!(extension_for_media_type("application/pdf"), "pdf");
    assert_eq!(media_type_for_extension("pdf"), "application/pdf");
}

#[test]
fn svg_assets_use_svg_extension() {
    assert_eq!(extension_for_media_type("image/svg+xml"), "svg");
    assert_eq!(media_type_for_extension("svg"), "image/svg+xml");
}

#[test]
fn media_types_and_extensions_map_back_and_forth() {
    for t in [
        "image/png",
        "image/jpeg",
        "image/gif",
        "image/webp",
        "image/bmp",
        "image/svg+xml",
        "application/pdf",
    ] {
        assert_eq!(media_type_for_extension(extension_for_media_type(t)), t);
    }
    assert_eq!(media_type_for_extension("PNG"), "image/png");
    assert_eq!(media_type_for_extension("Jpg"), "image/jpeg");
    assert_eq!(media_type_for_extension("tiff"), "application/octet-stream");
    assert_eq!(extension_for_media_type("image/jpg"), "jpeg");
    assert_eq!(extension_for_media_type("text/plain"), "png");
}

#[test]
fn asset_file_names_use_the_hyphenated_id_and_extension() {
    let id = 0x67e5_5044_10b1_426f_9247_bb68_0e5f_e0c8u128;
    let asset = Asset { id, media_type: "image/jpeg".to_string(), alt: None };
    assert_eq!(asset.file_name(), "67e55044-10b1-426f-9247-bb680e5fe0c8.jpeg");
}

#[test]
fn deck_package_round_trips_through_a_real_zip_on_disk() {
    let asset_id = new_id();
    let presentation = presentation_with_image(asset_id);
    let mut package = DeckPackage::new(presentation.clone());
    package.asset_bytes.insert(asset_id, sample_png_bytes());

    let files = saved_files(&package, "{}");
    let reopened = DeckPackage::from_files(presentation.clone(), &files);

    assert_eq!(reopened.presentation, presentation);
    assert_eq!(
        reopened.asset_bytes.get(&asset_id).map(Vec::as_slice),
        Some(sample_png_bytes().as_slice())
    );
    assert_eq!(DeckPackage::deck_json(&files).unwrap(), "{}");
}

#[test]
fn deck_package_zip_has_deck_json_at_root_and_assets_under_assets_dir() {
    let asset_id = new_id();
    let mut package = DeckPackage::new(presentation_with_image(asset_id));
    package.asset_bytes.insert(asset_id, sample_png_bytes());

    let files = saved_files(&package, "{}");
    let names: Vec<String> = files.parts.iter().map(|p| p.name.clone()).collect();

    assert!(names.contains(&"deck.json".to_string()));
    let expected = format!("assets/{}.{}", id_string(asset_id), extension_for_media_type("image/png"));
    assert!(names.contains(&expected));
}

#[test]
fn extra_files_in_a_package_are_ignored_by_readers() {
    let asset_id = new_id();
    let presentation = presentation_with_image(asset_id);
    let mut package = DeckPackage::new(presentation.clone());
    package.asset_bytes.insert(asset_id, sample_png_bytes());

    let mut files = saved_files(&package, "{}");
    files.parts.insert(0, PackagePart { name: "thumbnail.png".to_string(), bytes: vec![1, 2, 3] });
    files.parts.push(PackagePart { name: "assets/notes.txt".to_string(), bytes: b"spare".to_vec() });

    let reopened = DeckPackage::from_files(presentation, &files);
    assert_eq!(reopened.asset_bytes.len(), 1);
    assert_eq!(
        reopened.asset_bytes.get(&asset_id).map(Vec::as_slice),
        Some(sample_png_bytes().as_slice())
    );
    assert_eq!(DeckPackage::deck_json(&files).unwrap(), "{}");
}

#[test]
fn opening_a_package_without_deck_json_is_refused() {
    let files = Package { parts: vec![] };
    match DeckPackage::deck_json(&files) {
        Err(DeckMasterError::Unsupported(m)) => {
            assert_eq!(m, "package is missing deck.json at its root")
        }
        _ => panic!("expected an unsupported error"),
    }
}

#[test]
fn an_asset_file_missing_from_the_package_leaves_the_asset_without_bytes() {
    let asset_id = new_id();
    let presentation = presentation_with_image(asset_id);
    let files = Package {
        parts: vec![PackagePart { name: "deck.json".to_string(), bytes: b"{}".to_vec() }],
    };
    let reopened = DeckPackage::from_files(presentation, &files);
    assert!(reopened.asset_bytes.is_empty());
}

#[test]
fn validate_passes_on_a_clean_text_only_deck() {
    let package = DeckPackage::new(presentation_with_text_only());
    assert!(errors_of(&package).is_empty());
}

#[test]
fn validate_passes_on_a_clean_image_deck_with_bytes_present() {
    let asset_id = new_id();
    let mut package = DeckPackage::new(presentation_with_image(asset_id));
    package.asset_bytes.insert(asset_id, sample_png_bytes());
    assert!(errors_of(&package).is_empty());
}

#[test]
fn validate_flags_an_image_element_referencing_an_undeclared_asset_id() {
    let declared_asset_id = new_id();
    let dangling_asset_id = new_id();
    let mut presentation = presentation_with_image(declared_asset_id);
    let image_id = if let Element::Image(image) = &mut presentation.slides[0].elements[0] {
        image.asset_id = dangling_asset_id;
        image.id
    } else {
        panic!("expected an image");
    };
    let mut package = DeckPackage::new(presentation);
    package.asset_bytes.insert(declared_asset_id, sample_png_bytes());

    let errors = errors_of(&package);
    assert!(!errors.is_empty());
    assert!(errors.iter().any(|m| m.contains(&id_string(dangling_asset_id))));
    let expected = format!(
        "image element {} asset_id {} references asset_id {} which is not declared in assets[]",
        id_string(image_id),
        id_string(dangling_asset_id),
        id_string(dangling_asset_id)
    );
    assert!(errors.contains(&expected));
}

#[test]
fn validate_flags_a_declared_asset_missing_its_bytes() {
    let package = DeckPackage::new(presentation_with_image(new_id()));
    assert!(!errors_of(&package).is_empty());
}

#[test]
fn validate_notes_but_does_not_error_on_an_unreferenced_asset() {
    let referenced_asset_id = new_id();
    let unused_asset_id = new_id();
    let mut presentation = presentation_with_image(referenced_asset_id);
    presentation.assets.push(Asset {
        id: unused_asset_id,
        media_type: "image/png".to_string(),
        alt: None,
    });
    let mut package = DeckPackage::new(presentation);
    package.asset_bytes.insert(referenced_asset_id, sample_png_bytes());
    package.asset_bytes.insert(unused_asset_id, sample_png_bytes());

    assert!(errors_of(&package).is_empty());
    assert!(infos_of(&package).iter().any(|m| m.contains(&id_string(unused_asset_id))));
}

#[test]
fn validate_flags_a_presentation_with_no_slides() {
    let package = DeckPackage::new(Presentation::new("Empty Deck"));
    assert_eq!(errors_of(&package), vec!["presentation has no slides".to_string()]);
}

#[test]
fn validate_flags_negative_element_bounds() {
    let mut presentation = presentation_with_text_only();
    presentation.slides[0].elements.push(Element::Text(TextElement {
        id: new_id(),
        bounds: rect(0.0, 0.0, -10.0, 20.0),
        text: "broken bounds".to_string(),
        font_size: pt(18.0),
        color: Color::hex("#000000"),
    }));
    let package = DeckPackage::new(presentation);
    let errors = errors_of(&package);
    assert!(!errors.is_empty());
    assert!(errors[0].ends_with("has negative bounds"));
}

#[test]
fn validate_flags_empty_math_tex() {
    let mut presentation = Presentation::new("Broken Math Deck");
    let mut slide = Slide::new(Some("Slide 1".to_string()));
    slide.elements.push(Element::Math(MathElement {
        id: new_id(),
        bounds: rect(100.0, 100.0, 500.0, 80.0),
        tex: "   ".to_string(),
        font_size: pt(36.0),
        color: Color::hex("#111111"),
        render_asset_id: None,
    }));
    presentation.slides.push(slide);
    let package = DeckPackage::new(presentation);
    assert!(errors_of(&package).iter().any(|m| m.contains("empty tex")));
}

#[test]
fn validate_accepts_pdf_image_asset_with_present_bytes() {
    let pdf_asset_id = new_id();
    let mut presentation = Presentation::new("PDF Image Deck");
    presentation.assets.push(Asset {
        id: pdf_asset_id,
        media_type: "application/pdf".to_string(),
        alt: Some("diagram".to_string()),
    });
    let mut slide = Slide::new(Some("Slide 1".to_string()));
    slide.elements.push(Element::Image(ImageElement {
        id: new_id(),
        bounds: rect(10.0, 10.0, 200.0, 120.0),
        asset_id: pdf_asset_id,
        render_asset_id: None,
        alt: Some("diagram".to_string()),
    }));
    presentation.slides.push(slide);
    let mut package = DeckPackage::new(presentation);
    package.asset_bytes.insert(pdf_asset_id, b"%PDF-1.4\n".to_vec());
    assert!(errors_of(&package).is_empty());
}

fn math_with_fallback(media_type: &str, bytes: Vec<u8>) -> DeckPackage {
    let asset_id = new_id();
    let mut presentation = Presentation::new("Broken Math Fallback Deck");
    presentation.assets.push(Asset { id: asset_id, media_type: media_type.to_string(), alt: None });
    let mut slide = Slide::new(Some("Slide 1".to_string()));
    slide.elements.push(Element::Math(MathElement {
        id: new_id(),
        bounds: rect(100.0, 100.0, 500.0, 80.0),
        tex: "x^2".to_string(),
        font_size: pt(36.0),
        color: Color::hex("#111111"),
        render_asset_id: Some(asset_id),
    }));
    presentation.slides.push(slide);
    let mut package = DeckPackage::new(presentation);
    package.asset_bytes.insert(asset_id, bytes);
    package
}

#[test]
fn validate_requires_math_render_asset_to_be_raster() {
    let package = math_with_fallback("application/pdf", b"%PDF-1.4\n".to_vec());
    assert!(errors_of(&package).iter().any(|m| m.contains("must point to a raster image asset")));
}

#[test]
fn validate_rejects_svg_as_a_raster_render_fallback() {
    let package = math_with_fallback(
        "image/svg+xml",
        br#"<svg xmlns="http://www.w3.org/2000/svg"></svg>"#.to_vec(),
    );
    assert!(errors_of(&package).iter().any(|m| m.contains("must point to a raster image asset")));
}

#[test]
fn validate_accepts_a_png_render_fallback() {
    let package = math_with_fallback("image/png", sample_png_bytes());
    assert!(errors_of(&package).is_empty());
}

#[test]
fn validate_flags_non_positive_sizes_and_font_sizes() {
    let mut presentation = presentation_with_text_only();
    presentation.slides[0].size.width = pt(0.0);
    if let Element::Text(t) = &mut presentation.slides[0].elements[0] {
        t.font_size = pt(-1.0);
    }
    let errors = errors_of(&DeckPackage::new(presentation));
    assert_eq!(errors.len(), 2);
    assert!(errors[0].contains("has a non-positive size (0 x 540)"));
    assert!(errors[1].ends_with("has non-positive font_size"));
}

#[test]
fn move_resize_and_update_text_all_persist_to_disk() {
    let mut presentation = presentation_with_text_only();
    let slide_id = presentation.slides[0].id;
    let element_id = presentation.slides[0].elements[0].id();

    move_element(&mut presentation, slide_id, element_id, pt(10.0), pt(20.0)).unwrap();
    resize_element(&mut presentation, slide_id, element_id, pt(300.0), pt(40.0)).unwrap();
    update_text(&mut presentation, slide_id, element_id, "Updated").unwrap();

    match &presentation.slides[0].elements[0] {
        Element::Text(t) => {
            assert_eq!(t.bounds, rect(10.0, 20.0, 300.0, 40.0));
            assert_eq!(t.text, "Updated");
        }
        _ => panic!("expected text"),
    }
}

#[test]
fn move_element_with_an_unknown_slide_id_fails_with_a_clear_message() {
    let mut presentation = presentation_with_text_only();
    let element_id = presentation.slides[0].elements[0].id();
    let unknown = new_id();
    let before = presentation.clone();
    match move_element(&mut presentation, unknown, element_id, pt(1.0), pt(1.0)) {
        Err(DeckMasterError::Unsupported(m)) => {
            assert_eq!(m, format!("slide not found: {}", id_string(unknown)))
        }
        _ => panic!("expected a lookup error"),
    }
    assert_eq!(presentation, before);
}

#[test]
fn update_text_with_an_unknown_element_id_fails_with_a_clear_message() {
    let mut presentation = presentation_with_text_only();
    let slide_id = presentation.slides[0].id;
    let unknown = new_id();
    match update_text(&mut presentation, slide_id, unknown, "x") {
        Err(DeckMasterError::Unsupported(m)) => {
            assert_eq!(m, format!("element not found: {}", id_string(unknown)))
        }
        _ => panic!("expected a lookup error"),
    }
}

#[test]
fn update_text_refuses_an_element_that_is_not_text() {
    let asset_id = new_id();
    let mut presentation = presentation_with_image(asset_id);
    let slide_id = presentation.slides[0].id;
    let element_id = presentation.slides[0].elements[0].id();
    assert!(update_text(&mut presentation, slide_id, element_id, "x").is_err());
}

#[test]
fn new_creates_an_openable_deckpkg_with_a_default_slide() {
    let presentation = new_deck("My Deck");
    assert_eq!(presentation.metadata.title, "My Deck");
    assert_eq!(presentation.slides.len(), 1);
    assert_eq!(presentation.slides[0].name.as_deref(), Some("Slide 1"));
    match &presentation.slides[0].elements[0] {
        Element::Text(t) => {
            assert_eq!(t.text, "Welcome to DeckMaster");
            assert_eq!(t.bounds, rect(100.0, 100.0, 500.0, 100.0));
            assert_eq!(t.font_size, pt(24.0));
        }
        _ => panic!("expected text"),
    }
    let package = DeckPackage::new(presentation);
    assert!(errors_of(&package).is_empty());
}

#[test]
fn new_ids_are_random_version_4_uuids() {
    let presentation = new_deck("Ids");
    let ids = [presentation.id, presentation.slides[0].id, presentation.slides[0].elements[0].id()];
    for id in ids {
        let u = uuid::Uuid::from_u128(id);
        assert_eq!(u.get_version_num(), 4);
        assert_eq!(u.get_variant(), uuid::Variant::RFC4122);
    }
    assert_ne!(ids[0], ids[1]);
}

#[test]
fn add_slide_then_add_text_at_a_one_indexed_slide_number() {
    let mut document = Document::new("deck.deckpkg", DeckPackage::new(new_deck("Deck")));
    document.add_slide("Second");
    document.add_text(1, "Some body text").unwrap();

    let slides = &document.presentation().slides;
    assert_eq!(slides.len(), 2);
    assert_eq!(slides[1].name.as_deref(), Some("Second"));
    let texts: Vec<&str> = slides[1]
        .elements
        .iter()
        .filter_map(|e| match e {
            Element::Text(t) => Some(t.text.as_str()),
            _ => None,
        })
        .collect();
    assert_eq!(texts, vec!["Slide 2", "Some body text"]);
    assert_eq!(document.path(), "deck.deckpkg");
}

#[test]
fn add_text_at_slide_zero_is_rejected_with_a_clear_message() {
    match slide_index_for_number(0) {
        Err(m) => assert!(m.contains("slide numbers start at 1")),
        Ok(_) => panic!("slide 0 should be refused"),
    }
    assert_eq!(slide_index_for_number(1), Ok(0));
    assert_eq!(slide_index_for_number(5), Ok(4));
}

#[test]
fn add_text_at_an_out_of_range_slide_is_rejected() {
    let mut document = Document::new("deck.deckpkg", DeckPackage::new(new_deck("Deck")));
    match document.add_text(5, "nope") {
        Err(DeckMasterError::Unsupported(m)) => assert_eq!(m, "slide does not exist"),
        _ => panic!("expected the slide to be missing"),
    }
    assert_eq!(document.presentation().slides[0].elements.len(), 1);
}

#[test]
fn find_slide_finds_by_id() {
    let document = Document::new("d", DeckPackage::new(new_deck("Deck")));
    let id = document.presentation().slides[0].id;
    assert!(document.find_slide(id).is_some());
    assert!(document.find_slide(new_id()).is_none());
}

#[test]
fn find_slide_mut_changes_the_slide_in_place() {
    let mut document = Document::new("d", DeckPackage::new(new_deck("Deck")));
    document.add_slide("Second");
    let id = document.presentation().slides[1].id;
    match document.find_slide_mut(id) {
        Some(slide) => slide.name = Some("Renamed".to_string()),
        None => panic!("the slide should be found"),
    }
    assert_eq!(document.presentation().slides[1].name.as_deref(), Some("Renamed"));
    assert_eq!(document.presentation().slides.len(), 2);
    assert!(document.find_slide_mut(new_id()).is_none());
}

#[test]
fn inspect_reports_title_slide_count_and_text_content() {
    let asset_id = new_id();
    let mut presentation = new_deck("Inspect Me");
    presentation.assets.push(Asset { id: asset_id, media_type: "image/png".to_string(), alt: None });
    let mut package = DeckPackage::new(presentation);
    package.asset_bytes.insert(asset_id, vec![1, 2, 3]);

    let lines = inspect_lines(&package);
    assert_eq!(lines[0], "Title: Inspect Me");
    assert_eq!(lines[1], "Slides: 1");
    assert_eq!(lines[2], "Assets: 1");
    assert_eq!(lines[3], format!("  - Asset [{}] image/png (3 bytes)", id_string(asset_id)));
    assert_eq!(lines[4], "");
    assert_eq!(lines[5], "Slide 1: Slide 1");
    assert!(lines.iter().any(|l| l.contains("Welcome to DeckMaster")));
}

#[test]
fn inspect_reports_an_asset_missing_from_the_package() {
    let asset_id = new_id();
    let package = DeckPackage::new(presentation_with_image(asset_id));
    let lines = inspect_lines(&package);
    assert_eq!(lines[3], format!("  - Asset [{}] image/png (MISSING from package)", id_string(asset_id)));
    assert!(lines.last().unwrap().contains(&format!("(asset_id {})", id_string(asset_id))));
}

#[test]
fn validate_reports_a_freshly_created_deck_as_valid() {
    let package = DeckPackage::new(new_deck("Fresh"));
    let issues = validate(&package);
    assert_eq!(validation_verdict("fresh.deckpkg", &issues), Ok("fresh.deckpkg: valid (0 note(s))".to_string()));
}

#[test]
fn validate_reports_errors_with_their_count() {
    let package = DeckPackage::new(Presentation::new("Empty"));
    let issues = validate(&package);
    assert_eq!(validation_verdict("e.deckpkg", &issues), Err("e.deckpkg: 1 error(s) found".to_string()));
    assert_eq!(messages(&issues, true), vec!["presentation has no slides".to_string()]);
    assert!(messages(&issues, false).is_empty());
}

#[test]
fn pack_refuses_and_does_not_write_output_when_the_deck_has_no_slides() {
    let package = DeckPackage::new(Presentation::new("Empty"));
    let issues = validate(&package);
    assert_eq!(
        pack_refusal("deck.json", &issues),
        Some("refusing to pack: 1 validation error(s) found in deck.json".to_string())
    );
    let fine = validate(&DeckPackage::new(new_deck("Fine")));
    assert_eq!(pack_refusal("deck.json", &fine), None);
}

#[test]
fn pack_fails_with_a_clear_message_when_a_declared_asset_file_is_missing() {
    let id = 0x67e5_5044_10b1_426f_9247_bb68_0e5f_e0c8u128;
    let asset = Asset { id, media_type: "image/png".to_string(), alt: None };
    assert_eq!(
        missing_asset_file(&asset, "assets/67e55044-10b1-426f-9247-bb680e5fe0c8.png"),
        "asset 67e55044-10b1-426f-9247-bb680e5fe0c8 (67e55044-10b1-426f-9247-bb680e5fe0c8.png) is declared in deck.json but not found at assets/67e55044-10b1-426f-9247-bb680e5fe0c8.png"
    );
}

#[test]
fn pack_a_hand_written_deck_json_with_no_images() {
    let presentation = new_deck("Hand Written");
    let package = DeckPackage::new(presentation);
    let issues = validate(&package);
    assert_eq!(pack_refusal("deck.json", &issues), None);
    assert!(package.asset_entries().is_empty());
    let files = saved_files(&package, "{}");
    assert_eq!(files.parts.len(), 1);
    assert_eq!(files.parts[0].name, "deck.json");
}

#[test]
fn pack_and_unpack_round_trip_through_each_other() {
    let a = new_id();
    let b = new_id();
    let mut presentation = presentation_with_image(a);
    presentation.assets.push(Asset { id: b, media_type: "image/gif".to_string(), alt: None });
    let mut package = DeckPackage::new(presentation.clone());
    package.asset_bytes.insert(a, sample_png_bytes());
    package.asset_bytes.insert(b, vec![7, 8, 9]);

    let entries = package.asset_entries();
    let names: Vec<String> = entries.iter().map(|e| e.name.clone()).collect();
    assert_eq!(
        names,
        vec![format!("assets/{}.png", id_string(a)), format!("assets/{}.gif", id_string(b))]
    );

    let files = saved_files(&package, "{}");
    let reopened = DeckPackage::from_files(presentation, &files);
    assert_eq!(reopened.asset_bytes, package.asset_bytes);
}
