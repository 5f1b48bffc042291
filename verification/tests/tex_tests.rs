use deckmaster::error::PptxError;
use deckmaster::measure::Measure;
use deckmaster::model::{Asset, Color, Element, ImageElement, MathElement, Presentation, Rect, Slide};
use deckmaster::package::DeckPackage;
use deckmaster::pptx::tex_export::{
    assets_referenced_by_images, escape_tex, hex_digits_or_white, hex_for_tex, normalize_math_tex,
    render_text_content,
};
use deckmaster::pptx::tex_render::{
    render_beamer_tex, render_element, TexBox, TexExportOptions, TexExporter, TexLayout,
    TexSlideLayout,
};

fn pt(v: f32) -> Measure {
    Measure::new(v.to_bits(), format!("{}", v))
}

fn rect(x: f32, y: f32, width: f32, height: f32) -> Rect {
    Rect { x: pt(x), y: pt(y), width: pt(width), height: pt(height) }
}

fn new_id() -> u128 {
    uuid::Uuid::new_v4().as_u128()
}

fn bp(v: f32) -> String {
    let formatted = format!("{v:.3}");
    let trimmed = formatted.trim_end_matches('0').trim_end_matches('.');
    if trimmed.is_empty() { "0".to_string() } else { trimmed.to_string() }
}

fn tex_box(r: &Rect, font_size: f32) -> TexBox {
    let v = |m: &Measure| f32::from_bits(m.bits);
    TexBox {
        x: bp(v(&r.x)),
        y: bp(v(&r.y)),
        width: bp(v(&r.width)),
        height: bp(v(&r.height)),
        font_size: bp(font_size),
        leading: bp(font_size * 1.2),
    }
}

fn layout_of(p: &Presentation) -> TexLayout {
    TexLayout {
        slides: p
            .slides
            .iter()
            .map(|s| {
                let w = f32::from_bits(s.size.width.bits);
                let h = f32::from_bits(s.size.height.bits);
                TexSlideLayout {
                    width: bp(w),
                    height: bp(h),
                    watermark_x: bp(w - 16.0),
                    watermark_y: bp(h - 12.0),
                    elements: s.elements.iter().map(|e| tex_box(e.bounds(), 24.0)).collect(),
                }
            })
            .collect(),
    }
}

#[test]
fn text_is_escaped_in_a_single_pass() {
    assert_eq!(escape_tex("a\\b{c}"), "a\\textbackslash{}b\\{c\\}");
    assert_eq!(escape_tex("50% & $5 #1 _x ~ ^"), "50\\% \\& \\$5 \\#1 \\_x \\textasciitilde{} \\textasciicircum{}");
    assert_eq!(escape_tex("a\nb"), "a\\\\\nb");
    assert_eq!(escape_tex("x → y"), "x \\ensuremath{\\rightarrow} y");
}

#[test]
fn formula_delimiters_are_stripped() {
    assert_eq!(normalize_math_tex("  $$ x^2 $$ "), "x^2");
    assert_eq!(normalize_math_tex("\\[ a \\]"), "a");
    assert_eq!(normalize_math_tex("$y$"), "y");
    assert_eq!(normalize_math_tex(" plain "), "plain");
    assert_eq!(normalize_math_tex("$"), "$");
}

#[test]
fn text_that_looks_like_math_is_kept_verbatim() {
    assert_eq!(render_text_content("  $x_1$ "), "$x_1$");
    assert_eq!(render_text_content("x_1"), "x\\_1");
}

#[test]
fn colors_fall_back_to_white() {
    assert_eq!(hex_for_tex(" #abcdef "), "ABCDEF");
    assert_eq!(hex_for_tex("#abc"), "FFFFFF");
    assert_eq!(hex_for_tex("#ggghhh"), "FFFFFF");
    assert_eq!(hex_digits_or_white("00FF7A".to_string()), "00FF7A");
    assert_eq!(hex_digits_or_white("00FF7".to_string()), "FFFFFF");
    assert_eq!(hex_digits_or_white("00FF7Z".to_string()), "FFFFFF");
}

fn deck_with_svg(render: bool) -> (Presentation, u128, u128) {
    let svg = new_id();
    let png = new_id();
    let mut p = Presentation::new("TeX Deck");
    p.assets.push(Asset { id: svg, media_type: "image/svg+xml".to_string(), alt: None });
    p.assets.push(Asset { id: png, media_type: "image/png".to_string(), alt: None });
    let mut slide = Slide::new(Some("Slide 1".to_string()));
    slide.add_text("Hello & welcome", pt(10.0), pt(20.0), pt(300.0), pt(40.0));
    slide.elements.push(Element::Math(MathElement {
        id: new_id(),
        bounds: rect(10.0, 100.0, 300.0, 40.0),
        tex: "$$ e^{i\\pi} $$".to_string(),
        font_size: pt(32.0),
        color: Color::hex("#112233"),
        render_asset_id: None,
    }));
    slide.elements.push(Element::Image(ImageElement {
        id: new_id(),
        bounds: rect(0.0, 0.0, 100.5, 50.25),
        asset_id: svg,
        render_asset_id: if render { Some(png) } else { None },
        alt: None,
    }));
    p.slides.push(slide);
    (p, svg, png)
}

#[test]
fn a_deck_renders_as_beamer_source() {
    let (p, _, png) = deck_with_svg(true);
    let layout = layout_of(&p);
    let options = TexExportOptions::default();
    let tex = render_beamer_tex(&p, &options, &layout).unwrap();
    assert!(tex.starts_with("% DeckMaster Beamer source export.\n"));
    assert!(tex.contains("\\usepackage[sfdefault]{inter}\n"));
    assert!(tex.contains("\\geometry{paperwidth=960bp, paperheight=540bp, margin=0pt}"));
    assert!(tex.contains("\\definecolor{dmbackground}{HTML}{FFFFFF}"));
    assert!(tex.contains("\\begin{frame}[plain,t]\n"));
    assert!(tex.contains("\\path[use as bounding box] (0,0) rectangle (960,-540);"));
    assert!(tex.contains("at (10,-20) {\\fontsize{24}{28.8}\\selectfont\\textcolor[HTML]{111111}{Hello \\& welcome}};"));
    assert!(tex.contains("{\\ensuremath{\\displaystyle e^{i\\pi}}}};"));
    let png_file = format!("{}.png", uuid::Uuid::from_u128(png));
    assert!(tex.contains(&format!("\\includegraphics[width=100.5bp,height=50.25bp]{{img/{png_file}}}")));
    assert!(!tex.contains("dmwatermark"));
    assert!(tex.ends_with("\\end{frame}\n\n\\end{document}\n"));
}

#[test]
fn a_watermark_is_added_to_every_slide() {
    let (mut p, _, _) = deck_with_svg(true);
    p.slides.push(Slide::new(None));
    let layout = layout_of(&p);
    let options = TexExportOptions { watermark: Some("Made with 100% care".to_string()), use_inter_font: false };
    let tex = render_beamer_tex(&p, &options, &layout).unwrap();
    assert!(!tex.contains("inter}"));
    assert!(tex.contains("\\definecolor{dmwatermark}{HTML}{8A8A8A}\n"));
    assert_eq!(tex.matches("\\textcolor{dmwatermark}{Made with 100\\% care}").count(), 2);
    assert!(tex.contains("at (944,-528)"));
    assert!(tex.contains("\\end{frame}\n\n\\begin{frame}"));
}

#[test]
fn an_svg_image_without_a_rendering_cannot_be_rendered() {
    let (p, _, _) = deck_with_svg(false);
    let layout = layout_of(&p);
    let r = render_beamer_tex(&p, &TexExportOptions::default(), &layout);
    match r {
        Err(PptxError::InvalidImageSource(m)) => {
            assert!(m.ends_with("is SVG-backed but has no render_asset_id raster fallback for TeX export"))
        }
        _ => panic!("expected a refusal"),
    }
}

#[test]
fn a_deck_without_slides_cannot_be_rendered() {
    let p = Presentation::new("Empty");
    let r = render_beamer_tex(&p, &TexExportOptions::default(), &TexLayout { slides: vec![] });
    assert!(matches!(r, Err(PptxError::InvalidImageSource(m)) if m == "cannot export TeX: this deck has no slides"));
}

#[test]
fn shapes_render_as_nothing_and_missing_assets_fail() {
    let p = Presentation::new("P");
    let b = tex_box(&rect(0.0, 0.0, 1.0, 1.0), 24.0);
    let image = Element::Image(ImageElement {
        id: new_id(),
        bounds: rect(0.0, 0.0, 1.0, 1.0),
        asset_id: new_id(),
        render_asset_id: None,
        alt: None,
    });
    assert!(render_element(&image, &p, &b).is_err());
}

#[test]
fn the_tex_zip_ships_main_tex_and_the_shown_assets_once() {
    let (mut p, svg, png) = deck_with_svg(true);
    p.slides[0].elements.push(Element::Image(ImageElement {
        id: new_id(),
        bounds: rect(0.0, 0.0, 10.0, 10.0),
        asset_id: png,
        render_asset_id: None,
        alt: None,
    }));
    let assets = assets_referenced_by_images(&p).unwrap();
    assert_eq!(assets.len(), 1);
    assert_eq!(assets[0].id, png);

    let layout = layout_of(&p);
    let mut package = DeckPackage::new(p);
    package.asset_bytes.insert(png, vec![1, 2, 3]);
    package.asset_bytes.insert(svg, vec![4]);
    let files = TexExporter::zip_entries(&package, &TexExportOptions::default(), &layout).unwrap();
    assert_eq!(files.len(), 2);
    assert_eq!(files[0].name, "main.tex");
    assert_eq!(files[1].name, format!("img/{}.png", uuid::Uuid::from_u128(png)));
    assert_eq!(files[1].bytes, vec![1, 2, 3]);

    package.asset_bytes.remove(&png);
    let r = TexExporter::zip_entries(&package, &TexExportOptions::default(), &layout);
    assert!(matches!(r, Err(PptxError::InvalidImageSource(m)) if m.starts_with("cannot export TeX zip: missing bytes for asset")));
}
