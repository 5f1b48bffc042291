//! Rendering a deck as Beamer source, and the files of a TeX export.
//!
//! Every slide becomes a slide-sized TikZ frame with its elements placed
//! at absolute `bp` coordinates. The coordinates and sizes reach this
//! module already formatted (three decimals at most, trailing zeros
//! dropped), one box per element, in a layout of the deck.
use vstd::prelude::*;

use std::collections::BTreeMap;

use crate::error::PptxError;
use crate::ids::{id_text, uuid_text};
use crate::model::{asset_file_name, asset_lookup, Asset, Element, Presentation, Slide};
use crate::package::DeckPackage;
use crate::pptx::exporter::{copy_bytes, parts_view, text_bytes};
use crate::pptx::package::PackagePart;
use crate::pptx::tex_export::{
    assets_referenced_by_images, escape_tex, hex_for_tex, images_of, image_source_error,
    normalize_math_tex, normalized_math, render_text_content, tex_assets, tex_color, tex_escaped,
    text_content_tex,
};
use crate::text::str_eq;
use vstd::utf8::encode_utf8;

verus! {

/// Options of a TeX export.
pub struct TexExportOptions {
    /// A line of text set small in each slide's bottom-right corner, if
    /// any.
    pub watermark: Option<String>,
    /// Whether to load the `inter` font package.
    pub use_inter_font: bool,
}

impl Default for TexExportOptions {
    fn default() -> (o: TexExportOptions)
        ensures
            o.watermark is None,
            o.use_inter_font,
    {
        TexExportOptions { watermark: None, use_inter_font: true }
    }
}

/// TeX export.
pub struct TexExporter;

/// Where an element goes, in `bp`, formatted: its corner, its size, its
/// font size and its leading (1.2 times the font size).
#[derive(Debug, Clone)]
pub struct TexBox {
    pub x: String,
    pub y: String,
    pub width: String,
    pub height: String,
    pub font_size: String,
    pub leading: String,
}

/// The formatted sizes of a slide: its width and height, the corner of
/// its watermark (16 and 12 bp in from the bottom right), and one box per
/// element.
#[derive(Debug, Clone)]
pub struct TexSlideLayout {
    pub width: String,
    pub height: String,
    pub watermark_x: String,
    pub watermark_y: String,
    pub elements: Vec<TexBox>,
}

/// The formatted sizes of a deck, one layout per slide.
#[derive(Debug, Clone)]
pub struct TexLayout {
    pub slides: Vec<TexSlideLayout>,
}

/// Whether a layout has a layout per slide and a box per element.
pub open spec fn fits(layout: TexLayout, slides: Seq<Slide>) -> bool {
    &&& layout.slides@.len() == slides.len()
    &&& forall|i: int|
        0 <= i < slides.len() ==> #[trigger] layout.slides@[i].elements@.len()
            == slides[i].elements@.len()
}


/// The error of an image whose asset is missing.
pub open spec fn missing_asset_message(element: u128, asset: u128) -> Seq<char> {
    "cannot export TeX: image element "@ + uuid_text(element) + " references missing asset "@
        + uuid_text(asset)
}

/// The TeX of one element: a text or formula node, an image node showing
/// its asset (for an SVG asset, its raster rendering), or nothing.
pub open spec fn rendered_element(e: Element, p: Presentation, b: TexBox) -> Result<
    Seq<char>,
    Seq<char>,
> {
    match e {
        Element::Text(t) => Ok(text_node(b, tex_color(t.color.value@), text_content_tex(t.text@))),
        Element::Math(m) => Ok(math_node(b, tex_color(m.color.value@), normalized_math(m.tex@))),
        Element::Image(im) => match asset_lookup(p.assets@, im.asset_id) {
            None => Err(missing_asset_message(im.id, im.asset_id)),
            Some(a) => if a.media_type@ == "image/svg+xml"@ {
                match im.render_asset_id {
                    None => Err(
                        "image element "@ + uuid_text(im.id)
                            + " is SVG-backed but has no render_asset_id raster fallback for TeX export"@,
                    ),
                    Some(r) => match asset_lookup(p.assets@, r) {
                        None => Err(
                            "image element "@ + uuid_text(im.id) + " render_asset_id "@ + uuid_text(r)
                                + " is not declared in assets[]"@,
                        ),
                        Some(ra) => Ok(image_node(b, asset_file_name(ra))),
                    },
                }
            } else {
                Ok(image_node(b, asset_file_name(a)))
            },
        },
        _ => Ok(seq![]),
    }
}

/// The TeX of a slide's elements, one after the other; the first that
/// cannot be rendered fails.
pub open spec fn rendered_elements(p: Presentation, es: Seq<Element>, bs: Seq<TexBox>) -> Result<
    Seq<char>,
    Seq<char>,
>
    decreases es.len(),
{
    if es.len() == 0 || bs.len() == 0 {
        Ok(seq![])
    } else {
        match rendered_elements(p, es.drop_last(), bs.drop_last()) {
            Err(m) => Err(m),
            Ok(prev) => match rendered_element(es.last(), p, bs.last()) {
                Err(m) => Err(m),
                Ok(t) => Ok(prev + t),
            },
        }
    }
}

/// The watermark of a slide, if the options ask for one.
pub open spec fn watermark_tex(options: TexExportOptions, layout: TexSlideLayout) -> Seq<char> {
    match options.watermark {
        Some(t) => watermark_node(layout.watermark_x@, layout.watermark_y@, tex_escaped(t@)),
        None => seq![],
    }
}

/// The frame of a slide.
pub open spec fn rendered_slide(
    s: Slide,
    p: Presentation,
    options: TexExportOptions,
    layout: TexSlideLayout,
) -> Result<Seq<char>, Seq<char>> {
    match rendered_elements(p, s.elements@, layout.elements@) {
        Err(m) => Err(m),
        Ok(els) => Ok(frame_tex(layout.width@, layout.height@, els, watermark_tex(options, layout))),
    }
}

/// The frames of the first slides.
pub open spec fn rendered_frames(
    p: Presentation,
    options: TexExportOptions,
    slides: Seq<Slide>,
    layouts: Seq<TexSlideLayout>,
) -> Result<Seq<Seq<char>>, Seq<char>>
    decreases slides.len(),
{
    if slides.len() == 0 || layouts.len() == 0 {
        Ok(seq![])
    } else {
        match rendered_frames(p, options, slides.drop_last(), layouts.drop_last()) {
            Err(m) => Err(m),
            Ok(prev) => match rendered_slide(slides.last(), p, options, layouts.last()) {
                Err(m) => Err(m),
                Ok(f) => Ok(prev.push(f)),
            },
        }
    }
}

/// Texts joined by newlines.
pub open spec fn joined_lines(parts: Seq<Seq<char>>) -> Seq<char>
    decreases parts.len(),
{
    if parts.len() == 0 {
        seq![]
    } else if parts.len() == 1 {
        parts[0]
    } else {
        joined_lines(parts.drop_last()) + seq!['\n'] + parts.last()
    }
}

/// The Beamer source of a deck; a deck without slides is refused.
pub open spec fn rendered_document(
    p: Presentation,
    options: TexExportOptions,
    layout: TexLayout,
) -> Result<Seq<char>, Seq<char>> {
    if p.slides@.len() == 0 {
        Err("cannot export TeX: this deck has no slides"@)
    } else {
        match rendered_frames(p, options, p.slides@, layout.slides@) {
            Err(m) => Err(m),
            Ok(frames) => Ok(
                document_tex(
                    if options.use_inter_font {
                        "\\usepackage[sfdefault]{inter}\n"@
                    } else {
                        seq![]
                    },
                    layout.slides@[0].width@,
                    layout.slides@[0].height@,
                    tex_color(p.theme.background.value@),
                    if options.watermark is Some {
                        "\\definecolor{dmwatermark}{HTML}{8A8A8A}\n"@
                    } else {
                        seq![]
                    },
                    joined_lines(frames),
                ),
            ),
        }
    }
}

/// Renders one element.
pub fn render_element(element: &Element, presentation: &Presentation, b: &TexBox) -> (res: Result<
    String,
    PptxError,
>)
    ensures
        match rendered_element(*element, *presentation, *b) {
            Ok(t) => res matches Ok(s) && s@ == t,
            Err(m) => image_source_error(res, m),
        },
{
    let mut out = String::new();
    match element {
        Element::Text(text) => {
            let color = hex_for_tex(text.color.value.as_str());
            let content = render_text_content(text.text.as_str());
            append_text_node(&mut out, b, color.as_str(), content.as_str());
        },
        Element::Math(math) => {
            let color = hex_for_tex(math.color.value.as_str());
            let content = normalize_math_tex(math.tex.as_str());
            append_math_node(&mut out, b, color.as_str(), content.as_str());
        },
        Element::Image(image) => {
            let Some(asset) = presentation.find_asset(image.asset_id) else {
                let mut m = String::from_str("cannot export TeX: image element ");
                m.append(id_text(image.id).as_str());
                m.append(" references missing asset ");
                m.append(id_text(image.asset_id).as_str());
                return Err(PptxError::InvalidImageSource(m));
            };
            let effective = if str_eq(asset.media_type.as_str(), "image/svg+xml") {
                let Some(render_id) = image.render_asset_id else {
                    let mut m = String::from_str("image element ");
                    m.append(id_text(image.id).as_str());
                    m.append(
                        " is SVG-backed but has no render_asset_id raster fallback for TeX export",
                    );
                    return Err(PptxError::InvalidImageSource(m));
                };
                let Some(r) = presentation.find_asset(render_id) else {
                    let mut m = String::from_str("image element ");
                    m.append(id_text(image.id).as_str());
                    m.append(" render_asset_id ");
                    m.append(id_text(render_id).as_str());
                    m.append(" is not declared in assets[]");
                    return Err(PptxError::InvalidImageSource(m));
                };
                r
            } else {
                asset
            };
            append_image_node(&mut out, b, effective.file_name().as_str());
        },
        _ => {},
    }
    Ok(out)
}

/// Renders the watermark of a slide.
pub fn render_watermark(layout: &TexSlideLayout, text: &str) -> (res: String)
    ensures
        res@ == watermark_node(layout.watermark_x@, layout.watermark_y@, tex_escaped(text@)),
{
    let mut out = String::new();
    append_watermark_node(
        &mut out,
        layout.watermark_x.as_str(),
        layout.watermark_y.as_str(),
        escape_tex(text).as_str(),
    );
    out
}

proof fn lemma_elements_fail(p: Presentation, es: Seq<Element>, bs: Seq<TexBox>, k: int)
    requires
        0 <= k < es.len(),
        es.len() == bs.len(),
        rendered_elements(p, es.take(k + 1), bs.take(k + 1)) is Err,
    ensures
        rendered_elements(p, es, bs) == rendered_elements(p, es.take(k + 1), bs.take(k + 1)),
    decreases es.len() - k,
{
    if k + 1 < es.len() {
        assert(es.take(es.len() - 1).take(k + 1) =~= es.take(k + 1));
        assert(bs.take(bs.len() - 1).take(k + 1) =~= bs.take(k + 1));
        lemma_elements_fail(p, es.take(es.len() - 1), bs.take(bs.len() - 1), k);
        assert(es.drop_last() =~= es.take(es.len() - 1));
        assert(bs.drop_last() =~= bs.take(bs.len() - 1));
    } else {
        assert(es.take(k + 1) =~= es);
        assert(bs.take(k + 1) =~= bs);
    }
}

/// Renders the frame of a slide.
pub fn render_slide(
    slide: &Slide,
    presentation: &Presentation,
    options: &TexExportOptions,
    layout: &TexSlideLayout,
) -> (res: Result<String, PptxError>)
    requires
        layout.elements@.len() == slide.elements@.len(),
    ensures
        match rendered_slide(*slide, *presentation, *options, *layout) {
            Ok(t) => res matches Ok(s) && s@ == t,
            Err(m) => image_source_error(res, m),
        },
{
    let es = &slide.elements;
    let bs = &layout.elements;
    let mut elements = String::new();
    let mut i: usize = 0;
    assert(es@.take(0) =~= seq![]);
    assert(bs@.take(0) =~= seq![]);
    while i < es.len()
        invariant
            i <= es@.len(),
            es@.len() == bs@.len(),
            *es == slide.elements,
            *bs == layout.elements,
            rendered_elements(*presentation, es@.take(i as int), bs@.take(i as int)) == Ok::<
                Seq<char>,
                Seq<char>,
            >(elements@),
        decreases es.len() - i,
    {
        assert(es@.take(i + 1).drop_last() =~= es@.take(i as int));
        assert(bs@.take(i + 1).drop_last() =~= bs@.take(i as int));
        assert(es@.take(i + 1).last() == es@[i as int]);
        assert(bs@.take(i + 1).last() == bs@[i as int]);
        match render_element(&es[i], presentation, &bs[i]) {
            Ok(t) => {
                elements.append(t.as_str());
            },
            Err(e) => {
                proof {
                    let r = rendered_element(es@[i as int], *presentation, bs@[i as int]);
                    assert(r is Err);
                    assert(rendered_elements(*presentation, es@.take(i + 1), bs@.take(i + 1))
                        == Err::<Seq<char>, Seq<char>>(r->Err_0));
                    lemma_elements_fail(*presentation, es@, bs@, i as int);
                    assert(rendered_elements(*presentation, slide.elements@, layout.elements@)
                        == Err::<Seq<char>, Seq<char>>(r->Err_0));
                    assert(rendered_slide(*slide, *presentation, *options, *layout) == Err::<
                        Seq<char>,
                        Seq<char>,
                    >(r->Err_0));
                    assert(image_source_error(Err::<String, PptxError>(e), r->Err_0));
                }
                return Err(e);
            },
        }
        i += 1;
    }
    assert(es@.take(es@.len() as int) =~= es@);
    assert(bs@.take(bs@.len() as int) =~= bs@);
    let watermark = match &options.watermark {
        Some(text) => render_watermark(layout, text.as_str()),
        None => String::new(),
    };
    let mut out = String::new();
    append_frame_tex(
        &mut out,
        layout.width.as_str(),
        layout.height.as_str(),
        elements.as_str(),
        watermark.as_str(),
    );
    Ok(out)
}

proof fn lemma_frames_fail(
    p: Presentation,
    options: TexExportOptions,
    slides: Seq<Slide>,
    layouts: Seq<TexSlideLayout>,
    k: int,
)
    requires
        0 <= k < slides.len(),
        slides.len() == layouts.len(),
        rendered_frames(p, options, slides.take(k + 1), layouts.take(k + 1)) is Err,
    ensures
        rendered_frames(p, options, slides, layouts) == rendered_frames(
            p,
            options,
            slides.take(k + 1),
            layouts.take(k + 1),
        ),
    decreases slides.len() - k,
{
    if k + 1 < slides.len() {
        assert(slides.take(slides.len() - 1).take(k + 1) =~= slides.take(k + 1));
        assert(layouts.take(layouts.len() - 1).take(k + 1) =~= layouts.take(k + 1));
        lemma_frames_fail(p, options, slides.take(slides.len() - 1), layouts.take(layouts.len() - 1), k);
        assert(slides.drop_last() =~= slides.take(slides.len() - 1));
        assert(layouts.drop_last() =~= layouts.take(layouts.len() - 1));
    } else {
        assert(slides.take(k + 1) =~= slides);
        assert(layouts.take(k + 1) =~= layouts);
    }
}

/// Renders a deck as Beamer source: one frame per slide, on paper the
/// size of the first slide.
pub fn render_beamer_tex(
    presentation: &Presentation,
    options: &TexExportOptions,
    layout: &TexLayout,
) -> (res: Result<String, PptxError>)
    requires
        fits(*layout, presentation.slides@),
    ensures
        match rendered_document(*presentation, *options, *layout) {
            Ok(t) => res matches Ok(s) && s@ == t,
            Err(m) => image_source_error(res, m),
        },
{
    if presentation.slides.len() == 0 {
        return Err(
            PptxError::InvalidImageSource(String::from_str("cannot export TeX: this deck has no slides")),
        );
    }
    let background = hex_for_tex(presentation.theme.background.value.as_str());
    let slides = &presentation.slides;
    let layouts = &layout.slides;
    let mut frames = String::new();
    let ghost mut fs: Seq<Seq<char>> = seq![];
    let mut i: usize = 0;
    assert(slides@.take(0) =~= seq![]);
    assert(layouts@.take(0) =~= seq![]);
    while i < slides.len()
        invariant
            i <= slides@.len(),
            slides@.len() == layouts@.len(),
            fits(*layout, presentation.slides@),
            *slides == presentation.slides,
            *layouts == layout.slides,
            rendered_frames(*presentation, *options, slides@.take(i as int), layouts@.take(i as int))
                == Ok::<Seq<Seq<char>>, Seq<char>>(fs),
            fs.len() == i,
            frames@ == joined_lines(fs),
        decreases slides.len() - i,
    {
        assert(slides@.take(i + 1).drop_last() =~= slides@.take(i as int));
        assert(layouts@.take(i + 1).drop_last() =~= layouts@.take(i as int));
        assert(slides@.take(i + 1).last() == slides@[i as int]);
        assert(layouts@.take(i + 1).last() == layouts@[i as int]);
        assert(layouts@[i as int].elements@.len() == slides@[i as int].elements@.len());
        let frame = match render_slide(&slides[i], presentation, options, &layouts[i]) {
            Ok(f) => f,
            Err(e) => {
                proof {
                    lemma_frames_fail(*presentation, *options, slides@, layouts@, i as int);
                }
                return Err(e);
            },
        };
        if i > 0 {
            frames.append("\n");
        }
        frames.append(frame.as_str());
        proof {
            let nfs = fs.push(frame@);
            assert(nfs.drop_last() =~= fs);
            if i > 0 {
                reveal_strlit("\n");
                assert(frames@ =~= joined_lines(fs) + seq!['\n'] + frame@);
            } else {
                assert(frames@ =~= frame@);
            }
            fs = nfs;
        }
        i += 1;
    }
    assert(slides@.take(slides@.len() as int) =~= slides@);
    assert(layouts@.take(layouts@.len() as int) =~= layouts@);
    let inter = if options.use_inter_font {
        "\\usepackage[sfdefault]{inter}\n"
    } else {
        ""
    };
    let watermark_color = if options.watermark.is_some() {
        "\\definecolor{dmwatermark}{HTML}{8A8A8A}\n"
    } else {
        ""
    };
    proof {
        reveal_strlit("");
    }
    let mut out = String::new();
    append_document_tex(
        &mut out,
        inter,
        layouts[0].width.as_str(),
        layouts[0].height.as_str(),
        background.as_str(),
        watermark_color,
        frames.as_str(),
    );
    Ok(out)
}

/// The `img/` files of the assets a TeX export ships; the first asset
/// whose bytes the package lacks fails.
pub open spec fn asset_files(assets: Seq<Asset>, bytes: Map<u128, Vec<u8>>) -> Result<
    Seq<(Seq<char>, Seq<u8>)>,
    Seq<char>,
>
    decreases assets.len(),
{
    if assets.len() == 0 {
        Ok(seq![])
    } else {
        match asset_files(assets.drop_last(), bytes) {
            Err(m) => Err(m),
            Ok(prev) => {
                let a = assets.last();
                if !bytes.contains_key(a.id) {
                    Err("cannot export TeX zip: missing bytes for asset "@ + uuid_text(a.id))
                } else {
                    Ok(prev.push(("img/"@ + asset_file_name(a), bytes[a.id]@)))
                }
            },
        }
    }
}

/// The files of a TeX export: `main.tex`, then the `img/` file of each
/// asset the images show.
pub open spec fn tex_zip_files(pkg: DeckPackage, options: TexExportOptions, layout: TexLayout) -> Result<
    Seq<(Seq<char>, Seq<u8>)>,
    Seq<char>,
> {
    let p = pkg.presentation;
    match rendered_document(p, options, layout) {
        Err(m) => Err(m),
        Ok(tex) => match tex_assets(p, images_of(p.slides@)) {
            Err(m) => Err(m),
            Ok(assets) => match asset_files(assets, pkg.asset_bytes@) {
                Err(m) => Err(m),
                Ok(files) => Ok(seq![("main.tex"@, encode_utf8(tex))] + files),
            },
        },
    }
}

proof fn lemma_asset_files_fail(assets: Seq<Asset>, bytes: Map<u128, Vec<u8>>, k: int)
    requires
        0 <= k < assets.len(),
        asset_files(assets.take(k + 1), bytes) is Err,
    ensures
        asset_files(assets, bytes) == asset_files(assets.take(k + 1), bytes),
    decreases assets.len() - k,
{
    if k + 1 < assets.len() {
        assert(assets.take(assets.len() - 1).take(k + 1) =~= assets.take(k + 1));
        lemma_asset_files_fail(assets.take(assets.len() - 1), bytes, k);
        assert(assets.drop_last() =~= assets.take(assets.len() - 1));
    } else {
        assert(assets.take(k + 1) =~= assets);
    }
}

impl TexExporter {
    /// The files of a TeX export of a package: the Beamer source as
    /// `main.tex`, then each asset the images show as `img/{file}`. Every
    /// failure comes before any file is produced.
    pub fn zip_entries(
        package: &DeckPackage,
        options: &TexExportOptions,
        layout: &TexLayout,
    ) -> (res: Result<Vec<PackagePart>, PptxError>)
        requires
            fits(*layout, package.presentation.slides@),
        ensures
            match tex_zip_files(*package, *options, *layout) {
                Ok(files) => res matches Ok(v) && parts_view(v@) == files,
                Err(m) => image_source_error(res, m),
            },
    {
        let tex = render_beamer_tex(&package.presentation, options, layout)?;
        let assets = assets_referenced_by_images(&package.presentation)?;
        let mut files: Vec<PackagePart> = Vec::new();
        files.push(PackagePart { name: String::from_str("main.tex"), bytes: text_bytes(tex.as_str()) });
        let ghost head = parts_view(files@);
        assert(head =~= seq![("main.tex"@, encode_utf8(tex@))]);
        let ghost expected = tex_zip_files(*package, *options, *layout);
        assert(expected == match asset_files(assets@, package.asset_bytes@) {
            Err(m) => Err(m),
            Ok(files) => Ok(head + files),
        });
        let mut i: usize = 0;
        assert(assets@.take(0) =~= seq![]);
        assert(parts_view(files@) =~= head + seq![]);
        while i < assets.len()
            invariant
                i <= assets@.len(),
                expected == tex_zip_files(*package, *options, *layout),
                expected == match asset_files(assets@, package.asset_bytes@) {
                    Err(m) => Err(m),
                    Ok(files) => Ok(head + files),
                },
                asset_files(assets@.take(i as int), package.asset_bytes@) matches Ok(prev)
                    && parts_view(files@) == head + prev,
            decreases assets.len() - i,
        {
            assert(assets@.take(i + 1).drop_last() =~= assets@.take(i as int));
            assert(assets@.take(i + 1).last() == assets@[i as int]);
            let a = &assets[i];
            let Some(bytes) = crate::package::bytes_of(&package.asset_bytes, a.id) else {
                let mut m = String::from_str("cannot export TeX zip: missing bytes for asset ");
                m.append(id_text(a.id).as_str());
                proof {
                    lemma_asset_files_fail(assets@, package.asset_bytes@, i as int);
                }
                return Err(PptxError::InvalidImageSource(m));
            };
            let mut name = String::from_str("img/");
            name.append(a.file_name().as_str());
            let ghost before = parts_view(files@);
            files.push(PackagePart { name, bytes: copy_bytes(bytes) });
            assert(parts_view(files@) =~= before.push((files@.last().name@, files@.last().bytes@)));
            i += 1;
        }
        assert(assets@.take(assets@.len() as int) =~= assets@);
        Ok(files)
    }
}

/// The node of a text element: its box, colour and content.
pub open spec fn text_node(b: TexBox, color: Seq<char>, content: Seq<char>) -> Seq<char> {
    "\\node[anchor=north west, inner sep=0pt, align=left, text width="@
        + b.width@
        + "bp] at ("@
        + b.x@
        + ",-"@
        + b.y@
        + ") {\\fontsize{"@
        + b.font_size@
        + "}{"@
        + b.leading@
        + "}\\selectfont\\textcolor[HTML]{"@
        + color
        + "}{"@
        + content
        + "}};\n"@
}

fn append_text_node(out: &mut String, b: &TexBox, color: &str, content: &str)
    ensures
        final(out)@ == old(out)@ + text_node(*b, color@, content@),
{
    out.append("\\node[anchor=north west, inner sep=0pt, align=left, text width=");
    out.append(b.width.as_str());
    out.append("bp] at (");
    out.append(b.x.as_str());
    out.append(",-");
    out.append(b.y.as_str());
    out.append(") {\\fontsize{");
    out.append(b.font_size.as_str());
    out.append("}{");
    out.append(b.leading.as_str());
    out.append("}\\selectfont\\textcolor[HTML]{");
    out.append(color);
    out.append("}{");
    out.append(content);
    out.append("}};\n");
}

/// The node of a formula: its box, colour and display-math content.
pub open spec fn math_node(b: TexBox, color: Seq<char>, content: Seq<char>) -> Seq<char> {
    "\\node[anchor=north west, inner sep=0pt, align=center, text width="@
        + b.width@
        + "bp] at ("@
        + b.x@
        + ",-"@
        + b.y@
        + ") {\\fontsize{"@
        + b.font_size@
        + "}{"@
        + b.leading@
        + "}\\selectfont\\textcolor[HTML]{"@
        + color
        + "}{\\ensuremath{\\displaystyle "@
        + content
        + "}}};\n"@
}

fn append_math_node(out: &mut String, b: &TexBox, color: &str, content: &str)
    ensures
        final(out)@ == old(out)@ + math_node(*b, color@, content@),
{
    out.append("\\node[anchor=north west, inner sep=0pt, align=center, text width=");
    out.append(b.width.as_str());
    out.append("bp] at (");
    out.append(b.x.as_str());
    out.append(",-");
    out.append(b.y.as_str());
    out.append(") {\\fontsize{");
    out.append(b.font_size.as_str());
    out.append("}{");
    out.append(b.leading.as_str());
    out.append("}\\selectfont\\textcolor[HTML]{");
    out.append(color);
    out.append("}{\\ensuremath{\\displaystyle ");
    out.append(content);
    out.append("}}};\n");
}

/// The node of an image: its box and the file it includes from `img/`.
pub open spec fn image_node(b: TexBox, file: Seq<char>) -> Seq<char> {
    "\\node[anchor=north west, inner sep=0pt] at ("@
        + b.x@
        + ",-"@
        + b.y@
        + ") {\\includegraphics[width="@
        + b.width@
        + "bp,height="@
        + b.height@
        + "bp]{img/"@
        + file
        + "}};\n"@
}

fn append_image_node(out: &mut String, b: &TexBox, file: &str)
    ensures
        final(out)@ == old(out)@ + image_node(*b, file@),
{
    out.append("\\node[anchor=north west, inner sep=0pt] at (");
    out.append(b.x.as_str());
    out.append(",-");
    out.append(b.y.as_str());
    out.append(") {\\includegraphics[width=");
    out.append(b.width.as_str());
    out.append("bp,height=");
    out.append(b.height.as_str());
    out.append("bp]{img/");
    out.append(file);
    out.append("}};\n");
}

/// The watermark node: bottom-right at `(x, -y)`, small grey text.
pub open spec fn watermark_node(x: Seq<char>, y: Seq<char>, text: Seq<char>) -> Seq<char> {
    "\\node[anchor=south east, inner sep=0pt] at ("@
        + x
        + ",-"@
        + y
        + ") {\\fontsize{6bp}{7.2bp}\\selectfont\\textcolor{dmwatermark}{"@
        + text
        + "}};\n"@
}

fn append_watermark_node(out: &mut String, x: &str, y: &str, text: &str)
    ensures
        final(out)@ == old(out)@ + watermark_node(x@, y@, text@),
{
    out.append("\\node[anchor=south east, inner sep=0pt] at (");
    out.append(x);
    out.append(",-");
    out.append(y);
    out.append(") {\\fontsize{6bp}{7.2bp}\\selectfont\\textcolor{dmwatermark}{");
    out.append(text);
    out.append("}};\n");
}

/// The frame of a slide: a slide-sized canvas filled with the background, then the slide's nodes.
pub open spec fn frame_tex(width: Seq<char>, height: Seq<char>, elements: Seq<char>, watermark: Seq<char>) -> Seq<char> {
    "\\begin{frame}[plain,t]\n\\nointerlineskip\n\\begin{tikzpicture}[x=1bp,y=1bp]\n\\path[use as bounding box] (0,0) rectangle ("@
        + width
        + ",-"@
        + height
        + ");\n\\fill[dmbackground] (0,0) rectangle ("@
        + width
        + ",-"@
        + height
        + ");\n"@
        + elements
        + watermark
        + "\\end{tikzpicture}\n\\end{frame}\n"@
}

fn append_frame_tex(out: &mut String, width: &str, height: &str, elements: &str, watermark: &str)
    ensures
        final(out)@ == old(out)@ + frame_tex(width@, height@, elements@, watermark@),
{
    out.append("\\begin{frame}[plain,t]\n\\nointerlineskip\n\\begin{tikzpicture}[x=1bp,y=1bp]\n\\path[use as bounding box] (0,0) rectangle (");
    out.append(width);
    out.append(",-");
    out.append(height);
    out.append(");\n\\fill[dmbackground] (0,0) rectangle (");
    out.append(width);
    out.append(",-");
    out.append(height);
    out.append(");\n");
    out.append(elements);
    out.append(watermark);
    out.append("\\end{tikzpicture}\n\\end{frame}\n");
}

/// The Beamer document around the frames.
pub open spec fn document_tex(inter: Seq<char>, paper_width: Seq<char>, paper_height: Seq<char>, background: Seq<char>, watermark_color: Seq<char>, frames: Seq<char>) -> Seq<char> {
    "% DeckMaster Beamer source export.\n% Slide-sized TikZ canvas, absolute bp coordinates, no\n% remember-picture overlay -- a single compile pass positions\n% everything correctly.\n\\documentclass{beamer}\n\\usepackage[utf8]{inputenc}\n\\usepackage{tikz}\n\\usepackage{graphicx}\n\\usepackage{xcolor}\n\\usepackage{amsmath}\n\\usepackage{geometry}\n"@
        + inter
        + "\\geometry{paperwidth="@
        + paper_width
        + "bp, paperheight="@
        + paper_height
        + "bp, margin=0pt}\n\\setbeamersize{text margin left=0pt, text margin right=0pt}\n\\setbeamertemplate{headline}{}\n\\setbeamertemplate{footline}{}\n\\beamertemplatenavigationsymbolsempty\n\\definecolor{dmbackground}{HTML}{"@
        + background
        + "}\n"@
        + watermark_color
        + "\\begin{document}\n\n"@
        + frames
        + "\n\\end{document}\n"@
}

fn append_document_tex(out: &mut String, inter: &str, paper_width: &str, paper_height: &str, background: &str, watermark_color: &str, frames: &str)
    ensures
        final(out)@ == old(out)@ + document_tex(inter@, paper_width@, paper_height@, background@, watermark_color@, frames@),
{
    out.append("% DeckMaster Beamer source export.\n% Slide-sized TikZ canvas, absolute bp coordinates, no\n% remember-picture overlay -- a single compile pass positions\n% everything correctly.\n\\documentclass{beamer}\n\\usepackage[utf8]{inputenc}\n\\usepackage{tikz}\n\\usepackage{graphicx}\n\\usepackage{xcolor}\n\\usepackage{amsmath}\n\\usepackage{geometry}\n");
    out.append(inter);
    out.append("\\geometry{paperwidth=");
    out.append(paper_width);
    out.append("bp, paperheight=");
    out.append(paper_height);
    out.append("bp, margin=0pt}\n\\setbeamersize{text margin left=0pt, text margin right=0pt}\n\\setbeamertemplate{headline}{}\n\\setbeamertemplate{footline}{}\n\\beamertemplatenavigationsymbolsempty\n\\definecolor{dmbackground}{HTML}{");
    out.append(background);
    out.append("}\n");
    out.append(watermark_color);
    out.append("\\begin{document}\n\n");
    out.append(frames);
    out.append("\n\\end{document}\n");
}

} // verus!
