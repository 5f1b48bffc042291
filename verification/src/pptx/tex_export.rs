//! Beamer (TeX) export: escaping text for TeX, normalizing formula
//! delimiters, colors, and the assets a TeX export ships.
use vstd::prelude::*;

use crate::error::PptxError;
use crate::ids::{id_text, uuid_text};
use crate::model::{asset_lookup, Asset, Element, ImageElement, Presentation, Slide};
use crate::text::{
    chars_eq, chars_of, has_prefix, has_suffix, hex_char, is_hex_char, push_char, skip_leading,
    str_eq, string_of, string_of_range, strip_leading, to_upper, trim_bounds, trimmed,
    unicode_upper,
};

verus! {

/// The TeX for one character of plain text.
pub open spec fn tex_char(c: char) -> Seq<char> {
    if c == '\\' {
        "\\textbackslash{}"@
    } else if c == '{' {
        "\\{"@
    } else if c == '}' {
        "\\}"@
    } else if c == '$' {
        "\\$"@
    } else if c == '&' {
        "\\&"@
    } else if c == '#' {
        "\\#"@
    } else if c == '_' {
        "\\_"@
    } else if c == '%' {
        "\\%"@
    } else if c == '~' {
        "\\textasciitilde{}"@
    } else if c == '^' {
        "\\textasciicircum{}"@
    } else if c == '\u{2194}' {
        "\\ensuremath{\\leftrightarrow}"@
    } else if c == '\u{2192}' {
        "\\ensuremath{\\rightarrow}"@
    } else if c == '\u{2190}' {
        "\\ensuremath{\\leftarrow}"@
    } else if c == '\n' {
        "\\\\\n"@
    } else {
        seq![c]
    }
}

/// Plain text escaped for TeX, one character at a time.
pub open spec fn tex_escaped(s: Seq<char>) -> Seq<char>
    decreases s.len(),
{
    if s.len() == 0 {
        seq![]
    } else {
        tex_escaped(s.drop_last()) + tex_char(s.last())
    }
}

/// Escapes plain text for TeX in a single pass over the input, so that
/// the braces an escape introduces are never escaped again.
pub fn escape_tex(text: &str) -> (res: String)
    ensures
        res@ == tex_escaped(text@),
{
    let chars = chars_of(text);
    let mut out = String::new();
    let mut i: usize = 0;
    while i < chars.len()
        invariant
            i <= chars@.len(),
            out@ == tex_escaped(chars@.take(i as int)),
        decreases chars.len() - i,
    {
        let c = chars[i];
        if c == '\\' {
            out.append("\\textbackslash{}");
        } else if c == '{' {
            out.append("\\{");
        } else if c == '}' {
            out.append("\\}");
        } else if c == '$' {
            out.append("\\$");
        } else if c == '&' {
            out.append("\\&");
        } else if c == '#' {
            out.append("\\#");
        } else if c == '_' {
            out.append("\\_");
        } else if c == '%' {
            out.append("\\%");
        } else if c == '~' {
            out.append("\\textasciitilde{}");
        } else if c == '^' {
            out.append("\\textasciicircum{}");
        } else if c == '\u{2194}' {
            out.append("\\ensuremath{\\leftrightarrow}");
        } else if c == '\u{2192}' {
            out.append("\\ensuremath{\\rightarrow}");
        } else if c == '\u{2190}' {
            out.append("\\ensuremath{\\leftarrow}");
        } else if c == '\n' {
            out.append("\\\\\n");
        } else {
            push_char(&mut out, c);
        }
        assert(chars@.take(i + 1).drop_last() =~= chars@.take(i as int));
        i += 1;
    }
    assert(chars@.take(chars@.len() as int) =~= chars@);
    out
}

/// A formula's TeX with any `$$...$$`, `\[...\]` or `$...$` delimiters
/// taken off and surrounding white space trimmed.
pub open spec fn normalized_math(tex: Seq<char>) -> Seq<char> {
    let t = trimmed(tex);
    if t.len() >= 4 && has_prefix(t, "$$"@) && has_suffix(t, "$$"@) {
        trimmed(t.subrange(2, t.len() - 2))
    } else if has_prefix(t, "\\["@) && has_suffix(t, "\\]"@) {
        trimmed(t.subrange(2, t.len() - 2))
    } else if t.len() >= 2 && has_prefix(t, "$"@) && has_suffix(t, "$"@) {
        trimmed(t.subrange(1, t.len() - 1))
    } else {
        t
    }
}

/// The trimmed text of `chars[from..to]`.
fn trimmed_range(chars: &Vec<char>, from: usize, to: usize) -> (res: String)
    requires
        from <= to <= chars@.len(),
    ensures
        res@ == trimmed(chars@.subrange(from as int, to as int)),
{
    let inner = chars_of(string_of_range(chars, from, to).as_str());
    let (a, b) = trim_bounds(&inner);
    string_of_range(&inner, a, b)
}

/// Strips `$$...$$`, `\[...\]` or `$...$` delimiters from a formula.
pub fn normalize_math_tex(tex: &str) -> (res: String)
    ensures
        res@ == normalized_math(tex@),
{
    let all = chars_of(tex);
    let (a, b) = trim_bounds(&all);
    let t = chars_of(string_of_range(&all, a, b).as_str());
    proof {
        reveal_strlit("$$");
        reveal_strlit("\\[");
        reveal_strlit("\\]");
        reveal_strlit("$");
    }
    let n = t.len();
    if n >= 4 && crate::text::starts_with(&t, &chars_of("$$")) && crate::text::ends_with(
        &t,
        &chars_of("$$"),
    ) {
        return trimmed_range(&t, 2, n - 2);
    }
    if crate::text::starts_with(&t, &chars_of("\\[")) && crate::text::ends_with(
        &t,
        &chars_of("\\]"),
    ) {
        assert(t@.subrange(0, 2) == "\\["@);
        assert(t@.subrange(n - 2, n as int) == "\\]"@);
        assert(n >= 4) by {
            let pre = t@.subrange(0, 2);
            let suf = t@.subrange(n - 2, n as int);
            assert(pre[1] == t@[1]);
            assert(suf[0] == t@[n - 2]);
            assert(suf[1] == t@[n - 1]);
            assert(pre[1] == '[');
            assert(suf[0] == '\\');
            assert(suf[1] == ']');
        }
        return trimmed_range(&t, 2, n - 2);
    }
    if n >= 2 && crate::text::starts_with(&t, &chars_of("$")) && crate::text::ends_with(
        &t,
        &chars_of("$"),
    ) {
        return trimmed_range(&t, 1, n - 1);
    }
    string_of(&t)
}

/// Whether (trimmed) text is a `$...$` formula the writer meant as math.
pub open spec fn looks_like_math(text: Seq<char>) -> bool {
    let t = trimmed(text);
    t.len() >= 2 && has_prefix(t, "$"@) && has_suffix(t, "$"@)
}

/// The TeX for the content of a text element: its trimmed text when it is
/// a `$...$` formula, else the text escaped.
pub open spec fn text_content_tex(text: Seq<char>) -> Seq<char> {
    if looks_like_math(text) {
        trimmed(text)
    } else {
        tex_escaped(text)
    }
}

/// Renders the content of a text element as TeX.
pub fn render_text_content(text: &str) -> (res: String)
    ensures
        res@ == text_content_tex(text@),
{
    let all = chars_of(text);
    let (a, b) = trim_bounds(&all);
    let t = chars_of(string_of_range(&all, a, b).as_str());
    if t.len() >= 2 && crate::text::starts_with(&t, &chars_of("$")) && crate::text::ends_with(
        &t,
        &chars_of("$"),
    ) {
        string_of(&t)
    } else {
        escape_tex(text)
    }
}

/// Whether every character is an ASCII hexadecimal digit.
pub open spec fn all_hex(s: Seq<char>) -> bool {
    forall|i: int| 0 <= i < s.len() ==> is_hex_char(#[trigger] s[i])
}

/// Six hex digits as they stand, or white when they are not six hex
/// digits.
pub open spec fn hex_or_white(hex: Seq<char>) -> Seq<char> {
    if hex.len() == 6 && all_hex(hex) {
        hex
    } else {
        "FFFFFF"@
    }
}

/// A color for `\definecolor{..}{HTML}{..}`: the upper-cased digits of a
/// `#RRGGBB` value, or white when they are not six hex digits.
pub open spec fn tex_color(value: Seq<char>) -> Seq<char> {
    hex_or_white(unicode_upper(strip_leading(trimmed(value), '#')))
}

/// The digits of an upper-cased color, or white (`FFFFFF`) when they are
/// not six hex digits.
pub fn hex_digits_or_white(hex: String) -> (res: String)
    ensures
        res@ == hex_or_white(hex@),
{
    let h = chars_of(hex.as_str());
    let mut ok = h.len() == 6;
    let mut i: usize = 0;
    while i < h.len()
        invariant
            i <= h@.len(),
            ok == (h@.len() == 6 && forall|j: int| 0 <= j < i ==> is_hex_char(#[trigger] h@[j])),
        decreases h.len() - i,
    {
        ok = ok && hex_char(h[i]);
        i += 1;
    }
    if ok {
        hex
    } else {
        String::from_str("FFFFFF")
    }
}

/// Converts a `#RRGGBB` color to the six digits TeX's `HTML` model
/// takes, falling back to white.
pub fn hex_for_tex(value: &str) -> (res: String)
    ensures
        res@ == tex_color(value@),
{
    let chars = chars_of(value);
    let (a, b) = trim_bounds(&chars);
    let s = skip_leading(&chars, a, b, '#');
    let stripped = string_of_range(&chars, s, b);
    hex_digits_or_white(to_upper(stripped.as_str()))
}

// ---------------------------------------------------------------------
// Assets a TeX export ships
// ---------------------------------------------------------------------

/// Every image element of the deck, slide by slide, in order.
pub open spec fn images_of(slides: Seq<Slide>) -> Seq<ImageElement>
    decreases slides.len(),
{
    if slides.len() == 0 {
        seq![]
    } else {
        images_of(slides.drop_last()) + images_in(slides.last().elements@)
    }
}

/// The image elements among `elements`, in order.
pub open spec fn images_in(elements: Seq<Element>) -> Seq<ImageElement>
    decreases elements.len(),
{
    if elements.len() == 0 {
        seq![]
    } else {
        images_in(elements.drop_last()) + match elements.last() {
            Element::Image(im) => seq![im],
            _ => seq![],
        }
    }
}

/// The asset a TeX export shows for an image: the image's own asset, or
/// for an SVG asset its raster rendering (which stock LaTeX can include).
pub open spec fn tex_image_asset(p: Presentation, im: ImageElement) -> Result<u128, Seq<char>> {
    match asset_lookup(p.assets@, im.asset_id) {
        None => Err(
            "cannot export TeX zip: image element "@ + uuid_text(im.id)
                + " references missing asset "@ + uuid_text(im.asset_id),
        ),
        Some(a) => if a.media_type@ == "image/svg+xml"@ {
            match im.render_asset_id {
                Some(r) => Ok(r),
                None => Err(
                    "image element "@ + uuid_text(im.id)
                        + " is SVG-backed but has no render_asset_id for TeX export"@,
                ),
            }
        } else {
            Ok(a.id)
        },
    }
}

/// The assets a TeX export of images `imgs` ships, each once, in order of
/// first use; or the first failure.
pub open spec fn tex_assets(p: Presentation, imgs: Seq<ImageElement>) -> Result<
    Seq<Asset>,
    Seq<char>,
>
    decreases imgs.len(),
{
    if imgs.len() == 0 {
        Ok(seq![])
    } else {
        match tex_assets(p, imgs.drop_last()) {
            Err(e) => Err(e),
            Ok(done) => match tex_image_asset(p, imgs.last()) {
                Err(e) => Err(e),
                Ok(id) => if done.map_values(|a: Asset| a.id).contains(id) {
                    Ok(done)
                } else {
                    match asset_lookup(p.assets@, id) {
                        None => Err(
                            "asset "@ + uuid_text(id)
                                + " is referenced but not declared in assets[]"@,
                        ),
                        Some(a) => Ok(done.push(a)),
                    }
                },
            },
        }
    }
}

/// A copy of an asset record.
pub fn copy_asset(a: &Asset) -> (r: Asset)
    ensures
        r == *a,
{
    Asset {
        id: a.id,
        media_type: a.media_type.clone(),
        alt: match &a.alt {
            Some(s) => Some(s.clone()),
            None => None,
        },
    }
}

/// The `InvalidImageSource` error with message `m`.
pub open spec fn image_source_error<T>(r: Result<T, PptxError>, m: Seq<char>) -> bool {
    r matches Err(PptxError::InvalidImageSource(s)) && s@ == m
}

fn tex_image_asset_exec(p: &Presentation, image: &ImageElement) -> (res: Result<u128, PptxError>)
    ensures
        match tex_image_asset(*p, *image) {
            Ok(id) => res == Ok::<u128, PptxError>(id),
            Err(m) => image_source_error(res, m),
        },
{
    let Some(asset) = p.find_asset(image.asset_id) else {
        let mut m = String::from_str("cannot export TeX zip: image element ");
        m.append(id_text(image.id).as_str());
        m.append(" references missing asset ");
        m.append(id_text(image.asset_id).as_str());
        return Err(PptxError::InvalidImageSource(m));
    };
    if str_eq(asset.media_type.as_str(), "image/svg+xml") {
        match image.render_asset_id {
            Some(r) => Ok(r),
            None => {
                let mut m = String::from_str("image element ");
                m.append(id_text(image.id).as_str());
                m.append(" is SVG-backed but has no render_asset_id for TeX export");
                Err(PptxError::InvalidImageSource(m))
            },
        }
    } else {
        Ok(asset.id)
    }
}

/// Every asset the TeX export must ship in `img/`: the asset of each
/// image, or the raster rendering of an SVG one, each once, in order of
/// first use.
pub fn assets_referenced_by_images(presentation: &Presentation) -> (res: Result<
    Vec<Asset>,
    PptxError,
>)
    ensures
        match tex_assets(*presentation, images_of(presentation.slides@)) {
            Ok(assets) => res matches Ok(v) && v@ == assets,
            Err(m) => image_source_error(res, m),
        },
{
    let mut assets: Vec<Asset> = Vec::new();
    let mut i: usize = 0;
    while i < presentation.slides.len()
        invariant
            i <= presentation.slides@.len(),
            tex_assets(*presentation, images_of(presentation.slides@.take(i as int))) == Ok::<
                Seq<Asset>,
                Seq<char>,
            >(assets@),
        decreases presentation.slides.len() - i,
    {
        let elements = &presentation.slides[i].elements;
        let ghost before = images_of(presentation.slides@.take(i as int));
        assert(presentation.slides@.take(i + 1).drop_last() =~= presentation.slides@.take(i as int));
        let mut k: usize = 0;
        while k < elements.len()
            invariant
                i < presentation.slides@.len(),
                *elements == presentation.slides@[i as int].elements,
                k <= elements@.len(),
                before == images_of(presentation.slides@.take(i as int)),
                tex_assets(*presentation, before + images_in(elements@.take(k as int))) == Ok::<
                    Seq<Asset>,
                    Seq<char>,
                >(assets@),
            decreases elements.len() - k,
        {
            let ghost prev = before + images_in(elements@.take(k as int));
            assert(elements@.take(k + 1).drop_last() =~= elements@.take(k as int));
            if let Element::Image(image) = &elements[k] {
                let ghost now = before + images_in(elements@.take(k + 1));
                assert(now =~= prev.push(*image));
                assert(now.drop_last() =~= prev);
                let id = match tex_image_asset_exec(presentation, image) {
                    Ok(id) => id,
                    Err(e) => {
                        proof {
                            lemma_tex_assets_err_sticks(
                                *presentation,
                                now,
                                images_of(presentation.slides@),
                                presentation.slides@,
                                i as int,
                                k as int,
                            );
                        }
                        return Err(e);
                    },
                };
                let mut seen = false;
                let mut j: usize = 0;
                while j < assets.len()
                    invariant
                        j <= assets@.len(),
                        seen == (exists|q: int| 0 <= q < j && assets@[q].id == id),
                    decreases assets.len() - j,
                {
                    if assets[j].id == id {
                        seen = true;
                    }
                    j += 1;
                }
                proof {
                    let ids = assets@.map_values(|a: Asset| a.id);
                    if seen {
                        let q = choose|q: int| 0 <= q < assets@.len() && assets@[q].id == id;
                        assert(ids[q] == id);
                    } else {
                        assert forall|q: int| 0 <= q < ids.len() implies ids[q] != id by {
                            assert(ids[q] == assets@[q].id);
                        }
                    }
                }
                if !seen {
                    match presentation.find_asset(id) {
                        Some(asset) => {
                            assets.push(copy_asset(asset));
                        },
                        None => {
                            let mut m = String::from_str("asset ");
                            m.append(id_text(id).as_str());
                            m.append(" is referenced but not declared in assets[]");
                            proof {
                                lemma_tex_assets_err_sticks(
                                    *presentation,
                                    now,
                                    images_of(presentation.slides@),
                                    presentation.slides@,
                                    i as int,
                                    k as int,
                                );
                            }
                            return Err(PptxError::InvalidImageSource(m));
                        },
                    }
                }
            } else {
                assert(before + images_in(elements@.take(k + 1)) =~= prev);
            }
            k += 1;
        }
        assert(elements@.take(elements@.len() as int) =~= elements@);
        assert(images_of(presentation.slides@.take(i + 1)) =~= before + images_in(elements@));
        i += 1;
    }
    assert(presentation.slides@.take(presentation.slides@.len() as int) =~= presentation.slides@);
    Ok(assets)
}

/// A failure on a prefix of the deck's images is the failure of the
/// whole deck.
proof fn lemma_tex_assets_err_sticks(
    p: Presentation,
    prefix: Seq<ImageElement>,
    all: Seq<ImageElement>,
    slides: Seq<Slide>,
    i: int,
    k: int,
)
    requires
        all == images_of(slides),
        0 <= i < slides.len(),
        0 <= k < slides[i].elements@.len(),
        prefix == images_of(slides.take(i)) + images_in(slides[i].elements@.take(k + 1)),
        tex_assets(p, prefix) is Err,
    ensures
        tex_assets(p, all) == tex_assets(p, prefix),
{
    lemma_images_prefix(slides, i, k + 1);
    let rest = all.skip(prefix.len() as int);
    assert(all =~= prefix + rest);
    lemma_tex_assets_err_extends(p, prefix, rest);
}

/// The images of a deck begin with the images of its first slides and
/// the first elements of the next one.
proof fn lemma_images_prefix(slides: Seq<Slide>, i: int, k: int)
    requires
        0 <= i < slides.len(),
        0 <= k <= slides[i].elements@.len(),
    ensures
        images_of(slides.take(i)) + images_in(slides[i].elements@.take(k)) =~= images_of(
            slides,
        ).take((images_of(slides.take(i)) + images_in(slides[i].elements@.take(k))).len() as int),
        (images_of(slides.take(i)) + images_in(slides[i].elements@.take(k))).len() <= images_of(
            slides,
        ).len(),
{
    lemma_images_in_prefix(slides[i].elements@, k);
    lemma_images_of_prefix(slides, i + 1);
    assert(slides.take(i + 1).drop_last() =~= slides.take(i));
    assert(slides.take(i + 1).last() == slides[i]);
}

proof fn lemma_images_in_prefix(es: Seq<Element>, k: int)
    requires
        0 <= k <= es.len(),
    ensures
        images_in(es.take(k)) == images_in(es).take(images_in(es.take(k)).len() as int),
        images_in(es.take(k)).len() <= images_in(es).len(),
    decreases es.len() - k,
{
    if k < es.len() {
        lemma_images_in_prefix(es, k + 1);
        assert(es.take(k + 1).drop_last() =~= es.take(k));
        assert(images_in(es.take(k)) =~= images_in(es.take(k + 1)).take(
            images_in(es.take(k)).len() as int,
        ));
    } else {
        assert(es.take(k) =~= es);
    }
}

proof fn lemma_images_of_prefix(slides: Seq<Slide>, i: int)
    requires
        0 <= i <= slides.len(),
    ensures
        images_of(slides.take(i)) == images_of(slides).take(images_of(slides.take(i)).len() as int),
        images_of(slides.take(i)).len() <= images_of(slides).len(),
    decreases slides.len() - i,
{
    if i < slides.len() {
        lemma_images_of_prefix(slides, i + 1);
        assert(slides.take(i + 1).drop_last() =~= slides.take(i));
        assert(images_of(slides.take(i)) =~= images_of(slides.take(i + 1)).take(
            images_of(slides.take(i)).len() as int,
        ));
    } else {
        assert(slides.take(i) =~= slides);
    }
}

/// Once the assets of a prefix fail, every extension fails the same way.
proof fn lemma_tex_assets_err_extends(p: Presentation, prefix: Seq<ImageElement>, rest: Seq<
    ImageElement,
>)
    requires
        tex_assets(p, prefix) is Err,
    ensures
        tex_assets(p, prefix + rest) == tex_assets(p, prefix),
    decreases rest.len(),
{
    if rest.len() > 0 {
        lemma_tex_assets_err_extends(p, prefix, rest.drop_last());
        assert((prefix + rest).drop_last() =~= prefix + rest.drop_last());
    } else {
        assert(prefix + rest =~= prefix);
    }
}

} // verus!
