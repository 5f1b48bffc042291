//! Edits of a presentation, and the package validation checklist.
use vstd::prelude::*;

use crate::error::DeckMasterError;
use crate::ids::{id_text, uuid_text};
use crate::measure::{is_negative_bits, is_non_positive_bits, Measure};
use crate::model::{
    asset_file_name, asset_lookup, element_id, Asset, element_bounds, element_ids, first_index, lemma_first_index_none, lemma_first_index_step,
    slide_ids, with_bounds, ChartElement, Element, ImageElement, MathElement, Presentation, Rect,
    Slide, TextElement,
};
use crate::package::DeckPackage;
use crate::text::{chars_of, has_prefix, is_blank, starts_with, trimmed};

verus! {

broadcast use vstd::std_specs::btree::group_btree_axioms, vstd::laws_cmp::group_laws_cmp;

// ---------------------------------------------------------------------
// Locating an element
// ---------------------------------------------------------------------

/// Where the element `element_id` of slide `slide_id` stands: the first
/// slide with that id, and within it the first element with that id.
pub open spec fn locate(p: Presentation, slide_id: u128, element_id: u128) -> Option<(int, int)> {
    match first_index(slide_ids(p.slides@), slide_id) {
        None => None,
        Some(i) => match first_index(element_ids(p.slides@[i].elements@), element_id) {
            None => None,
            Some(k) => Some((i, k)),
        },
    }
}

/// `new` is `old` with element `k` of slide `i` replaced by `e`.
pub open spec fn element_replaced(
    old: Presentation,
    new: Presentation,
    i: int,
    k: int,
    e: Element,
) -> bool {
    &&& new.id == old.id
    &&& new.metadata == old.metadata
    &&& new.theme == old.theme
    &&& new.assets == old.assets
    &&& new.slides@.len() == old.slides@.len()
    &&& forall|j: int| 0 <= j < old.slides@.len() && j != i ==> new.slides@[j] == old.slides@[j]
    &&& new.slides@[i].id == old.slides@[i].id
    &&& new.slides@[i].name == old.slides@[i].name
    &&& new.slides@[i].size == old.slides@[i].size
    &&& new.slides@[i].elements@ == old.slides@[i].elements@.update(k, e)
}

/// The message of a failed lookup of slide `slide_id`.
pub open spec fn slide_not_found(slide_id: u128) -> Seq<char> {
    "slide not found: "@ + uuid_text(slide_id)
}

/// The message of a failed lookup of element `element_id`.
pub open spec fn element_not_found(element_id: u128) -> Seq<char> {
    "element not found: "@ + uuid_text(element_id)
}

/// The error an edit of `element_id` on `slide_id` fails with when the
/// element cannot be found.
pub open spec fn lookup_error(p: Presentation, slide_id: u128, element_id: u128) -> Seq<char> {
    if first_index(slide_ids(p.slides@), slide_id) is None {
        slide_not_found(slide_id)
    } else {
        element_not_found(element_id)
    }
}

/// Whether `r` is an `Unsupported` error with message `m`.
pub open spec fn is_unsupported(r: Result<(), DeckMasterError>, m: Seq<char>) -> bool {
    r matches Err(DeckMasterError::Unsupported(s)) && s@ == m
}

pub(crate) fn scan_slides(slides: &Vec<Slide>, id: u128) -> (res: Option<usize>)
    ensures
        res matches Some(i) ==> i < slides@.len() && first_index(slide_ids(slides@), id) == Some(
            i as int,
        ),
        res is None ==> first_index(slide_ids(slides@), id) is None,
{
    let ghost ids = slide_ids(slides@);
    let mut i: usize = 0;
    while i < slides.len()
        invariant
            i <= slides@.len(),
            ids == slide_ids(slides@),
            first_index(ids.take(i as int), id) is None,
        decreases slides.len() - i,
    {
        proof {
            lemma_first_index_step(ids, id, i as int);
        }
        if slides[i].id == id {
            return Some(i);
        }
        i += 1;
    }
    proof {
        lemma_first_index_none(ids, id);
    }
    None
}

fn scan_elements(elements: &Vec<Element>, id: u128) -> (res: Option<usize>)
    ensures
        res matches Some(i) ==> i < elements@.len() && first_index(element_ids(elements@), id)
            == Some(i as int),
        res is None ==> first_index(element_ids(elements@), id) is None,
{
    let ghost ids = element_ids(elements@);
    let mut i: usize = 0;
    while i < elements.len()
        invariant
            i <= elements@.len(),
            ids == element_ids(elements@),
            first_index(ids.take(i as int), id) is None,
        decreases elements.len() - i,
    {
        proof {
            lemma_first_index_step(ids, id, i as int);
        }
        if elements[i].id() == id {
            return Some(i);
        }
        i += 1;
    }
    proof {
        lemma_first_index_none(ids, id);
    }
    None
}

/// Finds where an element stands, or the error its absence gives.
fn find_element(p: &Presentation, slide_id: u128, element_id: u128) -> (res: Result<
    (usize, usize),
    DeckMasterError,
>)
    ensures
        res matches Ok((i, k)) ==> locate(*p, slide_id, element_id) == Some((i as int, k as int))
            && i < p.slides@.len() && k < p.slides@[i as int].elements@.len(),
        res matches Err(e) ==> locate(*p, slide_id, element_id) is None && (e matches DeckMasterError::Unsupported(
            m,
        ) && m@ == lookup_error(*p, slide_id, element_id)),
{
    match scan_slides(&p.slides, slide_id) {
        None => {
            let mut m = String::from_str("slide not found: ");
            m.append(id_text(slide_id).as_str());
            Err(DeckMasterError::Unsupported(m))
        },
        Some(i) => match scan_elements(&p.slides[i].elements, element_id) {
            None => {
                let mut m = String::from_str("element not found: ");
                m.append(id_text(element_id).as_str());
                Err(DeckMasterError::Unsupported(m))
            },
            Some(k) => Ok((i, k)),
        },
    }
}

/// Replaces element `k` of slide `i` by `f(element)`.
fn replace_element(p: &mut Presentation, i: usize, k: usize, e: Element) -> (old_e: Element)
    requires
        i < old(p).slides@.len(),
        k < old(p).slides@[i as int].elements@.len(),
    ensures
        old_e == old(p).slides@[i as int].elements@[k as int],
        element_replaced(*old(p), *final(p), i as int, k as int, e),
{
    let mut slide = p.slides.remove(i);
    let old_e = slide.elements.remove(k);
    slide.elements.insert(k, e);
    p.slides.insert(i, slide);
    proof {
        assert(p.slides@ =~= old(p).slides@.update(i as int, p.slides@[i as int]));
        assert(p.slides@[i as int].elements@ =~= old(p).slides@[i as int].elements@.update(
            k as int,
            e,
        ));
    }
    old_e
}

/// The element moved so that its top-left corner is at `(x, y)`.
pub open spec fn moved(e: Element, x: Measure, y: Measure) -> Element {
    let b = element_bounds(e);
    with_bounds(e, Rect { x, y, width: b.width, height: b.height })
}

/// The element resized to `width` x `height`.
pub open spec fn resized(e: Element, width: Measure, height: Measure) -> Element {
    let b = element_bounds(e);
    with_bounds(e, Rect { x: b.x, y: b.y, width, height })
}

fn set_position(e: Element, x: Measure, y: Measure) -> (r: Element)
    ensures
        r == moved(e, x, y),
{
    match e {
        Element::Text(mut t) => {
            t.bounds.x = x;
            t.bounds.y = y;
            Element::Text(t)
        },
        Element::Math(mut t) => {
            t.bounds.x = x;
            t.bounds.y = y;
            Element::Math(t)
        },
        Element::Image(mut t) => {
            t.bounds.x = x;
            t.bounds.y = y;
            Element::Image(t)
        },
        Element::Shape(mut t) => {
            t.bounds.x = x;
            t.bounds.y = y;
            Element::Shape(t)
        },
        Element::Table(mut t) => {
            t.bounds.x = x;
            t.bounds.y = y;
            Element::Table(t)
        },
        Element::Chart(mut t) => {
            t.bounds.x = x;
            t.bounds.y = y;
            Element::Chart(t)
        },
    }
}

fn set_size(e: Element, width: Measure, height: Measure) -> (r: Element)
    ensures
        r == resized(e, width, height),
{
    match e {
        Element::Text(mut t) => {
            t.bounds.width = width;
            t.bounds.height = height;
            Element::Text(t)
        },
        Element::Math(mut t) => {
            t.bounds.width = width;
            t.bounds.height = height;
            Element::Math(t)
        },
        Element::Image(mut t) => {
            t.bounds.width = width;
            t.bounds.height = height;
            Element::Image(t)
        },
        Element::Shape(mut t) => {
            t.bounds.width = width;
            t.bounds.height = height;
            Element::Shape(t)
        },
        Element::Table(mut t) => {
            t.bounds.width = width;
            t.bounds.height = height;
            Element::Table(t)
        },
        Element::Chart(mut t) => {
            t.bounds.width = width;
            t.bounds.height = height;
            Element::Chart(t)
        },
    }
}

/// Moves element `element_id` of slide `slide_id` so that its top-left
/// corner is at `(x, y)`; its size and everything else stay.
pub fn move_element(
    presentation: &mut Presentation,
    slide_id: u128,
    element_id: u128,
    x: Measure,
    y: Measure,
) -> (res: Result<(), DeckMasterError>)
    ensures
        locate(*old(presentation), slide_id, element_id) matches Some((i, k)) ==> res is Ok
            && element_replaced(
            *old(presentation),
            *final(presentation),
            i,
            k,
            moved(old(presentation).slides@[i].elements@[k], x, y),
        ),
        locate(*old(presentation), slide_id, element_id) is None ==> is_unsupported(
            res,
            lookup_error(*old(presentation), slide_id, element_id),
        ) && *final(presentation) == *old(presentation),
{
    match find_element(presentation, slide_id, element_id) {
        Err(e) => Err(e),
        Ok((i, k)) => {
            let placeholder = Element::Chart(
                ChartElement {
                    id: 0,
                    bounds: Rect {
                        x: Measure::new(0, String::new()),
                        y: Measure::new(0, String::new()),
                        width: Measure::new(0, String::new()),
                        height: Measure::new(0, String::new()),
                    },
                    title: String::new(),
                },
            );
            let ghost before = *presentation;
            let current = replace_element(presentation, i, k, placeholder);
            let updated = set_position(current, x, y);
            let _ = replace_element(presentation, i, k, updated);
            proof {
                assert(presentation.slides@[i as int].elements@ =~= before.slides@[i as int].elements@.update(
                    k as int,
                    updated,
                ));
            }
            Ok(())
        },
    }
}

/// Resizes element `element_id` of slide `slide_id` to `width` x
/// `height`; its position and everything else stay.
pub fn resize_element(
    presentation: &mut Presentation,
    slide_id: u128,
    element_id: u128,
    width: Measure,
    height: Measure,
) -> (res: Result<(), DeckMasterError>)
    ensures
        locate(*old(presentation), slide_id, element_id) matches Some((i, k)) ==> res is Ok
            && element_replaced(
            *old(presentation),
            *final(presentation),
            i,
            k,
            resized(old(presentation).slides@[i].elements@[k], width, height),
        ),
        locate(*old(presentation), slide_id, element_id) is None ==> is_unsupported(
            res,
            lookup_error(*old(presentation), slide_id, element_id),
        ) && *final(presentation) == *old(presentation),
{
    match find_element(presentation, slide_id, element_id) {
        Err(e) => Err(e),
        Ok((i, k)) => {
            let placeholder = Element::Chart(
                ChartElement {
                    id: 0,
                    bounds: Rect {
                        x: Measure::new(0, String::new()),
                        y: Measure::new(0, String::new()),
                        width: Measure::new(0, String::new()),
                        height: Measure::new(0, String::new()),
                    },
                    title: String::new(),
                },
            );
            let ghost before = *presentation;
            let current = replace_element(presentation, i, k, placeholder);
            let updated = set_size(current, width, height);
            let _ = replace_element(presentation, i, k, updated);
            proof {
                assert(presentation.slides@[i as int].elements@ =~= before.slides@[i as int].elements@.update(
                    k as int,
                    updated,
                ));
            }
            Ok(())
        },
    }
}

/// Replaces the text of text element `element_id` of slide `slide_id`.
/// An element of another kind is refused with "element is not text".
pub fn update_text(
    presentation: &mut Presentation,
    slide_id: u128,
    element_id: u128,
    text: &str,
) -> (res: Result<(), DeckMasterError>)
    ensures
        locate(*old(presentation), slide_id, element_id) matches Some((i, k)) ==> match old(
            presentation,
        ).slides@[i].elements@[k] {
            Element::Text(t) => res is Ok && element_replaced(
                *old(presentation),
                *final(presentation),
                i,
                k,
                Element::Text(TextElement { text: final(presentation).slides@[i].elements@[k]->Text_0.text, ..t }),
            ) && final(presentation).slides@[i].elements@[k]->Text_0.text@ == text@,
            _ => is_unsupported(res, "element is not text"@) && *final(presentation) == *old(
                presentation,
            ),
        },
        locate(*old(presentation), slide_id, element_id) is None ==> is_unsupported(
            res,
            lookup_error(*old(presentation), slide_id, element_id),
        ) && *final(presentation) == *old(presentation),
{
    match find_element(presentation, slide_id, element_id) {
        Err(e) => Err(e),
        Ok((i, k)) => {
            let is_text = match &presentation.slides[i].elements[k] {
                Element::Text(_) => true,
                _ => false,
            };
            if !is_text {
                return Err(DeckMasterError::Unsupported(String::from_str("element is not text")));
            }
            let placeholder = Element::Chart(
                ChartElement {
                    id: 0,
                    bounds: Rect {
                        x: Measure::new(0, String::new()),
                        y: Measure::new(0, String::new()),
                        width: Measure::new(0, String::new()),
                        height: Measure::new(0, String::new()),
                    },
                    title: String::new(),
                },
            );
            let ghost before = *presentation;
            let current = replace_element(presentation, i, k, placeholder);
            let updated = match current {
                Element::Text(mut t) => {
                    t.text = String::from_str(text);
                    Element::Text(t)
                },
                other => other,
            };
            let _ = replace_element(presentation, i, k, updated);
            proof {
                assert(presentation.slides@[i as int].elements@ =~= before.slides@[i as int].elements@.update(
                    k as int,
                    updated,
                ));
            }
            Ok(())
        },
    }
}

// ---------------------------------------------------------------------
// Validation
// ---------------------------------------------------------------------

/// How serious a validation issue is: `Error` means the package is
/// broken, `Info` is a note on a package that is fine.
#[derive(Debug, Clone, Copy, PartialEq, Eq)]
pub enum Severity {
    Error,
    Info,
}

/// One issue found in a package.
#[derive(Debug, Clone)]
pub struct ValidationIssue {
    pub severity: Severity,
    pub message: String,
}

impl ValidationIssue {
    fn error(message: String) -> (i: ValidationIssue)
        ensures
            issue_view(i) == (Severity::Error, message@),
    {
        ValidationIssue { severity: Severity::Error, message }
    }

    fn info(message: String) -> (i: ValidationIssue)
        ensures
            issue_view(i) == (Severity::Info, message@),
    {
        ValidationIssue { severity: Severity::Info, message }
    }
}

/// An issue as a severity and the characters of its message.
pub open spec fn issue_view(i: ValidationIssue) -> (Severity, Seq<char>) {
    (i.severity, i.message@)
}

/// A list of issues as severities and message characters.
pub open spec fn issues_view(issues: Seq<ValidationIssue>) -> Seq<(Severity, Seq<char>)> {
    issues.map_values(|i: ValidationIssue| issue_view(i))
}

/// One error issue.
pub open spec fn error_issue(m: Seq<char>) -> Seq<(Severity, Seq<char>)> {
    seq![(Severity::Error, m)]
}

/// One informational issue.
pub open spec fn info_issue(m: Seq<char>) -> Seq<(Severity, Seq<char>)> {
    seq![(Severity::Info, m)]
}

/// `issues` when `cond` holds, nothing otherwise.
pub open spec fn issues_if(cond: bool, issues: Seq<(Severity, Seq<char>)>) -> Seq<(Severity, Seq<char>)> {
    if cond {
        issues
    } else {
        seq![]
    }
}

/// Whether an asset of this media type can serve as a raster rendering:
/// an `image/` type other than SVG.
pub open spec fn is_raster_media_type(media_type: Seq<char>) -> bool {
    has_prefix(media_type, "image/"@) && media_type != "image/svg+xml"@
}

/// The issues of one asset reference: the id must be declared, the
/// declared asset must have its bytes in the package and, for a raster
/// rendering, must be a raster image. `context` names the reference.
pub open spec fn reference_issues(
    pkg: DeckPackage,
    asset_id: u128,
    context: Seq<char>,
    require_raster: bool,
) -> Seq<(Severity, Seq<char>)> {
    match asset_lookup(pkg.presentation.assets@, asset_id) {
        None => error_issue(
            context + " references asset_id "@ + uuid_text(asset_id)
                + " which is not declared in assets[]"@,
        ),
        Some(a) => issues_if(
            !pkg.asset_bytes@.contains_key(a.id),
            error_issue(
                "asset "@ + uuid_text(a.id) + " ("@ + asset_file_name(a) + ") referenced by "@
                    + context + " is declared but missing from assets/ in the package"@,
            ),
        ) + issues_if(
            require_raster && !is_raster_media_type(a.media_type@),
            error_issue(
                context + " must point to a raster image asset, but asset "@ + uuid_text(a.id)
                    + " has media_type "@ + a.media_type@,
            ),
        ),
    }
}

/// The bounds issue of an element of slide `slide_id`.
pub open spec fn bounds_issues(slide_id: u128, e: Element) -> Seq<(Severity, Seq<char>)> {
    let b = element_bounds(e);
    issues_if(
        is_negative_bits(b.width.bits) || is_negative_bits(b.height.bits),
        error_issue(
            "element "@ + uuid_text(element_id(e)) + " on slide "@ + uuid_text(slide_id)
                + " has negative bounds"@,
        ),
    )
}

/// The issues of a text element of slide `slide_id`, after its bounds.
pub open spec fn text_issues(slide_id: u128, t: TextElement) -> Seq<(Severity, Seq<char>)> {
    issues_if(
        is_non_positive_bits(t.font_size.bits),
        error_issue(
            "text element "@ + uuid_text(t.id) + " on slide "@ + uuid_text(slide_id)
                + " has non-positive font_size"@,
        ),
    )
}

/// The issues of a formula of slide `slide_id`, after its bounds.
pub open spec fn math_issues(pkg: DeckPackage, slide_id: u128, m: MathElement) -> Seq<
    (Severity, Seq<char>),
> {
    issues_if(
        trimmed(m.tex@).len() == 0,
        error_issue(
            "math element "@ + uuid_text(m.id) + " on slide "@ + uuid_text(slide_id)
                + " has empty tex"@,
        ),
    ) + issues_if(
        is_non_positive_bits(m.font_size.bits),
        error_issue(
            "math element "@ + uuid_text(m.id) + " on slide "@ + uuid_text(slide_id)
                + " has non-positive font_size"@,
        ),
    ) + match m.render_asset_id {
        Some(r) => reference_issues(
            pkg,
            r,
            "math element "@ + uuid_text(m.id) + " render_asset_id "@ + uuid_text(r),
            true,
        ),
        None => seq![],
    }
}

/// The issues of an image, after its bounds.
pub open spec fn image_issues(pkg: DeckPackage, im: ImageElement) -> Seq<(Severity, Seq<char>)> {
    reference_issues(
        pkg,
        im.asset_id,
        "image element "@ + uuid_text(im.id) + " asset_id "@ + uuid_text(im.asset_id),
        false,
    ) + match im.render_asset_id {
        Some(r) => reference_issues(
            pkg,
            r,
            "image element "@ + uuid_text(im.id) + " render_asset_id "@ + uuid_text(r),
            true,
        ),
        None => seq![],
    }
}

/// The issues of one element of slide `slide_id`: its bounds, then what
/// its kind requires.
pub open spec fn element_issues(pkg: DeckPackage, slide_id: u128, e: Element) -> Seq<
    (Severity, Seq<char>),
> {
    bounds_issues(slide_id, e) + match e {
        Element::Text(t) => text_issues(slide_id, t),
        Element::Math(m) => math_issues(pkg, slide_id, m),
        Element::Image(im) => image_issues(pkg, im),
        _ => seq![],
    }
}

/// The issues of a sequence of elements of slide `slide_id`, in order.
pub open spec fn elements_issues(pkg: DeckPackage, slide_id: u128, es: Seq<Element>) -> Seq<
    (Severity, Seq<char>),
>
    decreases es.len(),
{
    if es.len() == 0 {
        seq![]
    } else {
        elements_issues(pkg, slide_id, es.drop_last()) + element_issues(pkg, slide_id, es.last())
    }
}

/// The issues of one slide: its size, then each of its elements.
pub open spec fn slide_issues(pkg: DeckPackage, s: Slide) -> Seq<(Severity, Seq<char>)> {
    issues_if(
        is_non_positive_bits(s.size.width.bits) || is_non_positive_bits(s.size.height.bits),
        error_issue(
            "slide "@ + uuid_text(s.id) + " has a non-positive size ("@ + s.size.width.shown@
                + " x "@ + s.size.height.shown@ + ")"@,
        ),
    ) + elements_issues(pkg, s.id, s.elements@)
}

/// The issues of a sequence of slides, in order.
pub open spec fn slides_issues(pkg: DeckPackage, ss: Seq<Slide>) -> Seq<(Severity, Seq<char>)>
    decreases ss.len(),
{
    if ss.len() == 0 {
        seq![]
    } else {
        slides_issues(pkg, ss.drop_last()) + slide_issues(pkg, ss.last())
    }
}

/// Whether an element references the asset `id`, as its image, or as the
/// raster rendering of an image or a formula.
pub open spec fn element_references(e: Element, id: u128) -> bool {
    match e {
        Element::Math(m) => m.render_asset_id == Some(id),
        Element::Image(im) => im.asset_id == id || im.render_asset_id == Some(id),
        _ => false,
    }
}

/// Whether some element of some slide references the asset `id`.
pub open spec fn is_referenced(p: Presentation, id: u128) -> bool {
    exists|i: int, k: int|
        0 <= i < p.slides@.len() && 0 <= k < p.slides@[i].elements@.len() && element_references(
            #[trigger] p.slides@[i].elements@[k],
            id,
        )
}

/// The issues of one declared asset: its bytes must be in the package
/// (reported here only when no element reference already reported it),
/// and an asset no element references gets an informational note.
pub open spec fn asset_issues(pkg: DeckPackage, a: Asset) -> Seq<(Severity, Seq<char>)> {
    let referenced = is_referenced(pkg.presentation, a.id);
    issues_if(
        !pkg.asset_bytes@.contains_key(a.id) && !referenced,
        error_issue(
            "asset "@ + uuid_text(a.id) + " ("@ + asset_file_name(a)
                + ") is declared in assets[] but missing from the package"@,
        ),
    ) + issues_if(
        !referenced,
        info_issue(
            "asset "@ + uuid_text(a.id) + " ("@ + asset_file_name(a)
                + ") is declared but not referenced by any element"@,
        ),
    )
}

/// The issues of a sequence of declared assets, in order.
pub open spec fn assets_issues(pkg: DeckPackage, assets: Seq<Asset>) -> Seq<(Severity, Seq<char>)>
    decreases assets.len(),
{
    if assets.len() == 0 {
        seq![]
    } else {
        assets_issues(pkg, assets.drop_last()) + asset_issues(pkg, assets.last())
    }
}

/// Everything the validation checklist reports about a package, in order:
/// an empty deck, then each slide, then each declared asset.
pub open spec fn package_issues(pkg: DeckPackage) -> Seq<(Severity, Seq<char>)> {
    issues_if(pkg.presentation.slides@.len() == 0, error_issue("presentation has no slides"@))
        + slides_issues(pkg, pkg.presentation.slides@) + assets_issues(
        pkg,
        pkg.presentation.assets@,
    )
}

/// Whether the media type names a raster image.
fn is_raster(media_type: &str) -> (r: bool)
    ensures
        r == is_raster_media_type(media_type@),
{
    let m = chars_of(media_type);
    starts_with(&m, &chars_of("image/")) && !crate::text::chars_eq(&m, &chars_of("image/svg+xml"))
}

/// Appends the issues of one asset reference to `issues`.
fn check_reference(
    package: &DeckPackage,
    issues: &mut Vec<ValidationIssue>,
    asset_id: u128,
    context: String,
    require_raster: bool,
)
    ensures
        issues_view(final(issues)@) == issues_view(old(issues)@) + reference_issues(
            *package,
            asset_id,
            context@,
            require_raster,
        ),
{
    let ghost before = issues_view(issues@);
    match package.presentation.find_asset(asset_id) {
        None => {
            let mut m = context;
            m.append(" references asset_id ");
            m.append(id_text(asset_id).as_str());
            m.append(" which is not declared in assets[]");
            issues.push(ValidationIssue::error(m));
            assert(issues_view(issues@) =~= before + reference_issues(
                *package,
                asset_id,
                context@,
                require_raster,
            ));
        },
        Some(asset) => {
            let ghost mid = before;
            if !package.asset_bytes.contains_key(&asset.id) {
                let mut m = String::from_str("asset ");
                m.append(id_text(asset.id).as_str());
                m.append(" (");
                m.append(asset.file_name().as_str());
                m.append(") referenced by ");
                m.append(context.as_str());
                m.append(" is declared but missing from assets/ in the package");
                issues.push(ValidationIssue::error(m));
            }
            assert(issues_view(issues@) =~= before + issues_if(
                !package.asset_bytes@.contains_key(asset.id),
                error_issue(
                    "asset "@ + uuid_text(asset.id) + " ("@ + asset_file_name(*asset)
                        + ") referenced by "@ + context@
                        + " is declared but missing from assets/ in the package"@,
                ),
            ));
            let ghost mid2 = issues_view(issues@);
            if require_raster && !is_raster(asset.media_type.as_str()) {
                let mut m = context;
                m.append(" must point to a raster image asset, but asset ");
                m.append(id_text(asset.id).as_str());
                m.append(" has media_type ");
                m.append(asset.media_type.as_str());
                issues.push(ValidationIssue::error(m));
            }
            assert(issues_view(issues@) =~= mid2 + issues_if(
                require_raster && !is_raster_media_type(asset.media_type@),
                error_issue(
                    context@ + " must point to a raster image asset, but asset "@ + uuid_text(
                        asset.id,
                    ) + " has media_type "@ + asset.media_type@,
                ),
            ));
        },
    }
}

fn check_math(
    package: &DeckPackage,
    issues: &mut Vec<ValidationIssue>,
    slide_id: u128,
    math: &MathElement,
)
    ensures
        issues_view(final(issues)@) == issues_view(old(issues)@) + math_issues(
            *package,
            slide_id,
            *math,
        ),
{
    let ghost before = issues_view(issues@);
    if is_blank(&chars_of(math.tex.as_str())) {
        let mut m = String::from_str("math element ");
        m.append(id_text(math.id).as_str());
        m.append(" on slide ");
        m.append(id_text(slide_id).as_str());
        m.append(" has empty tex");
        issues.push(ValidationIssue::error(m));
    }
    let ghost m1 = issues_if(
        trimmed(math.tex@).len() == 0,
        error_issue(
            "math element "@ + uuid_text(math.id) + " on slide "@ + uuid_text(slide_id)
                + " has empty tex"@,
        ),
    );
    assert(issues_view(issues@) =~= before + m1);
    if math.font_size.is_non_positive() {
        let mut m = String::from_str("math element ");
        m.append(id_text(math.id).as_str());
        m.append(" on slide ");
        m.append(id_text(slide_id).as_str());
        m.append(" has non-positive font_size");
        issues.push(ValidationIssue::error(m));
    }
    let ghost m2 = issues_if(
        is_non_positive_bits(math.font_size.bits),
        error_issue(
            "math element "@ + uuid_text(math.id) + " on slide "@ + uuid_text(slide_id)
                + " has non-positive font_size"@,
        ),
    );
    assert(issues_view(issues@) =~= before + m1 + m2);
    match math.render_asset_id {
        Some(r) => {
            let mut context = String::from_str("math element ");
            context.append(id_text(math.id).as_str());
            context.append(" render_asset_id ");
            context.append(id_text(r).as_str());
            check_reference(package, issues, r, context, true);
        },
        None => {},
    }
    assert(issues_view(issues@) =~= before + math_issues(*package, slide_id, *math));
}

fn check_image(package: &DeckPackage, issues: &mut Vec<ValidationIssue>, image: &ImageElement)
    ensures
        issues_view(final(issues)@) == issues_view(old(issues)@) + image_issues(*package, *image),
{
    let ghost before = issues_view(issues@);
    let mut context = String::from_str("image element ");
    context.append(id_text(image.id).as_str());
    context.append(" asset_id ");
    context.append(id_text(image.asset_id).as_str());
    check_reference(package, issues, image.asset_id, context, false);
    match image.render_asset_id {
        Some(r) => {
            let mut context = String::from_str("image element ");
            context.append(id_text(image.id).as_str());
            context.append(" render_asset_id ");
            context.append(id_text(r).as_str());
            check_reference(package, issues, r, context, true);
        },
        None => {},
    }
    assert(issues_view(issues@) =~= before + image_issues(*package, *image));
}

/// Appends the issues of one element of slide `slide_id` to `issues`.
fn check_element(
    package: &DeckPackage,
    issues: &mut Vec<ValidationIssue>,
    slide_id: u128,
    element: &Element,
)
    ensures
        issues_view(final(issues)@) == issues_view(old(issues)@) + element_issues(
            *package,
            slide_id,
            *element,
        ),
{
    let ghost before = issues_view(issues@);
    let bounds = element.bounds();
    if bounds.width.is_negative() || bounds.height.is_negative() {
        let mut m = String::from_str("element ");
        m.append(id_text(element.id()).as_str());
        m.append(" on slide ");
        m.append(id_text(slide_id).as_str());
        m.append(" has negative bounds");
        issues.push(ValidationIssue::error(m));
    }
    assert(issues_view(issues@) =~= before + bounds_issues(slide_id, *element));
    let ghost mid = issues_view(issues@);
    match element {
        Element::Text(text) => {
            if text.font_size.is_non_positive() {
                let mut m = String::from_str("text element ");
                m.append(id_text(text.id).as_str());
                m.append(" on slide ");
                m.append(id_text(slide_id).as_str());
                m.append(" has non-positive font_size");
                issues.push(ValidationIssue::error(m));
            }
            assert(issues_view(issues@) =~= mid + text_issues(slide_id, *text));
        },
        Element::Math(math) => {
            check_math(package, issues, slide_id, math);
        },
        Element::Image(image) => {
            check_image(package, issues, image);
        },
        _ => {
            assert(issues_view(issues@) =~= mid);
        },
    }
    assert(issues_view(issues@) =~= before + element_issues(*package, slide_id, *element));
}

/// Appends the issues of one slide to `issues`.
fn check_slide(package: &DeckPackage, issues: &mut Vec<ValidationIssue>, slide: &Slide)
    ensures
        issues_view(final(issues)@) == issues_view(old(issues)@) + slide_issues(*package, *slide),
{
    let ghost before = issues_view(issues@);
    if slide.size.width.is_non_positive() || slide.size.height.is_non_positive() {
        let mut m = String::from_str("slide ");
        m.append(id_text(slide.id).as_str());
        m.append(" has a non-positive size (");
        m.append(slide.size.width.shown.as_str());
        m.append(" x ");
        m.append(slide.size.height.shown.as_str());
        m.append(")");
        issues.push(ValidationIssue::error(m));
    }
    let ghost head = issues_view(issues@);
    let mut k: usize = 0;
    while k < slide.elements.len()
        invariant
            k <= slide.elements@.len(),
            issues_view(issues@) == head + elements_issues(
                *package,
                slide.id,
                slide.elements@.take(k as int),
            ),
        decreases slide.elements.len() - k,
    {
        check_element(package, issues, slide.id, &slide.elements[k]);
        assert(slide.elements@.take(k + 1).drop_last() =~= slide.elements@.take(k as int));
        k += 1;
    }
    assert(slide.elements@.take(slide.elements@.len() as int) =~= slide.elements@);
}

/// Whether some element of some slide references the asset `id`.
fn references_asset(p: &Presentation, id: u128) -> (r: bool)
    ensures
        r == is_referenced(*p, id),
{
    let mut i: usize = 0;
    while i < p.slides.len()
        invariant
            i <= p.slides@.len(),
            forall|j: int, k: int|
                0 <= j < i && 0 <= k < p.slides@[j].elements@.len() ==> !element_references(
                    #[trigger] p.slides@[j].elements@[k],
                    id,
                ),
        decreases p.slides.len() - i,
    {
        let elements = &p.slides[i].elements;
        let mut k: usize = 0;
        while k < elements.len()
            invariant
                k <= elements@.len(),
                i < p.slides@.len(),
                *elements == p.slides@[i as int].elements,
                forall|m: int| 0 <= m < k ==> !element_references(#[trigger] elements@[m], id),
            decreases elements.len() - k,
        {
            let hit = match &elements[k] {
                Element::Math(m) => m.render_asset_id == Some(id),
                Element::Image(im) => im.asset_id == id || im.render_asset_id == Some(id),
                _ => false,
            };
            if hit {
                assert(element_references(p.slides@[i as int].elements@[k as int], id));
                assert(is_referenced(*p, id));
                return true;
            }
            k += 1;
        }
        i += 1;
    }
    false
}

/// Appends the issues of one declared asset to `issues`.
fn check_asset(package: &DeckPackage, issues: &mut Vec<ValidationIssue>, asset: &Asset)
    ensures
        issues_view(final(issues)@) == issues_view(old(issues)@) + asset_issues(*package, *asset),
{
    let ghost before = issues_view(issues@);
    let referenced = references_asset(&package.presentation, asset.id);
    let file_name = asset.file_name();
    if !package.asset_bytes.contains_key(&asset.id) && !referenced {
        let mut m = String::from_str("asset ");
        m.append(id_text(asset.id).as_str());
        m.append(" (");
        m.append(file_name.as_str());
        m.append(") is declared in assets[] but missing from the package");
        issues.push(ValidationIssue::error(m));
    }
    let ghost mid = issues_view(issues@);
    if !referenced {
        let mut m = String::from_str("asset ");
        m.append(id_text(asset.id).as_str());
        m.append(" (");
        m.append(file_name.as_str());
        m.append(") is declared but not referenced by any element");
        issues.push(ValidationIssue::info(m));
    }
    assert(issues_view(issues@) =~= before + asset_issues(*package, *asset));
}

/// Runs the validation checklist against an opened package and returns
/// every issue found, in order: a deck with no slides; per slide, a
/// non-positive size, then per element negative bounds, a non-positive
/// font size, an empty formula, and each asset reference (declared, bytes
/// present, raster where a rendering is needed); then per declared asset,
/// missing bytes not already reported and, as a note, an unused asset.
pub fn validate(package: &DeckPackage) -> (issues: Vec<ValidationIssue>)
    ensures
        issues_view(issues@) == package_issues(*package),
{
    let mut issues: Vec<ValidationIssue> = Vec::new();
    let presentation = &package.presentation;
    if presentation.slides.len() == 0 {
        issues.push(ValidationIssue::error(String::from_str("presentation has no slides")));
    }
    let ghost head = issues_view(issues@);
    assert(head =~= issues_if(presentation.slides@.len() == 0, error_issue("presentation has no slides"@)));
    let mut i: usize = 0;
    while i < presentation.slides.len()
        invariant
            i <= presentation.slides@.len(),
            *presentation == package.presentation,
            issues_view(issues@) == head + slides_issues(
                *package,
                presentation.slides@.take(i as int),
            ),
        decreases presentation.slides.len() - i,
    {
        check_slide(package, &mut issues, &presentation.slides[i]);
        assert(presentation.slides@.take(i + 1).drop_last() =~= presentation.slides@.take(i as int));
        i += 1;
    }
    assert(presentation.slides@.take(presentation.slides@.len() as int) =~= presentation.slides@);
    let ghost mid = issues_view(issues@);
    let mut j: usize = 0;
    while j < presentation.assets.len()
        invariant
            j <= presentation.assets@.len(),
            *presentation == package.presentation,
            issues_view(issues@) == mid + assets_issues(*package, presentation.assets@.take(j as int)),
        decreases presentation.assets.len() - j,
    {
        check_asset(package, &mut issues, &presentation.assets[j]);
        assert(presentation.assets@.take(j + 1).drop_last() =~= presentation.assets@.take(j as int));
        j += 1;
    }
    assert(presentation.assets@.take(presentation.assets@.len() as int) =~= presentation.assets@);
    issues
}

} // verus!
