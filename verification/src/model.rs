//! The deck data model (`deck.json`): a presentation, its slides and their
//! elements, and the package-level asset records.
use vstd::prelude::*;

use crate::ids::{fresh_id, id_text, uuid_text};
use crate::measure::{pt_24, pt_540, pt_960, Measure};
use crate::text::{ascii_lower, chars_eq, chars_of, str_eq, to_ascii_lower};

verus! {

#[derive(Debug, Clone, PartialEq)]
pub struct Presentation {
    pub id: u128,
    pub metadata: Metadata,
    pub theme: Theme,
    pub assets: Vec<Asset>,
    pub slides: Vec<Slide>,
}

#[derive(Debug, Clone, PartialEq)]
pub struct Metadata {
    pub title: String,
    pub author: Option<String>,
}

#[derive(Debug, Clone, PartialEq)]
pub struct Theme {
    pub name: String,
    pub background: Color,
    pub foreground: Color,
}

#[derive(Debug, Clone, PartialEq)]
pub struct Slide {
    pub id: u128,
    pub name: Option<String>,
    pub size: SlideSize,
    pub elements: Vec<Element>,
}

#[derive(Debug, Clone, PartialEq)]
pub struct SlideSize {
    pub width: Measure,
    pub height: Measure,
}

#[derive(Debug, Clone, PartialEq)]
pub struct Rect {
    pub x: Measure,
    pub y: Measure,
    pub width: Measure,
    pub height: Measure,
}

#[derive(Debug, Clone, PartialEq)]
pub struct Color {
    pub value: String,
}

/// A package-level asset record. The bytes live at `assets/{id}.{ext}`
/// inside the package; this record only carries what `deck.json` needs to
/// resolve and validate that file.
#[derive(Debug, Clone, PartialEq)]
pub struct Asset {
    pub id: u128,
    pub media_type: String,
    pub alt: Option<String>,
}

#[derive(Debug, Clone, PartialEq)]
pub enum Element {
    Text(TextElement),
    Math(MathElement),
    Image(ImageElement),
    Shape(ShapeElement),
    Table(TableElement),
    Chart(ChartElement),
}

#[derive(Debug, Clone, PartialEq)]
pub struct TextElement {
    pub id: u128,
    pub bounds: Rect,
    pub text: String,
    pub font_size: Measure,
    pub color: Color,
}

/// A TeX formula. `tex` is the editable source; `render_asset_id` may name
/// a raster rendering for targets that cannot use TeX.
#[derive(Debug, Clone, PartialEq)]
pub struct MathElement {
    pub id: u128,
    pub bounds: Rect,
    pub tex: String,
    pub font_size: Measure,
    pub color: Color,
    pub render_asset_id: Option<u128>,
}

/// An image references a package asset by id; `render_asset_id` may name a
/// raster fallback for sources (such as PDF) that cannot be embedded
/// everywhere.
#[derive(Debug, Clone, PartialEq)]
pub struct ImageElement {
    pub id: u128,
    pub bounds: Rect,
    pub asset_id: u128,
    pub render_asset_id: Option<u128>,
    pub alt: Option<String>,
}

#[derive(Debug, Clone, PartialEq)]
pub struct ShapeElement {
    pub id: u128,
    pub bounds: Rect,
    pub kind: ShapeKind,
    pub fill: Color,
}

#[derive(Debug, Clone, Copy, PartialEq, Eq)]
pub enum ShapeKind {
    Rectangle,
    Ellipse,
    Line,
}

#[derive(Debug, Clone, PartialEq)]
pub struct TableElement {
    pub id: u128,
    pub bounds: Rect,
    pub rows: Vec<Vec<String>>,
}

#[derive(Debug, Clone, PartialEq)]
pub struct ChartElement {
    pub id: u128,
    pub bounds: Rect,
    pub title: String,
}

// ---------------------------------------------------------------------
// Lookup by id
// ---------------------------------------------------------------------

/// The position of the first entry of `ids` equal to `id`, if any.
pub open spec fn first_index(ids: Seq<u128>, id: u128) -> Option<int>
    decreases ids.len(),
{
    if ids.len() == 0 {
        None
    } else {
        match first_index(ids.drop_last(), id) {
            Some(i) => Some(i),
            None => if ids.last() == id {
                Some(ids.len() - 1)
            } else {
                None
            },
        }
    }
}

/// What `first_index` means: the least position holding `id`.
pub proof fn lemma_first_index(ids: Seq<u128>, id: u128)
    ensures
        first_index(ids, id) matches Some(i) ==> 0 <= i < ids.len() && ids[i] == id && forall|
            j: int,
        | 0 <= j < i ==> ids[j] != id,
        first_index(ids, id) is None ==> forall|j: int| 0 <= j < ids.len() ==> ids[j] != id,
    decreases ids.len(),
{
    if ids.len() > 0 {
        lemma_first_index(ids.drop_last(), id);
        assert forall|j: int| 0 <= j < ids.len() - 1 implies ids[j] == ids.drop_last()[j] by {}
    }
}

/// The first position holding `id` is determined by any prefix that
/// already holds it, and a prefix that does not hold it extends by one.
pub proof fn lemma_first_index_step(ids: Seq<u128>, id: u128, k: int)
    requires
        0 <= k < ids.len(),
        first_index(ids.take(k), id) is None,
    ensures
        ids[k] == id ==> first_index(ids, id) == Some(k),
        ids[k] != id ==> first_index(ids.take(k + 1), id) is None,
{
    assert(ids.take(k + 1).drop_last() =~= ids.take(k));
    if ids[k] == id {
        lemma_first_index(ids.take(k), id);
        lemma_first_index(ids, id);
        lemma_first_index(ids.take(k + 1), id);
        if first_index(ids, id) is None {
            assert(ids[k] != id);
        } else {
            let i = first_index(ids, id)->0;
            if i < k {
                assert(ids.take(k)[i] == ids[i]);
            }
        }
    }
}

/// Once the whole sequence has been scanned without finding `id`.
pub proof fn lemma_first_index_none(ids: Seq<u128>, id: u128)
    requires
        first_index(ids.take(ids.len() as int), id) is None,
    ensures
        first_index(ids, id) is None,
{
    assert(ids.take(ids.len() as int) =~= ids);
}

/// The ids of a sequence of assets.
pub open spec fn asset_ids(assets: Seq<Asset>) -> Seq<u128> {
    assets.map_values(|a: Asset| a.id)
}

/// The ids of a sequence of slides.
pub open spec fn slide_ids(slides: Seq<Slide>) -> Seq<u128> {
    slides.map_values(|s: Slide| s.id)
}

/// The ids of a sequence of elements.
pub open spec fn element_ids(elements: Seq<Element>) -> Seq<u128> {
    elements.map_values(|e: Element| element_id(e))
}

/// The first asset of `assets` with the given id, if any.
pub open spec fn asset_lookup(assets: Seq<Asset>, id: u128) -> Option<Asset> {
    match first_index(asset_ids(assets), id) {
        Some(i) => Some(assets[i]),
        None => None,
    }
}

/// Scans `ids` (given as the length of a sequence and a view of its ids)
/// for the first position holding `id`.
fn scan_assets(assets: &Vec<Asset>, id: u128) -> (res: Option<usize>)
    ensures
        res matches Some(i) ==> i < assets@.len() && first_index(asset_ids(assets@), id) == Some(
            i as int,
        ),
        res is None ==> first_index(asset_ids(assets@), id) is None,
{
    let ghost ids = asset_ids(assets@);
    let mut i: usize = 0;
    while i < assets.len()
        invariant
            i <= assets@.len(),
            ids == asset_ids(assets@),
            first_index(ids.take(i as int), id) is None,
        decreases assets.len() - i,
    {
        proof {
            lemma_first_index_step(ids, id, i as int);
        }
        if assets[i].id == id {
            return Some(i);
        }
        i += 1;
    }
    proof {
        lemma_first_index_none(ids, id);
    }
    None
}

impl Presentation {
    /// A new, empty presentation with a fresh id and the default theme.
    pub fn new(title: &str) -> (p: Presentation)
        ensures
            p.metadata.title@ == title@,
            p.metadata.author is None,
            is_default_theme(p.theme),
            p.assets@.len() == 0,
            p.slides@.len() == 0,
    {
        Presentation {
            id: fresh_id(),
            metadata: Metadata { title: String::from_str(title), author: None },
            theme: Theme::default(),
            assets: Vec::new(),
            slides: Vec::new(),
        }
    }

    /// The first asset declared with the given id, if any.
    pub fn find_asset(&self, asset_id: u128) -> (res: Option<&Asset>)
        ensures
            res matches Some(a) ==> asset_lookup(self.assets@, asset_id) == Some(*a),
            res is None ==> asset_lookup(self.assets@, asset_id) is None,
    {
        match scan_assets(&self.assets, asset_id) {
            Some(i) => Some(&self.assets[i]),
            None => None,
        }
    }
}

/// Whether `t` is the theme a new presentation starts with.
pub open spec fn is_default_theme(t: Theme) -> bool {
    &&& t.name@ == "Default"@
    &&& t.background.value@ == "#FFFFFF"@
    &&& t.foreground.value@ == "#111111"@
}

impl Default for Theme {
    fn default() -> (t: Theme)
        ensures
            is_default_theme(t),
    {
        Theme {
            name: String::from_str("Default"),
            background: Color::hex("#FFFFFF"),
            foreground: Color::hex("#111111"),
        }
    }
}

impl Slide {
    /// A new, empty widescreen slide with a fresh id.
    pub fn new(name: Option<String>) -> (s: Slide)
        ensures
            s.name == name,
            is_widescreen(s.size),
            s.elements@.len() == 0,
    {
        Slide { id: fresh_id(), name, size: SlideSize::widescreen(), elements: Vec::new() }
    }

    /// Appends a text element with a fresh id, font size 24 and color
    /// `#111111`.
    pub fn add_text(
        &mut self,
        text: &str,
        x: Measure,
        y: Measure,
        width: Measure,
        height: Measure,
    )
        ensures
            final(self).id == old(self).id,
            final(self).name == old(self).name,
            final(self).size == old(self).size,
            final(self).elements@.len() == old(self).elements@.len() + 1,
            final(self).elements@.drop_last() == old(self).elements@,
            final(self).elements@.last() matches Element::Text(t) && t.text@ == text@
                && t.bounds == (Rect { x, y, width, height }) && is_default_text_style(t),
    {
        let element = Element::Text(
            TextElement {
                id: fresh_id(),
                bounds: Rect { x, y, width, height },
                text: String::from_str(text),
                font_size: pt_24(),
                color: Color::hex("#111111"),
            },
        );
        self.elements.push(element);
        assert(self.elements@.drop_last() =~= old(self).elements@);
    }
}

/// Whether a text element has the style new text gets: size 24, `#111111`.
pub open spec fn is_default_text_style(t: TextElement) -> bool {
    &&& t.font_size.bits == 0x41c0_0000u32
    &&& t.font_size.shown@ == "24"@
    &&& t.color.value@ == "#111111"@
}

/// Whether a size is the canonical 960 x 540 pt widescreen size.
pub open spec fn is_widescreen(s: SlideSize) -> bool {
    &&& s.width.bits == 0x4470_0000u32
    &&& s.width.shown@ == "960"@
    &&& s.height.bits == 0x4407_0000u32
    &&& s.height.shown@ == "540"@
}

impl Rect {
    /// The same rectangle.
    pub fn copy(&self) -> (r: Rect)
        ensures
            r == *self,
    {
        Rect {
            x: self.x.copy(),
            y: self.y.copy(),
            width: self.width.copy(),
            height: self.height.copy(),
        }
    }
}

impl SlideSize {
    /// The canonical 16:9 widescreen size, 960 x 540 pt.
    pub fn widescreen() -> (s: SlideSize)
        ensures
            is_widescreen(s),
    {
        SlideSize { width: pt_960(), height: pt_540() }
    }
}

impl Color {
    /// A color from its `#RRGGBB` text.
    pub fn hex(value: &str) -> (c: Color)
        ensures
            c.value@ == value@,
    {
        Color { value: String::from_str(value) }
    }
}

impl Asset {
    /// A new asset record with a fresh id and no alt text.
    pub fn new(media_type: &str) -> (a: Asset)
        ensures
            a.media_type@ == media_type@,
            a.alt is None,
    {
        Asset { id: fresh_id(), media_type: String::from_str(media_type), alt: None }
    }

    /// The asset's file name inside the package, `{id}.{ext}`.
    pub fn file_name(&self) -> (name: String)
        ensures
            name@ == asset_file_name(*self),
    {
        let mut name = id_text(self.id);
        name.append(".");
        name.append(extension_for_media_type(self.media_type.as_str()));
        name
    }
}

/// The in-package file name of an asset: `{id}.{ext}`.
pub open spec fn asset_file_name(a: Asset) -> Seq<char> {
    uuid_text(a.id) + "."@ + media_extension(a.media_type@)
}

/// The file extension an asset of the given media type is stored under.
pub open spec fn media_extension(media_type: Seq<char>) -> Seq<char> {
    if media_type == "image/png"@ {
        "png"@
    } else if media_type == "image/jpeg"@ || media_type == "image/jpg"@ {
        "jpeg"@
    } else if media_type == "image/gif"@ {
        "gif"@
    } else if media_type == "image/webp"@ {
        "webp"@
    } else if media_type == "image/bmp"@ {
        "bmp"@
    } else if media_type == "image/svg+xml"@ {
        "svg"@
    } else if media_type == "application/pdf"@ {
        "pdf"@
    } else {
        "png"@
    }
}

/// The canonical media type of a file extension (compared ignoring case).
pub open spec fn extension_media_type(extension: Seq<char>) -> Seq<char> {
    let e = ascii_lower(extension);
    if e == "png"@ {
        "image/png"@
    } else if e == "jpeg"@ || e == "jpg"@ {
        "image/jpeg"@
    } else if e == "gif"@ {
        "image/gif"@
    } else if e == "webp"@ {
        "image/webp"@
    } else if e == "bmp"@ {
        "image/bmp"@
    } else if e == "svg"@ {
        "image/svg+xml"@
    } else if e == "pdf"@ {
        "application/pdf"@
    } else {
        "application/octet-stream"@
    }
}

/// The file extension an asset of the given media type is stored under.
pub fn extension_for_media_type(media_type: &str) -> (ext: &'static str)
    ensures
        ext@ == media_extension(media_type@),
{
    if str_eq(media_type, "image/png") {
        "png"
    } else if str_eq(media_type, "image/jpeg") || str_eq(media_type, "image/jpg") {
        "jpeg"
    } else if str_eq(media_type, "image/gif") {
        "gif"
    } else if str_eq(media_type, "image/webp") {
        "webp"
    } else if str_eq(media_type, "image/bmp") {
        "bmp"
    } else if str_eq(media_type, "image/svg+xml") {
        "svg"
    } else if str_eq(media_type, "application/pdf") {
        "pdf"
    } else {
        "png"
    }
}

/// The canonical media type of a file extension, ignoring case.
///
/// Only ASCII letters are folded: no other character lower-cases to an
/// ASCII letter that occurs in a known extension, so this agrees with a
/// full Unicode lower-casing on every input.
pub fn media_type_for_extension(extension: &str) -> (media_type: &'static str)
    ensures
        media_type@ == extension_media_type(extension@),
{
    let e = to_ascii_lower(&chars_of(extension));
    if chars_eq(&e, &chars_of("png")) {
        "image/png"
    } else if chars_eq(&e, &chars_of("jpeg")) || chars_eq(&e, &chars_of("jpg")) {
        "image/jpeg"
    } else if chars_eq(&e, &chars_of("gif")) {
        "image/gif"
    } else if chars_eq(&e, &chars_of("webp")) {
        "image/webp"
    } else if chars_eq(&e, &chars_of("bmp")) {
        "image/bmp"
    } else if chars_eq(&e, &chars_of("svg")) {
        "image/svg+xml"
    } else if chars_eq(&e, &chars_of("pdf")) {
        "application/pdf"
    } else {
        "application/octet-stream"
    }
}

// ---------------------------------------------------------------------
// Elements
// ---------------------------------------------------------------------

/// The id of an element.
pub open spec fn element_id(e: Element) -> u128 {
    match e {
        Element::Text(t) => t.id,
        Element::Math(m) => m.id,
        Element::Image(i) => i.id,
        Element::Shape(s) => s.id,
        Element::Table(t) => t.id,
        Element::Chart(c) => c.id,
    }
}

/// The bounds of an element.
pub open spec fn element_bounds(e: Element) -> Rect {
    match e {
        Element::Text(t) => t.bounds,
        Element::Math(m) => m.bounds,
        Element::Image(i) => i.bounds,
        Element::Shape(s) => s.bounds,
        Element::Table(t) => t.bounds,
        Element::Chart(c) => c.bounds,
    }
}

/// The name of an element's kind, as `deck.json` tags it.
pub open spec fn element_kind_name(e: Element) -> Seq<char> {
    match e {
        Element::Text(_) => "Text"@,
        Element::Math(_) => "Math"@,
        Element::Image(_) => "Image"@,
        Element::Shape(_) => "Shape"@,
        Element::Table(_) => "Table"@,
        Element::Chart(_) => "Chart"@,
    }
}

/// The element with its bounds replaced and everything else kept.
pub open spec fn with_bounds(e: Element, b: Rect) -> Element {
    match e {
        Element::Text(t) => Element::Text(TextElement { bounds: b, ..t }),
        Element::Math(m) => Element::Math(MathElement { bounds: b, ..m }),
        Element::Image(i) => Element::Image(ImageElement { bounds: b, ..i }),
        Element::Shape(s) => Element::Shape(ShapeElement { bounds: b, ..s }),
        Element::Table(t) => Element::Table(TableElement { bounds: b, ..t }),
        Element::Chart(c) => Element::Chart(ChartElement { bounds: b, ..c }),
    }
}

impl Element {
    /// The name of the element's kind.
    pub fn kind_name(&self) -> (name: &'static str)
        ensures
            name@ == element_kind_name(*self),
    {
        match self {
            Element::Text(_) => "Text",
            Element::Math(_) => "Math",
            Element::Image(_) => "Image",
            Element::Shape(_) => "Shape",
            Element::Table(_) => "Table",
            Element::Chart(_) => "Chart",
        }
    }

    /// The element's id.
    pub fn id(&self) -> (id: u128)
        ensures
            id == element_id(*self),
    {
        match self {
            Element::Text(text) => text.id,
            Element::Math(math) => math.id,
            Element::Image(image) => image.id,
            Element::Shape(shape) => shape.id,
            Element::Table(table) => table.id,
            Element::Chart(chart) => chart.id,
        }
    }

    /// The element's bounds.
    pub fn bounds(&self) -> (b: &Rect)
        ensures
            *b == element_bounds(*self),
    {
        match self {
            Element::Text(text) => &text.bounds,
            Element::Math(math) => &math.bounds,
            Element::Image(image) => &image.bounds,
            Element::Shape(shape) => &shape.bounds,
            Element::Table(table) => &table.bounds,
            Element::Chart(chart) => &chart.bounds,
        }
    }

    /// The element with its bounds replaced.
    pub fn replace_bounds(self, b: Rect) -> (e: Element)
        ensures
            e == with_bounds(self, b),
    {
        match self {
            Element::Text(t) => Element::Text(TextElement { bounds: b, ..t }),
            Element::Math(m) => Element::Math(MathElement { bounds: b, ..m }),
            Element::Image(i) => Element::Image(ImageElement { bounds: b, ..i }),
            Element::Shape(s) => Element::Shape(ShapeElement { bounds: b, ..s }),
            Element::Table(t) => Element::Table(TableElement { bounds: b, ..t }),
            Element::Chart(c) => Element::Chart(ChartElement { bounds: b, ..c }),
        }
    }
}

} // verus!
