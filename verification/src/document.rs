//! A package opened from a path, with the edits the command line makes.
use vstd::prelude::*;

use crate::error::DeckMasterError;
use crate::measure::{pt_100, pt_200, pt_500, pt_600, Measure};
use crate::model::{
    first_index, is_default_text_style, is_widescreen, slide_ids, Element, Presentation, Rect,
    Slide,
};
use crate::package::DeckPackage;
use crate::text::{append_decimal, decimal};

verus! {

/// A `.deckpkg` opened from a path: saving writes it back there.
pub struct Document {
    path: String,
    package: DeckPackage,
}

/// Whether a length is the one with bit pattern `bits` and text `shown`.
pub open spec fn measure_is(m: Measure, bits: u32, shown: Seq<char>) -> bool {
    m.bits == bits && m.shown@ == shown
}

/// Whether a rectangle is `x`, `y`, `width` by `height` points, for the
/// whole numbers the editing commands use.
pub open spec fn rect_is(r: Rect, x: (u32, Seq<char>), y: (u32, Seq<char>), w: (u32, Seq<char>), h: (
    u32,
    Seq<char>,
)) -> bool {
    &&& measure_is(r.x, x.0, x.1)
    &&& measure_is(r.y, y.0, y.1)
    &&& measure_is(r.width, w.0, w.1)
    &&& measure_is(r.height, h.0, h.1)
}

pub open spec fn pt100() -> (u32, Seq<char>) {
    (0x42c8_0000u32, "100"@)
}

pub open spec fn pt200() -> (u32, Seq<char>) {
    (0x4348_0000u32, "200"@)
}

pub open spec fn pt500() -> (u32, Seq<char>) {
    (0x43fa_0000u32, "500"@)
}

pub open spec fn pt600() -> (u32, Seq<char>) {
    (0x4416_0000u32, "600"@)
}

/// Whether `s` is a new slide named `name` holding one text element with
/// `text`, at the given place, in the default style.
pub open spec fn is_new_slide_with_text(
    s: Slide,
    name: Seq<char>,
    text: Seq<char>,
    r: (u32, Seq<char>),
    y: (u32, Seq<char>),
    w: (u32, Seq<char>),
) -> bool {
    &&& s.name matches Some(n) && n@ == name
    &&& is_widescreen(s.size)
    &&& s.elements@.len() == 1
    &&& s.elements@[0] matches Element::Text(t) && t.text@ == text && rect_is(t.bounds, r, y, w, pt100())
        && is_default_text_style(t)
}

/// The slide with id `slide_id`, if any (the first such).
pub open spec fn slide_lookup(slides: Seq<Slide>, slide_id: u128) -> Option<Slide> {
    match first_index(slide_ids(slides), slide_id) {
        Some(i) => Some(slides[i]),
        None => None,
    }
}

/// `new` is `old` with slide `i` replaced by `s`.
pub open spec fn slide_replaced(old: Presentation, new: Presentation, i: int, s: Slide) -> bool {
    &&& new.id == old.id
    &&& new.metadata == old.metadata
    &&& new.theme == old.theme
    &&& new.assets == old.assets
    &&& new.slides@ == old.slides@.update(i, s)
}

impl Document {
    /// The path the document saves to.
    pub closed spec fn document_path(&self) -> Seq<char> {
        self.path@
    }

    /// The package the document holds.
    pub closed spec fn document_package(&self) -> DeckPackage {
        self.package
    }

    /// A document for a package read from (or to be written to) `path`.
    pub fn new(path: &str, package: DeckPackage) -> (d: Document)
        ensures
            d.document_path() == path@,
            d.document_package() == package,
    {
        Document { path: String::from_str(path), package }
    }

    /// The path the document saves to.
    pub fn path(&self) -> (p: &str)
        ensures
            p@ == self.document_path(),
    {
        self.path.as_str()
    }

    pub fn presentation(&self) -> (p: &Presentation)
        ensures
            *p == self.document_package().presentation,
    {
        &self.package.presentation
    }

    pub fn package(&self) -> (p: &DeckPackage)
        ensures
            *p == self.document_package(),
    {
        &self.package
    }

    pub fn presentation_mut(&mut self) -> (p: &mut Presentation)
        ensures
            *p == old(self).document_package().presentation,
            final(self).document_path() == old(self).document_path(),
            final(self).document_package().presentation == *final(p),
            final(self).document_package().asset_bytes == old(self).document_package().asset_bytes,
    {
        &mut self.package.presentation
    }

    pub fn package_mut(&mut self) -> (p: &mut DeckPackage)
        ensures
            *p == old(self).document_package(),
            final(self).document_path() == old(self).document_path(),
            final(self).document_package() == *final(p),
    {
        &mut self.package
    }

    /// The slide with id `slide_id`.
    pub fn find_slide(&self, slide_id: u128) -> (res: Option<&Slide>)
        ensures
            match res {
                Some(s) => slide_lookup(self.document_package().presentation.slides@, slide_id)
                    == Some(*s),
                None => slide_lookup(self.document_package().presentation.slides@, slide_id) is None,
            },
    {
        let slides = &self.package.presentation.slides;
        let ghost ids = slide_ids(slides@);
        let mut i: usize = 0;
        while i < slides.len()
            invariant
                i <= slides@.len(),
                *slides == self.package.presentation.slides,
                ids == slide_ids(slides@),
                first_index(ids.take(i as int), slide_id) is None,
            decreases slides.len() - i,
        {
            proof {
                crate::model::lemma_first_index_step(ids, slide_id, i as int);
            }
            assert(ids[i as int] == slides@[i as int].id);
            if slides[i].id == slide_id {
                return Some(&slides[i]);
            }
            i += 1;
        }
        proof {
            crate::model::lemma_first_index_none(ids, slide_id);
        }
        None
    }

    /// The slide with id `slide_id`, to change in place: the slide handed
    /// out is the first with that id, and what the caller leaves in it is
    /// what the document then holds there; nothing else changes.
    pub fn find_slide_mut(&mut self, slide_id: u128) -> (res: Option<&mut Slide>)
        ensures
            final(self).document_path() == old(self).document_path(),
            final(self).document_package().asset_bytes == old(self).document_package().asset_bytes,
            match first_index(slide_ids(old(self).document_package().presentation.slides@), slide_id) {
                Some(i) => res matches Some(s) && *s == old(self).document_package().presentation.slides@[i]
                    && slide_replaced(
                    old(self).document_package().presentation,
                    final(self).document_package().presentation,
                    i,
                    *final(s),
                ),
                None => res is None && *final(self) == *old(self),
            },
    {
        let found = crate::ops::scan_slides(&self.package.presentation.slides, slide_id);
        match found {
            Some(j) => Some(&mut self.package.presentation.slides[j]),
            None => None,
        }
    }

    /// Appends a slide named `title` holding the text "Slide {n}" (its
    /// number) at (100, 100), 500 by 100 points.
    pub fn add_slide(&mut self, title: &str)
        requires
            old(self).document_package().presentation.slides@.len() < usize::MAX,
        ensures
            final(self).document_path() == old(self).document_path(),
            final(self).document_package().asset_bytes == old(self).document_package().asset_bytes,
            final(self).document_package().presentation.slides@.drop_last()
                == old(self).document_package().presentation.slides@,
            final(self).document_package().presentation.slides@.len()
                == old(self).document_package().presentation.slides@.len() + 1,
            is_new_slide_with_text(
                final(self).document_package().presentation.slides@.last(),
                title@,
                "Slide "@ + decimal(old(self).document_package().presentation.slides@.len() + 1),
                pt100(),
                pt100(),
                pt500(),
            ),
            final(self).document_package().presentation.id == old(
                self,
            ).document_package().presentation.id,
            final(self).document_package().presentation.metadata == old(
                self,
            ).document_package().presentation.metadata,
            final(self).document_package().presentation.theme == old(
                self,
            ).document_package().presentation.theme,
            final(self).document_package().presentation.assets == old(
                self,
            ).document_package().presentation.assets,
    {
        let n = self.package.presentation.slides.len();
        let mut text = String::from_str("Slide ");
        append_decimal(&mut text, (n + 1) as u64);
        let mut slide = Slide::new(Some(String::from_str(title)));
        slide.add_text(text.as_str(), pt_100(), pt_100(), pt_500(), pt_100());
        self.package.presentation.slides.push(slide);
    }

    /// Adds the text `text` at (100, 200), 600 by 100 points, to the slide
    /// at `slide_index` (from 0); refused when there is no such slide.
    pub fn add_text(&mut self, slide_index: usize, text: &str) -> (res: Result<(), DeckMasterError>)
        ensures
            final(self).document_path() == old(self).document_path(),
            final(self).document_package().asset_bytes == old(self).document_package().asset_bytes,
            slide_index >= old(self).document_package().presentation.slides@.len() ==> {
                &&& res matches Err(DeckMasterError::Unsupported(m)) && m@ == "slide does not exist"@
                &&& final(self).document_package() == old(self).document_package()
            },
            slide_index < old(self).document_package().presentation.slides@.len() ==> {
                let before = old(self).document_package().presentation;
                let after = final(self).document_package().presentation;
                let old_slide = before.slides@[slide_index as int];
                let new_slide = after.slides@[slide_index as int];
                &&& res is Ok
                &&& after.slides@.len() == before.slides@.len()
                &&& forall|i: int|
                    0 <= i < before.slides@.len() && i != slide_index ==> after.slides@[i]
                        == before.slides@[i]
                &&& new_slide.id == old_slide.id
                &&& new_slide.name == old_slide.name
                &&& new_slide.size == old_slide.size
                &&& new_slide.elements@.drop_last() == old_slide.elements@
                &&& new_slide.elements@.len() == old_slide.elements@.len() + 1
                &&& new_slide.elements@.last() matches Element::Text(t) && t.text@ == text@
                    && rect_is(t.bounds, pt100(), pt200(), pt600(), pt100()) && is_default_text_style(t)
                &&& after.id == before.id
                &&& after.metadata == before.metadata
                &&& after.theme == before.theme
                &&& after.assets == before.assets
            },
    {
        if slide_index >= self.package.presentation.slides.len() {
            return Err(DeckMasterError::Unsupported(String::from_str("slide does not exist")));
        }
        let mut slide = self.package.presentation.slides.remove(slide_index);
        slide.add_text(text, pt_100(), pt_200(), pt_600(), pt_100());
        self.package.presentation.slides.insert(slide_index, slide);
        Ok(())
    }
}

} // verus!
