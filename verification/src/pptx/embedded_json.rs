//! The one-way "embedded JSON" export: images inlined as `data:` URLs.
use vstd::prelude::*;

use base64::engine::general_purpose::STANDARD;
use base64::Engine;

use crate::model::{asset_lookup, Element};
use crate::package::{bytes_of, DeckPackage};

verus! {

/// The embedded-JSON exporter.
pub struct EmbeddedJsonExporter;

/// The character of a six-bit value in the standard base64 alphabet.
pub open spec fn base64_char(v: int) -> char {
    if v < 26 {
        (('A' as int) + v) as char
    } else if v < 52 {
        (('a' as int) + v - 26) as char
    } else if v < 62 {
        (('0' as int) + v - 52) as char
    } else if v == 62 {
        '+'
    } else {
        '/'
    }
}

/// Standard base64 (RFC 4648 alphabet, `=` padding): each group of three
/// bytes becomes four characters; a final group of one or two bytes is
/// padded.
pub open spec fn base64_standard(b: Seq<u8>) -> Seq<char>
    decreases b.len(),
{
    if b.len() == 0 {
        seq![]
    } else if b.len() == 1 {
        seq![base64_char((b[0] as int) / 4), base64_char(((b[0] as int) % 4) * 16), '=', '=']
    } else if b.len() == 2 {
        seq![
            base64_char((b[0] as int) / 4),
            base64_char(((b[0] as int) % 4) * 16 + (b[1] as int) / 16),
            base64_char(((b[1] as int) % 16) * 4),
            '=',
        ]
    } else {
        seq![
            base64_char((b[0] as int) / 4),
            base64_char(((b[0] as int) % 4) * 16 + (b[1] as int) / 16),
            base64_char(((b[1] as int) % 16) * 4 + (b[2] as int) / 64),
            base64_char((b[2] as int) % 64),
        ] + base64_standard(b.skip(3))
    }
}

/// Whether the base64 text of `n` bytes has a length that fits a `usize`.
pub open spec fn base64_fits(n: nat) -> bool {
    if n % 3 == 0 {
        n / 3 * 4 <= usize::MAX
    } else {
        n / 3 * 4 + 4 <= usize::MAX
    }
}

/// The standard base64 text of some bytes.
///
/// Trusted: calls `base64::engine::general_purpose::STANDARD.encode`,
/// which the crate documents as the RFC 4648 standard alphabet with `=`
/// padding. It panics when the text's length overflows a `usize`, which
/// the precondition rules out.
#[verifier::external_body]
fn base64_encode(bytes: &Vec<u8>) -> (s: String)
    requires
        base64_fits(bytes@.len()),
    ensures
        s@ == base64_standard(bytes@),
{
    STANDARD.encode(bytes)
}

/// The `data:` URL of an asset: its media type and its bytes in base64.
pub open spec fn data_url(media_type: Seq<char>, bytes: Seq<u8>) -> Seq<char> {
    "data:"@ + media_type + ";base64,"@ + base64_standard(bytes)
}

/// The `data:` URL an image referencing `asset_id` is inlined with: the
/// asset must be declared and its bytes present, else the image stays as
/// it is.
pub open spec fn image_data_url_of(pkg: DeckPackage, asset_id: u128) -> Option<Seq<char>> {
    match asset_lookup(pkg.presentation.assets@, asset_id) {
        None => None,
        Some(a) => if pkg.asset_bytes@.contains_key(asset_id) {
            Some(data_url(a.media_type@, pkg.asset_bytes@[asset_id]@))
        } else {
            None
        },
    }
}

/// Whether the base64 text of every asset's bytes fits a `usize`.
pub open spec fn all_bytes_fit(pkg: DeckPackage) -> bool {
    forall|id: u128| #[trigger] pkg.asset_bytes@.contains_key(id) ==> base64_fits(
        pkg.asset_bytes@[id]@.len(),
    )
}

/// What an element carries in the embedded JSON in place of its
/// `asset_id`: the `data:` URL of an image whose asset resolves; any other
/// element stays as it is.
pub open spec fn inlined_source(pkg: DeckPackage, e: Element) -> Option<Seq<char>> {
    match e {
        Element::Image(im) => image_data_url_of(pkg, im.asset_id),
        _ => None,
    }
}

/// An optional string by its characters.
pub open spec fn optional_text(o: Option<String>) -> Option<Seq<char>> {
    match o {
        Some(s) => Some(s@),
        None => None,
    }
}

impl EmbeddedJsonExporter {
    /// The `data:` URL that replaces the `asset_id` of an image element.
    pub fn image_data_url(package: &DeckPackage, asset_id: u128) -> (res: Option<String>)
        requires
            package.asset_bytes@.contains_key(asset_id) ==> base64_fits(
                package.asset_bytes@[asset_id]@.len(),
            ),
        ensures
            match image_data_url_of(*package, asset_id) {
                Some(u) => res matches Some(s) && s@ == u,
                None => res is None,
            },
    {
        let asset = package.presentation.find_asset(asset_id)?;
        let bytes = bytes_of(&package.asset_bytes, asset_id)?;
        let mut url = String::from_str("data:");
        url.append(asset.media_type.as_str());
        url.append(";base64,");
        url.append(base64_encode(bytes).as_str());
        Some(url)
    }
    /// For each slide, for each of its elements, the `data:` URL that
    /// replaces its `asset_id` in the embedded JSON, if any.
    pub fn inlined_sources(package: &DeckPackage) -> (r: Vec<Vec<Option<String>>>)
        requires
            all_bytes_fit(*package),
        ensures
            r@.len() == package.presentation.slides@.len(),
            forall|i: int|
                #![trigger r@[i]]
                0 <= i < r@.len() ==> r@[i]@.len() == package.presentation.slides@[i].elements@.len()
                    && forall|k: int|
                    0 <= k < r@[i]@.len() ==> optional_text(#[trigger] r@[i]@[k]) == inlined_source(
                        *package,
                        package.presentation.slides@[i].elements@[k],
                    ),
    {
        let slides = &package.presentation.slides;
        let mut r: Vec<Vec<Option<String>>> = Vec::new();
        let mut i: usize = 0;
        while i < slides.len()
            invariant
                i <= slides@.len(),
                *slides == package.presentation.slides,
                all_bytes_fit(*package),
                r@.len() == i,
                forall|j: int|
                    #![trigger r@[j]]
                    0 <= j < i ==> r@[j]@.len() == slides@[j].elements@.len() && forall|k: int|
                        0 <= k < r@[j]@.len() ==> optional_text(#[trigger] r@[j]@[k]) == inlined_source(
                            *package,
                            slides@[j].elements@[k],
                        ),
            decreases slides.len() - i,
        {
            let elements = &slides[i].elements;
            let mut row: Vec<Option<String>> = Vec::new();
            let mut k: usize = 0;
            while k < elements.len()
                invariant
                    k <= elements@.len(),
                    *elements == slides@[i as int].elements,
                    all_bytes_fit(*package),
                    row@.len() == k,
                    forall|m: int|
                        0 <= m < k ==> optional_text(#[trigger] row@[m]) == inlined_source(
                            *package,
                            elements@[m],
                        ),
                decreases elements.len() - k,
            {
                let source = match &elements[k] {
                    Element::Image(im) => {
                        proof {
                            if package.asset_bytes@.contains_key(im.asset_id) {
                                assert(base64_fits(package.asset_bytes@[im.asset_id]@.len()));
                            }
                        }
                        Self::image_data_url(package, im.asset_id)
                    },
                    _ => None,
                };
                row.push(source);
                k += 1;
            }
            r.push(row);
            i += 1;
        }
        r
    }
}

} // verus!
