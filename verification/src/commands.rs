//! What the command-line tool computes before it prints or writes: the
//! deck a new file starts with, the report of `inspect`, the verdicts of
//! `validate` and `pack`, the slide `add-text` writes to.
use vstd::prelude::*;

use crate::document::{is_new_slide_with_text, pt100, pt500};
use crate::ids::{id_text, uuid_text};
use crate::measure::{pt_100, pt_500};
use crate::model::{asset_file_name, is_default_theme, Asset, Element, Presentation, Slide};
use crate::ops::{issues_view, Severity, ValidationIssue};
use crate::package::{bytes_of, DeckPackage};
use crate::text::{append_decimal, decimal};

verus! {

/// The deck a new file starts with: titled `title`, one slide ("Slide 1")
/// welcoming the reader.
pub fn new_deck(title: &str) -> (p: Presentation)
    ensures
        p.metadata.title@ == title@,
        p.metadata.author is None,
        is_default_theme(p.theme),
        p.assets@.len() == 0,
        p.slides@.len() == 1,
        is_new_slide_with_text(
            p.slides@[0],
            "Slide 1"@,
            "Welcome to DeckMaster"@,
            pt100(),
            pt100(),
            pt500(),
        ),
{
    let mut presentation = Presentation::new(title);
    let mut slide = Slide::new(Some(String::from_str("Slide 1")));
    slide.add_text("Welcome to DeckMaster", pt_100(), pt_100(), pt_500(), pt_100());
    presentation.slides.push(slide);
    presentation
}

// ---------------------------------------------------------------------
// inspect
// ---------------------------------------------------------------------

/// The report line of an asset: its id, media type, and byte count or
/// that the package lacks it.
pub open spec fn asset_line(a: Asset, bytes: Map<u128, Vec<u8>>) -> Seq<char> {
    "  - Asset ["@ + uuid_text(a.id) + "] "@ + a.media_type@ + " ("@ + (if bytes.contains_key(a.id) {
        decimal(bytes[a.id]@.len()) + " bytes"@
    } else {
        "MISSING from package"@
    }) + ")"@
}

/// The report line of an element.
pub open spec fn element_line(e: Element) -> Seq<char> {
    match e {
        Element::Text(t) => "  - Text ["@ + uuid_text(t.id) + "]: "@ + t.text@,
        Element::Math(m) => "  - Math ["@ + uuid_text(m.id) + "]: "@ + m.tex@,
        Element::Image(i) => "  - Image ["@ + uuid_text(i.id) + "]: "@ + (match i.alt {
            Some(a) => a@,
            None => "(no alt)"@,
        }) + " (asset_id "@ + uuid_text(i.asset_id) + ")"@,
        Element::Shape(s) => "  - Shape ["@ + uuid_text(s.id) + "]"@,
        Element::Table(t) => "  - Table ["@ + uuid_text(t.id) + "]"@,
        Element::Chart(c) => "  - Chart ["@ + uuid_text(c.id) + "]"@,
    }
}

/// The report lines of slide `index` (from 0): a blank line, its number
/// and name, its id, its element count, then a line per element.
pub open spec fn slide_lines(index: nat, s: Slide) -> Seq<Seq<char>> {
    seq![
        seq![],
        "Slide "@ + decimal(index + 1) + ": "@ + (match s.name {
            Some(n) => n@,
            None => "(untitled)"@,
        }),
        "  ID: "@ + uuid_text(s.id),
        "  Elements: "@ + decimal(s.elements@.len()),
    ] + s.elements@.map_values(|e: Element| element_line(e))
}

/// The report lines of the slides, slide after slide.
pub open spec fn slides_lines(slides: Seq<Slide>) -> Seq<Seq<char>>
    decreases slides.len(),
{
    if slides.len() == 0 {
        seq![]
    } else {
        slides_lines(slides.drop_last()) + slide_lines((slides.len() - 1) as nat, slides.last())
    }
}

/// The report `inspect` prints, line by line: title, slide and asset
/// counts, a line per asset, then each slide.
pub open spec fn inspect_report(pkg: DeckPackage) -> Seq<Seq<char>> {
    let p = pkg.presentation;
    seq![
        "Title: "@ + p.metadata.title@,
        "Slides: "@ + decimal(p.slides@.len()),
        "Assets: "@ + decimal(p.assets@.len()),
    ] + p.assets@.map_values(|a: Asset| asset_line(a, pkg.asset_bytes@)) + slides_lines(p.slides@)
}

pub open spec fn lines_view(v: Seq<String>) -> Seq<Seq<char>> {
    v.map_values(|s: String| s@)
}

fn number_line(prefix: &str, n: usize) -> (s: String)
    ensures
        s@ == prefix@ + decimal(n as nat),
{
    let mut s = String::from_str(prefix);
    append_decimal(&mut s, n as u64);
    s
}

fn element_report_line(e: &Element) -> (s: String)
    ensures
        s@ == element_line(*e),
{
    let mut s = String::new();
    match e {
        Element::Text(t) => {
            s.append("  - Text [");
            s.append(id_text(t.id).as_str());
            s.append("]: ");
            s.append(t.text.as_str());
        },
        Element::Math(m) => {
            s.append("  - Math [");
            s.append(id_text(m.id).as_str());
            s.append("]: ");
            s.append(m.tex.as_str());
        },
        Element::Image(i) => {
            s.append("  - Image [");
            s.append(id_text(i.id).as_str());
            s.append("]: ");
            match &i.alt {
                Some(a) => s.append(a.as_str()),
                None => s.append("(no alt)"),
            }
            s.append(" (asset_id ");
            s.append(id_text(i.asset_id).as_str());
            s.append(")");
        },
        Element::Shape(x) => {
            s.append("  - Shape [");
            s.append(id_text(x.id).as_str());
            s.append("]");
        },
        Element::Table(x) => {
            s.append("  - Table [");
            s.append(id_text(x.id).as_str());
            s.append("]");
        },
        Element::Chart(x) => {
            s.append("  - Chart [");
            s.append(id_text(x.id).as_str());
            s.append("]");
        },
    }
    s
}

fn push_slide_lines(lines: &mut Vec<String>, index: usize, s: &Slide)
    requires
        index < usize::MAX,
    ensures
        lines_view(final(lines)@) == lines_view(old(lines)@) + slide_lines(index as nat, *s),
{
    let ghost start = lines_view(lines@);
    lines.push(String::new());
    let mut head = number_line("Slide ", index + 1);
    head.append(": ");
    match &s.name {
        Some(n) => head.append(n.as_str()),
        None => head.append("(untitled)"),
    }
    lines.push(head);
    let mut id_line = String::from_str("  ID: ");
    id_line.append(id_text(s.id).as_str());
    lines.push(id_line);
    lines.push(number_line("  Elements: ", s.elements.len()));
    let ghost with_head = lines_view(lines@);
    let ghost header = slide_lines(index as nat, *s).take(4);
    assert(with_head =~= start + header);
    let mut k: usize = 0;
    while k < s.elements.len()
        invariant
            k <= s.elements@.len(),
            lines_view(lines@) == with_head + s.elements@.take(k as int).map_values(
                |e: Element| element_line(e),
            ),
        decreases s.elements.len() - k,
    {
        let ghost before = lines_view(lines@);
        lines.push(element_report_line(&s.elements[k]));
        assert(s.elements@.take(k + 1).map_values(|e: Element| element_line(e)) =~= s.elements@.take(
            k as int,
        ).map_values(|e: Element| element_line(e)).push(element_line(s.elements@[k as int])));
        assert(lines_view(lines@) =~= before.push(element_line(s.elements@[k as int])));
        k += 1;
    }
    assert(s.elements@.take(s.elements@.len() as int) =~= s.elements@);
    assert(slide_lines(index as nat, *s) =~= header + s.elements@.map_values(
        |e: Element| element_line(e),
    ));
}

/// The report `inspect` prints, line by line.
pub fn inspect_lines(package: &DeckPackage) -> (lines: Vec<String>)
    ensures
        lines_view(lines@) == inspect_report(*package),
{
    let p = &package.presentation;
    let mut lines: Vec<String> = Vec::new();
    let mut title = String::from_str("Title: ");
    title.append(p.metadata.title.as_str());
    lines.push(title);
    lines.push(number_line("Slides: ", p.slides.len()));
    lines.push(number_line("Assets: ", p.assets.len()));
    let ghost head = lines_view(lines@);
    let mut i: usize = 0;
    while i < p.assets.len()
        invariant
            i <= p.assets@.len(),
            *p == package.presentation,
            lines_view(lines@) == head + p.assets@.take(i as int).map_values(
                |a: Asset| asset_line(a, package.asset_bytes@),
            ),
        decreases p.assets.len() - i,
    {
        let a = &p.assets[i];
        let mut line = String::from_str("  - Asset [");
        line.append(id_text(a.id).as_str());
        line.append("] ");
        line.append(a.media_type.as_str());
        line.append(" (");
        match bytes_of(&package.asset_bytes, a.id) {
            Some(b) => {
                append_decimal(&mut line, b.len() as u64);
                line.append(" bytes");
            },
            None => line.append("MISSING from package"),
        }
        line.append(")");
        assert(line@ =~= asset_line(p.assets@[i as int], package.asset_bytes@));
        let ghost before = lines_view(lines@);
        lines.push(line);
        assert(p.assets@.take(i + 1).map_values(|a: Asset| asset_line(a, package.asset_bytes@))
            =~= p.assets@.take(i as int).map_values(|a: Asset| asset_line(a, package.asset_bytes@)).push(
            asset_line(p.assets@[i as int], package.asset_bytes@),
        ));
        assert(lines_view(lines@) =~= before.push(asset_line(p.assets@[i as int], package.asset_bytes@)));
        i += 1;
    }
    assert(p.assets@.take(p.assets@.len() as int) =~= p.assets@);
    let ghost with_assets = lines_view(lines@);
    let mut k: usize = 0;
    assert(p.slides@.take(0) =~= seq![]);
    assert(with_assets =~= with_assets + slides_lines(p.slides@.take(0)));
    while k < p.slides.len()
        invariant
            k <= p.slides@.len(),
            *p == package.presentation,
            lines_view(lines@) == with_assets + slides_lines(p.slides@.take(k as int)),
        decreases p.slides.len() - k,
    {
        push_slide_lines(&mut lines, k, &p.slides[k]);
        assert(p.slides@.take(k + 1).drop_last() =~= p.slides@.take(k as int));
        assert(p.slides@.take(k + 1).last() == p.slides@[k as int]);
        k += 1;
    }
    assert(p.slides@.take(p.slides@.len() as int) =~= p.slides@);
    lines
}

// ---------------------------------------------------------------------
// validate and pack
// ---------------------------------------------------------------------

/// The messages of the issues of one severity, in order.
pub open spec fn messages_of(issues: Seq<(Severity, Seq<char>)>, severity: Severity) -> Seq<Seq<char>>
    decreases issues.len(),
{
    if issues.len() == 0 {
        seq![]
    } else {
        messages_of(issues.drop_last(), severity) + if issues.last().0 == severity {
            seq![issues.last().1]
        } else {
            seq![]
        }
    }
}

fn is_error(s: Severity) -> (r: bool)
    ensures
        r == (s == Severity::Error),
{
    match s {
        Severity::Error => true,
        Severity::Info => false,
    }
}

/// The messages of the issues of one severity, in order.
pub fn messages(issues: &Vec<ValidationIssue>, errors: bool) -> (res: Vec<String>)
    ensures
        lines_view(res@) == messages_of(
            issues_view(issues@),
            if errors {
                Severity::Error
            } else {
                Severity::Info
            },
        ),
{
    let ghost sev = if errors {
        Severity::Error
    } else {
        Severity::Info
    };
    let ghost iv = issues_view(issues@);
    let mut out: Vec<String> = Vec::new();
    let mut i: usize = 0;
    assert(iv.take(0) =~= seq![]);
    assert(lines_view(out@) =~= seq![]);
    while i < issues.len()
        invariant
            i <= issues@.len(),
            iv == issues_view(issues@),
            sev == (if errors {
                Severity::Error
            } else {
                Severity::Info
            }),
            lines_view(out@) == messages_of(iv.take(i as int), sev),
        decreases issues.len() - i,
    {
        assert(iv.take(i + 1).drop_last() =~= iv.take(i as int));
        assert(iv.take(i + 1).last() == (issues@[i as int].severity, issues@[i as int].message@));
        let ghost before = lines_view(out@);
        proof {
            match issues@[i as int].severity {
                Severity::Error => {},
                Severity::Info => {},
            }
        }
        if is_error(issues[i].severity) == errors {
            out.push(issues[i].message.clone());
            assert(lines_view(out@) =~= before.push(issues@[i as int].message@));
        } else {
            assert(before =~= before + seq![]);
        }
        i += 1;
    }
    assert(iv.take(iv.len() as int) =~= iv);
    out
}

/// What `validate` concludes about the package at `file`: valid with
/// some notes, or how many errors it has.
pub open spec fn verdict(file: Seq<char>, issues: Seq<(Severity, Seq<char>)>) -> Result<
    Seq<char>,
    Seq<char>,
> {
    let errors = messages_of(issues, Severity::Error).len();
    let notes = messages_of(issues, Severity::Info).len();
    if errors == 0 {
        Ok(file + ": valid ("@ + decimal(notes) + " note(s))"@)
    } else {
        Err(file + ": "@ + decimal(errors) + " error(s) found"@)
    }
}

/// What `validate` concludes about the package at `file`.
pub fn validation_verdict(file: &str, issues: &Vec<ValidationIssue>) -> (res: Result<String, String>)
    ensures
        match verdict(file@, issues_view(issues@)) {
            Ok(m) => res matches Ok(s) && s@ == m,
            Err(m) => res matches Err(s) && s@ == m,
        },
{
    let errors = messages(issues, true);
    let notes = messages(issues, false);
    let mut s = String::from_str(file);
    if errors.len() == 0 {
        s.append(": valid (");
        append_decimal(&mut s, notes.len() as u64);
        s.append(" note(s))");
        Ok(s)
    } else {
        s.append(": ");
        append_decimal(&mut s, errors.len() as u64);
        s.append(" error(s) found");
        Err(s)
    }
}

/// Why `pack` refuses the deck at `deck_json`, if it has errors.
pub open spec fn pack_refusal_of(deck_json: Seq<char>, issues: Seq<(Severity, Seq<char>)>) -> Option<
    Seq<char>,
> {
    let errors = messages_of(issues, Severity::Error).len();
    if errors == 0 {
        None
    } else {
        Some("refusing to pack: "@ + decimal(errors) + " validation error(s) found in "@ + deck_json)
    }
}

/// Why `pack` refuses the deck at `deck_json`, if it has errors.
pub fn pack_refusal(deck_json: &str, issues: &Vec<ValidationIssue>) -> (res: Option<String>)
    ensures
        match pack_refusal_of(deck_json@, issues_view(issues@)) {
            Some(m) => res matches Some(s) && s@ == m,
            None => res is None,
        },
{
    let errors = messages(issues, true);
    if errors.len() == 0 {
        return None;
    }
    let mut s = String::from_str("refusing to pack: ");
    append_decimal(&mut s, errors.len() as u64);
    s.append(" validation error(s) found in ");
    s.append(deck_json);
    Some(s)
}

/// The error `pack` gives for an asset whose file is not at `location`.
pub fn missing_asset_file(asset: &Asset, location: &str) -> (s: String)
    ensures
        s@ == "asset "@ + uuid_text(asset.id) + " ("@ + asset_file_name(*asset)
            + ") is declared in deck.json but not found at "@ + location@,
{
    let mut s = String::from_str("asset ");
    s.append(id_text(asset.id).as_str());
    s.append(" (");
    s.append(asset.file_name().as_str());
    s.append(") is declared in deck.json but not found at ");
    s.append(location);
    s
}


/// The index (from 0) of the slide `add-text` is given by its number
/// (from 1); the number 0 is refused.
pub fn slide_index_for_number(slide: usize) -> (res: Result<usize, String>)
    ensures
        slide == 0 ==> (res matches Err(m) && m@ == "slide numbers start at 1"@),
        slide > 0 ==> res == Ok::<usize, String>((slide - 1) as usize),
{
    if slide == 0 {
        return Err(String::from_str("slide numbers start at 1"));
    }
    Ok(slide - 1)
}

} // verus!
