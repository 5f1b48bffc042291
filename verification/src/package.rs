//! An in-memory `.deckpkg`: the presentation plus the bytes of its assets.
use vstd::prelude::*;

use std::collections::BTreeMap;

use crate::error::DeckMasterError;
use crate::model::{asset_file_name, Asset, Presentation};
use crate::pptx::package::{part_bytes, part_text, Package, PackagePart};

verus! {

/// The parsed presentation plus the raw bytes of every asset it carries,
/// keyed by asset id (the contents of `assets/{id}.{ext}`).
#[derive(Debug, Clone)]
pub struct DeckPackage {
    pub presentation: Presentation,
    pub asset_bytes: BTreeMap<u128, Vec<u8>>,
}

/// Records the bytes of an asset, replacing any it had.
pub fn insert_bytes(bytes: &mut BTreeMap<u128, Vec<u8>>, id: u128, b: Vec<u8>)
    ensures
        final(bytes)@ == old(bytes)@.insert(id, b),
{
    broadcast use vstd::std_specs::btree::group_btree_axioms, vstd::laws_cmp::group_laws_cmp;

    bytes.insert(id, b);
}

/// The bytes recorded for an asset, if any.
pub fn bytes_of(bytes: &BTreeMap<u128, Vec<u8>>, id: u128) -> (r: Option<&Vec<u8>>)
    ensures
        match r {
            Some(b) => bytes@.contains_key(id) && bytes@[id] == *b,
            None => !bytes@.contains_key(id),
        },
{
    broadcast use vstd::std_specs::btree::group_btree_axioms, vstd::laws_cmp::group_laws_cmp;

    bytes.get(&id)
}


/// The name of an asset's file inside a package: `assets/{id}.{ext}`.
pub open spec fn asset_entry_name(a: Asset) -> Seq<char> {
    "assets/"@ + asset_file_name(a)
}

/// The name of an asset's file inside a package.
pub fn asset_entry(a: &Asset) -> (name: String)
    ensures
        name@ == asset_entry_name(*a),
{
    let mut name = String::from_str("assets/");
    name.append(a.file_name().as_str());
    name
}

/// The bytes of a map, by their contents.
pub open spec fn bytes_view(m: Map<u128, Vec<u8>>) -> Map<u128, Seq<u8>> {
    m.map_values(|v: Vec<u8>| v@)
}

/// The asset bytes a package's files give: for each asset in order whose
/// file is there, its bytes (a later asset with the same id wins).
pub open spec fn loaded_bytes(assets: Seq<Asset>, parts: Seq<PackagePart>) -> Map<u128, Seq<u8>>
    decreases assets.len(),
{
    if assets.len() == 0 {
        Map::empty()
    } else {
        let prev = loaded_bytes(assets.drop_last(), parts);
        match part_bytes(parts, asset_entry_name(assets.last())) {
            Some(b) => prev.insert(assets.last().id, b),
            None => prev,
        }
    }
}

/// The asset files a package is saved with: for each asset in order whose
/// bytes the package holds, its file name and bytes.
pub open spec fn saved_entries(assets: Seq<Asset>, bytes: Map<u128, Vec<u8>>) -> Seq<
    (Seq<char>, Seq<u8>),
>
    decreases assets.len(),
{
    if assets.len() == 0 {
        seq![]
    } else {
        let prev = saved_entries(assets.drop_last(), bytes);
        let a = assets.last();
        if bytes.contains_key(a.id) {
            prev.push((asset_entry_name(a), bytes[a.id]@))
        } else {
            prev
        }
    }
}

impl DeckPackage {
    /// A package holding `presentation` and no asset bytes.
    pub fn new(presentation: Presentation) -> (p: DeckPackage)
        ensures
            p.presentation == presentation,
            p.asset_bytes@ == Map::<u128, Vec<u8>>::empty(),
    {
        DeckPackage { presentation, asset_bytes: BTreeMap::new() }
    }

    /// The text of `deck.json` in a package's files; a package without it
    /// (or whose `deck.json` is not UTF-8 text) is refused.
    pub fn deck_json(files: &Package) -> (res: Result<String, DeckMasterError>)
        ensures
            match part_text(files.parts@, "deck.json"@) {
                Some(t) => res matches Ok(s) && s@ == t,
                None => res matches Err(DeckMasterError::Unsupported(m))
                    && m@ == "package is missing deck.json at its root"@,
            },
    {
        match files.read_string("deck.json") {
            Ok(s) => Ok(s),
            Err(_) => Err(
                DeckMasterError::Unsupported(String::from_str("package is missing deck.json at its root")),
            ),
        }
    }

    /// A package from its presentation and its files: each asset's bytes
    /// are read from `assets/{id}.{ext}`. A missing file is not an error:
    /// the asset simply has no bytes (validation reports it).
    pub fn from_files(presentation: Presentation, files: &Package) -> (p: DeckPackage)
        ensures
            p.presentation == presentation,
            bytes_view(p.asset_bytes@) == loaded_bytes(presentation.assets@, files.parts@),
    {
        let mut asset_bytes: BTreeMap<u128, Vec<u8>> = BTreeMap::new();
        let mut i: usize = 0;
        assert(bytes_view(asset_bytes@) =~= loaded_bytes(presentation.assets@.take(0), files.parts@));
        while i < presentation.assets.len()
            invariant
                i <= presentation.assets@.len(),
                bytes_view(asset_bytes@) == loaded_bytes(
                    presentation.assets@.take(i as int),
                    files.parts@,
                ),
            decreases presentation.assets.len() - i,
        {
            let a = &presentation.assets[i];
            assert(presentation.assets@.take(i + 1).drop_last() =~= presentation.assets@.take(
                i as int,
            ));
            assert(presentation.assets@.take(i + 1).last() == *a);
            let name = asset_entry(a);
            if let Ok(b) = files.read_bytes(name.as_str()) {
                let ghost before = asset_bytes@;
                let ghost bv = b@;
                insert_bytes(&mut asset_bytes, a.id, b);
                assert(bytes_view(asset_bytes@) =~= bytes_view(before).insert(a.id, bv));
            }
            i += 1;
        }
        assert(presentation.assets@.take(presentation.assets@.len() as int) =~= presentation.assets@);
        DeckPackage { presentation, asset_bytes }
    }

    /// The asset files this package is saved with, after `deck.json`: each
    /// asset whose bytes it holds, as `assets/{id}.{ext}`, in asset order.
    pub fn asset_entries(&self) -> (entries: Vec<PackagePart>)
        ensures
            crate::pptx::exporter::parts_view(entries@) == saved_entries(
                self.presentation.assets@,
                self.asset_bytes@,
            ),
    {
        let assets = &self.presentation.assets;
        let mut entries: Vec<PackagePart> = Vec::new();
        let mut i: usize = 0;
        assert(crate::pptx::exporter::parts_view(entries@) =~= saved_entries(assets@.take(0), self.asset_bytes@));
        while i < assets.len()
            invariant
                i <= assets@.len(),
                *assets == self.presentation.assets,
                crate::pptx::exporter::parts_view(entries@) == saved_entries(
                    assets@.take(i as int),
                    self.asset_bytes@,
                ),
            decreases assets.len() - i,
        {
            let a = &assets[i];
            assert(assets@.take(i + 1).drop_last() =~= assets@.take(i as int));
            assert(assets@.take(i + 1).last() == *a);
            if let Some(b) = bytes_of(&self.asset_bytes, a.id) {
                let ghost before = crate::pptx::exporter::parts_view(entries@);
                entries.push(PackagePart { name: asset_entry(a), bytes: crate::pptx::exporter::copy_bytes(b) });
                assert(crate::pptx::exporter::parts_view(entries@) =~= before.push(
                    (entries@.last().name@, entries@.last().bytes@),
                ));
            }
            i += 1;
        }
        assert(assets@.take(assets@.len() as int) =~= assets@);
        entries
    }

}

} // verus!
