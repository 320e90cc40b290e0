//! The registry of custom mods that are known to break a champion.
//!
//! A mod that overrides the champion's own ability data is flagged here, under
//! its path relative to the mods directory, so that it can be badged and kept
//! out of play. The registry is loaded from disk and saved whenever a change
//! matters: [`flag`] and [`unflag`] say when.
use crate::text;
use vstd::prelude::*;

verus! {

/// A mod that was found to be broken.
#[derive(Debug)]
pub struct BrokenMod {
    pub name: String,
    pub champion_id: i64,
    /// The game path that the mod overrides, which is why it was blocked.
    pub reason_path: String,
}

/// What a [`BrokenMod`] holds.
pub struct BrokenModView {
    pub name: Seq<char>,
    pub champion_id: i64,
    pub reason_path: Seq<char>,
}

impl View for BrokenMod {
    type V = BrokenModView;

    open spec fn view(&self) -> BrokenModView {
        BrokenModView {
            name: self.name@,
            champion_id: self.champion_id,
            reason_path: self.reason_path@,
        }
    }
}

impl Clone for BrokenMod {
    fn clone(&self) -> (r: Self)
        ensures
            r == *self,
    {
        BrokenMod {
            name: self.name.clone(),
            champion_id: self.champion_id,
            reason_path: self.reason_path.clone(),
        }
    }
}

/// The registry as a map from paths to mods: where a path occurs more than once
/// in `entries`, the last occurrence counts.
pub open spec fn map_of(entries: Seq<(String, BrokenMod)>) -> Map<Seq<char>, BrokenModView>
    decreases entries.len(),
{
    if entries.len() == 0 {
        Map::empty()
    } else {
        map_of(entries.drop_last()).insert(entries.last().0@, entries.last().1@)
    }
}

/// Whether no path occurs twice in `entries`.
pub open spec fn distinct(entries: Seq<(String, BrokenMod)>) -> bool {
    forall|i: int, j: int|
        0 <= i < j < entries.len() ==> (#[trigger] entries[i]).0@ != (#[trigger] entries[j]).0@
}

/// The map of distinct entries holds exactly the entries.
proof fn lemma_map_of(entries: Seq<(String, BrokenMod)>)
    ensures
        forall|k: Seq<char>| #[trigger]
            map_of(entries).dom().contains(k) ==> exists|i: int|
                0 <= i < entries.len() && (#[trigger] entries[i]).0@ == k,
        forall|i: int|
            0 <= i < entries.len() ==> map_of(entries).dom().contains(
                (#[trigger] entries[i]).0@,
            ),
        distinct(entries) ==> forall|i: int|
            0 <= i < entries.len() ==> map_of(entries)[(#[trigger] entries[i]).0@] == entries[i].1@,
    decreases entries.len(),
{
    if entries.len() > 0 {
        let init = entries.drop_last();
        lemma_map_of(init);
        assert forall|k: Seq<char>| #[trigger] map_of(entries).dom().contains(k) implies exists|
            i: int,
        |
            0 <= i < entries.len() && (#[trigger] entries[i]).0@ == k by {
            if k == entries.last().0@ {
                assert(entries[entries.len() - 1].0@ == k);
            } else {
                let i = choose|i: int| 0 <= i < init.len() && (#[trigger] init[i]).0@ == k;
                assert(entries[i] == init[i]);
            }
        }
        assert forall|i: int| 0 <= i < entries.len() implies map_of(entries).dom().contains(
            (#[trigger] entries[i]).0@,
        ) by {
            if i < init.len() {
                assert(init[i] == entries[i]);
            }
        }
        if distinct(entries) {
            assert(distinct(init)) by {
                assert forall|i: int, j: int| 0 <= i < j < init.len() implies (#[trigger] init[i]).0@
                    != (#[trigger] init[j]).0@ by {
                    assert(init[i] == entries[i] && init[j] == entries[j]);
                }
            }
            assert forall|i: int| 0 <= i < entries.len() implies map_of(
                entries,
            )[(#[trigger] entries[i]).0@] == entries[i].1@ by {
                if i < init.len() {
                    assert(init[i] == entries[i]);
                    assert(entries[i].0@ != entries[entries.len() - 1].0@);
                }
            }
        }
    }
}

/// The map of finitely many entries is finite, and as large as the entries
/// where these are distinct.
proof fn lemma_map_of_size(entries: Seq<(String, BrokenMod)>)
    ensures
        map_of(entries).dom().finite(),
        distinct(entries) ==> map_of(entries).dom().len() == entries.len(),
    decreases entries.len(),
{
    if entries.len() > 0 {
        let init = entries.drop_last();
        lemma_map_of_size(init);
        lemma_map_of(init);
        let last = entries.last().0@;
        assert(map_of(entries).dom() =~= map_of(init).dom().insert(last));
        if distinct(entries) {
            assert forall|i: int, j: int| 0 <= i < j < init.len() implies (#[trigger] init[i]).0@
                != (#[trigger] init[j]).0@ by {
                assert(init[i] == entries[i] && init[j] == entries[j]);
            }
            if map_of(init).dom().contains(last) {
                let i = choose|i: int| 0 <= i < init.len() && (#[trigger] init[i]).0@ == last;
                assert(entries[i].0@ == entries[entries.len() - 1].0@);
            }
        }
    }
}

/// Where `path` stands among the entries.
fn position(entries: &Vec<(String, BrokenMod)>, path: &str) -> (r: Option<usize>)
    requires
        distinct(entries@),
    ensures
        r is Some <==> map_of(entries@).dom().contains(path@),
        r matches Some(i) ==> i < entries@.len() && entries@[i as int].0@ == path@
            && map_of(entries@)[path@] == entries@[i as int].1@,
{
    let mut i: usize = 0;
    while i < entries.len()
        invariant
            distinct(entries@),
            i <= entries@.len(),
            forall|j: int| 0 <= j < i ==> (#[trigger] entries@[j]).0@ != path@,
        decreases entries@.len() - i,
    {
        if text::same_text(entries[i].0.as_str(), path) {
            proof {
                lemma_map_of(entries@);
            }
            return Some(i);
        }
        i += 1;
    }
    proof {
        lemma_map_of(entries@);
    }
    None
}


/// Puts `broken` under `path`, in place of what was there.
fn put(entries: &mut Vec<(String, BrokenMod)>, path: String, broken: BrokenMod)
    requires
        distinct(old(entries)@),
    ensures
        distinct(final(entries)@),
        map_of(final(entries)@) == map_of(old(entries)@).insert(path@, broken@),
{
    let ghost before = entries@;
    match position(entries, path.as_str()) {
        Some(i) => {
            let ghost entry = (path, broken);
            entries.set(i, (path, broken));
            proof {
                lemma_map_of(before);
                let after = entries@;
                assert(after == before.update(i as int, entry));
                assert forall|a: int, b: int| 0 <= a < b < after.len() implies (
                #[trigger] after[a]).0@ != (#[trigger] after[b]).0@ by {
                    assert(before[a].0@ != before[b].0@);
                }
                lemma_map_of(after);
                let expected = map_of(before).insert(entry.0@, entry.1@);
                assert forall|k: Seq<char>| #[trigger]
                    map_of(after).dom().contains(k) == expected.dom().contains(k) by {
                    if map_of(after).dom().contains(k) {
                        let j = choose|j: int|
                            0 <= j < after.len() && (#[trigger] after[j]).0@ == k;
                        assert(before[j].0@ == k);
                    }
                    if expected.dom().contains(k) && k != entry.0@ {
                        let j = choose|j: int|
                            0 <= j < before.len() && (#[trigger] before[j]).0@ == k;
                        assert(after[j].0@ == k);
                    }
                    if k == entry.0@ {
                        assert(after[i as int].0@ == k);
                    }
                }
                assert forall|k: Seq<char>| #[trigger]
                    map_of(after).dom().contains(k) implies map_of(after)[k]
                    == expected[k] by {
                    let j = choose|j: int|
                        0 <= j < after.len() && (#[trigger] after[j]).0@ == k;
                    if j != i {
                        assert(before[j] == after[j]);
                        assert(before[j].0@ != before[i as int].0@);
                    }
                }
                assert(map_of(after) =~= expected);
            }
        },
        None => {
            entries.push((path, broken));
            proof {
                let after = entries@;
                lemma_map_of(before);
                assert(after.drop_last() =~= before);
                assert forall|a: int, b: int| 0 <= a < b < after.len() implies (
                #[trigger] after[a]).0@ != (#[trigger] after[b]).0@ by {
                    assert(before[a] == after[a]);
                    if b < before.len() {
                        assert(before[b] == after[b]);
                    }
                }
            }
        },
    }
}


/// Takes the mod under `path` out; returns whether there was one.
fn take(entries: &mut Vec<(String, BrokenMod)>, path: &str) -> (r: bool)
    requires
        distinct(old(entries)@),
    ensures
        distinct(final(entries)@),
        map_of(final(entries)@) == map_of(old(entries)@).remove(path@),
        r == map_of(old(entries)@).dom().contains(path@),
{
    let ghost before = entries@;
    match position(entries, path) {
        Some(i) => {
            entries.remove(i);
            proof {
                lemma_map_of(before);
                let after = entries@;
                assert forall|a: int| 0 <= a < after.len() implies #[trigger] after[a]
                    == before[if a < i {
                    a
                } else {
                    a + 1
                }] by {}
                assert forall|a: int, b: int| 0 <= a < b < after.len() implies (
                #[trigger] after[a]).0@ != (#[trigger] after[b]).0@ by {}
                lemma_map_of(after);
                let expected = map_of(before).remove(path@);
                assert forall|k: Seq<char>| #[trigger]
                    map_of(after).dom().contains(k) == expected.dom().contains(k) by {
                    if map_of(after).dom().contains(k) {
                        let j = choose|j: int|
                            0 <= j < after.len() && (#[trigger] after[j]).0@ == k;
                        let b = if j < i {
                            j
                        } else {
                            j + 1
                        };
                        assert(before[b].0@ == k);
                        assert(before[b].0@ != before[i as int].0@);
                    }
                    if expected.dom().contains(k) {
                        let j = choose|j: int|
                            0 <= j < before.len() && (#[trigger] before[j]).0@ == k;
                        assert(j != i);
                        let a = if j < i {
                            j
                        } else {
                            j - 1
                        };
                        assert(after[a].0@ == k);
                    }
                }
                assert forall|k: Seq<char>| #[trigger]
                    map_of(after).dom().contains(k) implies map_of(after)[k]
                    == expected[k] by {
                    let j = choose|j: int|
                        0 <= j < after.len() && (#[trigger] after[j]).0@ == k;
                    let b = if j < i {
                        j
                    } else {
                        j + 1
                    };
                    assert(before[b] == after[j]);
                }
                assert(map_of(after) =~= expected);
            }
            true
        },
        None => {
            assert(map_of(entries@).remove(path@) =~= map_of(entries@));
            false
        },
    }
}

/// The broken mods, each under its path.
pub struct BrokenMods {
    entries: Vec<(String, BrokenMod)>,
}

impl View for BrokenMods {
    type V = Map<Seq<char>, BrokenModView>;

    closed spec fn view(&self) -> Map<Seq<char>, BrokenModView> {
        map_of(self.entries@)
    }
}

impl BrokenMods {
    /// Every path occurs once.
    #[verifier::type_invariant]
    spec fn well_formed(self) -> bool {
        distinct(self.entries@)
    }

    /// An empty registry.
    pub fn new() -> (r: Self)
        ensures
            r@ == Map::<Seq<char>, BrokenModView>::empty(),
    {
        BrokenMods { entries: Vec::new() }
    }

    /// The registry that holds `entries`; the last one counts where a path
    /// occurs twice.
    pub fn from_entries(entries: Vec<(String, BrokenMod)>) -> (r: Self)
        ensures
            r@ == map_of(entries@),
    {
        let mut kept: Vec<(String, BrokenMod)> = Vec::new();
        let mut i: usize = 0;
        while i < entries.len()
            invariant
                i <= entries@.len(),
                distinct(kept@),
                map_of(kept@) == map_of(entries@.take(i as int)),
            decreases entries@.len() - i,
        {
            put(&mut kept, entries[i].0.clone(), entries[i].1.clone());
            i += 1;
            assert(entries@.take(i as int).drop_last() =~= entries@.take(i - 1));
        }
        assert(entries@.take(i as int) =~= entries@);
        BrokenMods { entries: kept }
    }
}

/// The registry that was saved as `saved`; an empty one where nothing could be
/// read back.
pub fn load(saved: Option<Vec<(String, BrokenMod)>>) -> (r: BrokenMods)
    ensures
        r@ == (match saved {
            Some(entries) => map_of(entries@),
            None => Map::empty(),
        }),
{
    match saved {
        Some(entries) => BrokenMods::from_entries(entries),
        None => BrokenMods::new(),
    }
}

/// Whether the mod under `path` is known to be broken. An empty path names no
/// mod.
pub open spec fn broken_in(mods: Map<Seq<char>, BrokenModView>, path: Seq<char>) -> bool {
    path.len() > 0 && mods.dom().contains(path)
}

/// The registry after the mod under `path` was flagged.
pub open spec fn flagged_in(
    mods: Map<Seq<char>, BrokenModView>,
    path: Seq<char>,
    broken: BrokenModView,
) -> Map<Seq<char>, BrokenModView> {
    if path.len() == 0 {
        mods
    } else {
        mods.insert(path, broken)
    }
}

/// Whether flagging the mod under `path` for `reason_path` is worth saving: the
/// mod was not flagged yet, or for another reason.
pub open spec fn is_news(
    mods: Map<Seq<char>, BrokenModView>,
    path: Seq<char>,
    reason_path: Seq<char>,
) -> bool {
    path.len() > 0 && !(mods.dom().contains(path) && mods[path].reason_path == reason_path)
}

/// Flags the mod under `rel_path` as broken; returns whether the registry is to
/// be saved. An empty path is ignored.
pub fn flag(
    mods: &mut BrokenMods,
    rel_path: &str,
    name: &str,
    champion_id: i64,
    reason_path: &str,
) -> (r: bool)
    ensures
        final(mods)@ == flagged_in(
            old(mods)@,
            rel_path@,
            BrokenModView { name: name@, champion_id, reason_path: reason_path@ },
        ),
        r == is_news(old(mods)@, rel_path@, reason_path@),
{
    if rel_path.is_empty() {
        return false;
    }
    proof {
        use_type_invariant(&*mods);
    }
    let news = match position(&mods.entries, rel_path) {
        Some(i) => !text::same_text(mods.entries[i].1.reason_path.as_str(), reason_path),
        None => true,
    };
    let broken = BrokenMod {
        name: name.to_owned(),
        champion_id,
        reason_path: reason_path.to_owned(),
    };
    let mut entries: Vec<(String, BrokenMod)> = Vec::new();
    std::mem::swap(&mut entries, &mut mods.entries);
    put(&mut entries, rel_path.to_owned(), broken);
    mods.entries = entries;
    news
}

/// Whether the mod under `rel_path` is known to be broken.
pub fn is_broken(mods: &BrokenMods, rel_path: &str) -> (r: bool)
    ensures
        r == broken_in(mods@, rel_path@),
{
    proof {
        use_type_invariant(mods);
    }
    !rel_path.is_empty() && position(&mods.entries, rel_path).is_some()
}

/// A copy of the whole registry.
pub fn list(mods: &BrokenMods) -> (r: Vec<(String, BrokenMod)>)
    ensures
        distinct(r@),
        map_of(r@) == mods@,
        mods@.dom().finite(),
        r@.len() == mods@.dom().len(),
{
    proof {
        use_type_invariant(mods);
    }
    let mut entries: Vec<(String, BrokenMod)> = Vec::new();
    let mut i: usize = 0;
    while i < mods.entries.len()
        invariant
            i <= mods.entries@.len(),
            entries@ == mods.entries@.take(i as int),
        decreases mods.entries@.len() - i,
    {
        entries.push((mods.entries[i].0.clone(), mods.entries[i].1.clone()));
        i += 1;
        assert(mods.entries@.take(i as int) =~= mods.entries@.take(i - 1).push(
            mods.entries@[i - 1],
        ));
    }
    assert(entries@ =~= mods.entries@);
    proof {
        lemma_map_of_size(entries@);
    }
    entries
}

/// Takes back the flag of the mod under `rel_path`; returns whether the
/// registry is to be saved.
pub fn unflag(mods: &mut BrokenMods, rel_path: &str) -> (r: bool)
    ensures
        final(mods)@ == old(mods)@.remove(rel_path@),
        r == old(mods)@.dom().contains(rel_path@),
{
    proof {
        use_type_invariant(&*mods);
    }
    let mut entries: Vec<(String, BrokenMod)> = Vec::new();
    std::mem::swap(&mut entries, &mut mods.entries);
    let found = take(&mut entries, rel_path);
    mods.entries = entries;
    found
}

/// A flagged mod is broken until its flag is taken back; flags of other mods
/// are not touched by either.
pub proof fn flag_and_unflag(
    mods: Map<Seq<char>, BrokenModView>,
    path: Seq<char>,
    broken: BrokenModView,
    other: Seq<char>,
)
    requires
        path.len() > 0,
    ensures
        broken_in(flagged_in(mods, path, broken), path),
        flagged_in(mods, path, broken)[path] == broken,
        !broken_in(mods.remove(path), path),
        other != path ==> broken_in(flagged_in(mods, path, broken), other) == broken_in(
            mods,
            other,
        ),
        other != path ==> broken_in(mods.remove(path), other) == broken_in(mods, other),
{
}

/// Flagging is idempotent: the second time neither changes the registry nor is
/// worth saving.
pub proof fn flag_is_idempotent(
    mods: Map<Seq<char>, BrokenModView>,
    path: Seq<char>,
    broken: BrokenModView,
)
    ensures
        flagged_in(flagged_in(mods, path, broken), path, broken) == flagged_in(mods, path, broken),
        !is_news(flagged_in(mods, path, broken), path, broken.reason_path),
{
    let once = flagged_in(mods, path, broken);
    assert(flagged_in(once, path, broken) =~= once);
}

/// Taking back a flag that was just set on a new mod restores the registry.
pub proof fn unflag_undoes_flag(
    mods: Map<Seq<char>, BrokenModView>,
    path: Seq<char>,
    broken: BrokenModView,
)
    requires
        path.len() > 0,
        !mods.dom().contains(path),
    ensures
        flagged_in(mods, path, broken).remove(path) == mods,
{
    assert(flagged_in(mods, path, broken).remove(path) =~= mods);
}

/// An empty path names no mod: it is never broken, and flagging it does
/// nothing.
pub proof fn empty_path_is_ignored(
    mods: Map<Seq<char>, BrokenModView>,
    broken: BrokenModView,
    reason_path: Seq<char>,
)
    ensures
        !broken_in(mods, Seq::empty()),
        flagged_in(mods, Seq::empty(), broken) == mods,
        !is_news(mods, Seq::empty(), reason_path),
{
}

/// Whether the saved registry says the same of every mod as the live one, as
/// far as it matters: which mods are broken, and why.
pub open spec fn in_step(
    live: Map<Seq<char>, BrokenModView>,
    saved: Map<Seq<char>, BrokenModView>,
) -> bool {
    &&& live.dom() == saved.dom()
    &&& forall|k: Seq<char>| #[trigger]
        live.dom().contains(k) ==> live[k].reason_path == saved[k].reason_path
}

/// What is on disk stays in step with the registry when it is saved exactly
/// where [`flag`] says so.
pub proof fn flag_keeps_disk_in_step(
    live: Map<Seq<char>, BrokenModView>,
    saved: Map<Seq<char>, BrokenModView>,
    path: Seq<char>,
    broken: BrokenModView,
)
    requires
        in_step(live, saved),
    ensures
        in_step(
            flagged_in(live, path, broken),
            if is_news(live, path, broken.reason_path) {
                flagged_in(live, path, broken)
            } else {
                saved
            },
        ),
{
    let next = flagged_in(live, path, broken);
    if !is_news(live, path, broken.reason_path) {
        assert(next.dom() =~= saved.dom());
    }
}

/// What is on disk stays in step with the registry when it is saved exactly
/// where [`unflag`] says so.
pub proof fn unflag_keeps_disk_in_step(
    live: Map<Seq<char>, BrokenModView>,
    saved: Map<Seq<char>, BrokenModView>,
    path: Seq<char>,
)
    requires
        in_step(live, saved),
    ensures
        in_step(
            live.remove(path),
            if live.dom().contains(path) {
                live.remove(path)
            } else {
                saved
            },
        ),
{
    if !live.dom().contains(path) {
        assert(live.remove(path) =~= live);
    }
}

/// A restart keeps the flags: a registry in step with the live one says the
/// same of every mod, and gives the same reason.
pub proof fn restart_keeps_flags(
    live: Map<Seq<char>, BrokenModView>,
    saved: Map<Seq<char>, BrokenModView>,
    path: Seq<char>,
)
    requires
        in_step(live, saved),
    ensures
        broken_in(saved, path) == broken_in(live, path),
        broken_in(live, path) ==> saved[path].reason_path == live[path].reason_path,
{
}

/// A file in a slot of the skins directory.
pub struct ModFile {
    /// Its extension, where it has one that is text.
    pub extension: Option<String>,
    /// Its path relative to the mods directory, with the separators of the
    /// platform.
    pub path: String,
    /// Its name without the extension, where it has one.
    pub stem: Option<String>,
}

/// An entry of the skins directory.
pub struct Slot {
    pub is_dir: bool,
    /// Its name, where that is text.
    pub name: Option<String>,
    /// The files in it, where they could be listed.
    pub files: Option<Vec<ModFile>>,
}

/// A file that the scan looks into.
#[derive(Clone, Copy, Debug, PartialEq, Eq, Structural)]
pub struct Target {
    /// The slot it is in.
    pub slot: usize,
    /// Its place in the slot.
    pub file: usize,
    /// The champion that the slot belongs to.
    pub champion_id: i64,
}

/// Integer division that rounds towards zero.
pub open spec fn quotient(a: int, b: int) -> int {
    if a >= 0 {
        a / b
    } else {
        -(-a / b)
    }
}

/// The champion that a slot belongs to: a directory whose name is the number of
/// the champion's base skin, a thousand times the champion's.
pub open spec fn champion_of(is_dir: bool, name: Option<Seq<char>>) -> Option<i64> {
    match name {
        Some(name) => match text::decimal_i64(name) {
            Some(base) => if is_dir {
                Some(quotient(base as int, 1000) as i64)
            } else {
                None
            },
            None => None,
        },
        None => None,
    }
}

/// The slot of a champion is told by any of the champion's skin numbers, of
/// which the first is a thousand times the champion's.
pub proof fn skin_number_names_its_champion(name: Seq<char>, champion_id: i64, skin: int)
    requires
        skin == 0 || 0 < skin < 1000 && champion_id >= 0,
        text::decimal_value(name) == Some(champion_id * 1000 + skin),
        i64::MIN <= champion_id * 1000 + skin <= i64::MAX,
    ensures
        champion_of(true, Some(name)) == Some(champion_id),
{
}

/// The champion that the slot belongs to, `None` where it is no slot of a
/// champion.
pub fn slot_champion(is_dir: bool, name: &Option<String>) -> (r: Option<i64>)
    ensures
        r == champion_of(is_dir, text::chars_in(*name)),
{
    match name {
        Some(name) => match text::parse_i64(name.as_str()) {
            Some(base) => if is_dir {
                Some(base / 1000)
            } else {
                None
            },
            None => None,
        },
        None => None,
    }
}

/// Whether a file with this extension is a mod.
pub open spec fn is_mod(extension: Option<Seq<char>>) -> bool {
    match extension {
        Some(e) => text::ascii_lower(e) == "fantome"@ || text::ascii_lower(e) == "zip"@,
        None => false,
    }
}

/// Whether a file with this extension is a mod, in upper or lower case.
pub fn is_mod_file(extension: &Option<String>) -> (r: bool)
    ensures
        r == is_mod(text::chars_in(*extension)),
{
    match extension {
        Some(e) => {
            let low = text::to_ascii_lower(e.as_str());
            text::same_text(low.as_str(), "fantome") || text::same_text(low.as_str(), "zip")
        },
        None => false,
    }
}

/// The mods among `files`, the files of the slot at place `slot`.
pub open spec fn file_targets(slot: int, champion_id: i64, files: Seq<ModFile>) -> Seq<Target>
    decreases files.len(),
{
    if files.len() == 0 {
        Seq::empty()
    } else {
        let init = file_targets(slot, champion_id, files.drop_last());
        if is_mod(text::chars_in(files.last().extension)) {
            init.push(
                Target { slot: slot as usize, file: (files.len() - 1) as usize, champion_id },
            )
        } else {
            init
        }
    }
}

/// The mods in `s`, the slot at place `slot`.
pub open spec fn slot_targets(slot: int, s: Slot) -> Seq<Target> {
    match (champion_of(s.is_dir, text::chars_in(s.name)), s.files) {
        (Some(champion_id), Some(files)) => file_targets(slot, champion_id, files@),
        _ => Seq::empty(),
    }
}

/// The mods in all of `slots`, in order.
pub open spec fn targets_of(slots: Seq<Slot>) -> Seq<Target>
    decreases slots.len(),
{
    if slots.len() == 0 {
        Seq::empty()
    } else {
        targets_of(slots.drop_last()) + slot_targets(slots.len() - 1, slots.last())
    }
}

/// The files that a scan of `slots` looks into, in order.
pub fn scan_targets(slots: &Vec<Slot>) -> (r: Vec<Target>)
    ensures
        r@ == targets_of(slots@),
{
    let mut targets: Vec<Target> = Vec::new();
    let mut i: usize = 0;
    while i < slots.len()
        invariant
            i <= slots@.len(),
            targets@ == targets_of(slots@.take(i as int)),
        decreases slots@.len() - i,
    {
        let ghost before = targets@;
        let champion = slot_champion(slots[i].is_dir, &slots[i].name);
        if let Some(champion_id) = champion {
            if let Some(files) = &slots[i].files {
                let mut j: usize = 0;
                while j < files.len()
                    invariant
                        j <= files@.len(),
                        targets@ == before + file_targets(
                            i as int,
                            champion_id,
                            files@.take(j as int),
                        ),
                    decreases files@.len() - j,
                {
                    let ghost so_far = file_targets(i as int, champion_id, files@.take(j as int));
                    if is_mod_file(&files[j].extension) {
                        targets.push(Target { slot: i, file: j, champion_id });
                    }
                    j += 1;
                    proof {
                        let t = Target { slot: i, file: (j - 1) as usize, champion_id };
                        assert(files@.take(j as int).drop_last() =~= files@.take(j - 1));
                        assert((before + so_far).push(t) =~= before + so_far.push(t));
                    }
                }
                assert(files@.take(j as int) =~= files@);
            }
        }
        i += 1;
        proof {
            assert(slots@.take(i as int).drop_last() =~= slots@.take(i - 1));
            assert(slots@.take(i as int).last() == slots@[i - 1]);
            assert(before + Seq::<Target>::empty() =~= before);
        }
    }
    assert(slots@.take(i as int) =~= slots@);
    targets
}

/// The file that `t` points to.
pub open spec fn file_at(slots: Seq<Slot>, t: Target) -> ModFile {
    slots[t.slot as int].files->0@[t.file as int]
}

/// Whether `t` points to a file.
pub open spec fn points_to_file(slots: Seq<Slot>, t: Target) -> bool {
    &&& t.slot < slots.len()
    &&& slots[t.slot as int].files is Some
    &&& t.file < slots[t.slot as int].files->0@.len()
}

/// Every target of a slot points to one of its files.
proof fn lemma_file_targets(slot: int, champion_id: i64, files: Seq<ModFile>, i: int)
    requires
        0 <= slot <= usize::MAX,
        files.len() <= usize::MAX,
        0 <= i < file_targets(slot, champion_id, files).len(),
    ensures
        file_targets(slot, champion_id, files)[i].slot == slot,
        file_targets(slot, champion_id, files)[i].file < files.len(),
    decreases files.len(),
{
    let init = file_targets(slot, champion_id, files.drop_last());
    if i < init.len() {
        lemma_file_targets(slot, champion_id, files.drop_last(), i);
    }
}

/// Every target points to a file.
proof fn lemma_targets_point_to_files(slots: Seq<Slot>, i: int)
    requires
        slots.len() <= usize::MAX,
        0 <= i < targets_of(slots).len(),
    ensures
        points_to_file(slots, targets_of(slots)[i]),
    decreases slots.len(),
{
    let init = targets_of(slots.drop_last());
    if i < init.len() {
        lemma_targets_point_to_files(slots.drop_last(), i);
    } else {
        let last = slots.last();
        if let (Some(champion_id), Some(files)) = (
            champion_of(last.is_dir, text::chars_in(last.name)),
            last.files,
        ) {
            assert(files@.len() == files.len());
            lemma_file_targets(slots.len() - 1, champion_id, files@, i - init.len());
        }
    }
}

/// The path that a file is flagged under: relative to the mods directory, with
/// forward slashes on every platform.
pub open spec fn rel_path_of(file: ModFile) -> Seq<char> {
    text::char_replaced(file.path@, '\\', '/')
}

/// The scan flags a mod under the same path on every platform: the path has no
/// backslash, and one without backslashes is taken as it is.
pub proof fn scan_paths_have_forward_slashes(file: ModFile, i: int)
    requires
        0 <= i < file.path@.len(),
    ensures
        rel_path_of(file).len() == file.path@.len(),
        rel_path_of(file)[i] == (if file.path@[i] == '\\' {
            '/'
        } else {
            file.path@[i]
        }),
        rel_path_of(file)[i] != '\\',
{
}

/// The entry of a file that was found to override `reason_path`.
pub open spec fn finding_of(file: ModFile, champion_id: i64, reason_path: Seq<char>) -> BrokenModView {
    BrokenModView {
        name: match file.stem {
            Some(stem) => stem@,
            None => Seq::empty(),
        },
        champion_id,
        reason_path,
    }
}

/// The state of a scan.
pub struct ScanView {
    /// The registry.
    pub mods: Map<Seq<char>, BrokenModView>,
    /// The registry as the scan last had it saved, if it did.
    pub saved: Option<Map<Seq<char>, BrokenModView>>,
    /// How many mods turned out broken that were not known to be.
    pub flagged: nat,
    /// The flags that were news, in the order in which they were set.
    pub news: Seq<(Seq<char>, BrokenModView)>,
}

/// The scan after it flagged the mod under `path`.
pub open spec fn scan_found(scan: ScanView, path: Seq<char>, broken: BrokenModView) -> ScanView {
    let mods = flagged_in(scan.mods, path, broken);
    ScanView {
        mods,
        saved: if is_news(scan.mods, path, broken.reason_path) {
            Some(mods)
        } else {
            scan.saved
        },
        flagged: if broken_in(scan.mods, path) {
            scan.flagged
        } else {
            scan.flagged + 1
        },
        news: if is_news(scan.mods, path, broken.reason_path) {
            scan.news.push((path, broken))
        } else {
            scan.news
        },
    }
}

/// A scan of `slots` that started with the registry `mods`, after its first `n`
/// targets. `verdicts` says of each target which game path of the champion it
/// overrides, if any.
pub open spec fn scanned(
    mods: Map<Seq<char>, BrokenModView>,
    slots: Seq<Slot>,
    verdicts: Seq<Option<String>>,
    n: int,
) -> ScanView
    decreases n,
{
    if n <= 0 {
        ScanView { mods, saved: None, flagged: 0, news: Seq::empty() }
    } else {
        let before = scanned(mods, slots, verdicts, n - 1);
        let target = targets_of(slots)[n - 1];
        let file = file_at(slots, target);
        match verdicts[n - 1] {
            Some(reason) => scan_found(
                before,
                rel_path_of(file),
                finding_of(file, target.champion_id, reason@),
            ),
            None => before,
        }
    }
}

/// What a scan came to.
pub struct ScanReport {
    /// How many mods turned out broken that were not known to be.
    pub flagged: usize,
    /// The registry to save, if it is to be saved.
    pub save: Option<Vec<(String, BrokenMod)>>,
    /// The flags that were news, in the order in which they were set.
    pub news: Vec<(String, BrokenMod)>,
}

/// What a list of entries holds, in order.
pub open spec fn entries_in(entries: Seq<(String, BrokenMod)>) -> Seq<(Seq<char>, BrokenModView)> {
    entries.map_values(|e: (String, BrokenMod)| (e.0@, e.1@))
}

/// Whether target `i` was found to be broken.
pub open spec fn is_finding(verdicts: Seq<Option<String>>, i: int) -> bool {
    verdicts[i] is Some
}

/// The path of target `i`.
pub open spec fn target_path(slots: Seq<Slot>, i: int) -> Seq<char> {
    rel_path_of(file_at(slots, targets_of(slots)[i]))
}

/// Whether none of the findings among the first `n` targets has an empty path.
pub open spec fn findings_have_paths(
    slots: Seq<Slot>,
    verdicts: Seq<Option<String>>,
    n: int,
) -> bool {
    forall|i: int|
        0 <= i < n && #[trigger] is_finding(verdicts, i) ==> target_path(slots, i).len() > 0
}

/// Whether no two of the findings among the first `n` targets have the same
/// path.
pub open spec fn findings_are_distinct(
    slots: Seq<Slot>,
    verdicts: Seq<Option<String>>,
    n: int,
) -> bool {
    forall|i: int, j: int|
        0 <= i < j < n && #[trigger] is_finding(verdicts, i) && #[trigger] is_finding(verdicts, j)
            ==> target_path(slots, i) != target_path(slots, j)
}

/// The registry in a copy of it, if there is one.
pub open spec fn map_in(save: Option<Vec<(String, BrokenMod)>>) -> Option<
    Map<Seq<char>, BrokenModView>,
> {
    match save {
        Some(entries) => Some(map_of(entries@)),
        None => None,
    }
}

/// Flags every mod in `slots` that overrides its champion's ability data.
/// `verdicts` says of each of [`scan_targets`] which game path it overrides, if
/// any.
pub fn scan_and_flag(
    mods: &mut BrokenMods,
    slots: &Vec<Slot>,
    verdicts: &Vec<Option<String>>,
) -> (r: ScanReport)
    requires
        verdicts@.len() == targets_of(slots@).len(),
    ensures
        final(mods)@ == scanned(old(mods)@, slots@, verdicts@, verdicts@.len() as int).mods,
        r.flagged == scanned(old(mods)@, slots@, verdicts@, verdicts@.len() as int).flagged,
        map_in(r.save) == scanned(old(mods)@, slots@, verdicts@, verdicts@.len() as int).saved,
        entries_in(r.news@) == scanned(old(mods)@, slots@, verdicts@, verdicts@.len() as int).news,
        findings_have_paths(slots@, verdicts@, verdicts@.len() as int) ==> final(mods)@.dom().len()
            == old(mods)@.dom().len() + r.flagged,
{
    let targets = scan_targets(slots);
    let mut flagged: usize = 0;
    let mut save: Option<Vec<(String, BrokenMod)>> = None;
    let mut news: Vec<(String, BrokenMod)> = Vec::new();
    let mut i: usize = 0;
    while i < targets.len()
        invariant
            i <= targets@.len(),
            targets@ == targets_of(slots@),
            verdicts@.len() == targets@.len(),
            flagged <= i,
            mods@ == scanned(old(mods)@, slots@, verdicts@, i as int).mods,
            flagged == scanned(old(mods)@, slots@, verdicts@, i as int).flagged,
            map_in(save) == scanned(old(mods)@, slots@, verdicts@, i as int).saved,
            entries_in(news@) == scanned(old(mods)@, slots@, verdicts@, i as int).news,
        decreases targets@.len() - i,
    {
        let target = targets[i];
        if let Some(reason) = &verdicts[i] {
            proof {
                assert(slots@.len() == slots.len());
                lemma_targets_point_to_files(slots@, i as int);
            }
            if let Some(files) = &slots[target.slot].files {
                let file = &files[target.file];
                let rel = text::replace_char(file.path.as_str(), '\\', '/');
                let name = match &file.stem {
                    Some(stem) => stem.clone(),
                    None => String::new(),
                };
                if !is_broken(mods, rel.as_str()) {
                    flagged += 1;
                }
                if flag(mods, rel.as_str(), name.as_str(), target.champion_id, reason.as_str()) {
                    save = Some(list(mods));
                    let ghost so_far = news@;
                    let broken = BrokenMod {
                        name,
                        champion_id: target.champion_id,
                        reason_path: reason.clone(),
                    };
                    let ghost entry = (rel@, broken@);
                    news.push((rel, broken));
                    assert(entries_in(news@) =~= entries_in(so_far).push(entry));
                }
            }
        }
        i += 1;
    }
    proof {
        registry_is_finite(*old(mods));
        if findings_have_paths(slots@, verdicts@, verdicts@.len() as int) {
            scan_counts_new_mods(old(mods)@, slots@, verdicts@, verdicts@.len() as int);
        }
    }
    ScanReport { flagged, save, news }
}

/// A scan forgets no broken mod and flags every mod that it found: after the
/// scan, each target with a verdict is broken, and so is each mod that was.
pub proof fn scan_flags_every_finding(
    mods: Map<Seq<char>, BrokenModView>,
    slots: Seq<Slot>,
    verdicts: Seq<Option<String>>,
    n: int,
    i: int,
    known: Seq<char>,
)
    requires
        0 <= i < n <= targets_of(slots).len(),
    ensures
        broken_in(mods, known) ==> broken_in(scanned(mods, slots, verdicts, n).mods, known),
        ({
            let path = rel_path_of(file_at(slots, targets_of(slots)[i]));
            verdicts[i] is Some && path.len() > 0 ==> broken_in(
                scanned(mods, slots, verdicts, n).mods,
                path,
            )
        }),
    decreases n,
{
    if i < n - 1 {
        scan_flags_every_finding(mods, slots, verdicts, n - 1, i, known);
    } else {
        lemma_scan_keeps(mods, slots, verdicts, n - 1, known);
    }
}

/// A scan forgets no broken mod.
proof fn lemma_scan_keeps(
    mods: Map<Seq<char>, BrokenModView>,
    slots: Seq<Slot>,
    verdicts: Seq<Option<String>>,
    n: int,
    known: Seq<char>,
)
    ensures
        broken_in(mods, known) ==> broken_in(scanned(mods, slots, verdicts, n).mods, known),
    decreases n,
{
    if n > 0 {
        lemma_scan_keeps(mods, slots, verdicts, n - 1, known);
    }
}

/// A registry holds finitely many mods.
pub proof fn registry_is_finite(mods: BrokenMods)
    ensures
        mods@.dom().finite(),
{
    lemma_map_of_size(mods.entries@);
}

/// The number a scan reports is the number of mods that it added to the
/// registry, as long as no finding has an empty path.
pub proof fn scan_counts_new_mods(
    mods: Map<Seq<char>, BrokenModView>,
    slots: Seq<Slot>,
    verdicts: Seq<Option<String>>,
    n: int,
)
    requires
        mods.dom().finite(),
        0 <= n <= targets_of(slots).len(),
        findings_have_paths(slots, verdicts, n),
    ensures
        scanned(mods, slots, verdicts, n).mods.dom().finite(),
        scanned(mods, slots, verdicts, n).mods.dom().len() == mods.dom().len() + scanned(
            mods,
            slots,
            verdicts,
            n,
        ).flagged,
    decreases n,
{
    if n > 0 {
        scan_counts_new_mods(mods, slots, verdicts, n - 1);
        let before = scanned(mods, slots, verdicts, n - 1).mods;
        let after = scanned(mods, slots, verdicts, n).mods;
        let path = target_path(slots, n - 1);
        if is_finding(verdicts, n - 1) {
            assert(path.len() > 0);
            assert(after.dom() =~= before.dom().insert(path));
        }
    }
}

/// Scanning again reports nothing: a second scan of the same files with the same
/// verdicts finds no mod that was not known, as long as no finding has an empty
/// path.
pub proof fn rescan_flags_nothing(
    mods: Map<Seq<char>, BrokenModView>,
    slots: Seq<Slot>,
    verdicts: Seq<Option<String>>,
    n: int,
    m: int,
)
    requires
        0 <= m <= n <= targets_of(slots).len(),
        findings_have_paths(slots, verdicts, n),
    ensures
        scanned(scanned(mods, slots, verdicts, n).mods, slots, verdicts, m).flagged == 0,
    decreases m,
{
    if m > 0 {
        let once = scanned(mods, slots, verdicts, n).mods;
        rescan_flags_nothing(mods, slots, verdicts, n, m - 1);
        if is_finding(verdicts, m - 1) {
            let path = target_path(slots, m - 1);
            assert(path.len() > 0);
            scan_flags_every_finding(mods, slots, verdicts, n, m - 1, path);
            lemma_scan_keeps(once, slots, verdicts, m - 1, path);
        }
    }
}

/// The entry that target `i` is flagged with, where it is a finding.
pub open spec fn target_finding(
    slots: Seq<Slot>,
    verdicts: Seq<Option<String>>,
    i: int,
) -> BrokenModView {
    let target = targets_of(slots)[i];
    finding_of(file_at(slots, target), target.champion_id, verdicts[i]->0@)
}

/// After a scan whose findings are distinct, each finding stands in the registry
/// as it was made.
proof fn lemma_scan_records(
    mods: Map<Seq<char>, BrokenModView>,
    slots: Seq<Slot>,
    verdicts: Seq<Option<String>>,
    n: int,
    i: int,
)
    requires
        0 <= i < n,
        findings_are_distinct(slots, verdicts, n),
        is_finding(verdicts, i),
        target_path(slots, i).len() > 0,
    ensures
        scanned(mods, slots, verdicts, n).mods.dom().contains(target_path(slots, i)),
        scanned(mods, slots, verdicts, n).mods[target_path(slots, i)] == target_finding(
            slots,
            verdicts,
            i,
        ),
    decreases n,
{
    if i < n - 1 {
        lemma_scan_records(mods, slots, verdicts, n - 1, i);
        if is_finding(verdicts, n - 1) {
            assert(target_path(slots, i) != target_path(slots, n - 1));
        }
    }
}

/// Scanning again changes nothing: with distinct findings, a second scan of the
/// same files with the same verdicts leaves the registry as it is, has nothing
/// saved and brings no news; it reports no mod either, as long as no finding has
/// an empty path.
pub proof fn rescan_changes_nothing(
    mods: Map<Seq<char>, BrokenModView>,
    slots: Seq<Slot>,
    verdicts: Seq<Option<String>>,
    n: int,
    m: int,
)
    requires
        0 <= m <= n <= targets_of(slots).len(),
        findings_are_distinct(slots, verdicts, n),
    ensures
        ({
            let once = scanned(mods, slots, verdicts, n).mods;
            let again = scanned(once, slots, verdicts, m);
            &&& again.mods == once
            &&& again.saved is None
            &&& again.news == Seq::<(Seq<char>, BrokenModView)>::empty()
            &&& findings_have_paths(slots, verdicts, n) ==> again.flagged == 0
        }),
    decreases m,
{
    let once = scanned(mods, slots, verdicts, n).mods;
    if m > 0 {
        rescan_changes_nothing(mods, slots, verdicts, n, m - 1);
        let path = target_path(slots, m - 1);
        if is_finding(verdicts, m - 1) && path.len() > 0 {
            lemma_scan_records(mods, slots, verdicts, n, m - 1);
            assert(scanned(once, slots, verdicts, m).mods =~= once);
        }
    }
    if findings_have_paths(slots, verdicts, n) {
        rescan_flags_nothing(mods, slots, verdicts, n, m);
    }
}

/// What is on disk stays in step with the registry when a scan is saved as its
/// report says.
pub proof fn scan_keeps_disk_in_step(
    mods: Map<Seq<char>, BrokenModView>,
    saved: Map<Seq<char>, BrokenModView>,
    slots: Seq<Slot>,
    verdicts: Seq<Option<String>>,
    n: int,
)
    requires
        in_step(mods, saved),
    ensures
        in_step(
            scanned(mods, slots, verdicts, n).mods,
            match scanned(mods, slots, verdicts, n).saved {
                Some(entries) => entries,
                None => saved,
            },
        ),
    decreases n,
{
    if n > 0 {
        scan_keeps_disk_in_step(mods, saved, slots, verdicts, n - 1);
        let before = scanned(mods, slots, verdicts, n - 1);
        let disk = match before.saved {
            Some(entries) => entries,
            None => saved,
        };
        let target = targets_of(slots)[n - 1];
        let file = file_at(slots, target);
        if let Some(reason) = verdicts[n - 1] {
            flag_keeps_disk_in_step(
                before.mods,
                disk,
                rel_path_of(file),
                finding_of(file, target.champion_id, reason@),
            );
        }
    }
}

/// A registry read back from entries knows exactly the paths among them, each
/// with its last entry.
pub proof fn registry_holds_the_last_entries(
    entries: Seq<(String, BrokenMod)>,
    path: Seq<char>,
    i: int,
)
    ensures
        map_of(entries).dom().contains(path) <==> exists|j: int|
            0 <= j < entries.len() && (#[trigger] entries[j]).0@ == path,
        0 <= i < entries.len() && entries[i].0@ == path && (forall|j: int|
            i < j < entries.len() ==> (#[trigger] entries[j]).0@ != path) ==> map_of(entries)[path]
            == entries[i].1@,
    decreases entries.len(),
{
    lemma_map_of(entries);
    if 0 <= i < entries.len() && entries[i].0@ == path && (forall|j: int|
        i < j < entries.len() ==> (#[trigger] entries[j]).0@ != path) {
        if i < entries.len() - 1 {
            let init = entries.drop_last();
            assert(entries[entries.len() - 1].0@ != path);
            assert forall|j: int| i < j < init.len() implies (#[trigger] init[j]).0@ != path by {
                assert(init[j] == entries[j]);
            }
            assert(init[i] == entries[i]);
            registry_holds_the_last_entries(init, path, i);
        }
    }
}

/// A flag is worth saving exactly where it is new or gives another reason; under
/// another name or champion alone it is not. It is recorded as it is given, and
/// no other entry is touched.
pub proof fn new_flag_or_reason_is_news(
    mods: Map<Seq<char>, BrokenModView>,
    path: Seq<char>,
    broken: BrokenModView,
    other: Seq<char>,
)
    requires
        path.len() > 0,
    ensures
        !mods.dom().contains(path) ==> is_news(mods, path, broken.reason_path),
        mods.dom().contains(path) && mods[path].reason_path != broken.reason_path ==> is_news(
            mods,
            path,
            broken.reason_path,
        ),
        mods.dom().contains(path) && mods[path].reason_path == broken.reason_path ==> !is_news(
            mods,
            path,
            broken.reason_path,
        ),
        flagged_in(mods, path, broken).dom().contains(path),
        flagged_in(mods, path, broken)[path] == broken,
        other != path ==> flagged_in(mods, path, broken).dom().contains(other)
            == mods.dom().contains(other),
        other != path && mods.dom().contains(other) ==> flagged_in(mods, path, broken)[other]
            == mods[other],
        broken_in(mods, path) == mods.dom().contains(path),
{
}

/// A slot belongs to a champion exactly where it is a directory whose name
/// writes a number of the range of `i64`; the champion is that number without
/// its last three digits.
pub proof fn slot_belongs_to_the_champion_it_names(
    is_dir: bool,
    name: Option<Seq<char>>,
    number: int,
)
    ensures
        !is_dir || name is None ==> champion_of(is_dir, name) is None,
        name matches Some(n) ==> {
            &&& text::decimal_value(n) is None ==> champion_of(is_dir, name) is None
            &&& text::decimal_value(n) == Some(number) && !(i64::MIN <= number <= i64::MAX)
                ==> champion_of(is_dir, name) is None
            &&& is_dir && text::decimal_value(n) == Some(number) && i64::MIN <= number <= i64::MAX
                ==> (champion_of(is_dir, name) matches Some(c) && (if number >= 0 {
                1000 * c <= number < 1000 * c + 1000
            } else {
                1000 * c - 1000 < number <= 1000 * c
            }))
        },
{
}

/// Whether `s` spells a word in upper and lower case, whose letters are `lower`
/// and `upper`.
pub open spec fn spells(s: Seq<char>, lower: Seq<char>, upper: Seq<char>) -> bool {
    &&& s.len() == lower.len()
    &&& forall|i: int| 0 <= i < s.len() ==> #[trigger] s[i] == lower[i] || s[i] == upper[i]
}

/// A text is a lower-case word when its letters are lowered exactly where it
/// spells the word.
proof fn lemma_lowered_spells(s: Seq<char>, lower: Seq<char>, upper: Seq<char>)
    requires
        lower.len() == upper.len(),
        forall|i: int|
            0 <= i < lower.len() ==> 'a' <= #[trigger] lower[i] <= 'z' && upper[i] as int + 32
                == lower[i] as int,
    ensures
        text::ascii_lower(s) == lower <==> spells(s, lower, upper),
{
    let low = text::ascii_lower(s);
    if spells(s, lower, upper) {
        assert forall|i: int| 0 <= i < s.len() implies #[trigger] low[i] == lower[i] by {
            text::characters_are_replaced_in_place(s, 'a', 'a', i);
            assert(s[i] == lower[i] || s[i] == upper[i]);
        }
        assert(low =~= lower);
    }
    if low == lower {
        assert forall|i: int| 0 <= i < s.len() implies #[trigger] s[i] == lower[i] || s[i]
            == upper[i] by {
            text::characters_are_replaced_in_place(s, 'a', 'a', i);
            assert(low[i] == lower[i]);
        }
    }
}

/// A file is a mod exactly where its extension spells `fantome` or `zip`, each
/// letter in upper or lower case.
pub proof fn mods_are_told_by_their_extension(extension: Option<Seq<char>>)
    ensures
        is_mod(extension) <==> (match extension {
            Some(e) => spells(e, "fantome"@, "FANTOME"@) || spells(e, "zip"@, "ZIP"@),
            None => false,
        }),
{
    reveal_strlit("fantome");
    reveal_strlit("FANTOME");
    reveal_strlit("zip");
    reveal_strlit("ZIP");
    if let Some(e) = extension {
        lemma_lowered_spells(e, "fantome"@, "FANTOME"@);
        lemma_lowered_spells(e, "zip"@, "ZIP"@);
    }
}

/// The targets in a slot are its mods, in order.
proof fn lemma_file_targets_are_the_mods(
    slot: int,
    champion_id: i64,
    files: Seq<ModFile>,
    t: Target,
    a: int,
    b: int,
)
    requires
        0 <= slot <= usize::MAX,
        files.len() <= usize::MAX,
    ensures
        file_targets(slot, champion_id, files).contains(t) <==> {
            &&& t.slot == slot
            &&& t.champion_id == champion_id
            &&& t.file < files.len()
            &&& is_mod(text::chars_in(files[t.file as int].extension))
        },
        0 <= a < b < file_targets(slot, champion_id, files).len() ==> file_targets(
            slot,
            champion_id,
            files,
        )[a].file < file_targets(slot, champion_id, files)[b].file,
    decreases files.len(),
{
    if files.len() > 0 {
        let init = files.drop_last();
        let before = file_targets(slot, champion_id, init);
        let all = file_targets(slot, champion_id, files);
        let last = Target { slot: slot as usize, file: (files.len() - 1) as usize, champion_id };
        lemma_file_targets_are_the_mods(slot, champion_id, init, t, a, b);
        if t.file < init.len() {
            assert(init[t.file as int] == files[t.file as int]);
        }
        if is_mod(text::chars_in(files.last().extension)) {
            assert(all == before.push(last));
            if before.contains(t) {
                let k = choose|k: int| 0 <= k < before.len() && before[k] == t;
                assert(all[k] == t);
            }
            assert(all[before.len() as int] == last);
            if all.contains(t) && t != last {
                let k = choose|k: int| 0 <= k < all.len() && all[k] == t;
                assert(before[k] == t);
            }
            if 0 <= a < before.len() {
                lemma_file_targets(slot, champion_id, init, a);
            }
        }
    }
}

/// The scan looks into every mod and nothing else, each once and in order: a
/// file is a target exactly where its slot belongs to a champion and its own
/// extension spells `fantome` or `zip`, whatever other files the slot holds.
pub proof fn scan_looks_into_every_mod(slots: Seq<Slot>, t: Target, a: int, b: int)
    requires
        slots.len() <= usize::MAX,
    ensures
        targets_of(slots).contains(t) <==> {
            &&& t.slot < slots.len()
            &&& champion_of(
                slots[t.slot as int].is_dir,
                text::chars_in(slots[t.slot as int].name),
            ) == Some(t.champion_id)
            &&& slots[t.slot as int].files matches Some(files)
            &&& t.file < files@.len()
            &&& files@[t.file as int].extension matches Some(e)
            &&& spells(e@, "fantome"@, "FANTOME"@) || spells(e@, "zip"@, "ZIP"@)
        },
        0 <= a < b < targets_of(slots).len() ==> {
            let (x, y) = (targets_of(slots)[a], targets_of(slots)[b]);
            x.slot < y.slot || x.slot == y.slot && x.file < y.file
        },
    decreases slots.len(),
{
    if slots.len() > 0 {
        let init = slots.drop_last();
        let before = targets_of(init);
        let at = slots.len() - 1;
        let last = slots.last();
        let here = slot_targets(at, last);
        let all = targets_of(slots);
        assert(all == before + here);
        scan_looks_into_every_mod(init, t, a, b);
        if t.slot < init.len() {
            assert(init[t.slot as int] == slots[t.slot as int]);
        }
        if before.contains(t) {
            let k = choose|k: int| 0 <= k < before.len() && before[k] == t;
            assert(all[k] == t);
        }
        if here.contains(t) {
            let k = choose|k: int| 0 <= k < here.len() && here[k] == t;
            assert(all[before.len() + k] == t);
        }
        if all.contains(t) {
            let k = choose|k: int| 0 <= k < all.len() && all[k] == t;
            if k < before.len() {
                assert(before[k] == t);
            } else {
                assert(here[k - before.len()] == t);
            }
        }
        if let (Some(champion_id), Some(files)) = (
            champion_of(last.is_dir, text::chars_in(last.name)),
            last.files,
        ) {
            assert(files@.len() == files.len());
            lemma_file_targets_are_the_mods(
                at,
                champion_id,
                files@,
                t,
                a - before.len(),
                b - before.len(),
            );
            if t.file < files@.len() {
                mods_are_told_by_their_extension(
                    text::chars_in(files@[t.file as int].extension),
                );
            }
            if before.len() <= b < all.len() {
                lemma_file_targets(at, champion_id, files@, b - before.len());
                assert(all[b] == here[b - before.len()]);
            }
            if before.len() <= a < all.len() {
                lemma_file_targets(at, champion_id, files@, a - before.len());
                assert(all[a] == here[a - before.len()]);
            }
        }
        if 0 <= a < before.len() {
            lemma_targets_point_to_files(init, a);
        }
    }
}

/// Each target is dealt with on its own: one without a verdict changes nothing;
/// one with a verdict is flagged under its path with forward slashes, with the
/// stem of its own file as the name, the champion of its slot and the verdict as
/// the reason. It counts where it was not known, and it is news, and has the
/// registry saved, where it was not known or known for another reason.
pub proof fn each_target_is_dealt_with(
    mods: Map<Seq<char>, BrokenModView>,
    slots: Seq<Slot>,
    verdicts: Seq<Option<String>>,
    n: int,
    path: Seq<char>,
    name: Seq<char>,
)
    requires
        0 < n <= targets_of(slots).len(),
        ({
            let t = targets_of(slots)[n - 1];
            let file = slots[t.slot as int].files->0@[t.file as int];
            &&& path.len() == file.path@.len()
            &&& forall|k: int|
                0 <= k < path.len() ==> #[trigger] path[k] == (if file.path@[k] == '\\' {
                    '/'
                } else {
                    file.path@[k]
                })
            &&& file.stem matches Some(stem) ==> name == stem@
            &&& file.stem is None ==> name.len() == 0
        }),
    ensures
        scanned(mods, slots, verdicts, 0) == (ScanView {
            mods,
            saved: None,
            flagged: 0,
            news: Seq::empty(),
        }),
        ({
            let before = scanned(mods, slots, verdicts, n - 1);
            let after = scanned(mods, slots, verdicts, n);
            let known = before.mods.dom().contains(path);
            &&& verdicts[n - 1] is None ==> after == before
            &&& verdicts[n - 1] matches Some(reason) ==> {
                let entry = BrokenModView {
                    name,
                    champion_id: targets_of(slots)[n - 1].champion_id,
                    reason_path: reason@,
                };
                &&& path.len() == 0 ==> after == (ScanView { flagged: before.flagged + 1, ..before })
                &&& path.len() > 0 ==> {
                    &&& after.mods == before.mods.insert(path, entry)
                    &&& after.flagged == before.flagged + if known {
                        0int
                    } else {
                        1int
                    }
                    &&& if known && before.mods[path].reason_path == reason@ {
                        after.saved == before.saved && after.news == before.news
                    } else {
                        after.saved == Some(after.mods) && after.news == before.news.push(
                            (path, entry),
                        )
                    }
                }
            }
        }),
{
    let t = targets_of(slots)[n - 1];
    let file = slots[t.slot as int].files->0@[t.file as int];
    assert(rel_path_of(file) =~= path);
    if file.stem is None {
        assert(name =~= Seq::empty());
    }
}

/// A scan records every finding: where findings are distinct, each stands in the
/// registry under its path, as it was made, and every other entry is as it was
/// before the scan.
pub proof fn scan_records_its_findings_only(
    mods: Map<Seq<char>, BrokenModView>,
    slots: Seq<Slot>,
    verdicts: Seq<Option<String>>,
    n: int,
    i: int,
    other: Seq<char>,
)
    requires
        0 <= i < n <= targets_of(slots).len(),
        findings_are_distinct(slots, verdicts, n),
    ensures
        ({
            let t = targets_of(slots)[i];
            let file = slots[t.slot as int].files->0@[t.file as int];
            let path = text::char_replaced(file.path@, '\\', '/');
            let end = scanned(mods, slots, verdicts, n).mods;
            verdicts[i] matches Some(reason) ==> (path.len() > 0 ==> {
                &&& end.dom().contains(path)
                &&& end[path].champion_id == t.champion_id
                &&& end[path].reason_path == reason@
                &&& file.stem matches Some(stem) ==> end[path].name == stem@
                &&& file.stem is None ==> end[path].name.len() == 0
            })
        }),
        (forall|k: int|
            0 <= k < n && #[trigger] is_finding(verdicts, k) ==> target_path(slots, k) != other)
            ==> {
            let end = scanned(mods, slots, verdicts, n).mods;
            &&& end.dom().contains(other) == mods.dom().contains(other)
            &&& mods.dom().contains(other) ==> end[other] == mods[other]
        },
{
    if is_finding(verdicts, i) && target_path(slots, i).len() > 0 {
        lemma_scan_records(mods, slots, verdicts, n, i);
    }
    if forall|k: int|
        0 <= k < n && #[trigger] is_finding(verdicts, k) ==> target_path(slots, k) != other {
        lemma_scan_leaves_the_rest(mods, slots, verdicts, n, other);
    }
}

/// A path that no finding has keeps its entry.
proof fn lemma_scan_leaves_the_rest(
    mods: Map<Seq<char>, BrokenModView>,
    slots: Seq<Slot>,
    verdicts: Seq<Option<String>>,
    n: int,
    other: Seq<char>,
)
    requires
        forall|k: int|
            0 <= k < n && #[trigger] is_finding(verdicts, k) ==> target_path(slots, k) != other,
    ensures
        ({
            let end = scanned(mods, slots, verdicts, n).mods;
            &&& end.dom().contains(other) == mods.dom().contains(other)
            &&& mods.dom().contains(other) ==> end[other] == mods[other]
        }),
    decreases n,
{
    if n > 0 {
        lemma_scan_leaves_the_rest(mods, slots, verdicts, n - 1, other);
        if is_finding(verdicts, n - 1) {
            assert(target_path(slots, n - 1) != other);
        }
    }
}

/// A scan is saved exactly where it brings news.
pub proof fn scan_is_saved_with_its_news(
    mods: Map<Seq<char>, BrokenModView>,
    slots: Seq<Slot>,
    verdicts: Seq<Option<String>>,
    n: int,
)
    ensures
        scanned(mods, slots, verdicts, n).saved is Some <==> scanned(
            mods,
            slots,
            verdicts,
            n,
        ).news.len() > 0,
    decreases n,
{
    if n > 0 {
        scan_is_saved_with_its_news(mods, slots, verdicts, n - 1);
    }
}

/// Mods and lists of entries are shown as they are, in order.
pub proof fn entries_are_shown_as_they_are(
    broken: BrokenMod,
    entries: Vec<(String, BrokenMod)>,
    i: int,
)
    requires
        0 <= i < entries@.len(),
    ensures
        broken@.name == broken.name@,
        broken@.champion_id == broken.champion_id,
        broken@.reason_path == broken.reason_path@,
        entries_in(entries@).len() == entries@.len(),
        entries_in(entries@)[i] == (entries@[i].0@, entries@[i].1@),
        map_in(Some(entries)) == Some(map_of(entries@)),
        map_in(None) is None,
{
}

} // verus!
