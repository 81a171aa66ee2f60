use vstd::prelude::*;

use crate::error::KilnError;
use crate::modpack_file::{
    distinct_keys, duplicate_mods, has_key, mod_views, KilnFile, KilnMod, ModFields, ModView,
    PackView,
};
use crate::resolve::{
    distinct_references, lemma_resolved_mods_are_distinct, outcome_views, plan, plan_of,
    resolved_mods, Lookup, Outcome, ResolvedRelease,
};
use crate::text::str_eq;

verus! {

/// Entry `i` is the one entry of `mods` that answers to `key`.
pub open spec fn only_match(mods: Seq<ModView>, key: Seq<char>, i: int) -> bool {
    &&& 0 <= i < mods.len()
    &&& mods[i].key() == key
    &&& forall|j: int| 0 <= j < mods.len() && j != i ==> (#[trigger] mods[j]).key() != key
}

/// More than one entry of `mods` answers to `key`.
pub open spec fn several_match(mods: Seq<ModView>, key: Seq<char>) -> bool {
    exists|i: int, j: int|
        0 <= i < j < mods.len() && (#[trigger] mods[i]).key() == key && (#[trigger] mods[j]).key()
            == key
}

/// The mods that stored entries make, in their order; nothing where one of
/// the entries has neither of the two shapes.
pub open spec fn stored_mods(entries: Seq<ModFields>) -> Option<Seq<ModView>> {
    if forall|i: int| 0 <= i < entries.len() ==> (#[trigger] entries[i]).shape() is Some {
        Some(Seq::new(entries.len(), |i: int| entries[i].shape()->0))
    } else {
        None
    }
}

/// Where the identifiers are distinct, no identifier is ambiguous: removing
/// finds one entry or none.
pub proof fn lemma_distinct_keys_never_ambiguous(mods: Seq<ModView>, key: Seq<char>)
    requires
        distinct_keys(mods),
    ensures
        !several_match(mods, key),
        has_key(mods, key) ==> exists|i: int| only_match(mods, key, i),
{
    if has_key(mods, key) {
        let i = choose|i: int| 0 <= i < mods.len() && (#[trigger] mods[i]).key() == key;
        assert forall|j: int| 0 <= j < mods.len() && j != i implies (#[trigger] mods[j]).key()
            != key by {
            if j < i {
                assert(mods[j].key() != mods[i].key());
            } else {
                assert(mods[i].key() != mods[j].key());
            }
        }
        assert(only_match(mods, key, i));
    }
}

/// The record of one modpack on this machine: its name and its mods, in the
/// order in which they were added.
///
/// Adding keeps the identifiers of the entries distinct. A record that was
/// read from disk is taken as it is: nothing checks it again, which is why
/// removing guards against an identifier that occurs twice.
#[derive(Clone, Debug, PartialEq, Eq)]
pub struct ModpackConfig {
    pub name: String,
    pub mods: Vec<KilnMod>,
}

impl View for ModpackConfig {
    type V = PackView;

    open spec fn view(&self) -> PackView {
        PackView { name: self.name@, mods: mod_views(self.mods@) }
    }
}

impl Default for ModpackConfig {
    /// The modpack without a name and without mods.
    fn default() -> (config: ModpackConfig)
        ensures
            config@.name.len() == 0,
            config@.mods.len() == 0,
            config.well_formed(),
    {
        ModpackConfig { name: String::new(), mods: Vec::new() }
    }
}

impl ModpackConfig {
    /// What adding keeps true of a modpack: no two of its mods answer to the
    /// same identifier.
    pub open spec fn well_formed(&self) -> bool {
        distinct_keys(self@.mods)
    }

    /// A new modpack of that name, without mods.
    pub fn new(name: String) -> (config: ModpackConfig)
        ensures
            config@.name == name@,
            config@.mods.len() == 0,
            config.well_formed(),
    {
        ModpackConfig { name, mods: Vec::new() }
    }

    /// The position of the first entry at or after `start` that answers to
    /// `identifier`.
    pub fn find_from(&self, identifier: &str, start: usize) -> (found: Option<usize>)
        ensures
            (match found {
                Some(i) => {
                    &&& start <= i < self@.mods.len()
                    &&& self@.mods[i as int].key() == identifier@
                    &&& forall|j: int| start <= j < i ==> (#[trigger] self@.mods[j]).key() != identifier@
                },
                None => forall|j: int|
                    start <= j < self@.mods.len() ==> (#[trigger] self@.mods[j]).key() != identifier@,
            }),
    {
        let mut i: usize = start;
        while i < self.mods.len()
            invariant
                start <= i,
                forall|j: int|
                    start <= j < i && j < self@.mods.len() ==> (#[trigger] self@.mods[j]).key()
                        != identifier@,
            decreases self.mods@.len() - i,
        {
            if str_eq(self.mods[i].key().as_str(), identifier) {
                return Some(i);
            }
            i += 1;
        }
        None
    }

    /// Whether the modpack holds an entry that answers to `identifier`.
    pub fn contains(&self, identifier: &str) -> (present: bool)
        ensures
            present == has_key(self@.mods, identifier@),
    {
        self.find_from(identifier, 0).is_some()
    }

    /// Decides whether `reference` may be added, before anything is fetched:
    /// an identifier that the modpack already holds is refused, whatever the
    /// version or the source; otherwise the result says what to look up.
    pub fn plan_add(&self, reference: &KilnMod) -> (lookup: Result<Lookup, KilnError>)
        ensures
            has_key(self@.mods, reference@.key()) ==> lookup == Err::<Lookup, KilnError>(
                KilnError::DuplicateMod,
            ),
            !has_key(self@.mods, reference@.key()) ==> (lookup matches Ok(wanted) && wanted@
                == plan_of(reference@)),
    {
        if self.contains(reference.key().as_str()) {
            Err(KilnError::DuplicateMod)
        } else {
            Ok(plan(reference))
        }
    }

    /// Adds `reference`, given how the attempt to fetch it ended.
    ///
    /// An identifier that the modpack already holds is refused. A failed
    /// attempt is handed back as it is. In both cases the modpack is left
    /// unchanged. Otherwise the entry goes to the end of the list, with the
    /// version of the release that was fetched where it had none.
    pub fn add(&mut self, reference: KilnMod, attempt: Result<ResolvedRelease, KilnError>) -> (added:
        Result<(), KilnError>)
        ensures
            has_key(old(self)@.mods, reference@.key()) ==> added == Err::<(), KilnError>(
                KilnError::DuplicateMod,
            ) && final(self)@ == old(self)@,
            !has_key(old(self)@.mods, reference@.key()) ==> (match attempt {
                Ok(release) => {
                    &&& added == Ok::<(), KilnError>(())
                    &&& final(self)@.name == old(self)@.name
                    &&& final(self)@.mods == old(self)@.mods.push(
                        reference@.pinned_to(release@.resolved_version),
                    )
                },
                Err(error) => added == Err::<(), KilnError>(error) && final(self)@ == old(self)@,
            }),
            added is Ok ==> has_key(final(self)@.mods, reference@.key()),
            old(self).well_formed() ==> final(self).well_formed(),
    {
        if self.contains(reference.key().as_str()) {
            return Err(KilnError::DuplicateMod);
        }
        match attempt {
            Ok(release) => {
                self.mods.push(reference.pinned_to(release.resolved_version));
                assert(self@.mods[self@.mods.len() - 1].key() == reference@.key());
                Ok(())
            },
            Err(error) => Err(error),
        }
    }

    /// Removes the one entry that answers to `identifier`, and hands it back.
    ///
    /// Where no entry answers, or more than one, nothing is removed and the
    /// modpack is left unchanged.
    pub fn remove(&mut self, identifier: &str) -> (removed: Result<KilnMod, KilnError>)
        ensures
            (match removed {
                Ok(entry) => final(self)@.name == old(self)@.name && (exists|i: int|
                    #[trigger] only_match(old(self)@.mods, identifier@, i) && entry@ == old(
                        self,
                    )@.mods[i] && final(self)@.mods == old(self)@.mods.remove(i)),
                Err(error) => {
                    &&& final(self)@ == old(self)@
                    &&& error == KilnError::NotFound || error == KilnError::AmbiguousMod
                    &&& error == KilnError::NotFound <==> !has_key(old(self)@.mods, identifier@)
                    &&& error == KilnError::AmbiguousMod <==> several_match(
                        old(self)@.mods,
                        identifier@,
                    )
                },
            }),
            !has_key(old(self)@.mods, identifier@) ==> removed is Err,
            several_match(old(self)@.mods, identifier@) ==> removed is Err,
            removed is Ok ==> !has_key(final(self)@.mods, identifier@),
            old(self).well_formed() ==> final(self).well_formed(),
    {
        let ghost before = self@.mods;
        match self.find_from(identifier, 0) {
            None => Err(KilnError::NotFound),
            Some(first) => {
                assert(first < self.mods.len());
                match self.find_from(identifier, first + 1) {
                    Some(_) => Err(KilnError::AmbiguousMod),
                    None => {
                        assert(only_match(before, identifier@, first as int));
                        let entry = self.mods.remove(first);
                        assert(self@.mods =~= before.remove(first as int));
                        Ok(entry)
                    },
                }
            },
        }
    }

    /// The modpack that a stored record holds: its name, and the mods that
    /// its entries make. One entry of neither shape spoils the record.
    pub fn from_record(name: String, entries: &Vec<ModFields>) -> (config: Result<
        ModpackConfig,
        KilnError,
    >)
        ensures
            (match stored_mods(entries@) {
                Some(mods) => config matches Ok(found) && found@ == (PackView { name: name@, mods }),
                None => config == Err::<ModpackConfig, KilnError>(KilnError::MalformedReference),
            }),
    {
        let mut mods: Vec<KilnMod> = Vec::new();
        let mut i: usize = 0;
        while i < entries.len()
            invariant
                i <= entries@.len(),
                mods@.len() == i,
                forall|k: int|
                    0 <= k < i ==> (#[trigger] entries@[k]).shape() == Some(mods@[k]@),
            decreases entries@.len() - i,
        {
            match KilnMod::from_fields(&entries[i]) {
                Ok(entry) => mods.push(entry),
                Err(_) => return Err(KilnError::MalformedReference),
            }
            i += 1;
        }
        assert(mod_views(mods@) =~= stored_mods(entries@)->0);
        Ok(ModpackConfig { name, mods })
    }

    /// What comes of loading a record by name: the modpack that the record
    /// holds, where there is a record of that name.
    pub fn load(record: Option<(String, Vec<ModFields>)>) -> (config: Result<
        ModpackConfig,
        KilnError,
    >)
        ensures
            (match record {
                Some((name, entries)) => match stored_mods(entries@) {
                    Some(mods) => config matches Ok(found) && found@ == (PackView {
                        name: name@,
                        mods,
                    }),
                    None => config == Err::<ModpackConfig, KilnError>(
                        KilnError::MalformedReference,
                    ),
                },
                None => config == Err::<ModpackConfig, KilnError>(KilnError::NotFound),
            }),
    {
        match record {
            Some((name, entries)) => ModpackConfig::from_record(name, &entries),
            None => Err(KilnError::NotFound),
        }
    }

    /// The entries that the mods are stored as, in their order. Loading them
    /// gives the same mods again.
    pub fn to_record(&self) -> (entries: Vec<ModFields>)
        ensures
            stored_mods(entries@) == Some(self@.mods),
    {
        let mut entries: Vec<ModFields> = Vec::new();
        let mut i: usize = 0;
        while i < self.mods.len()
            invariant
                i <= self.mods@.len(),
                entries@.len() == i,
                forall|k: int|
                    0 <= k < i ==> (#[trigger] entries@[k]).shape() == Some(self.mods@[k]@),
            decreases self.mods@.len() - i,
        {
            entries.push(self.mods[i].to_fields());
            i += 1;
        }
        entries
    }

    /// The modpack as it travels: its name and its mods, and nothing else.
    pub fn to_file(&self) -> (file: KilnFile)
        ensures
            file@ == self@,
    {
        KilnFile { name: self.name.clone(), mods: duplicate_mods(&self.mods) }
    }

    /// The record of a modpack that was imported: the name of the archive's
    /// modpack, and of its mods those that were fetched, in their order and
    /// with the versions that were found. A mod that failed is left out.
    pub fn from_import(file: &KilnFile, outcomes: &Vec<Outcome>) -> (config: ModpackConfig)
        ensures
            config@.name == file@.name,
            config@.mods == resolved_mods(outcome_views(outcomes@)),
            distinct_references(outcome_views(outcomes@)) ==> config.well_formed(),
    {
        proof {
            if distinct_references(outcome_views(outcomes@)) {
                lemma_resolved_mods_are_distinct(outcome_views(outcomes@));
            }
        }
        let ghost all = outcome_views(outcomes@);
        let mut mods: Vec<KilnMod> = Vec::new();
        let mut i: usize = 0;
        while i < outcomes.len()
            invariant
                i <= outcomes@.len(),
                all == outcome_views(outcomes@),
                mod_views(mods@) == resolved_mods(all.take(i as int)),
            decreases outcomes@.len() - i,
        {
            assert(all.take(i + 1).drop_last() =~= all.take(i as int));
            match &outcomes[i] {
                Outcome::Resolved { reference, .. } => mods.push(reference.duplicate()),
                Outcome::Failed { .. } => {},
            }
            i += 1;
        }
        assert(all.take(i as int) =~= all);
        ModpackConfig { name: file.name.clone(), mods }
    }
}

} // verus!
