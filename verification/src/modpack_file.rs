use vstd::prelude::*;

use crate::error::KilnError;
use crate::text::str_eq;

verus! {

/// What a mod entry is, as mathematics: one of two shapes over plain text.
pub enum ModView {
    /// A mod of the registry: its id or alias, and the version it is pinned to.
    ModDbMod { id: Seq<char>, version: Seq<char> },
    /// A mod from anywhere else: the name it is filed under, and its URL.
    OtherMod { name: Seq<char>, source: Seq<char> },
}

impl ModView {
    /// The text by which an entry is found again: the id of a registry mod,
    /// the name of any other.
    pub open spec fn key(self) -> Seq<char> {
        match self {
            ModView::ModDbMod { id, .. } => id,
            ModView::OtherMod { name, .. } => name,
        }
    }

    /// Whether two entries stand for the same mod: they are of the same kind
    /// and answer to the same identifier, whatever their version or source.
    pub open spec fn same_mod(self, other: ModView) -> bool {
        (self is ModDbMod <==> other is ModDbMod) && self.key() == other.key()
    }

    /// The entry with `version` as its version where it had none; any other
    /// entry as it is.
    pub open spec fn pinned_to(self, version: Seq<char>) -> ModView {
        match self {
            ModView::ModDbMod { id, version: chosen } => if chosen.len() == 0 {
                ModView::ModDbMod { id, version }
            } else {
                self
            },
            ModView::OtherMod { .. } => self,
        }
    }
}

/// What a modpack is, as mathematics: a name and its mod entries in order.
/// Both the local record and the portable descriptor are seen as this.
pub struct PackView {
    pub name: Seq<char>,
    pub mods: Seq<ModView>,
}

/// The entries of `mods`, each seen as its [`ModView`].
pub open spec fn mod_views(mods: Seq<KilnMod>) -> Seq<ModView> {
    mods.map_values(|m: KilnMod| m@)
}

/// Whether some entry of `mods` answers to `key`.
pub open spec fn has_key(mods: Seq<ModView>, key: Seq<char>) -> bool {
    exists|i: int| 0 <= i < mods.len() && (#[trigger] mods[i]).key() == key
}

/// No two entries answer to the same identifier.
pub open spec fn distinct_keys(mods: Seq<ModView>) -> bool {
    forall|i: int, j: int|
        0 <= i < j < mods.len() ==> (#[trigger] mods[i]).key() != (#[trigger] mods[j]).key()
}

/// Where no two entries answer to the same identifier, no mod occurs twice:
/// neither two registry mods of one id nor two other mods of one name.
pub proof fn lemma_distinct_keys_distinct_mods(mods: Seq<ModView>)
    requires
        distinct_keys(mods),
    ensures
        forall|i: int, j: int|
            0 <= i < j < mods.len() ==> !(#[trigger] mods[i]).same_mod(#[trigger] mods[j]),
{
}

/// One mod of a modpack.
#[derive(Clone, Debug, PartialEq, Eq, PartialOrd, Ord)]
pub enum KilnMod {
    /// A mod of the registry, by its id or alias. The version is the one it
    /// is pinned to; it is empty only while the mod is being added.
    ModDbMod { id: String, version: String },
    /// A mod from anywhere else: the name it is filed under, and the URL
    /// that it is downloaded from.
    OtherMod { name: String, source: String },
}

impl View for KilnMod {
    type V = ModView;

    open spec fn view(&self) -> ModView {
        match self {
            KilnMod::ModDbMod { id, version } => ModView::ModDbMod { id: id@, version: version@ },
            KilnMod::OtherMod { name, source } => ModView::OtherMod { name: name@, source: source@ },
        }
    }
}

/// The four fields a stored mod entry may carry, each present or absent.
#[derive(Clone, Debug, PartialEq, Eq)]
pub struct ModFields {
    pub id: Option<String>,
    pub version: Option<String>,
    pub name: Option<String>,
    pub source: Option<String>,
}

impl ModFields {
    /// The shape that the fields present select: `id` with `version` is a
    /// registry mod, and comes first; otherwise `name` with `source` is a mod
    /// from elsewhere; anything else is no mod.
    pub open spec fn shape(self) -> Option<ModView> {
        if self.id is Some && self.version is Some {
            Some(ModView::ModDbMod { id: self.id->0@, version: self.version->0@ })
        } else if self.name is Some && self.source is Some {
            Some(ModView::OtherMod { name: self.name->0@, source: self.source->0@ })
        } else {
            None
        }
    }
}

impl KilnMod {
    /// The identifier of the mod: see [`ModView::key`].
    pub fn key(&self) -> (key: &String)
        ensures
            key@ == self@.key(),
    {
        match self {
            KilnMod::ModDbMod { id, .. } => id,
            KilnMod::OtherMod { name, .. } => name,
        }
    }

    /// Whether the two stand for the same mod: see [`ModView::same_mod`].
    pub fn same_mod(&self, other: &KilnMod) -> (same: bool)
        ensures
            same == self@.same_mod(other@),
    {
        match (self, other) {
            (KilnMod::ModDbMod { id, .. }, KilnMod::ModDbMod { id: other_id, .. }) => str_eq(
                id.as_str(),
                other_id.as_str(),
            ),
            (KilnMod::OtherMod { name, .. }, KilnMod::OtherMod { name: other_name, .. }) => str_eq(
                name.as_str(),
                other_name.as_str(),
            ),
            _ => false,
        }
    }

    /// A copy of the mod, field for field.
    pub fn duplicate(&self) -> (copy: KilnMod)
        ensures
            copy@ == self@,
    {
        match self {
            KilnMod::ModDbMod { id, version } => KilnMod::ModDbMod {
                id: id.clone(),
                version: version.clone(),
            },
            KilnMod::OtherMod { name, source } => KilnMod::OtherMod {
                name: name.clone(),
                source: source.clone(),
            },
        }
    }

    /// The mod with `version` as its version where it had none: see
    /// [`ModView::pinned_to`].
    pub fn pinned_to(self, version: String) -> (pinned: KilnMod)
        ensures
            pinned@ == self@.pinned_to(version@),
    {
        match self {
            KilnMod::ModDbMod { id, version: chosen } => {
                if chosen.as_str().is_empty() {
                    KilnMod::ModDbMod { id, version }
                } else {
                    KilnMod::ModDbMod { id, version: chosen }
                }
            },
            KilnMod::OtherMod { name, source } => KilnMod::OtherMod { name, source },
        }
    }

    /// The fields that the mod is stored with: those of its own shape, and
    /// no others. [`KilnMod::from_fields`] finds the mod in them again.
    pub fn to_fields(&self) -> (fields: ModFields)
        ensures
            fields.shape() == Some(self@),
            self is ModDbMod ==> fields.name is None && fields.source is None,
            self is OtherMod ==> fields.id is None && fields.version is None,
    {
        match self {
            KilnMod::ModDbMod { id, version } => ModFields {
                id: Some(id.clone()),
                version: Some(version.clone()),
                name: None,
                source: None,
            },
            KilnMod::OtherMod { name, source } => ModFields {
                id: None,
                version: None,
                name: Some(name.clone()),
                source: Some(source.clone()),
            },
        }
    }

    /// Tells the two shapes of a stored entry apart by the fields present, and
    /// refuses an entry that has neither shape.
    pub fn from_fields(fields: &ModFields) -> (entry: Result<KilnMod, KilnError>)
        ensures
            (match fields.shape() {
                Some(shape) => entry matches Ok(found) && found@ == shape,
                None => entry == Err::<KilnMod, KilnError>(KilnError::MalformedReference),
            }),
    {
        match (&fields.id, &fields.version) {
            (Some(id), Some(version)) => Ok(
                KilnMod::ModDbMod { id: id.clone(), version: version.clone() },
            ),
            _ => match (&fields.name, &fields.source) {
                (Some(name), Some(source)) => Ok(
                    KilnMod::OtherMod { name: name.clone(), source: source.clone() },
                ),
                _ => Err(KilnError::MalformedReference),
            },
        }
    }
}

/// A modpack as it travels: what an archive holds, and nothing that belongs
/// to one machine only.
#[derive(Clone, Debug, PartialEq, Eq)]
pub struct KilnFile {
    pub name: String,
    pub mods: Vec<KilnMod>,
}

impl View for KilnFile {
    type V = PackView;

    open spec fn view(&self) -> PackView {
        PackView { name: self.name@, mods: mod_views(self.mods@) }
    }
}

/// A copy of a list of mods, entry for entry and in the same order.
pub fn duplicate_mods(mods: &Vec<KilnMod>) -> (copy: Vec<KilnMod>)
    ensures
        mod_views(copy@) == mod_views(mods@),
{
    let mut copy: Vec<KilnMod> = Vec::new();
    let mut i: usize = 0;
    while i < mods.len()
        invariant
            i <= mods@.len(),
            copy@.len() == i,
            forall|k: int| 0 <= k < i ==> copy@[k]@ == mods@[k]@,
        decreases mods@.len() - i,
    {
        copy.push(mods[i].duplicate());
        i += 1;
    }
    assert(mod_views(copy@) =~= mod_views(mods@));
    copy
}

} // verus!
