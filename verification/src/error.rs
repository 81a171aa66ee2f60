use vstd::prelude::*;

verus! {

/// Every way an operation on a modpack can fail.
#[derive(Clone, Copy, Debug, PartialEq, Eq, Structural)]
pub enum KilnError {
    /// No modpack, mod entry or registry alias of that name exists.
    NotFound,
    /// The modpack already holds a mod with that identifier.
    DuplicateMod,
    /// More than one entry of the modpack answers to the identifier.
    AmbiguousMod,
    /// A stored mod entry has neither of the two accepted shapes.
    MalformedReference,
    /// An archive could not be decompressed, or what it holds is no modpack.
    CorruptArchive,
    /// The registry or the download could not be reached, or answered badly.
    FetchError,
    /// The mod exists in the registry but offers nothing to download.
    NoReleases,
    /// The mod exists in the registry but not in the version asked for.
    VersionNotFound,
    /// A name or a list is longer than the archive format can record.
    TooLarge,
    /// The compressor gave up while an archive was being written.
    CompressionFailed,
}

impl KilnError {
    /// A short sentence that tells the user what went wrong and what to do.
    pub fn message(&self) -> (text: &'static str)
        ensures
            text@ == Self::message_of(*self),
    {
        match self {
            KilnError::NotFound => "not found: check the name and try again",
            KilnError::DuplicateMod => "the modpack already contains this mod",
            KilnError::AmbiguousMod => "more than one mod matches: edit the modpack by hand",
            KilnError::MalformedReference => "a mod entry is malformed: it needs id and version, or name and source",
            KilnError::CorruptArchive => "the archive is corrupt: export it again",
            KilnError::FetchError => "the download failed: check the connection and try again",
            KilnError::NoReleases => "the mod has no release to download",
            KilnError::VersionNotFound => "the mod has no release of that version",
            KilnError::TooLarge => "a name or the mod list is too long for an archive",
            KilnError::CompressionFailed => "the archive could not be compressed",
        }
    }

    /// The text of [`KilnError::message`], kind by kind.
    pub open spec fn message_of(kind: KilnError) -> Seq<char> {
        match kind {
            KilnError::NotFound => "not found: check the name and try again"@,
            KilnError::DuplicateMod => "the modpack already contains this mod"@,
            KilnError::AmbiguousMod => "more than one mod matches: edit the modpack by hand"@,
            KilnError::MalformedReference => "a mod entry is malformed: it needs id and version, or name and source"@,
            KilnError::CorruptArchive => "the archive is corrupt: export it again"@,
            KilnError::FetchError => "the download failed: check the connection and try again"@,
            KilnError::NoReleases => "the mod has no release to download"@,
            KilnError::VersionNotFound => "the mod has no release of that version"@,
            KilnError::TooLarge => "a name or the mod list is too long for an archive"@,
            KilnError::CompressionFailed => "the archive could not be compressed"@,
        }
    }
}

/// No two kinds of error share a message: what the user reads tells the
/// kinds apart.
pub proof fn lemma_messages_differ(a: KilnError, b: KilnError)
    requires
        a != b,
    ensures
        KilnError::message_of(a) != KilnError::message_of(b),
{
    reveal_strlit("not found: check the name and try again");
    reveal_strlit("the modpack already contains this mod");
    reveal_strlit("more than one mod matches: edit the modpack by hand");
    reveal_strlit("a mod entry is malformed: it needs id and version, or name and source");
    reveal_strlit("the archive is corrupt: export it again");
    reveal_strlit("the download failed: check the connection and try again");
    reveal_strlit("the mod has no release to download");
    reveal_strlit("the mod has no release of that version");
    reveal_strlit("a name or the mod list is too long for an archive");
    reveal_strlit("the archive could not be compressed");
    assert(KilnError::message_of(KilnError::NotFound).len() == 39);
    assert(KilnError::message_of(KilnError::DuplicateMod).len() == 37);
    assert(KilnError::message_of(KilnError::AmbiguousMod).len() == 51);
    assert(KilnError::message_of(KilnError::MalformedReference).len() == 69);
    assert(KilnError::message_of(KilnError::CorruptArchive).len() == 39);
    assert(KilnError::message_of(KilnError::FetchError).len() == 55);
    assert(KilnError::message_of(KilnError::NoReleases).len() == 34);
    assert(KilnError::message_of(KilnError::VersionNotFound).len() == 38);
    assert(KilnError::message_of(KilnError::TooLarge).len() == 49);
    assert(KilnError::message_of(KilnError::CompressionFailed).len() == 35);
    // Two of the messages are of one length; their first letters differ.
    assert(KilnError::message_of(KilnError::NotFound)[0] == 'n');
    assert(KilnError::message_of(KilnError::CorruptArchive)[0] == 't');
}

} // verus!
