use vstd::prelude::*;

use crate::error::KilnError;
use crate::layout::{append_ending, join, joined, with_ending};
use crate::modpack_file::{KilnMod, ModView};

verus! {

/// What a release is, as mathematics: three plain texts.
pub struct ReleaseView {
    pub target_filename: Seq<char>,
    pub download_url: Seq<char>,
    pub resolved_version: Seq<char>,
}

/// The file that a mod entry was resolved to: under which name it is to be
/// saved, where it is downloaded from, and which version it is.
#[derive(Clone, Debug, PartialEq, Eq)]
pub struct ResolvedRelease {
    pub target_filename: String,
    pub download_url: String,
    pub resolved_version: String,
}

impl View for ResolvedRelease {
    type V = ReleaseView;

    open spec fn view(&self) -> ReleaseView {
        ReleaseView {
            target_filename: self.target_filename@,
            download_url: self.download_url@,
            resolved_version: self.resolved_version@,
        }
    }
}

impl ResolvedRelease {
    /// A copy of the release, field for field.
    pub fn duplicate(&self) -> (copy: ResolvedRelease)
        ensures
            copy@ == self@,
    {
        ResolvedRelease {
            target_filename: self.target_filename.clone(),
            download_url: self.download_url.clone(),
            resolved_version: self.resolved_version.clone(),
        }
    }
}

/// What a lookup is, as mathematics.
pub enum LookupView {
    Version { id: Seq<char>, version: Seq<char> },
    Latest { id: Seq<char> },
    Direct { release: ReleaseView },
}

/// What has to be asked of the registry before a mod can be downloaded.
#[derive(Clone, Debug, PartialEq, Eq)]
pub enum Lookup {
    /// The release of the mod `id` whose version is exactly `version`.
    Version { id: String, version: String },
    /// The most recent release of the mod `id`.
    Latest { id: String },
    /// Nothing: the entry names its own URL, and `release` is its file.
    Direct { release: ResolvedRelease },
}

impl View for Lookup {
    type V = LookupView;

    open spec fn view(&self) -> LookupView {
        match self {
            Lookup::Version { id, version } => LookupView::Version { id: id@, version: version@ },
            Lookup::Latest { id } => LookupView::Latest { id: id@ },
            Lookup::Direct { release } => LookupView::Direct { release: release@ },
        }
    }
}

/// The lookup that an entry calls for. A registry mod with a version is
/// looked up in that version, one without in its latest. Any other mod is
/// its own release: its URL, saved as its name with `.zip` behind it.
pub open spec fn plan_of(reference: ModView) -> LookupView {
    match reference {
        ModView::ModDbMod { id, version } => if version.len() == 0 {
            LookupView::Latest { id }
        } else {
            LookupView::Version { id, version }
        },
        ModView::OtherMod { name, source } => LookupView::Direct {
            release: ReleaseView {
                target_filename: with_ending(name, ".zip"@),
                download_url: source,
                resolved_version: Seq::empty(),
            },
        },
    }
}

/// Decides what to ask the registry for one entry.
pub fn plan(reference: &KilnMod) -> (lookup: Lookup)
    ensures
        lookup@ == plan_of(reference@),
{
    match reference {
        KilnMod::ModDbMod { id, version } => {
            if version.as_str().is_empty() {
                Lookup::Latest { id: id.clone() }
            } else {
                Lookup::Version { id: id.clone(), version: version.clone() }
            }
        },
        KilnMod::OtherMod { name, source } => Lookup::Direct {
            release: ResolvedRelease {
                target_filename: append_ending(name.as_str(), ".zip"),
                download_url: source.clone(),
                resolved_version: String::new(),
            },
        },
    }
}

/// Decides what to ask the registry for each entry of a batch, in order.
///
/// Nothing here keeps two entries from being saved under one file name: two
/// mods from elsewhere whose names are the same are, and the later download
/// then replaces the earlier file.
pub fn plan_all(references: &Vec<KilnMod>) -> (lookups: Vec<Lookup>)
    ensures
        lookups@.len() == references@.len(),
        forall|i: int| 0 <= i < references@.len() ==> lookups@[i]@ == plan_of(references@[i]@),
{
    let mut lookups: Vec<Lookup> = Vec::new();
    let mut i: usize = 0;
    while i < references.len()
        invariant
            i <= references@.len(),
            lookups@.len() == i,
            forall|k: int| 0 <= k < i ==> lookups@[k]@ == plan_of(references@[k]@),
        decreases references@.len() - i,
    {
        lookups.push(plan(&references[i]));
        i += 1;
    }
    lookups
}

/// The releases of a listing, each seen as its [`ReleaseView`].
pub open spec fn release_views(releases: Seq<ResolvedRelease>) -> Seq<ReleaseView> {
    releases.map_values(|r: ResolvedRelease| r@)
}

/// The first release of the listing whose version is exactly `version`, if
/// there is one. Where several releases carry the version, the listing's
/// order decides.
pub open spec fn first_of_version(releases: Seq<ReleaseView>, version: Seq<char>) -> Option<
    ReleaseView,
>
    decreases releases.len(),
{
    if releases.len() == 0 {
        None
    } else if releases[0].resolved_version == version {
        Some(releases[0])
    } else {
        first_of_version(releases.drop_first(), version)
    }
}

/// A release is chosen exactly when some release of the listing carries the
/// version; the one chosen carries it, and none before it in the listing does.
pub proof fn lemma_first_of_version(releases: Seq<ReleaseView>, version: Seq<char>)
    ensures
        first_of_version(releases, version) is None <==> forall|i: int|
            0 <= i < releases.len() ==> (#[trigger] releases[i]).resolved_version != version,
        first_of_version(releases, version) matches Some(found) ==> exists|i: int|
            0 <= i < releases.len() && #[trigger] releases[i] == found
                && found.resolved_version == version && forall|j: int|
                0 <= j < i ==> (#[trigger] releases[j]).resolved_version != version,
    decreases releases.len(),
{
    if releases.len() > 0 && releases[0].resolved_version != version {
        // The first release is passed over: what holds of the rest holds of
        // the listing, one place further on.
        let rest = releases.drop_first();
        lemma_first_of_version(rest, version);
        if first_of_version(rest, version) is None {
            assert forall|i: int| 0 <= i < releases.len() implies (#[trigger] releases[i]).resolved_version
                != version by {
                if i > 0 {
                    assert(rest[i - 1] == releases[i]);
                }
            }
        } else {
            let found = first_of_version(rest, version)->0;
            let i = choose|i: int|
                0 <= i < rest.len() && #[trigger] rest[i] == found && forall|j: int|
                    0 <= j < i ==> (#[trigger] rest[j]).resolved_version != version;
            assert forall|j: int| 0 <= j < i + 1 implies (#[trigger] releases[j]).resolved_version
                != version by {
                if j > 0 {
                    assert(rest[j - 1] == releases[j]);
                }
            }
        }
    }
}

/// How many releases of the listing carry exactly `version`.
pub open spec fn count_of_version(releases: Seq<ReleaseView>, version: Seq<char>) -> nat
    decreases releases.len(),
{
    if releases.len() == 0 {
        0
    } else {
        count_of_version(releases.drop_last(), version) + if releases.last().resolved_version
            == version {
            1nat
        } else {
            0nat
        }
    }
}

/// No release carries the version exactly when none is chosen.
pub proof fn lemma_count_of_version(releases: Seq<ReleaseView>, version: Seq<char>)
    ensures
        count_of_version(releases, version) == 0 <==> first_of_version(releases, version) is None,
        count_of_version(releases, version) <= releases.len(),
    decreases releases.len(),
{
    lemma_first_of_version(releases, version);
    if releases.len() > 0 {
        let fewer = releases.drop_last();
        lemma_count_of_version(fewer, version);
        lemma_first_of_version(fewer, version);
        if count_of_version(releases, version) == 0 {
            assert forall|i: int| 0 <= i < releases.len() implies (#[trigger] releases[i]).resolved_version
                != version by {
                if i < fewer.len() {
                    assert(fewer[i] == releases[i]);
                }
            }
        }
    }
}

/// Counts the releases of the listing that carry exactly `version`. More
/// than one is no error: [`select_version`] takes the first, and the caller
/// may tell the user so.
pub fn count_version(releases: &Vec<ResolvedRelease>, version: &str) -> (count: usize)
    ensures
        count == count_of_version(release_views(releases@), version@),
{
    let ghost all = release_views(releases@);
    let mut count: usize = 0;
    let mut i: usize = 0;
    while i < releases.len()
        invariant
            i <= releases@.len(),
            all == release_views(releases@),
            count == count_of_version(all.take(i as int), version@),
            count <= i,
        decreases releases@.len() - i,
    {
        assert(all.take(i + 1).drop_last() =~= all.take(i as int));
        if crate::text::str_eq(releases[i].resolved_version.as_str(), version) {
            count += 1;
        }
        i += 1;
    }
    assert(all.take(i as int) =~= all);
    count
}

/// Picks from the releases that the registry lists for a mod the one of
/// exactly the version asked for: the first such in the listing. Where the
/// listing has none of that version, the lookup fails.
pub fn select_version(releases: &Vec<ResolvedRelease>, version: &str) -> (chosen: Result<
    ResolvedRelease,
    KilnError,
>)
    ensures
        (match first_of_version(release_views(releases@), version@) {
            Some(found) => chosen matches Ok(release) && release@ == found,
            None => chosen == Err::<ResolvedRelease, KilnError>(KilnError::VersionNotFound),
        }),
{
    let ghost all = release_views(releases@);
    let mut i: usize = 0;
    assert(all.skip(0) =~= all);
    while i < releases.len()
        invariant
            i <= releases@.len(),
            all == release_views(releases@),
            first_of_version(all, version@) == first_of_version(all.skip(i as int), version@),
        decreases releases@.len() - i,
    {
        let ghost rest = all.skip(i as int);
        assert(rest.drop_first() =~= all.skip(i + 1));
        if crate::text::str_eq(releases[i].resolved_version.as_str(), version) {
            return Ok(releases[i].duplicate());
        }
        i += 1;
    }
    Err(KilnError::VersionNotFound)
}

/// What a reply is, as mathematics.
pub enum ReplyView {
    NotAsked,
    Unreachable,
    UnknownMod,
    Mod { releases: Seq<ReleaseView>, latest: Option<ReleaseView> },
}

/// What came of asking the registry about one mod.
#[derive(Clone, Debug, PartialEq, Eq)]
pub enum RegistryReply {
    /// The registry was not asked. An entry that names its own URL needs no
    /// more; for any other, a reply that is missing is a failed fetch.
    NotAsked,
    /// The registry could not be reached, or what it sent could not be read.
    Unreachable,
    /// The registry answered, and knows no mod of that id or alias.
    UnknownMod,
    /// The registry knows the mod: `releases` is its listing, in the
    /// registry's order, and `latest` the release that the registry calls
    /// the most recent, if it names one.
    Mod { releases: Vec<ResolvedRelease>, latest: Option<ResolvedRelease> },
}

impl View for RegistryReply {
    type V = ReplyView;

    open spec fn view(&self) -> ReplyView {
        match self {
            RegistryReply::NotAsked => ReplyView::NotAsked,
            RegistryReply::Unreachable => ReplyView::Unreachable,
            RegistryReply::UnknownMod => ReplyView::UnknownMod,
            RegistryReply::Mod { releases, latest } => ReplyView::Mod {
                releases: release_views(releases@),
                latest: match latest {
                    Some(release) => Some(release@),
                    None => None,
                },
            },
        }
    }
}

/// The release that a lookup ends in, given what the registry replied.
///
/// An entry that names its own URL needs no reply. A registry that was not
/// asked or could not be reached is a failed fetch, and a mod that it does
/// not know is not found. Of a mod that it knows, a lookup by version takes the first
/// release of exactly that version and fails where there is none; a lookup
/// of the latest takes the release that the registry calls the most recent,
/// and where it names none the mod has no releases.
pub open spec fn answer_of(lookup: LookupView, reply: ReplyView) -> Result<ReleaseView, KilnError> {
    match lookup {
        LookupView::Direct { release } => Ok(release),
        LookupView::Version { version, .. } => match reply {
            ReplyView::NotAsked => Err(KilnError::FetchError),
            ReplyView::Unreachable => Err(KilnError::FetchError),
            ReplyView::UnknownMod => Err(KilnError::NotFound),
            ReplyView::Mod { releases, .. } => match first_of_version(releases, version) {
                Some(release) => Ok(release),
                None => Err(KilnError::VersionNotFound),
            },
        },
        LookupView::Latest { .. } => match reply {
            ReplyView::NotAsked => Err(KilnError::FetchError),
            ReplyView::Unreachable => Err(KilnError::FetchError),
            ReplyView::UnknownMod => Err(KilnError::NotFound),
            ReplyView::Mod { latest, .. } => match latest {
                Some(release) => Ok(release),
                None => Err(KilnError::NoReleases),
            },
        },
    }
}

/// Decides which release a lookup ends in, or why it ends in none, from
/// what the registry replied: see [`answer_of`].
pub fn answer(lookup: &Lookup, reply: &RegistryReply) -> (found: Result<ResolvedRelease, KilnError>)
    ensures
        (match answer_of(lookup@, reply@) {
            Ok(wanted) => found matches Ok(release) && release@ == wanted,
            Err(error) => found == Err::<ResolvedRelease, KilnError>(error),
        }),
{
    match lookup {
        Lookup::Direct { release } => Ok(release.duplicate()),
        Lookup::Version { version, .. } => match reply {
            RegistryReply::NotAsked => Err(KilnError::FetchError),
            RegistryReply::Unreachable => Err(KilnError::FetchError),
            RegistryReply::UnknownMod => Err(KilnError::NotFound),
            RegistryReply::Mod { releases, .. } => select_version(releases, version.as_str()),
        },
        Lookup::Latest { .. } => match reply {
            RegistryReply::NotAsked => Err(KilnError::FetchError),
            RegistryReply::Unreachable => Err(KilnError::FetchError),
            RegistryReply::UnknownMod => Err(KilnError::NotFound),
            RegistryReply::Mod { latest, .. } => match latest {
                Some(release) => Ok(release.duplicate()),
                None => Err(KilnError::NoReleases),
            },
        },
    }
}

/// What a fetched entry is kept as. Its identifier is the one it was given
/// with. A registry mod carries the version of the release that was found,
/// which is the version it was pinned to where it was pinned: so a pinned
/// mod never ends with an empty version, and a fresh one ends with exactly
/// what the registry called its latest. Any other mod is kept as it is, and
/// what was fetched is its own URL.
pub proof fn lemma_kept_version_is_the_release(reference: ModView, reply: ReplyView)
    ensures
        answer_of(plan_of(reference), reply) matches Ok(release) ==> ({
            let kept = reference.pinned_to(release.resolved_version);
            &&& kept.key() == reference.key()
            &&& reference matches ModView::ModDbMod { id, version } ==> {
                &&& kept == (ModView::ModDbMod { id, version: release.resolved_version })
                &&& version.len() > 0 ==> release.resolved_version == version
                &&& version.len() == 0 ==> (reply matches ReplyView::Mod { latest, .. } && latest
                    == Some(release))
            }
            &&& reference matches ModView::OtherMod { name, source } ==> {
                &&& kept == reference
                &&& release.download_url == source
                &&& release.target_filename == with_ending(name, ".zip"@)
            }
        }),
{
    if let ModView::ModDbMod { id, version } = reference {
        if let ReplyView::Mod { releases, latest } = reply {
            lemma_first_of_version(releases, version);
        }
    }
}

/// What an outcome is, as mathematics.
pub enum OutcomeView {
    Resolved { reference: ModView, saved_path: Seq<char> },
    Failed { reference: ModView, error: KilnError },
}

/// How the attempt to fetch one entry of a batch ended.
#[derive(Clone, Debug, PartialEq, Eq)]
pub enum Outcome {
    /// The file was fetched and saved under `saved_path`; `reference` is the
    /// entry with the version that was found.
    Resolved { reference: KilnMod, saved_path: String },
    /// The lookup or the download failed; `reference` is the entry as given.
    Failed { reference: KilnMod, error: KilnError },
}

impl View for Outcome {
    type V = OutcomeView;

    open spec fn view(&self) -> OutcomeView {
        match self {
            Outcome::Resolved { reference, saved_path } => OutcomeView::Resolved {
                reference: reference@,
                saved_path: saved_path@,
            },
            Outcome::Failed { reference, error } => OutcomeView::Failed {
                reference: reference@,
                error: *error,
            },
        }
    }
}

impl OutcomeView {
    /// The entry that the outcome is about.
    pub open spec fn reference(self) -> ModView {
        match self {
            OutcomeView::Resolved { reference, .. } => reference,
            OutcomeView::Failed { reference, .. } => reference,
        }
    }
}

/// How an attempt ended, as mathematics: the release that was fetched and
/// saved, or the error that stopped the lookup or the download.
pub open spec fn attempt_view(attempt: Result<ResolvedRelease, KilnError>) -> Result<
    ReleaseView,
    KilnError,
> {
    match attempt {
        Ok(release) => Ok(release@),
        Err(error) => Err(error),
    }
}

/// The attempts of a batch, each seen as by [`attempt_view`].
pub open spec fn attempt_views(attempts: Seq<Result<ResolvedRelease, KilnError>>) -> Seq<
    Result<ReleaseView, KilnError>,
> {
    attempts.map_values(|a: Result<ResolvedRelease, KilnError>| attempt_view(a))
}

/// The outcome of one entry. A release that was fetched is saved below
/// `destination` under its file name, and the entry takes its version where
/// it had none. A failure leaves the entry as it was given.
pub open spec fn outcome_of(
    reference: ModView,
    destination: Seq<char>,
    attempt: Result<ReleaseView, KilnError>,
) -> OutcomeView {
    match attempt {
        Ok(release) => OutcomeView::Resolved {
            reference: reference.pinned_to(release.resolved_version),
            saved_path: joined(destination, release.target_filename),
        },
        Err(error) => OutcomeView::Failed { reference, error },
    }
}

/// The attempt made for entry `i` of a batch. An entry that no attempt was
/// reported for counts as a failed download.
pub open spec fn attempt_at(attempts: Seq<Result<ReleaseView, KilnError>>, i: int) -> Result<
    ReleaseView,
    KilnError,
> {
    if 0 <= i < attempts.len() {
        attempts[i]
    } else {
        Err(KilnError::FetchError)
    }
}

/// The outcomes of a batch: one for each entry, in the order of the entries.
pub open spec fn outcomes_of(
    references: Seq<ModView>,
    destination: Seq<char>,
    attempts: Seq<Result<ReleaseView, KilnError>>,
) -> Seq<OutcomeView> {
    Seq::new(
        references.len(),
        |i: int| outcome_of(references[i], destination, attempt_at(attempts, i)),
    )
}

/// The outcomes of a batch, each seen as its [`OutcomeView`].
pub open spec fn outcome_views(outcomes: Seq<Outcome>) -> Seq<OutcomeView> {
    outcomes.map_values(|o: Outcome| o@)
}

/// Records how the attempt for one entry ended.
pub fn settle(reference: &KilnMod, destination: &str, attempt: &Result<
    ResolvedRelease,
    KilnError,
>) -> (outcome: Outcome)
    ensures
        outcome@ == outcome_of(reference@, destination@, attempt_view(*attempt)),
{
    match attempt {
        Ok(release) => Outcome::Resolved {
            reference: reference.duplicate().pinned_to(release.resolved_version.clone()),
            saved_path: join(destination, release.target_filename.as_str()),
        },
        Err(error) => Outcome::Failed { reference: reference.duplicate(), error: *error },
    }
}

/// Gathers the outcomes of a batch once every attempt has ended. Each entry
/// gets its outcome, whatever became of the others: a failure is recorded and
/// the batch goes on. Of a batch with one attempt for each entry, as many
/// outcomes are failures as attempts failed, and the others are saved files.
pub fn resolve_all(
    references: &Vec<KilnMod>,
    destination: &str,
    attempts: &Vec<Result<ResolvedRelease, KilnError>>,
) -> (outcomes: Vec<Outcome>)
    ensures
        outcomes@.len() == references@.len(),
        outcome_views(outcomes@) == outcomes_of(
            crate::modpack_file::mod_views(references@),
            destination@,
            attempt_views(attempts@),
        ),
        attempts@.len() == references@.len() ==> count_failed(outcome_views(outcomes@))
            == count_errors(attempt_views(attempts@)) && count_resolved(outcome_views(outcomes@))
            == references@.len() - count_errors(attempt_views(attempts@)),
{
    proof {
        if attempts@.len() == references@.len() {
            lemma_batch_is_complete(
                crate::modpack_file::mod_views(references@),
                destination@,
                attempt_views(attempts@),
            );
        }
    }
    let ghost wanted = outcomes_of(
        crate::modpack_file::mod_views(references@),
        destination@,
        attempt_views(attempts@),
    );
    let missing: Result<ResolvedRelease, KilnError> = Err(KilnError::FetchError);
    let mut outcomes: Vec<Outcome> = Vec::new();
    let mut i: usize = 0;
    while i < references.len()
        invariant
            i <= references@.len(),
            outcomes@.len() == i,
            missing == Err::<ResolvedRelease, KilnError>(KilnError::FetchError),
            wanted == outcomes_of(
                crate::modpack_file::mod_views(references@),
                destination@,
                attempt_views(attempts@),
            ),
            forall|k: int| 0 <= k < i ==> outcomes@[k]@ == wanted[k],
        decreases references@.len() - i,
    {
        let outcome = if i < attempts.len() {
            settle(&references[i], destination, &attempts[i])
        } else {
            settle(&references[i], destination, &missing)
        };
        outcomes.push(outcome);
        i += 1;
    }
    assert(outcome_views(outcomes@) =~= wanted);
    outcomes
}

/// How many of the outcomes are failures.
pub open spec fn count_failed(outcomes: Seq<OutcomeView>) -> nat
    decreases outcomes.len(),
{
    if outcomes.len() == 0 {
        0
    } else {
        count_failed(outcomes.drop_last()) + if outcomes.last() is Failed {
            1nat
        } else {
            0nat
        }
    }
}

/// How many of the outcomes are files that were saved.
pub open spec fn count_resolved(outcomes: Seq<OutcomeView>) -> nat
    decreases outcomes.len(),
{
    if outcomes.len() == 0 {
        0
    } else {
        count_resolved(outcomes.drop_last()) + if outcomes.last() is Resolved {
            1nat
        } else {
            0nat
        }
    }
}

/// How many of the attempts ended in an error.
pub open spec fn count_errors(attempts: Seq<Result<ReleaseView, KilnError>>) -> nat
    decreases attempts.len(),
{
    if attempts.len() == 0 {
        0
    } else {
        count_errors(attempts.drop_last()) + if attempts.last() is Err {
            1nat
        } else {
            0nat
        }
    }
}

/// A batch of N entries of which K attempts failed has N outcomes, exactly K
/// of them failures and N - K of them saved files; each outcome speaks of the
/// entry at its place, under the identifier that the entry was given with.
pub proof fn lemma_batch_is_complete(
    references: Seq<ModView>,
    destination: Seq<char>,
    attempts: Seq<Result<ReleaseView, KilnError>>,
)
    requires
        attempts.len() == references.len(),
    ensures
        outcomes_of(references, destination, attempts).len() == references.len(),
        count_failed(outcomes_of(references, destination, attempts)) == count_errors(attempts),
        count_resolved(outcomes_of(references, destination, attempts)) == references.len()
            - count_errors(attempts),
        forall|i: int|
            0 <= i < references.len() ==> (#[trigger] outcomes_of(
                references,
                destination,
                attempts,
            )[i]).reference().key() == references[i].key(),
        forall|i: int|
            0 <= i < references.len() ==> ((#[trigger] outcomes_of(
                references,
                destination,
                attempts,
            )[i]) is Failed <==> attempts[i] is Err),
    decreases references.len(),
{
    let outcomes = outcomes_of(references, destination, attempts);
    if references.len() > 0 {
        let fewer = outcomes_of(references.drop_last(), destination, attempts.drop_last());
        lemma_batch_is_complete(references.drop_last(), destination, attempts.drop_last());
        assert(outcomes.drop_last() =~= fewer);
    }
}

/// The entries that were fetched, in the order of their outcomes and with the
/// versions that were found; the entries that failed are left out.
pub open spec fn resolved_mods(outcomes: Seq<OutcomeView>) -> Seq<ModView>
    decreases outcomes.len(),
{
    if outcomes.len() == 0 {
        Seq::empty()
    } else {
        match outcomes.last() {
            OutcomeView::Resolved { reference, .. } => resolved_mods(outcomes.drop_last()).push(
                reference,
            ),
            OutcomeView::Failed { .. } => resolved_mods(outcomes.drop_last()),
        }
    }
}

/// As many entries are kept as files were saved, and each entry kept is the
/// entry of one of the outcomes.
pub proof fn lemma_resolved_mods(outcomes: Seq<OutcomeView>)
    ensures
        resolved_mods(outcomes).len() == count_resolved(outcomes),
        forall|k: int|
            0 <= k < resolved_mods(outcomes).len() ==> exists|i: int|
                0 <= i < outcomes.len() && (#[trigger] outcomes[i]) is Resolved
                    && outcomes[i].reference() == #[trigger] resolved_mods(outcomes)[k],
    decreases outcomes.len(),
{
    if outcomes.len() > 0 {
        let fewer = outcomes.drop_last();
        lemma_resolved_mods(fewer);
        let kept = resolved_mods(outcomes);
        assert forall|k: int| 0 <= k < kept.len() implies exists|i: int|
            0 <= i < outcomes.len() && (#[trigger] outcomes[i]) is Resolved
                && outcomes[i].reference() == #[trigger] kept[k] by {
            if k < resolved_mods(fewer).len() {
                let i = choose|i: int|
                    0 <= i < fewer.len() && (#[trigger] fewer[i]) is Resolved
                        && fewer[i].reference() == resolved_mods(fewer)[k];
                assert(outcomes[i] == fewer[i]);
            } else {
                assert(outcomes[outcomes.len() - 1] is Resolved);
            }
        }
    }
}

/// No two of the outcomes speak of entries with the same identifier.
pub open spec fn distinct_references(outcomes: Seq<OutcomeView>) -> bool {
    forall|i: int, j: int|
        0 <= i < j < outcomes.len() ==> (#[trigger] outcomes[i]).reference().key()
            != (#[trigger] outcomes[j]).reference().key()
}

/// Where the outcomes speak of entries with distinct identifiers, the
/// entries kept have distinct identifiers too.
pub proof fn lemma_resolved_mods_are_distinct(outcomes: Seq<OutcomeView>)
    requires
        distinct_references(outcomes),
    ensures
        crate::modpack_file::distinct_keys(resolved_mods(outcomes)),
    decreases outcomes.len(),
{
    if outcomes.len() > 0 {
        let fewer = outcomes.drop_last();
        let last = outcomes.len() - 1;
        assert forall|i: int, j: int| 0 <= i < j < fewer.len() implies (
            #[trigger] fewer[i]).reference().key() != (#[trigger] fewer[j]).reference().key() by {
            assert(fewer[i] == outcomes[i] && fewer[j] == outcomes[j]);
        }
        lemma_resolved_mods_are_distinct(fewer);
        lemma_resolved_mods(fewer);
        let kept = resolved_mods(outcomes);
        let before = resolved_mods(fewer);
        assert forall|a: int, b: int| 0 <= a < b < kept.len() implies (#[trigger] kept[a]).key()
            != (#[trigger] kept[b]).key() by {
            if b >= before.len() {
                // The entry kept last is the entry of the last outcome; the
                // one before it is the entry of an earlier outcome.
                let i = choose|i: int|
                    0 <= i < fewer.len() && (#[trigger] fewer[i]) is Resolved
                        && fewer[i].reference() == before[a];
                assert(outcomes[i].reference().key() != outcomes[last].reference().key());
            }
        }
    }
}

/// What an import keeps of a batch: each entry kept is an entry of the batch
/// whose attempt succeeded, under the identifier it was given with and with
/// the version that was found; and where the batch had distinct identifiers,
/// so has what is kept.
pub proof fn lemma_import_keeps_what_was_fetched(
    references: Seq<ModView>,
    destination: Seq<char>,
    attempts: Seq<Result<ReleaseView, KilnError>>,
)
    requires
        attempts.len() == references.len(),
    ensures
        ({
            let kept = resolved_mods(outcomes_of(references, destination, attempts));
            &&& kept.len() == references.len() - count_errors(attempts)
            &&& forall|k: int|
                0 <= k < kept.len() ==> exists|i: int|
                    0 <= i < references.len() && (#[trigger] attempts[i]) is Ok && #[trigger] kept[k]
                        == references[i].pinned_to(attempts[i]->Ok_0.resolved_version)
                        && kept[k].key() == references[i].key()
            &&& crate::modpack_file::distinct_keys(references)
                ==> crate::modpack_file::distinct_keys(kept)
        }),
{
    let outcomes = outcomes_of(references, destination, attempts);
    let kept = resolved_mods(outcomes);
    lemma_batch_is_complete(references, destination, attempts);
    lemma_resolved_mods(outcomes);
    assert forall|k: int| 0 <= k < kept.len() implies exists|i: int|
        0 <= i < references.len() && (#[trigger] attempts[i]) is Ok && #[trigger] kept[k]
            == references[i].pinned_to(attempts[i]->Ok_0.resolved_version) && kept[k].key()
            == references[i].key() by {
        let i = choose|i: int|
            0 <= i < outcomes.len() && (#[trigger] outcomes[i]) is Resolved
                && outcomes[i].reference() == kept[k];
        assert(attempts[i] is Ok);
    }
    if crate::modpack_file::distinct_keys(references) {
        assert forall|i: int, j: int| 0 <= i < j < outcomes.len() implies (
            #[trigger] outcomes[i]).reference().key() != (#[trigger] outcomes[j]).reference().key() by {
            assert(references[i].key() != references[j].key());
        }
        lemma_resolved_mods_are_distinct(outcomes);
    }
}

} // verus!
