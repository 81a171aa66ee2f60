use kiln::error::KilnError;
use kiln::modpack_file::KilnMod;
use kiln::resolve::{
    answer, count_version, plan, plan_all, resolve_all, select_version, settle, Lookup, Outcome, RegistryReply,
    ResolvedRelease,
};

fn registry_mod(id: &str, version: &str) -> KilnMod {
    KilnMod::ModDbMod { id: id.to_string(), version: version.to_string() }
}

fn other_mod(name: &str, source: &str) -> KilnMod {
    KilnMod::OtherMod { name: name.to_string(), source: source.to_string() }
}

fn release(filename: &str, url: &str, version: &str) -> ResolvedRelease {
    ResolvedRelease {
        target_filename: filename.to_string(),
        download_url: url.to_string(),
        resolved_version: version.to_string(),
    }
}

#[test]
fn plan_of_a_pinned_registry_mod_asks_for_that_version() {
    assert_eq!(
        plan(&registry_mod("abc", "1.2")),
        Lookup::Version { id: "abc".to_string(), version: "1.2".to_string() }
    );
}

#[test]
fn plan_of_a_fresh_registry_mod_asks_for_the_latest() {
    assert_eq!(plan(&registry_mod("abc", "")), Lookup::Latest { id: "abc".to_string() });
}

#[test]
fn plan_of_a_direct_mod_needs_no_registry() {
    assert_eq!(
        plan(&other_mod("extra", "https://example.com/e.zip")),
        Lookup::Direct { release: release("extra.zip", "https://example.com/e.zip", "") }
    );
}

#[test]
fn plan_all_keeps_the_order() {
    let references = vec![
        other_mod("extra", "https://example.com/e.zip"),
        registry_mod("abc", ""),
        registry_mod("def", "2"),
    ];
    assert_eq!(
        plan_all(&references),
        vec![
            Lookup::Direct { release: release("extra.zip", "https://example.com/e.zip", "") },
            Lookup::Latest { id: "abc".to_string() },
            Lookup::Version { id: "def".to_string(), version: "2".to_string() },
        ]
    );
    assert_eq!(plan_all(&Vec::new()), Vec::new());
}

#[test]
fn select_version_takes_the_exact_version() {
    let listing = vec![
        release("abc_1.3.zip", "https://r/abc_1.3.zip", "1.3"),
        release("abc_1.2.zip", "https://r/abc_1.2.zip", "1.2"),
        release("abc_1.1.zip", "https://r/abc_1.1.zip", "1.1"),
    ];
    assert_eq!(select_version(&listing, "1.2"), Ok(release("abc_1.2.zip", "https://r/abc_1.2.zip", "1.2")));
    assert_eq!(select_version(&listing, "1.3"), Ok(release("abc_1.3.zip", "https://r/abc_1.3.zip", "1.3")));
    assert_eq!(select_version(&listing, "1.1"), Ok(release("abc_1.1.zip", "https://r/abc_1.1.zip", "1.1")));
}

#[test]
fn select_version_takes_the_first_of_several() {
    let listing = vec![
        release("other.zip", "https://r/other.zip", "0.9"),
        release("first.zip", "https://r/first.zip", "1.2"),
        release("second.zip", "https://r/second.zip", "1.2"),
    ];
    assert_eq!(select_version(&listing, "1.2"), Ok(release("first.zip", "https://r/first.zip", "1.2")));
}

#[test]
fn select_version_fails_where_no_release_has_the_version() {
    let listing = vec![release("abc_1.3.zip", "https://r/abc_1.3.zip", "1.3")];
    assert_eq!(select_version(&listing, "1.2"), Err(KilnError::VersionNotFound));
    assert_eq!(select_version(&listing, "1.3 "), Err(KilnError::VersionNotFound));
    assert_eq!(select_version(&listing, ""), Err(KilnError::VersionNotFound));
    assert_eq!(select_version(&Vec::new(), "1.2"), Err(KilnError::VersionNotFound));
}

#[test]
fn settle_records_where_the_file_went() {
    let outcome = settle(
        &registry_mod("abc", ""),
        "/data/Kiln/instances/Test/Mods",
        &Ok(release("abc_1.2.zip", "https://r/abc_1.2.zip", "1.2")),
    );
    assert_eq!(
        outcome,
        Outcome::Resolved {
            reference: registry_mod("abc", "1.2"),
            saved_path: "/data/Kiln/instances/Test/Mods/abc_1.2.zip".to_string(),
        }
    );
}

#[test]
fn settle_records_a_failure_with_the_reference_as_given() {
    let outcome = settle(&registry_mod("abc", ""), "/d", &Err(KilnError::NoReleases));
    assert_eq!(outcome, Outcome::Failed { reference: registry_mod("abc", ""), error: KilnError::NoReleases });
}

fn is_failed(outcome: &Outcome) -> bool {
    matches!(outcome, Outcome::Failed { .. })
}

#[test]
fn resolve_all_gives_one_outcome_for_each_reference() {
    let references = vec![
        registry_mod("a", "1"),
        registry_mod("b", ""),
        other_mod("c", "https://example.com/c.zip"),
        registry_mod("d", "4"),
        other_mod("e", "https://example.com/e.zip"),
    ];
    let attempts = vec![
        Ok(release("a.zip", "https://r/a.zip", "1")),
        Err(KilnError::FetchError),
        Ok(release("c.zip", "https://example.com/c.zip", "")),
        Err(KilnError::FetchError),
        Ok(release("e.zip", "https://example.com/e.zip", "")),
    ];
    let outcomes = resolve_all(&references, "dest", &attempts);
    assert_eq!(outcomes.len(), 5);
    assert_eq!(outcomes.iter().filter(|o| is_failed(o)).count(), 2);
    assert_eq!(outcomes.iter().filter(|o| !is_failed(o)).count(), 3);
    assert_eq!(
        outcomes,
        vec![
            Outcome::Resolved { reference: registry_mod("a", "1"), saved_path: "dest/a.zip".to_string() },
            Outcome::Failed { reference: registry_mod("b", ""), error: KilnError::FetchError },
            Outcome::Resolved {
                reference: other_mod("c", "https://example.com/c.zip"),
                saved_path: "dest/c.zip".to_string(),
            },
            Outcome::Failed { reference: registry_mod("d", "4"), error: KilnError::FetchError },
            Outcome::Resolved {
                reference: other_mod("e", "https://example.com/e.zip"),
                saved_path: "dest/e.zip".to_string(),
            },
        ]
    );
}

#[test]
fn resolve_all_goes_on_after_a_failure() {
    let references = vec![registry_mod("a", "1"), registry_mod("b", "2")];
    let attempts = vec![Err(KilnError::NotFound), Ok(release("b.zip", "https://r/b.zip", "2"))];
    let outcomes = resolve_all(&references, "dest", &attempts);
    assert_eq!(
        outcomes,
        vec![
            Outcome::Failed { reference: registry_mod("a", "1"), error: KilnError::NotFound },
            Outcome::Resolved { reference: registry_mod("b", "2"), saved_path: "dest/b.zip".to_string() },
        ]
    );
}

#[test]
fn resolve_all_counts_a_missing_attempt_as_a_failed_download() {
    let references = vec![registry_mod("a", "1"), registry_mod("b", "2")];
    let attempts = vec![Ok(release("a.zip", "https://r/a.zip", "1"))];
    let outcomes = resolve_all(&references, "dest", &attempts);
    assert_eq!(
        outcomes,
        vec![
            Outcome::Resolved { reference: registry_mod("a", "1"), saved_path: "dest/a.zip".to_string() },
            Outcome::Failed { reference: registry_mod("b", "2"), error: KilnError::FetchError },
        ]
    );
}

#[test]
fn resolve_all_of_nothing_is_nothing() {
    assert_eq!(resolve_all(&Vec::new(), "dest", &Vec::new()), Vec::new());
    let spare = vec![Ok(release("a.zip", "https://r/a.zip", "1"))];
    assert_eq!(resolve_all(&Vec::new(), "dest", &spare), Vec::new());
}

#[test]
fn release_duplicate_is_equal() {
    let one = release("a.zip", "https://r/a.zip", "1");
    assert_eq!(one.duplicate(), one);
}

#[test]
fn count_version_counts_the_exact_matches() {
    let listing = vec![
        release("other.zip", "https://r/other.zip", "0.9"),
        release("first.zip", "https://r/first.zip", "1.2"),
        release("near.zip", "https://r/near.zip", "1.2.0"),
        release("second.zip", "https://r/second.zip", "1.2"),
    ];
    assert_eq!(count_version(&listing, "1.2"), 2);
    assert_eq!(count_version(&listing, "0.9"), 1);
    assert_eq!(count_version(&listing, "1.2.0"), 1);
    assert_eq!(count_version(&listing, "2.0"), 0);
    assert_eq!(count_version(&Vec::new(), "1.2"), 0);
}

fn known_mod() -> RegistryReply {
    RegistryReply::Mod {
        releases: vec![
            release("abc_1.3.zip", "https://r/abc_1.3.zip", "1.3"),
            release("abc_1.2.zip", "https://r/abc_1.2.zip", "1.2"),
        ],
        latest: Some(release("abc_1.3.zip", "https://r/abc_1.3.zip", "1.3")),
    }
}

#[test]
fn answer_to_a_lookup_by_version() {
    let lookup = plan(&registry_mod("abc", "1.2"));
    assert_eq!(answer(&lookup, &known_mod()), Ok(release("abc_1.2.zip", "https://r/abc_1.2.zip", "1.2")));
    let gone = plan(&registry_mod("abc", "0.1"));
    assert_eq!(answer(&gone, &known_mod()), Err(KilnError::VersionNotFound));
    let nothing = RegistryReply::Mod { releases: Vec::new(), latest: None };
    assert_eq!(answer(&lookup, &nothing), Err(KilnError::VersionNotFound));
}

#[test]
fn answer_to_a_lookup_of_the_latest() {
    let lookup = plan(&registry_mod("abc", ""));
    assert_eq!(answer(&lookup, &known_mod()), Ok(release("abc_1.3.zip", "https://r/abc_1.3.zip", "1.3")));
    let nothing = RegistryReply::Mod { releases: Vec::new(), latest: None };
    assert_eq!(answer(&lookup, &nothing), Err(KilnError::NoReleases));
}

#[test]
fn answer_where_the_registry_has_no_such_mod_or_was_not_reached() {
    for lookup in [plan(&registry_mod("abc", "1.2")), plan(&registry_mod("abc", ""))] {
        assert_eq!(answer(&lookup, &RegistryReply::UnknownMod), Err(KilnError::NotFound));
        assert_eq!(answer(&lookup, &RegistryReply::Unreachable), Err(KilnError::FetchError));
        assert_eq!(answer(&lookup, &RegistryReply::NotAsked), Err(KilnError::FetchError));
    }
}

#[test]
fn answer_for_a_direct_mod_needs_no_registry() {
    let lookup = plan(&other_mod("extra", "https://example.com/e.zip"));
    let own = release("extra.zip", "https://example.com/e.zip", "");
    for reply in [RegistryReply::NotAsked, RegistryReply::Unreachable, RegistryReply::UnknownMod, known_mod()] {
        assert_eq!(answer(&lookup, &reply), Ok(own.clone()));
    }
}

#[test]
fn a_fetched_registry_mod_carries_the_version_of_its_release() {
    for (reference, wanted) in [(registry_mod("abc", "1.2"), "1.2"), (registry_mod("abc", ""), "1.3")] {
        let attempt = answer(&plan(&reference), &known_mod());
        let outcome = settle(&reference, "dest", &attempt);
        match outcome {
            Outcome::Resolved { reference: KilnMod::ModDbMod { id, version }, .. } => {
                assert_eq!(id, "abc");
                assert_eq!(version, wanted);
                assert!(!version.is_empty());
            }
            other => panic!("not fetched: {:?}", other),
        }
    }
}
