use std::collections::BTreeSet;
use warehouse::minecraft::{BuildSet, Distribution};
use warehouse::resolve::builds::{
    fabric_builds, forge_builds, neoforge_builds, paper_builds, purpur_builds, record_builds,
    record_found, record_loaders, Channel, PaperBuild,
};
use warehouse::resolve::docker::{TagListing, MAX_PAGES};
use warehouse::resolve::error::ResolveError;
use warehouse::resolve::http::{docker_wait, preview, retry_after_secs};
use warehouse::resolve::minecraft::{
    attach_distributions, java_threshold, known_releases, merge, minecraft_catalog,
    release_versions, ManifestEntry,
};
use warehouse::resolve::proxy::{
    bungeecord_builds, proxy_catalog, velocity_versions, JenkinsBuild, VelocityEntry,
};
use warehouse::time::Span;

fn strings(raw: &[&str]) -> Vec<String> {
    raw.iter().map(|s| s.to_string()).collect()
}

fn range(prefix: Option<&str>, min: u16, max: u16, excluded: &[u16]) -> BuildSet {
    BuildSet::Range {
        prefix: prefix.map(|p| p.to_string()),
        min,
        max,
        excluded: excluded.iter().copied().collect::<BTreeSet<u16>>(),
    }
}

#[test]
fn retry_after_reads_seconds_or_defaults() {
    assert_eq!(retry_after_secs(Some("120")), 120);
    assert_eq!(retry_after_secs(Some("Wed, 21 Oct 2015 07:28:00 GMT")), 60);
    assert_eq!(retry_after_secs(Some("")), 60);
    assert_eq!(retry_after_secs(None), 60);
}

#[test]
fn preview_quotes_the_opening_of_an_answer() {
    assert_eq!(preview(b"not json"), "not json");
    let long = vec![b'a'; 300];
    let p = preview(&long);
    assert_eq!(p.len(), 259);
    assert!(p.ends_with("..."));
    assert_eq!(&p[..256], "a".repeat(256));
    assert_eq!(preview(&[0xff, b'x']), "\u{fffd}x");
    assert_eq!(preview(&vec![b'b'; 256]), format!("{}...", "b".repeat(256)));
}

#[test]
fn docker_reads_are_spaced() {
    let interval = Span::from_secs(3600);
    assert_eq!(docker_wait(interval, None), Span::zero());
    assert_eq!(docker_wait(interval, Some(Span::from_secs(600))), Span::from_secs(3000));
    assert_eq!(docker_wait(interval, Some(Span::from_secs(4000))), Span::zero());
}

#[test]
fn only_rate_limits_carry_a_wait() {
    let limited = ResolveError::RateLimited {
        upstream: "dockerhub",
        retry_after: Span::from_secs(90),
    };
    assert_eq!(limited.retry_after(), Some(Span::from_secs(90)));
    let malformed = ResolveError::Malformed {
        upstream: "mojang",
        detail: "expected value".to_string(),
    };
    assert_eq!(malformed.retry_after(), None);
}

#[test]
fn paper_keeps_stable_and_recommended_builds() {
    let builds = [
        PaperBuild { id: 10, channel: Channel::Stable },
        PaperBuild { id: 11, channel: Channel::Beta },
        PaperBuild { id: 12, channel: Channel::Recommended },
        PaperBuild { id: 14, channel: Channel::Stable },
        PaperBuild { id: 15, channel: Channel::Alpha },
    ];
    assert_eq!(paper_builds(&builds), Some(range(None, 10, 14, &[11, 13])));
    assert_eq!(paper_builds(&[PaperBuild { id: 1, channel: Channel::Alpha }]), None);
}

#[test]
fn purpur_reads_numbered_builds() {
    assert_eq!(
        purpur_builds(&strings(&["2301", "2299", "latest", "2302"])),
        Some(range(None, 2299, 2302, &[2300]))
    );
    assert_eq!(purpur_builds(&strings(&["x"])), None);
}

#[test]
fn fabric_keeps_loaders_as_listed() {
    assert_eq!(
        fabric_builds(strings(&["0.16.9", "0.16.8"])),
        Some(BuildSet::List {
            values: strings(&["0.16.9", "0.16.8"])
        })
    );
    assert_eq!(fabric_builds(vec![]), None);
}

#[test]
fn forge_groups_loaders_per_tracked_release() {
    let versions = strings(&[
        "1.20.1-47.1.0",
        "1.20.1-47.2.0",
        "1.19.2-43.3.0",
        "1.20.1-47.3.0",
        "1.12.2-14.23.5.2860",
        "nonsense",
    ]);
    let known = strings(&["1.20.1", "1.19.2"]);
    let mut res = forge_builds(&versions, &known);
    res.sort_by(|a, b| a.0.cmp(&b.0));
    assert_eq!(
        res,
        vec![
            (
                "1.19.2".to_string(),
                BuildSet::List {
                    values: strings(&["43.3.0"])
                }
            ),
            (
                "1.20.1".to_string(),
                BuildSet::List {
                    values: strings(&["47.3.0", "47.2.0", "47.1.0"])
                }
            ),
        ]
    );
}

#[test]
fn neoforge_lines_become_prefixed_ranges() {
    let versions = strings(&[
        "21.4.1", "21.4.2", "21.4.5", "21.3.7", "20.2.86", "21.4.6-beta", "x.y.z",
    ]);
    let known = strings(&["1.21.4", "1.21.3"]);
    let mut res = neoforge_builds(&versions, &known);
    res.sort_by(|a, b| a.0.cmp(&b.0));
    assert_eq!(
        res,
        vec![
            ("1.21.3".to_string(), range(Some("21.3."), 7, 7, &[])),
            ("1.21.4".to_string(), range(Some("21.4."), 1, 5, &[3, 4])),
        ]
    );
}

#[test]
fn recorded_builds_replace_earlier_ones() {
    let mut resolved = Vec::new();
    record_builds(&mut resolved, "1.21.4".to_string(), range(None, 1, 2, &[]));
    record_builds(&mut resolved, "1.21.3".to_string(), range(None, 3, 3, &[]));
    record_builds(&mut resolved, "1.21.4".to_string(), range(None, 5, 9, &[]));
    assert_eq!(resolved.len(), 2);
    let found: Vec<&BuildSet> = resolved.iter().filter(|(id, _)| id == "1.21.4").map(|(_, s)| s).collect();
    assert_eq!(found, vec![&range(None, 5, 9, &[])]);
}

fn entry(id: &str, kind: &str) -> ManifestEntry {
    ManifestEntry {
        id: id.to_string(),
        kind: kind.to_string(),
    }
}

#[test]
fn java_thresholds() {
    assert_eq!(java_threshold("1.21.11"), Some(21));
    assert_eq!(java_threshold("1.20.4"), Some(17));
    assert_eq!(java_threshold("1.16.5"), Some(8));
    assert_eq!(java_threshold("1.21.4"), None);
}

#[test]
fn releases_carry_java_and_data_pack_support() {
    let entries = vec![
        entry("25w14a", "snapshot"),
        entry("1.21.12", "release"),
        entry("1.21.11", "release"),
        entry("1.21.4", "release"),
        entry("1.20.4", "release"),
        entry("1.20.2-pre1", "snapshot"),
        entry("1.20.1", "release"),
        entry("1.16.5", "release"),
        entry("1.13", "release"),
        entry("1.12.2", "release"),
        entry("1.7.10", "release"),
        entry("1.7.9", "release"),
        entry("b1.7.3", "old_beta"),
    ];
    let versions = release_versions(&entries).expect("releases");
    let summary: Vec<(&str, u8, bool)> = versions
        .iter()
        .map(|v| (v.id.as_str(), v.recommended_java, v.data_pack))
        .collect();
    assert_eq!(
        summary,
        vec![
            ("1.21.12", 25, true),
            ("1.21.11", 21, true),
            ("1.21.4", 21, true),
            ("1.20.4", 17, true),
            ("1.20.1", 17, true),
            ("1.16.5", 8, true),
            ("1.13", 8, true),
            ("1.12.2", 8, false),
            ("1.7.10", 8, false),
        ]
    );
    assert!(versions.iter().all(|v| v.distributions.is_empty()));
    let ids = known_releases(&versions);
    assert_eq!(ids.len(), 9);
    assert_eq!(ids[0], "1.21.12");
}

#[test]
fn a_manifest_without_releases_is_empty_error() {
    let err = release_versions(&[entry("25w14a", "snapshot")]).unwrap_err();
    assert!(matches!(err, ResolveError::Empty { upstream: "mojang" }));
}

#[test]
fn distributions_are_attached_to_their_releases() {
    let versions = release_versions(&[entry("1.21.4", "release"), entry("1.21.3", "release")]).unwrap();
    let mut merged = Vec::new();
    merge(
        &mut merged,
        Distribution::Fabric,
        Ok(vec![(
            "1.21.4".to_string(),
            BuildSet::List {
                values: strings(&["0.16.9"]),
            },
        )]),
    );
    merge(
        &mut merged,
        Distribution::Paper,
        Ok(vec![
            ("1.21.4".to_string(), range(None, 1, 3, &[])),
            ("1.21.3".to_string(), range(None, 80, 82, &[81])),
        ]),
    );
    merge(
        &mut merged,
        Distribution::Forge,
        Err(ResolveError::Empty { upstream: "minecraftforge" }),
    );
    assert_eq!(merged.len(), 2);
    let out = attach_distributions(versions, merged);
    assert_eq!(out.len(), 2);
    assert_eq!(
        out[0].distributions,
        vec![
            (Distribution::Paper, range(None, 1, 3, &[])),
            (
                Distribution::Fabric,
                BuildSet::List {
                    values: strings(&["0.16.9"])
                }
            ),
        ]
    );
    assert_eq!(out[1].distributions, vec![(Distribution::Paper, range(None, 80, 82, &[81]))]);
}

#[test]
fn a_later_upstream_answer_replaces_the_earlier() {
    let mut merged = Vec::new();
    merge(&mut merged, Distribution::Quilt, Ok(vec![("1.21.4".to_string(), range(None, 1, 1, &[]))]));
    merge(&mut merged, Distribution::Quilt, Ok(vec![]));
    assert_eq!(merged.len(), 1);
    assert!(merged[0].1.is_empty());
    let versions = release_versions(&[entry("1.21.4", "release")]).unwrap();
    let catalog = minecraft_catalog(versions, merged);
    assert_eq!(catalog.schema, 1);
    assert_eq!(catalog.versions.len(), 1);
    assert!(catalog.versions[0].distributions.is_empty());
}

#[test]
fn velocity_lines_with_builds() {
    let lines = velocity_versions(vec![
        VelocityEntry {
            id: "3.4.0-SNAPSHOT".to_string(),
            java: None,
            builds: vec![500, 498, 497],
        },
        VelocityEntry {
            id: "3.3.0".to_string(),
            java: Some(17),
            builds: vec![],
        },
        VelocityEntry {
            id: "3.1.1".to_string(),
            java: Some(11),
            builds: vec![102],
        },
    ])
    .unwrap();
    assert_eq!(lines.len(), 2);
    assert_eq!(lines[0].id, "3.4.0-SNAPSHOT");
    assert_eq!(lines[0].java, 21);
    assert_eq!(lines[0].builds, range(None, 497, 500, &[499]));
    assert_eq!(lines[1].java, 11);
    let err = velocity_versions(vec![]).unwrap_err();
    assert!(matches!(err, ResolveError::Empty { upstream: "papermc" }));
}

fn jenkins(number: u16, result: Option<&str>) -> JenkinsBuild {
    JenkinsBuild {
        number,
        result: result.map(|r| r.to_string()),
    }
}

#[test]
fn bungeecord_keeps_fifty_newest_successes() {
    let mut builds: Vec<JenkinsBuild> = (1..=80).map(|n| jenkins(n, Some("SUCCESS"))).collect();
    builds.push(jenkins(81, Some("FAILURE")));
    builds.push(jenkins(82, None));
    builds.reverse();
    let kept = bungeecord_builds(&builds).unwrap();
    assert_eq!(kept.len(), 50);
    assert_eq!(kept[0], 80);
    assert_eq!(kept[49], 31);
    let few = bungeecord_builds(&[jenkins(3, Some("SUCCESS")), jenkins(9, Some("SUCCESS")), jenkins(5, Some("UNSTABLE"))]).unwrap();
    assert_eq!(few, vec![9, 3]);
    let err = bungeecord_builds(&[jenkins(1, Some("ABORTED"))]).unwrap_err();
    assert!(matches!(err, ResolveError::Empty { upstream: "spigotmc" }));
    let catalog = proxy_catalog(vec![], few);
    assert_eq!(catalog.schema, 1);
    assert_eq!(catalog.bungeecord, vec![9, 3]);
}

#[test]
fn tag_listing_reads_at_most_five_pages() {
    let mut listing = TagListing::new();
    let mut follow = Some("page-1".to_string());
    let mut pages = 0;
    while let Some(url) = follow.take() {
        pages += 1;
        follow = listing.page(vec![format!("tag-{url}")], Some(format!("{pages}")));
    }
    assert_eq!(pages, MAX_PAGES);
    assert_eq!(listing.pages, 5);
    let tags = listing.finish().unwrap();
    assert_eq!(tags, vec!["tag-1", "tag-2", "tag-3", "tag-4", "tag-page-1"]);

    let mut short = TagListing::new();
    assert_eq!(short.page(vec!["1.0.0".to_string()], None), None);
    assert_eq!(short.finish().unwrap(), vec!["1.0.0".to_string()]);

    let mut empty = TagListing::new();
    assert_eq!(empty.page(vec![], None), None);
    assert!(matches!(empty.finish(), Err(ResolveError::Empty { upstream: "dockerhub" })));
}

#[test]
fn tag_listing_is_sorted_without_repeats() {
    let mut listing = TagListing::new();
    let follow = listing.page(
        vec!["3.12.1".to_string(), "3.12.1".to_string(), "3.10.0".to_string(), "latest".to_string()],
        Some("next".to_string()),
    );
    assert_eq!(follow, Some("next".to_string()));
    listing.page(vec!["3.11.4".to_string(), "latest".to_string(), "3.10".to_string()], None);
    assert_eq!(
        listing.finish().unwrap(),
        vec!["3.10", "3.10.0", "3.11.4", "3.12.1", "latest"]
    );
}

#[test]
fn failed_or_empty_loader_listings_record_nothing() {
    let mut resolved = Vec::new();
    record_loaders(&mut resolved, "1.21.4".to_string(), Some(strings(&["0.16.9"])));
    record_loaders(&mut resolved, "1.21.3".to_string(), None);
    record_loaders(&mut resolved, "1.21.2".to_string(), Some(vec![]));
    record_found(&mut resolved, "1.21.1".to_string(), None);
    assert_eq!(
        resolved,
        vec![(
            "1.21.4".to_string(),
            BuildSet::List {
                values: strings(&["0.16.9"])
            }
        )]
    );
    record_found(&mut resolved, "1.21.4".to_string(), Some(range(None, 1, 2, &[])));
    assert_eq!(resolved, vec![("1.21.4".to_string(), range(None, 1, 2, &[]))]);
}

#[test]
fn failure_messages_name_the_upstream() {
    assert_eq!(
        ResolveError::Empty { upstream: "dockerhub" }.message(),
        "dockerhub returned no usable entries"
    );
    assert_eq!(
        ResolveError::Malformed {
            upstream: "mojang",
            detail: "expected value".to_string()
        }
        .message(),
        "mojang returned a response we could not parse: expected value"
    );
    assert_eq!(
        ResolveError::RateLimited {
            upstream: "dockerhub",
            retry_after: Span::from_secs(120)
        }
        .message(),
        "dockerhub rate limited the request; retry after 120s"
    );
}

#[test]
fn catalogs_built_here_carry_no_locations() {
    let marks = ["://", "www.", ".com/", ".net/", ".org/", "docker.io"];
    let versions = release_versions(&[entry("1.21.4", "release")]).unwrap();
    let ids = known_releases(&versions);
    let mut merged = Vec::new();
    merge(&mut merged, Distribution::Neoforge, Ok(neoforge_builds(&strings(&["21.4.1", "21.4.7"]), &ids)));
    let catalog = minecraft_catalog(versions, merged);
    for v in &catalog.versions {
        for (_, set) in &v.distributions {
            if let BuildSet::Range { prefix: Some(p), .. } = set {
                assert_eq!(p, "21.4.");
                assert!(marks.iter().all(|m| !p.contains(m)));
            }
        }
    }
}
