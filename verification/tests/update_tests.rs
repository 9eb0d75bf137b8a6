use equicord_launcher::records::ReleaseDescriptor;
use equicord_launcher::update::{
    conclude_update, evaluate_release_check, evaluate_single_asset_check, summarize_fetch,
    FetchOutcome, SingleAssetCheck, UpdateCheck,
};

fn descriptor(tag: &str, name: &str, updated: &str) -> ReleaseDescriptor {
    ReleaseDescriptor {
        tag_name: tag.to_string(),
        name: name.to_string(),
        updated_at: updated.to_string(),
    }
}

fn manifest_body() -> String {
    "{\"tag_name\": \"latest\", \"name\": \"Equicord\", \"updated_at\": \"2024-06-01T00:00:00Z\", \"assets\": [{\"name\": \"equicord.asar\", \"browser_download_url\": \"https://cdn/equicord.asar\"},{\"name\": \"notes.txt\", \"browser_download_url\": \"https://cdn/notes.txt\"},{\"name\": \"patcher.js\", \"browser_download_url\": \"https://cdn/patcher.js\"},{\"name\": \"source.zip\", \"browser_download_url\": \"https://cdn/source.zip\"},{\"name\": \"preload.js\", \"browser_download_url\": \"https://cdn/preload.js\"}]}"
    .to_string()
}

fn allow_list() -> Vec<String> {
    vec![
        "equicord.asar".to_string(),
        "patcher.js".to_string(),
        "preload.js".to_string(),
    ]
}

#[test]
fn unchanged_timestamp_is_up_to_date() {
    // Cached timestamp equals the remote one: no fetch tasks, no write.
    let cached = Some(descriptor("latest", "Equicord", "2024-06-01T00:00:00Z"));
    let d = evaluate_release_check(&cached, 200, &manifest_body(), &allow_list());
    assert!(matches!(d, UpdateCheck::UpToDate));
}

#[test]
fn second_check_after_update_is_idle() {
    // A successful update persists the remote descriptor; checking again
    // against the same remote body decides "up to date".
    let first = evaluate_release_check(&None, 200, &manifest_body(), &allow_list());
    let persisted = match first {
        UpdateCheck::Fetch { descriptor, .. } => descriptor,
        _ => panic!("first check should fetch"),
    };
    let second = evaluate_release_check(&Some(persisted), 200, &manifest_body(), &allow_list());
    assert!(matches!(second, UpdateCheck::UpToDate));
}

#[test]
fn stale_feed_fetches_exactly_the_allow_listed_assets() {
    // Three of the five remote assets are allow-listed: exactly those three
    // are planned, and the descriptor carries the remote fields verbatim.
    let cached = Some(descriptor("latest", "Equicord", "2024-01-01T00:00:00Z"));
    let d = evaluate_release_check(&cached, 200, &manifest_body(), &allow_list());
    match d {
        UpdateCheck::Fetch { assets, descriptor } => {
            let names: Vec<&str> = assets.iter().map(|a| a.name.as_str()).collect();
            assert_eq!(names, vec!["equicord.asar", "patcher.js", "preload.js"]);
            assert_eq!(assets[0].url, "https://cdn/equicord.asar");
            assert_eq!(descriptor.tag_name, "latest");
            assert_eq!(descriptor.name, "Equicord");
            assert_eq!(descriptor.updated_at, "2024-06-01T00:00:00Z");
        },
        _ => panic!("expected a fetch plan"),
    }
}

#[test]
fn non_200_status_aborts_softly() {
    let d = evaluate_release_check(&None, 403, &manifest_body(), &allow_list());
    assert!(matches!(d, UpdateCheck::Abort));
}

#[test]
fn unparsable_manifest_aborts_softly() {
    let d = evaluate_release_check(&None, 200, "not json at all", &allow_list());
    assert!(matches!(d, UpdateCheck::Abort));
    let missing_fields = "{\"tag_name\": \"latest\"}";
    let d2 = evaluate_release_check(&None, 200, missing_fields, &allow_list());
    assert!(matches!(d2, UpdateCheck::Abort));
}

#[test]
fn manifest_without_recognized_assets_is_reported() {
    let body = "{\"tag_name\": \"latest\", \"name\": \"Equicord\", \"updated_at\": \"2024-06-01T00:00:00Z\", \"assets\": [{\"name\": \"unrelated.bin\", \"browser_download_url\": \"https://cdn/u.bin\"}]}";
    let d = evaluate_release_check(&None, 200, body, &allow_list());
    assert!(matches!(d, UpdateCheck::NoMatchingAssets));
}

#[test]
fn malformed_asset_entries_are_skipped() {
    let body = "{\"tag_name\": \"latest\", \"name\": \"Equicord\", \"updated_at\": \"2024-06-01T00:00:00Z\", \"assets\": [{\"name\": \"equicord.asar\"},{\"name\": \"patcher.js\", \"browser_download_url\": \"https://cdn/patcher.js\"}]}";
    let d = evaluate_release_check(&None, 200, body, &allow_list());
    match d {
        UpdateCheck::Fetch { assets, .. } => {
            assert_eq!(assets.len(), 1);
            assert_eq!(assets[0].name, "patcher.js");
        },
        _ => panic!("expected a fetch plan"),
    }
}

#[test]
fn fetch_aggregation_counts_failures() {
    // N = 3 outcomes, M = 1 failure: exactly 2 writes, batch reports failure.
    let outcomes = vec![
        FetchOutcome { name: "a".to_string(), payload: Some(vec![1, 2, 3]) },
        FetchOutcome { name: "b".to_string(), payload: None },
        FetchOutcome { name: "c".to_string(), payload: Some(vec![]) },
    ];
    let s = summarize_fetch(outcomes);
    assert_eq!(s.writes.len(), 2);
    assert_eq!(s.writes[0].name, "a");
    assert_eq!(s.writes[0].data, vec![1, 2, 3]);
    assert_eq!(s.writes[1].name, "c");
    assert!(!s.all_ok);
}

#[test]
fn fetch_aggregation_reports_success_only_without_failures() {
    let all_good = vec![
        FetchOutcome { name: "a".to_string(), payload: Some(vec![9]) },
        FetchOutcome { name: "b".to_string(), payload: Some(vec![8]) },
    ];
    let s = summarize_fetch(all_good);
    assert_eq!(s.writes.len(), 2);
    assert!(s.all_ok);
    let none = summarize_fetch(vec![]);
    assert_eq!(none.writes.len(), 0);
    assert!(none.all_ok);
}

#[test]
fn metadata_is_persisted_only_on_full_success() {
    let d = descriptor("latest", "Equicord", "2024-06-01T00:00:00Z");
    assert!(conclude_update(&d, false).is_none());
    let doc = conclude_update(&d, true).expect("persist on full success");
    assert!(doc.contains("\"updated_at\": \"2024-06-01T00:00:00Z\""));
}

#[test]
fn single_asset_check_finds_wanted_asset() {
    let body = "{\"tag_name\": \"nightly\", \"name\": \"OpenAsar\", \"updated_at\": \"2024-05-01T00:00:00Z\", \"assets\": [{\"name\": \"other.bin\", \"browser_download_url\": \"https://cdn/other.bin\"},{\"name\": \"app.asar\", \"browser_download_url\": \"https://cdn/app.asar\"}]}";
    let wanted = "app.asar".to_string();
    let d = evaluate_single_asset_check(&None, 200, body, false, &wanted);
    match d {
        SingleAssetCheck::Fetch { url, descriptor } => {
            assert_eq!(url, "https://cdn/app.asar");
            assert_eq!(descriptor.tag_name, "nightly");
        },
        _ => panic!("expected a fetch plan"),
    }
}

#[test]
fn single_asset_up_to_date_needs_file_present() {
    let body = "{\"tag_name\": \"nightly\", \"name\": \"OpenAsar\", \"updated_at\": \"2024-05-01T00:00:00Z\", \"assets\": [{\"name\": \"app.asar\", \"browser_download_url\": \"https://cdn/app.asar\"}]}";
    let cached = Some(descriptor("nightly", "OpenAsar", "2024-05-01T00:00:00Z"));
    let wanted = "app.asar".to_string();
    let with_file = evaluate_single_asset_check(&cached, 200, body, true, &wanted);
    assert!(matches!(with_file, SingleAssetCheck::UpToDate));
    let without_file = evaluate_single_asset_check(&cached, 200, body, false, &wanted);
    assert!(matches!(without_file, SingleAssetCheck::Fetch { .. }));
}

#[test]
fn single_asset_missing_from_manifest_is_reported() {
    let body = "{\"tag_name\": \"nightly\", \"name\": \"OpenAsar\", \"updated_at\": \"2024-05-01T00:00:00Z\", \"assets\": []}";
    let wanted = "app.asar".to_string();
    let d = evaluate_single_asset_check(&None, 200, body, false, &wanted);
    assert!(matches!(d, SingleAssetCheck::AssetMissing));
}
