//! One release feed's update cycle: decide from cached metadata and the
//! remote manifest whether anything is stale, which assets to fetch, and
//! what to persist afterwards.
//!
//! The surrounding program performs the network and disk work; this module
//! makes every decision.  The remote manifest body is handed in as received;
//! reading it goes through a JSON parser of an outside crate, behind trusted
//! wrappers whose results are named, and everything after that call is
//! verified.  Updated release metadata is persisted only when every asset
//! arrived, so a later run can never mistake a partial download for a
//! complete one.

use vstd::prelude::*;
use crate::records::{release_doc, render_release, ReleaseDescriptor, ReleaseDescriptorModel};

verus! {

/// One downloadable asset of a release: its file name and its download
/// locator.
pub struct AssetDescriptor {
    pub name: String,
    pub url: String,
}

/// The mathematical value of an [`AssetDescriptor`].
pub struct AssetDescriptorModel {
    pub name: Seq<char>,
    pub url: Seq<char>,
}

impl View for AssetDescriptor {
    type V = AssetDescriptorModel;

    open spec fn view(&self) -> AssetDescriptorModel {
        AssetDescriptorModel { name: self.name@, url: self.url@ }
    }
}

impl DeepView for AssetDescriptor {
    type V = AssetDescriptorModel;

    open spec fn deep_view(&self) -> AssetDescriptorModel {
        self.view()
    }
}

/// The three string fields `tag_name`, `name` and `updated_at` of the
/// remote manifest, where the body parses as a JSON object carrying all
/// three as strings.
pub uninterp spec fn manifest_fields(body: Seq<char>) -> Option<(Seq<char>, Seq<char>, Seq<char>)>;

/// The entries of the remote manifest's `assets` array, where the body
/// parses as a JSON object carrying one: for each entry its `name` and
/// `browser_download_url` strings, or nothing where an entry lacks them.
pub uninterp spec fn manifest_assets(body: Seq<char>) -> Option<
    Seq<Option<(Seq<char>, Seq<char>)>>,
>;

/// Relies on tinyjson's `FromStr` parser and `JsonValue::get`: reads the
/// `tag_name`, `name` and `updated_at` string fields of the manifest
/// object.  The result depends on the body alone.
#[verifier::external_body]
fn extract_release_fields(body: &str) -> (r: Option<(String, String, String)>)
    ensures
        r is Some <==> manifest_fields(body@) is Some,
        r matches Some(f) ==> manifest_fields(body@) == Some((f.0@, f.1@, f.2@)),
{
    let v: tinyjson::JsonValue = body.parse().ok()?;
    let obj: &std::collections::HashMap<String, tinyjson::JsonValue> = v.get()?;
    let tag: &String = obj.get("tag_name")?.get()?;
    let name: &String = obj.get("name")?.get()?;
    let updated: &String = obj.get("updated_at")?.get()?;
    Some((tag.clone(), name.clone(), updated.clone()))
}

/// Relies on tinyjson's `FromStr` parser and `JsonValue::get`: reads the
/// `assets` array of the manifest object, handing each entry's `name` and
/// `browser_download_url` on, or nothing for an entry that lacks them.  The
/// result depends on the body alone.
#[verifier::external_body]
fn extract_asset_entries(body: &str) -> (r: Option<Vec<Option<(String, String)>>>)
    ensures
        r is Some <==> manifest_assets(body@) is Some,
        r matches Some(v) ==> manifest_assets(body@) == Some(v.deep_view()),
{
    let v: tinyjson::JsonValue = body.parse().ok()?;
    let obj: &std::collections::HashMap<String, tinyjson::JsonValue> = v.get()?;
    let arr: &Vec<tinyjson::JsonValue> = obj.get("assets")?.get()?;
    Some(arr.iter().map(|a| {
        let m: &std::collections::HashMap<String, tinyjson::JsonValue> = a.get()?;
        let name: &String = m.get("name")?.get()?;
        let url: &String = m.get("browser_download_url")?.get()?;
        Some((name.clone(), url.clone()))
    }).collect())
}

/// The full entries whose name the allow-list recognizes, in order.
pub open spec fn selected_assets(
    entries: Seq<Option<(Seq<char>, Seq<char>)>>,
    allow: Seq<Seq<char>>,
) -> Seq<AssetDescriptorModel>
    decreases entries.len(),
{
    if entries.len() == 0 {
        Seq::empty()
    } else {
        let rest = selected_assets(entries.drop_first(), allow);
        match entries[0] {
            Some(p) => if allow.contains(p.0) {
                seq![AssetDescriptorModel { name: p.0, url: p.1 }] + rest
            } else {
                rest
            },
            None => rest,
        }
    }
}

/// What one entry adds to the selection.
pub open spec fn selected_one(
    entry: Option<(Seq<char>, Seq<char>)>,
    allow: Seq<Seq<char>>,
) -> Seq<AssetDescriptorModel> {
    match entry {
        Some(p) => if allow.contains(p.0) {
            seq![AssetDescriptorModel { name: p.0, url: p.1 }]
        } else {
            Seq::empty()
        },
        None => Seq::empty(),
    }
}

proof fn lemma_selected_push(
    entries: Seq<Option<(Seq<char>, Seq<char>)>>,
    x: Option<(Seq<char>, Seq<char>)>,
    allow: Seq<Seq<char>>,
)
    ensures
        selected_assets(entries.push(x), allow) == selected_assets(entries, allow) + selected_one(
            x,
            allow,
        ),
    decreases entries.len(),
{
    let p = entries.push(x);
    if entries.len() == 0 {
        assert(p.drop_first() =~= Seq::<Option<(Seq<char>, Seq<char>)>>::empty());
        assert(p[0] == x);
        assert(selected_assets(p.drop_first(), allow) == Seq::<AssetDescriptorModel>::empty());
        match x {
            Some(q) => {
                if allow.contains(q.0) {
                    assert(selected_assets(p, allow) =~= seq![
                        AssetDescriptorModel { name: q.0, url: q.1 }]);
                    assert(selected_one(x, allow) == seq![
                        AssetDescriptorModel { name: q.0, url: q.1 }]);
                } else {
                    assert(selected_assets(p, allow) =~= Seq::<AssetDescriptorModel>::empty());
                }
            },
            None => {
                assert(selected_assets(p, allow) =~= Seq::<AssetDescriptorModel>::empty());
            },
        }
        assert(selected_assets(entries, allow) + selected_one(x, allow) =~= selected_one(
            x,
            allow,
        ));
    } else {
        assert(p.drop_first() =~= entries.drop_first().push(x));
        lemma_selected_push(entries.drop_first(), x, allow);
        assert(p[0] == entries[0]);
        assert(selected_assets(entries.push(x), allow) =~= selected_assets(entries, allow)
            + selected_one(x, allow));
    }
}

/// Whether the allow-list holds this name.
fn name_allowed(allowed: &Vec<String>, name: &String) -> (r: bool)
    ensures
        r == allowed.deep_view().contains(name@),
{
    let ghost av = allowed.deep_view();
    let mut i: usize = 0;
    while i < allowed.len()
        invariant
            i <= allowed.len(),
            av == allowed.deep_view(),
            forall|k: int| 0 <= k < i ==> av[k] != name@,
        decreases allowed.len() - i,
    {
        proof {
            assert(av[i as int] == allowed@[i as int]@);
        }
        if allowed[i].eq(name) {
            proof {
                assert(av.contains(name@)) by {
                    assert(av[i as int] == name@);
                }
            }
            return true;
        }
        i = i + 1;
    }
    proof {
        assert forall|k: int| 0 <= k < av.len() implies av[k] != name@ by {}
    }
    false
}

/// Filter the manifest's asset entries against the allow-list.
fn select_assets(entries: &Vec<Option<(String, String)>>, allowed: &Vec<String>) -> (sel: Vec<
    AssetDescriptor,
>)
    ensures
        sel.deep_view() == selected_assets(entries.deep_view(), allowed.deep_view()),
{
    let ghost ev = entries.deep_view();
    let ghost av = allowed.deep_view();
    let mut sel: Vec<AssetDescriptor> = Vec::new();
    let mut i: usize = 0;
    proof {
        assert(sel.deep_view() =~= selected_assets(ev.take(0), av));
    }
    while i < entries.len()
        invariant
            i <= entries.len(),
            ev == entries.deep_view(),
            av == allowed.deep_view(),
            sel.deep_view() == selected_assets(ev.take(i as int), av),
        decreases entries.len() - i,
    {
        proof {
            assert(ev[i as int] == entries@[i as int].deep_view());
        }
        let ghost before = sel.deep_view();
        match &entries[i] {
            Some(p) => {
                if name_allowed(allowed, &p.0) {
                    sel.push(AssetDescriptor { name: p.0.clone(), url: p.1.clone() });
                    proof {
                        assert(sel.deep_view() =~~= before + selected_one(ev[i as int], av));
                    }
                } else {
                    proof {
                        assert(sel.deep_view() =~= before + selected_one(ev[i as int], av));
                    }
                }
            },
            None => {
                proof {
                    assert(sel.deep_view() =~= before + selected_one(ev[i as int], av));
                }
            },
        }
        proof {
            lemma_selected_push(ev.take(i as int), ev[i as int], av);
            assert(ev.take(i + 1) =~= ev.take(i as int).push(ev[i as int]));
        }
        i = i + 1;
    }
    proof {
        assert(ev.take(ev.len() as int) =~= ev);
    }
    sel
}

/// The decision of one release feed check.
pub enum UpdateCheck {
    /// The remote side is unusable: transport failure, a non-200 status, or
    /// a manifest that does not parse.  Soft failure: nothing on disk
    /// changes, the host keeps whatever assets already exist.
    Abort,
    /// The remote `updated_at` equals the cached one: nothing to fetch,
    /// nothing to write.
    UpToDate,
    /// The manifest is usable but no asset name is on the allow-list.  Soft
    /// failure.
    NoMatchingAssets,
    /// Stale: fetch these assets, and persist the descriptor afterwards if
    /// every fetch succeeds.
    Fetch { assets: Vec<AssetDescriptor>, descriptor: ReleaseDescriptor },
}

/// The mathematical value of an [`UpdateCheck`].
pub enum UpdateCheckModel {
    Abort,
    UpToDate,
    NoMatchingAssets,
    Fetch { assets: Seq<AssetDescriptorModel>, descriptor: ReleaseDescriptorModel },
}

impl View for UpdateCheck {
    type V = UpdateCheckModel;

    open spec fn view(&self) -> UpdateCheckModel {
        match self {
            UpdateCheck::Abort => UpdateCheckModel::Abort,
            UpdateCheck::UpToDate => UpdateCheckModel::UpToDate,
            UpdateCheck::NoMatchingAssets => UpdateCheckModel::NoMatchingAssets,
            UpdateCheck::Fetch { assets, descriptor } => UpdateCheckModel::Fetch {
                assets: assets.deep_view(),
                descriptor: descriptor@,
            },
        }
    }
}

/// The release check decision, as a function of the cached descriptor, the
/// response status, the parsed manifest, and the allow-list.  Staleness is
/// decided by `updated_at` alone; the asset list matters only on a stale
/// feed, and an unusable manifest aborts softly.
pub open spec fn spec_release_check(
    cached: Option<ReleaseDescriptorModel>,
    status: u16,
    fields: Option<(Seq<char>, Seq<char>, Seq<char>)>,
    entries: Option<Seq<Option<(Seq<char>, Seq<char>)>>>,
    allow: Seq<Seq<char>>,
) -> UpdateCheckModel {
    if status != 200 {
        UpdateCheckModel::Abort
    } else {
        match fields {
            None => UpdateCheckModel::Abort,
            Some(f) => {
                if cached matches Some(c) && c.updated_at == f.2 {
                    UpdateCheckModel::UpToDate
                } else {
                    match entries {
                        None => UpdateCheckModel::Abort,
                        Some(es) => {
                            let sel = selected_assets(es, allow);
                            if sel.len() == 0 {
                                UpdateCheckModel::NoMatchingAssets
                            } else {
                                UpdateCheckModel::Fetch {
                                    assets: sel,
                                    descriptor: ReleaseDescriptorModel {
                                        tag_name: f.0,
                                        name: f.1,
                                        updated_at: f.2,
                                    },
                                }
                            }
                        },
                    }
                }
            },
        }
    }
}

/// Decide one release feed check from the cached descriptor, the manifest
/// response, and the feed's allow-list of recognized asset names.
pub fn evaluate_release_check(
    cached: &Option<ReleaseDescriptor>,
    status: u16,
    body: &str,
    allowed: &Vec<String>,
) -> (d: UpdateCheck)
    ensures
        d@ == spec_release_check(
            cached.deep_view(),
            status,
            manifest_fields(body@),
            manifest_assets(body@),
            allowed.deep_view(),
        ),
{
    if status != 200 {
        return UpdateCheck::Abort;
    }
    let (tag, name, updated) = match extract_release_fields(body) {
        Some(f) => f,
        None => {
            return UpdateCheck::Abort;
        },
    };
    if let Some(c) = cached {
        if c.updated_at.eq(&updated) {
            return UpdateCheck::UpToDate;
        }
    }
    let entries = match extract_asset_entries(body) {
        Some(v) => v,
        None => {
            return UpdateCheck::Abort;
        },
    };
    let sel = select_assets(&entries, allowed);
    if sel.len() == 0 {
        return UpdateCheck::NoMatchingAssets;
    }
    UpdateCheck::Fetch {
        assets: sel,
        descriptor: ReleaseDescriptor { tag_name: tag, name: name, updated_at: updated },
    }
}

/// Only the timestamp decides staleness: two cached descriptors with the
/// same `updated_at` lead to the same decision, whatever their tag or
/// display name, since a rolling feed may reuse both for new content.
pub proof fn lemma_only_timestamp_decides(
    c1: ReleaseDescriptorModel,
    c2: ReleaseDescriptorModel,
    status: u16,
    fields: Option<(Seq<char>, Seq<char>, Seq<char>)>,
    entries: Option<Seq<Option<(Seq<char>, Seq<char>)>>>,
    allow: Seq<Seq<char>>,
)
    requires
        c1.updated_at == c2.updated_at,
    ensures
        spec_release_check(Some(c1), status, fields, entries, allow) == spec_release_check(
            Some(c2),
            status,
            fields,
            entries,
            allow,
        ),
{
}

/// An unchanged remote timestamp always decides "up to date": checking
/// twice without a remote change fetches nothing the second time and leaves
/// the cache document untouched.
pub proof fn lemma_release_check_idempotent(
    cached: ReleaseDescriptorModel,
    fields: Option<(Seq<char>, Seq<char>, Seq<char>)>,
    entries: Option<Seq<Option<(Seq<char>, Seq<char>)>>>,
    allow: Seq<Seq<char>>,
)
    requires
        fields matches Some(f) && f.2 == cached.updated_at,
    ensures
        spec_release_check(Some(cached), 200, fields, entries, allow)
            == UpdateCheckModel::UpToDate,
{
}

/// What one spawned fetch task produced: the asset's file name and its
/// bytes, or nothing where the download, the read, or the task itself
/// failed.  Tasks finish in no particular order; the summary below is
/// insensitive to it.
pub struct FetchOutcome {
    pub name: String,
    pub payload: Option<Vec<u8>>,
}

/// The mathematical value of a [`FetchOutcome`].
pub struct FetchOutcomeModel {
    pub name: Seq<char>,
    pub payload: Option<Seq<u8>>,
}

impl View for FetchOutcome {
    type V = FetchOutcomeModel;

    open spec fn view(&self) -> FetchOutcomeModel {
        FetchOutcomeModel { name: self.name@, payload: self.payload.deep_view() }
    }
}

impl DeepView for FetchOutcome {
    type V = FetchOutcomeModel;

    open spec fn deep_view(&self) -> FetchOutcomeModel {
        self.view()
    }
}

/// One asset that arrived and is to be written to the cache directory.
pub struct FetchedAsset {
    pub name: String,
    pub data: Vec<u8>,
}

/// The mathematical value of a [`FetchedAsset`].
pub struct FetchedAssetModel {
    pub name: Seq<char>,
    pub data: Seq<u8>,
}

impl View for FetchedAsset {
    type V = FetchedAssetModel;

    open spec fn view(&self) -> FetchedAssetModel {
        FetchedAssetModel { name: self.name@, data: self.data@ }
    }
}

impl DeepView for FetchedAsset {
    type V = FetchedAssetModel;

    open spec fn deep_view(&self) -> FetchedAssetModel {
        self.view()
    }
}

/// The outcomes that carried bytes, in order.
pub open spec fn successes(outcomes: Seq<FetchOutcomeModel>) -> Seq<FetchedAssetModel>
    decreases outcomes.len(),
{
    if outcomes.len() == 0 {
        Seq::empty()
    } else {
        let rest = successes(outcomes.drop_first());
        match outcomes[0].payload {
            Some(d) => seq![FetchedAssetModel { name: outcomes[0].name, data: d }] + rest,
            None => rest,
        }
    }
}

/// How many outcomes failed.
pub open spec fn failure_count(outcomes: Seq<FetchOutcomeModel>) -> nat
    decreases outcomes.len(),
{
    if outcomes.len() == 0 {
        0
    } else {
        (if outcomes[0].payload is None {
            1nat
        } else {
            0nat
        }) + failure_count(outcomes.drop_first())
    }
}

/// What one outcome adds to the successes.
pub open spec fn success_one(o: FetchOutcomeModel) -> Seq<FetchedAssetModel> {
    match o.payload {
        Some(d) => seq![FetchedAssetModel { name: o.name, data: d }],
        None => Seq::empty(),
    }
}

proof fn lemma_successes_push(outcomes: Seq<FetchOutcomeModel>, x: FetchOutcomeModel)
    ensures
        successes(outcomes.push(x)) == successes(outcomes) + success_one(x),
        failure_count(outcomes.push(x)) == failure_count(outcomes) + (if x.payload is None {
            1nat
        } else {
            0nat
        }),
    decreases outcomes.len(),
{
    let p = outcomes.push(x);
    if outcomes.len() == 0 {
        assert(p.drop_first() =~= Seq::<FetchOutcomeModel>::empty());
        assert(p[0] == x);
        assert(successes(p.drop_first()) == Seq::<FetchedAssetModel>::empty());
        assert(successes(p) =~= success_one(x));
        assert(successes(outcomes) + success_one(x) =~= success_one(x));
        assert(failure_count(p.drop_first()) == 0);
        assert(failure_count(outcomes) == 0);
    } else {
        assert(p.drop_first() =~= outcomes.drop_first().push(x));
        lemma_successes_push(outcomes.drop_first(), x);
        assert(p[0] == outcomes[0]);
        assert(successes(outcomes.push(x)) =~= successes(outcomes) + success_one(x));
        assert(failure_count(p) == (if p[0].payload is None {
            1nat
        } else {
            0nat
        }) + failure_count(p.drop_first()));
    }
}

/// Fetch aggregation accounting: of `n` outcomes with `m` failures, exactly
/// `n - m` assets are written.
pub proof fn lemma_fetch_accounting(outcomes: Seq<FetchOutcomeModel>)
    ensures
        successes(outcomes).len() + failure_count(outcomes) == outcomes.len(),
    decreases outcomes.len(),
{
    if outcomes.len() > 0 {
        lemma_fetch_accounting(outcomes.drop_first());
    }
}

/// What the fan-in barrier hands back: the assets to write to disk, and
/// whether every task succeeded.
pub struct FetchSummary {
    pub writes: Vec<FetchedAsset>,
    pub all_ok: bool,
}

/// Aggregate the joined fetch outcomes.  The writes are exactly the
/// outcomes that carried bytes, and the batch counts as successful exactly
/// when nothing failed.
pub fn summarize_fetch(outcomes: Vec<FetchOutcome>) -> (s: FetchSummary)
    ensures
        s.writes.deep_view() == successes(outcomes.deep_view()),
        s.all_ok <==> failure_count(outcomes.deep_view()) == 0,
{
    let ghost ov = outcomes.deep_view();
    let mut rem = outcomes;
    let mut writes: Vec<FetchedAsset> = Vec::new();
    let mut all_ok = true;
    let ghost mut i: int = 0;
    proof {
        assert(writes.deep_view() =~= successes(ov.take(0)));
        assert(rem.deep_view() =~= ov.skip(0));
    }
    while rem.len() > 0
        invariant
            0 <= i <= ov.len(),
            rem.deep_view() == ov.skip(i),
            writes.deep_view() == successes(ov.take(i)),
            all_ok <==> failure_count(ov.take(i)) == 0,
        decreases rem.len(),
    {
        let ghost before = writes.deep_view();
        let ghost remv = rem.deep_view();
        let o = rem.remove(0);
        proof {
            assert(remv.len() > 0);
            assert(i < ov.len());
            assert(remv[0] == ov.skip(i)[0]);
            assert(ov.skip(i)[0] == ov[i]);
            assert(o.deep_view() == remv[0]);
            assert(rem.deep_view() =~= remv.drop_first());
            assert(ov.skip(i).drop_first() =~= ov.skip(i + 1));
        }
        let ghost om = o.deep_view();
        let FetchOutcome { name, payload } = o;
        match payload {
            Some(data) => {
                proof {
                    assert(om == ov[i]);
                    assert(om.name == name@);
                    assert(om.payload == Some(data@));
                }
                writes.push(FetchedAsset { name, data });
                proof {
                    assert(writes.deep_view() =~= before.push(
                        FetchedAssetModel { name: om.name, data: data@ },
                    ));
                    assert(success_one(ov[i]) == seq![
                        FetchedAssetModel { name: om.name, data: data@ }]);
                    assert(writes.deep_view() =~= before + success_one(ov[i]));
                }
            },
            None => {
                all_ok = false;
                proof {
                    assert(writes.deep_view() =~= before + success_one(ov[i]));
                }
            },
        }
        proof {
            lemma_successes_push(ov.take(i), ov[i]);
            assert(ov.take(i + 1) =~= ov.take(i).push(ov[i]));
            i = i + 1;
        }
    }
    proof {
        assert(ov.take(ov.len() as int) =~= ov);
        assert(ov.skip(i).len() == 0);
        assert(i == ov.len());
    }
    FetchSummary { writes, all_ok }
}

/// The document to persist after a fetch batch: the new descriptor exactly
/// when every asset arrived, nothing otherwise.  Persisting on a partial
/// batch would make the next run believe the feed is complete on disk, so
/// nothing is written then and the next run re-fetches.
pub fn conclude_update(descriptor: &ReleaseDescriptor, all_ok: bool) -> (doc: Option<String>)
    ensures
        doc is Some <==> all_ok,
        doc matches Some(text) ==> text@ == release_doc(
            descriptor.tag_name@,
            descriptor.name@,
            descriptor.updated_at@,
        ),
{
    if all_ok {
        Some(render_release(descriptor))
    } else {
        None
    }
}

/// The download locator of the first full entry bearing this name.
pub open spec fn first_asset_url(
    entries: Seq<Option<(Seq<char>, Seq<char>)>>,
    wanted: Seq<char>,
) -> Option<Seq<char>>
    decreases entries.len(),
{
    if entries.len() == 0 {
        None
    } else {
        match entries[0] {
            Some(p) => if p.0 == wanted {
                Some(p.1)
            } else {
                first_asset_url(entries.drop_first(), wanted)
            },
            None => first_asset_url(entries.drop_first(), wanted),
        }
    }
}

/// Find the download locator of the first entry bearing `wanted`.
fn find_asset_url(entries: &Vec<Option<(String, String)>>, wanted: &String) -> (r: Option<String>)
    ensures
        match r {
            Some(url) => first_asset_url(entries.deep_view(), wanted@) == Some(url@),
            None => first_asset_url(entries.deep_view(), wanted@) is None,
        },
{
    let ghost ev = entries.deep_view();
    let mut i: usize = 0;
    proof {
        assert(ev.skip(0) =~= ev);
    }
    while i < entries.len()
        invariant
            i <= entries.len(),
            ev == entries.deep_view(),
            first_asset_url(ev, wanted@) == first_asset_url(ev.skip(i as int), wanted@),
        decreases entries.len() - i,
    {
        proof {
            assert(ev.skip(i as int)[0] == ev[i as int]);
            assert(ev[i as int] == entries@[i as int].deep_view());
            assert(ev.skip(i as int).drop_first() =~= ev.skip(i + 1));
        }
        match &entries[i] {
            Some(p) => {
                if p.0.eq(wanted) {
                    return Some(p.1.clone());
                }
            },
            None => {
            },
        }
        i = i + 1;
    }
    proof {
        assert(ev.skip(entries@.len() as int).len() == 0);
    }
    None
}

/// The decision of one single-asset feed check, for the feed that ships one
/// replacement archive.
pub enum SingleAssetCheck {
    /// The remote side is unusable.  Soft failure: nothing changes.
    Abort,
    /// The remote `updated_at` equals the cached one and the staged file is
    /// already on disk: nothing to do.
    UpToDate,
    /// The manifest carries no entry with the wanted name.  Soft failure.
    AssetMissing,
    /// Fetch the one asset from `url`, then persist the descriptor.
    Fetch { url: String, descriptor: ReleaseDescriptor },
}

/// The mathematical value of a [`SingleAssetCheck`].
pub enum SingleAssetCheckModel {
    Abort,
    UpToDate,
    AssetMissing,
    Fetch { url: Seq<char>, descriptor: ReleaseDescriptorModel },
}

impl View for SingleAssetCheck {
    type V = SingleAssetCheckModel;

    open spec fn view(&self) -> SingleAssetCheckModel {
        match self {
            SingleAssetCheck::Abort => SingleAssetCheckModel::Abort,
            SingleAssetCheck::UpToDate => SingleAssetCheckModel::UpToDate,
            SingleAssetCheck::AssetMissing => SingleAssetCheckModel::AssetMissing,
            SingleAssetCheck::Fetch { url, descriptor } => SingleAssetCheckModel::Fetch {
                url: url@,
                descriptor: descriptor@,
            },
        }
    }
}

/// The single-asset check decision.  Unlike a multi-asset feed, being up to
/// date here also requires the staged file itself to still exist, so a
/// deleted file is re-fetched even under an unchanged timestamp.
pub open spec fn spec_single_asset_check(
    cached: Option<ReleaseDescriptorModel>,
    status: u16,
    fields: Option<(Seq<char>, Seq<char>, Seq<char>)>,
    entries: Option<Seq<Option<(Seq<char>, Seq<char>)>>>,
    target_present: bool,
    wanted: Seq<char>,
) -> SingleAssetCheckModel {
    if status != 200 {
        SingleAssetCheckModel::Abort
    } else {
        match fields {
            None => SingleAssetCheckModel::Abort,
            Some(f) => {
                if cached matches Some(c) && c.updated_at == f.2 && target_present {
                    SingleAssetCheckModel::UpToDate
                } else {
                    match entries {
                        None => SingleAssetCheckModel::Abort,
                        Some(es) => match first_asset_url(es, wanted) {
                            None => SingleAssetCheckModel::AssetMissing,
                            Some(url) => SingleAssetCheckModel::Fetch {
                                url: url,
                                descriptor: ReleaseDescriptorModel {
                                    tag_name: f.0,
                                    name: f.1,
                                    updated_at: f.2,
                                },
                            },
                        },
                    }
                }
            },
        }
    }
}

/// Decide one single-asset feed check from the cached descriptor, the
/// manifest response, whether the staged file is present, and the asset
/// name to look for.
pub fn evaluate_single_asset_check(
    cached: &Option<ReleaseDescriptor>,
    status: u16,
    body: &str,
    target_present: bool,
    wanted: &String,
) -> (d: SingleAssetCheck)
    ensures
        d@ == spec_single_asset_check(
            cached.deep_view(),
            status,
            manifest_fields(body@),
            manifest_assets(body@),
            target_present,
            wanted@,
        ),
{
    if status != 200 {
        return SingleAssetCheck::Abort;
    }
    let (tag, name, updated) = match extract_release_fields(body) {
        Some(f) => f,
        None => {
            return SingleAssetCheck::Abort;
        },
    };
    if let Some(c) = cached {
        if c.updated_at.eq(&updated) && target_present {
            return SingleAssetCheck::UpToDate;
        }
    }
    let entries = match extract_asset_entries(body) {
        Some(v) => v,
        None => {
            return SingleAssetCheck::Abort;
        },
    };
    match find_asset_url(&entries, wanted) {
        None => SingleAssetCheck::AssetMissing,
        Some(url) => SingleAssetCheck::Fetch {
            url,
            descriptor: ReleaseDescriptor { tag_name: tag, name: name, updated_at: updated },
        },
    }
}

} // verus!
