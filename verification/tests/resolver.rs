use fps_core::resolver::{
    AssetCache, ImageSet, LookupStep, SkinMetadata, Stage, TextureField, TextureSet,
};

fn images() -> ImageSet {
    ImageSet {
        albedo: vec![1, 1],
        roughness: vec![2, 2],
        normal: vec![3, 3],
        metalness: vec![4, 4],
        occlusion: vec![5, 5],
    }
}

fn handles() -> TextureSet {
    TextureSet { albedo: 11, roughness: 12, normal: 13, metalness: 14, occlusion: 15 }
}

#[test]
fn unknown_key_claims_exactly_one_job() {
    let mut cache = AssetCache::new();
    let key = String::from("tokenX");
    assert_eq!(cache.stage(&key), Stage::Unknown);
    // First lookup: not yet available, and this caller owns the one job.
    assert_eq!(cache.lookup(&key), LookupStep::NotYet { spawn_job: true });
    assert_eq!(cache.stage(&key), Stage::Fetching);
    // A frame later, before the job completes: still pending, no second job.
    assert_eq!(cache.lookup(&key), LookupStep::NotYet { spawn_job: false });
    assert_eq!(cache.lookup(&key), LookupStep::NotYet { spawn_job: false });
    assert_eq!(cache.stage(&key), Stage::Fetching);
}

#[test]
fn independent_keys_get_independent_jobs() {
    let mut cache = AssetCache::new();
    let (a, b) = (String::from("a"), String::from("b"));
    assert_eq!(cache.lookup(&a), LookupStep::NotYet { spawn_job: true });
    assert_eq!(cache.lookup(&b), LookupStep::NotYet { spawn_job: true });
    assert_eq!(cache.lookup(&a), LookupStep::NotYet { spawn_job: false });
    assert_eq!(cache.lookup(&b), LookupStep::NotYet { spawn_job: false });
}

#[test]
fn successful_job_leads_to_upload_then_resolved() {
    let mut cache = AssetCache::new();
    let key = String::from("tokenX");
    assert_eq!(cache.lookup(&key), LookupStep::NotYet { spawn_job: true });
    cache.complete_job(&key, Some(images()));
    assert_eq!(cache.stage(&key), Stage::BytesReady);
    // The lookup hands the buffers out for the render thread to upload.
    assert_eq!(cache.lookup(&key), LookupStep::Upload(images()));
    // Until the upload is stored, lookups keep handing out the buffers.
    assert_eq!(cache.lookup(&key), LookupStep::Upload(images()));
    cache.finish_upload(&key, handles());
    assert_eq!(cache.stage(&key), Stage::Resolved);
    assert_eq!(cache.lookup(&key), LookupStep::Ready(handles()));
}

#[test]
fn resolved_lookups_are_idempotent_cache_hits() {
    let mut cache = AssetCache::new();
    let key = String::from("tokenX");
    cache.lookup(&key);
    cache.complete_job(&key, Some(images()));
    cache.lookup(&key);
    cache.finish_upload(&key, handles());
    // Repeated lookups return the identical texture set and never re-enter
    // the pipeline: no upload request, no new job.
    for _ in 0..5 {
        assert_eq!(cache.lookup(&key), LookupStep::Ready(handles()));
        assert_eq!(cache.stage(&key), Stage::Resolved);
    }
}

#[test]
fn failed_job_reverts_key_for_retry() {
    let mut cache = AssetCache::new();
    let key = String::from("tokenY");
    assert_eq!(cache.lookup(&key), LookupStep::NotYet { spawn_job: true });
    // The background job's download fails; nothing is stored.
    cache.complete_job(&key, None);
    assert_eq!(cache.stage(&key), Stage::Unknown);
    // Not an error: the key reads as not yet available, and a new job may be
    // spawned.
    assert_eq!(cache.lookup(&key), LookupStep::NotYet { spawn_job: true });
}

#[test]
fn completion_of_unclaimed_key_changes_nothing() {
    let mut cache = AssetCache::new();
    let key = String::from("k");
    cache.complete_job(&key, Some(images()));
    assert_eq!(cache.stage(&key), Stage::Unknown);
    cache.finish_upload(&key, handles());
    assert_eq!(cache.stage(&key), Stage::Unknown);
}

#[test]
fn clear_returns_all_resolved_handles() {
    let mut cache = AssetCache::new();
    let (a, b, c) = (String::from("a"), String::from("b"), String::from("c"));
    for key in [&a, &b, &c] {
        cache.lookup(key);
        cache.complete_job(key, Some(images()));
        cache.lookup(key);
    }
    cache.finish_upload(&a, TextureSet { albedo: 1, roughness: 2, normal: 3, metalness: 4, occlusion: 5 });
    cache.finish_upload(&c, handles());
    // b stays at bytes-ready: its handles do not exist yet.
    let released = cache.clear();
    assert_eq!(released.len(), 2);
    assert_eq!(released[0].albedo, 1);
    assert_eq!(released[1], handles());
    // The cache is empty again: every key is unknown.
    assert_eq!(cache.stage(&a), Stage::Unknown);
    assert_eq!(cache.stage(&b), Stage::Unknown);
    assert_eq!(cache.lookup(&a), LookupStep::NotYet { spawn_job: true });
}

#[test]
fn game_skin_marker_is_recognized() {
    let metadata = SkinMetadata {
        name: String::from("Skin"),
        symbol: String::from("SKN"),
        identifier: String::from("fps+bq"),
        textures: texture_field(),
    };
    assert!(metadata.is_game_skin());
    let other = SkinMetadata { identifier: String::from("other"), ..metadata };
    assert!(!other.is_game_skin());
}

fn texture_field() -> TextureField {
    TextureField {
        a: String::from("http://host/a.png"),
        r: String::from("http://host/r.png"),
        n: String::from("http://host/n.png"),
        m: String::from("http://host/m.png"),
        ao: String::from("http://host/ao.png"),
    }
}

#[test]
fn texture_urls_come_in_fixed_order() {
    let urls = texture_field().urls();
    assert_eq!(urls.len(), 5);
    assert_eq!(urls[0], "http://host/a.png");
    assert_eq!(urls[1], "http://host/r.png");
    assert_eq!(urls[2], "http://host/n.png");
    assert_eq!(urls[3], "http://host/m.png");
    assert_eq!(urls[4], "http://host/ao.png");
}
