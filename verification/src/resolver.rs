//! Asset resolver: a cache that maps an opaque skin identifier to a
//! ready-to-render texture set without ever blocking the caller.
//!
//! Each key moves through an explicit lifecycle: unknown (absent), fetching (a
//! background job is claimed), bytes ready (the job stored the downloaded
//! image buffers), resolved (the caller uploaded them and stored the texture
//! handles). The caller drives the cache: [`AssetCache::lookup`] answers a
//! per-frame query and claims at most one background job per key;
//! [`AssetCache::complete_job`] records a job's outcome; and
//! [`AssetCache::finish_upload`] stores the handles made on the thread that
//! owns the graphics context. Downloading and uploading themselves happen
//! outside this crate; the cache only ever sees their results as plain
//! values.

use vstd::prelude::*;
use vstd::string::StringExecFns;

verus! {

/// Metadata document that a skin identifier resolves to: display fields and
/// the locations of its five image buffers.
pub struct SkinMetadata {
    pub name: String,
    pub symbol: String,
    pub identifier: String,
    pub textures: TextureField,
}

/// Locations of the five named image buffers of one skin: albedo, roughness,
/// normal, metalness, occlusion.
pub struct TextureField {
    pub a: String,
    pub r: String,
    pub n: String,
    pub m: String,
    pub ao: String,
}

impl SkinMetadata {
    /// Whether this metadata document marks one of the game's own skins.
    pub fn is_game_skin(&self) -> (r: bool)
        ensures
            r == (self.identifier@ == "fps+bq"@),
    {
        self.identifier == String::from_str("fps+bq")
    }
}

impl TextureField {
    /// The five image locations in their fixed order: albedo, roughness,
    /// normal, metalness, occlusion.
    pub fn urls(&self) -> (out: Vec<String>)
        ensures
            out@.len() == 5,
            out@[0]@ == self.a@,
            out@[1]@ == self.r@,
            out@[2]@ == self.n@,
            out@[3]@ == self.m@,
            out@[4]@ == self.ao@,
    {
        let mut out: Vec<String> = Vec::new();
        out.push(self.a.clone());
        out.push(self.r.clone());
        out.push(self.n.clone());
        out.push(self.m.clone());
        out.push(self.ao.clone());
        out
    }
}

/// The five downloaded image buffers of one skin.
#[derive(PartialEq, Eq, Debug)]
pub struct ImageSet {
    pub albedo: Vec<u8>,
    pub roughness: Vec<u8>,
    pub normal: Vec<u8>,
    pub metalness: Vec<u8>,
    pub occlusion: Vec<u8>,
}

/// Mathematical model of an [`ImageSet`].
pub struct ImageSetView {
    pub albedo: Seq<u8>,
    pub roughness: Seq<u8>,
    pub normal: Seq<u8>,
    pub metalness: Seq<u8>,
    pub occlusion: Seq<u8>,
}

impl View for ImageSet {
    type V = ImageSetView;

    open spec fn view(&self) -> ImageSetView {
        ImageSetView {
            albedo: self.albedo@,
            roughness: self.roughness@,
            normal: self.normal@,
            metalness: self.metalness@,
            occlusion: self.occlusion@,
        }
    }
}

impl Clone for ImageSet {
    fn clone(&self) -> (r: Self)
        ensures
            r@ == self@,
    {
        let r = ImageSet {
            albedo: self.albedo.clone(),
            roughness: self.roughness.clone(),
            normal: self.normal.clone(),
            metalness: self.metalness.clone(),
            occlusion: self.occlusion.clone(),
        };
        proof {
            assert(r.albedo@ =~= self.albedo@);
            assert(r.roughness@ =~= self.roughness@);
            assert(r.normal@ =~= self.normal@);
            assert(r.metalness@ =~= self.metalness@);
            assert(r.occlusion@ =~= self.occlusion@);
        }
        r
    }
}

/// Handles of the five uploaded textures of one skin, as the graphics side
/// names them. Plain identifiers: the graphics resources themselves live with
/// the thread that owns the rendering context.
#[derive(Clone, Copy, PartialEq, Eq, Structural, Debug)]
pub struct TextureSet {
    pub albedo: u32,
    pub roughness: u32,
    pub normal: u32,
    pub metalness: u32,
    pub occlusion: u32,
}

/// What the cache holds for a key that is present.
enum AssetRecord {
    /// A background job is claimed for this key.
    Fetching,
    /// The job finished; the buffers await upload on the render thread.
    BytesReady(ImageSet),
    /// Uploaded; lookups are cache hits from here on.
    Resolved(TextureSet),
}

/// Model of an [`AssetRecord`].
pub enum RecordView {
    Fetching,
    BytesReady(ImageSetView),
    Resolved(TextureSet),
}

impl View for AssetRecord {
    type V = RecordView;

    closed spec fn view(&self) -> RecordView {
        match self {
            AssetRecord::Fetching => RecordView::Fetching,
            AssetRecord::BytesReady(b) => RecordView::BytesReady(b@),
            AssetRecord::Resolved(t) => RecordView::Resolved(*t),
        }
    }
}

struct AssetEntry {
    key: String,
    record: AssetRecord,
}

/// Model of one cache entry.
pub struct EntryView {
    pub key: Seq<char>,
    pub record: RecordView,
}

/// The lifecycle stage of a key, for callers that only ask where a key
/// stands.
#[derive(Clone, Copy, PartialEq, Eq, Structural, Debug)]
pub enum Stage {
    Unknown,
    Fetching,
    BytesReady,
    Resolved,
}

/// What one [`AssetCache::lookup`] call tells the caller to do.
#[derive(PartialEq, Eq, Debug)]
pub enum LookupStep {
    /// Cache hit: the stored texture handles.
    Ready(TextureSet),
    /// The buffers are downloaded; upload them on the render thread, then
    /// call [`AssetCache::finish_upload`].
    Upload(ImageSet),
    /// Not yet available. When `spawn_job` is set, this call claimed the key
    /// and the caller must start exactly one background job for it.
    NotYet { spawn_job: bool },
}

/// Model of a [`LookupStep`].
pub enum LookupStepView {
    Ready(TextureSet),
    Upload(ImageSetView),
    NotYet { spawn_job: bool },
}

impl View for LookupStep {
    type V = LookupStepView;

    open spec fn view(&self) -> LookupStepView {
        match self {
            LookupStep::Ready(t) => LookupStepView::Ready(*t),
            LookupStep::Upload(b) => LookupStepView::Upload(b@),
            LookupStep::NotYet { spawn_job } => LookupStepView::NotYet { spawn_job: *spawn_job },
        }
    }
}

/// The map a sequence of entries denotes: later entries would win, and the
/// cache keeps its keys distinct.
pub open spec fn entries_map(s: Seq<EntryView>) -> Map<Seq<char>, RecordView>
    decreases s.len(),
{
    if s.len() == 0 {
        Map::empty()
    } else {
        entries_map(s.drop_last()).insert(s.last().key, s.last().record)
    }
}

/// No two entries share a key.
pub open spec fn keys_distinct(s: Seq<EntryView>) -> bool {
    forall|i: int, j: int| 0 <= i < j < s.len() ==> s[i].key != s[j].key
}

/// The stage a key is in under a given cache content.
pub open spec fn spec_stage(m: Map<Seq<char>, RecordView>, k: Seq<char>) -> Stage {
    if !m.contains_key(k) {
        Stage::Unknown
    } else {
        match m[k] {
            RecordView::Fetching => Stage::Fetching,
            RecordView::BytesReady(_) => Stage::BytesReady,
            RecordView::Resolved(_) => Stage::Resolved,
        }
    }
}

/// A key's background job is claimed and not yet completed.
pub open spec fn spec_in_flight(m: Map<Seq<char>, RecordView>, k: Seq<char>) -> bool {
    m.contains_key(k) && m[k] is Fetching
}

/// What a lookup answers for each stage of the key.
pub open spec fn spec_lookup_step(m: Map<Seq<char>, RecordView>, k: Seq<char>) -> LookupStepView {
    if m.contains_key(k) {
        match m[k] {
            RecordView::Fetching => LookupStepView::NotYet { spawn_job: false },
            RecordView::BytesReady(b) => LookupStepView::Upload(b),
            RecordView::Resolved(t) => LookupStepView::Ready(t),
        }
    } else {
        LookupStepView::NotYet { spawn_job: true }
    }
}

/// How a lookup transforms the cache: an unknown key is claimed, everything
/// else is left exactly as it was.
pub open spec fn spec_lookup_next(m: Map<Seq<char>, RecordView>, k: Seq<char>) -> Map<
    Seq<char>,
    RecordView,
> {
    if m.contains_key(k) {
        m
    } else {
        m.insert(k, RecordView::Fetching)
    }
}

/// How a finished background job transforms the cache: a successful job
/// stores its buffers, a failed one leaves nothing behind, and either way the
/// in-flight claim on the key is released. A key that is not in flight is
/// left unchanged.
pub open spec fn spec_complete_next(
    m: Map<Seq<char>, RecordView>,
    k: Seq<char>,
    fetched: Option<ImageSetView>,
) -> Map<Seq<char>, RecordView> {
    if spec_in_flight(m, k) {
        match fetched {
            Some(b) => m.insert(k, RecordView::BytesReady(b)),
            None => m.remove(k),
        }
    } else {
        m
    }
}

/// How storing uploaded handles transforms the cache: only a key whose bytes
/// await upload becomes resolved.
pub open spec fn spec_upload_next(
    m: Map<Seq<char>, RecordView>,
    k: Seq<char>,
    t: TextureSet,
) -> Map<Seq<char>, RecordView> {
    if m.contains_key(k) && m[k] is BytesReady {
        m.insert(k, RecordView::Resolved(t))
    } else {
        m
    }
}

/// The texture handles of the resolved entries, in table order.
pub open spec fn spec_resolved_handles(s: Seq<EntryView>) -> Seq<TextureSet>
    decreases s.len(),
{
    if s.len() == 0 {
        Seq::empty()
    } else {
        spec_resolved_handles(s.drop_last()) + match s.last().record {
            RecordView::Resolved(t) => seq![t],
            _ => Seq::empty(),
        }
    }
}

/// The skin cache: one record per key, keys distinct.
pub struct AssetCache {
    entries: Vec<AssetEntry>,
}

impl View for AssetCache {
    type V = Map<Seq<char>, RecordView>;

    closed spec fn view(&self) -> Map<Seq<char>, RecordView> {
        entries_map(self.entry_views())
    }
}

impl AssetCache {
    /// The entries in table order; the map view forgets the order, the
    /// contract of [`AssetCache::clear`] needs it.
    pub closed spec fn entry_views(self) -> Seq<EntryView> {
        self.entries@.map_values(|e: AssetEntry| EntryView { key: e.key@, record: e.record@ })
    }

    pub open spec fn wf(self) -> bool {
        keys_distinct(self.entry_views())
    }

    /// An empty cache: every key is unknown.
    pub fn new() -> (r: Self)
        ensures
            r@ == Map::<Seq<char>, RecordView>::empty(),
            r.entry_views() == Seq::<EntryView>::empty(),
            r.wf(),
    {
        let r = AssetCache { entries: Vec::new() };
        proof {
            assert(r.entry_views() =~= Seq::<EntryView>::empty());
        }
        r
    }

    fn find(&self, key: &String) -> (r: Option<usize>)
        requires
            self.wf(),
        ensures
            r matches Some(i) ==> {
                &&& i < self.entry_views().len()
                &&& self.entry_views()[i as int].key == key@
                &&& self@.contains_key(key@)
                &&& self@[key@] == self.entry_views()[i as int].record
            },
            r is None ==> !self@.contains_key(key@),
    {
        let n = self.entries.len();
        let mut i: usize = 0;
        while i < n
            invariant
                i <= n,
                n == self.entry_views().len(),
                self.wf(),
                forall|j: int| 0 <= j < i ==> self.entry_views()[j].key != key@,
            decreases n - i,
        {
            if self.entries[i].key == *key {
                proof {
                    lemma_entries_map_index(self.entry_views(), i as int);
                }
                return Some(i);
            }
            i = i + 1;
        }
        proof {
            lemma_entries_map_domain(self.entry_views());
        }
        None
    }

    /// Where a key stands in its lifecycle.
    pub fn stage(&self, key: &String) -> (s: Stage)
        requires
            self.wf(),
        ensures
            s == spec_stage(self@, key@),
    {
        match self.find(key) {
            Some(i) => match &self.entries[i].record {
                AssetRecord::Fetching => Stage::Fetching,
                AssetRecord::BytesReady(_) => Stage::BytesReady,
                AssetRecord::Resolved(_) => Stage::Resolved,
            },
            None => Stage::Unknown,
        }
    }

    /// The per-frame query. Never blocks and never re-enters the pipeline for
    /// a known key: a resolved key answers with its stored handles, a key
    /// whose bytes are downloaded asks the caller to upload them, a claimed
    /// key just answers "not yet", and an unknown key is claimed here —
    /// `spawn_job` is set on exactly that transition, so at most one
    /// background job is ever asked for per key until that job completes.
    pub fn lookup(&mut self, key: &String) -> (step: LookupStep)
        requires
            old(self).wf(),
        ensures
            final(self).wf(),
            final(self)@ == spec_lookup_next(old(self)@, key@),
            step@ == spec_lookup_step(old(self)@, key@),
    {
        match self.find(key) {
            Some(i) => match &self.entries[i].record {
                AssetRecord::Fetching => LookupStep::NotYet { spawn_job: false },
                AssetRecord::BytesReady(b) => LookupStep::Upload(b.clone()),
                AssetRecord::Resolved(t) => LookupStep::Ready(*t),
            },
            None => {
                proof {
                    lemma_entries_map_domain(self.entry_views());
                }
                self.entries.push(AssetEntry { key: key.clone(), record: AssetRecord::Fetching });
                proof {
                    let olds = old(self).entry_views();
                    let views = self.entry_views();
                    assert(views.len() == olds.len() + 1);
                    assert(forall|j: int| 0 <= j < olds.len() ==> views[j] == olds[j]);
                    assert(views[olds.len() as int] == EntryView {
                        key: key@,
                        record: RecordView::Fetching,
                    });
                    assert(keys_distinct(views));
                    assert(views.drop_last() =~= olds);
                    assert(views.last() == EntryView { key: key@, record: RecordView::Fetching });
                    assert(self@ =~= old(self)@.insert(key@, RecordView::Fetching));
                }
                LookupStep::NotYet { spawn_job: true }
            },
        }
    }

    /// Records the outcome of the background job for `key` and releases the
    /// in-flight claim: a successful job stores its buffers for upload, a
    /// failed one leaves the key unknown so a later lookup may retry. Does
    /// nothing for a key that is not in flight.
    pub fn complete_job(&mut self, key: &String, fetched: Option<ImageSet>)
        requires
            old(self).wf(),
        ensures
            final(self).wf(),
            final(self)@ == spec_complete_next(
                old(self)@,
                key@,
                match fetched {
                    Some(b) => Some(b@),
                    None => None::<ImageSetView>,
                },
            ),
    {
        match self.find(key) {
            Some(i) => {
                let fetching = match &self.entries[i].record {
                    AssetRecord::Fetching => true,
                    _ => false,
                };
                if fetching {
                    match fetched {
                        Some(b) => {
                            let ghost e = EntryView { key: key@, record: RecordView::BytesReady(b@) };
                            proof {
                                lemma_entries_map_update(self.entry_views(), i as int, e);
                            }
                            self.entries[i] = AssetEntry {
                                key: key.clone(),
                                record: AssetRecord::BytesReady(b),
                            };
                            proof {
                                assert(self.entry_views() =~= old(self).entry_views().update(
                                    i as int,
                                    e,
                                ));
                            }
                        },
                        None => {
                            proof {
                                lemma_entries_map_remove(self.entry_views(), i as int);
                            }
                            let _ = self.entries.remove(i);
                            proof {
                                assert(self.entry_views() =~= old(self).entry_views().remove(
                                    i as int,
                                ));
                            }
                        },
                    }
                }
            },
            None => {},
        }
    }

    /// Stores the texture handles the caller made from this key's downloaded
    /// buffers; from now on lookups answer with these handles. Does nothing
    /// for a key whose bytes are not awaiting upload.
    pub fn finish_upload(&mut self, key: &String, handles: TextureSet)
        requires
            old(self).wf(),
        ensures
            final(self).wf(),
            final(self)@ == spec_upload_next(old(self)@, key@, handles),
    {
        match self.find(key) {
            Some(i) => {
                let bytes_ready = match &self.entries[i].record {
                    AssetRecord::BytesReady(_) => true,
                    _ => false,
                };
                if bytes_ready {
                    proof {
                        lemma_entries_map_update(
                            self.entry_views(),
                            i as int,
                            EntryView { key: key@, record: RecordView::Resolved(handles) },
                        );
                    }
                    self.entries[i] = AssetEntry {
                        key: key.clone(),
                        record: AssetRecord::Resolved(handles),
                    };
                    proof {
                        assert(self.entry_views() =~= old(self).entry_views().update(
                            i as int,
                            EntryView { key: key@, record: RecordView::Resolved(handles) },
                        ));
                    }
                }
            },
            None => {},
        }
    }

    /// Empties the cache and hands back the handles of every resolved entry,
    /// in table order, so the caller can release the graphics resources while
    /// the rendering context is still valid.
    pub fn clear(&mut self) -> (out: Vec<TextureSet>)
        requires
            old(self).wf(),
        ensures
            final(self).wf(),
            final(self)@ == Map::<Seq<char>, RecordView>::empty(),
            final(self).entry_views() == Seq::<EntryView>::empty(),
            out@ == spec_resolved_handles(old(self).entry_views()),
    {
        let n = self.entries.len();
        let mut out: Vec<TextureSet> = Vec::new();
        let mut i: usize = 0;
        while i < n
            invariant
                i <= n,
                n == self.entry_views().len(),
                out@ == spec_resolved_handles(self.entry_views().take(i as int)),
            decreases n - i,
        {
            proof {
                assert(self.entry_views().take(i + 1 as int).drop_last() =~= self.entry_views()
                    .take(i as int));
                assert(self.entry_views().take(i + 1 as int).last() == self.entry_views()[i as int]);
            }
            match &self.entries[i].record {
                AssetRecord::Resolved(t) => out.push(*t),
                _ => {},
            }
            i = i + 1;
        }
        proof {
            assert(self.entry_views().take(n as int) =~= self.entry_views());
        }
        self.entries = Vec::new();
        proof {
            assert(self.entry_views() =~= Seq::<EntryView>::empty());
        }
        out
    }
}

/// With distinct keys, the entry at `i` is what the map holds for its key.
proof fn lemma_entries_map_index(s: Seq<EntryView>, i: int)
    requires
        keys_distinct(s),
        0 <= i < s.len(),
    ensures
        entries_map(s).contains_key(s[i].key),
        entries_map(s)[s[i].key] == s[i].record,
    decreases s.len(),
{
    if i == s.len() - 1 {
    } else {
        lemma_entries_map_index(s.drop_last(), i);
        assert(s.drop_last()[i] == s[i]);
        assert(s[i].key != s.last().key);
    }
}

/// A key is in the map exactly when some entry carries it.
proof fn lemma_entries_map_domain(s: Seq<EntryView>)
    ensures
        forall|k: Seq<char>|
            #[trigger] entries_map(s).contains_key(k) <==> exists|i: int|
                0 <= i < s.len() && s[i].key == k,
    decreases s.len(),
{
    if s.len() == 0 {
    } else {
        let dl = s.drop_last();
        lemma_entries_map_domain(dl);
        assert forall|k: Seq<char>| #[trigger]
            entries_map(s).contains_key(k) <==> exists|i: int|
                0 <= i < s.len() && s[i].key == k by {
            if entries_map(s).contains_key(k) {
                if k == s.last().key {
                    assert(s[s.len() - 1].key == k);
                } else {
                    assert(entries_map(dl).contains_key(k));
                    let w = choose|i: int| 0 <= i < dl.len() && dl[i].key == k;
                    assert(s[w] == dl[w]);
                    assert(s[w].key == k);
                }
            }
            if exists|i: int| 0 <= i < s.len() && s[i].key == k {
                let w = choose|i: int| 0 <= i < s.len() && s[i].key == k;
                if w < s.len() - 1 {
                    assert(dl[w] == s[w]);
                    assert(entries_map(dl).contains_key(k));
                } else {
                    assert(k == s.last().key);
                }
            }
        }
    }
}

/// Replacing the entry at `i` by one with the same key updates just that key
/// in the map.
proof fn lemma_entries_map_update(s: Seq<EntryView>, i: int, e: EntryView)
    requires
        keys_distinct(s),
        0 <= i < s.len(),
        e.key == s[i].key,
    ensures
        keys_distinct(s.update(i, e)),
        entries_map(s.update(i, e)) == entries_map(s).insert(e.key, e.record),
    decreases s.len(),
{
    let su = s.update(i, e);
    assert(keys_distinct(su)) by {
        assert(forall|j: int| 0 <= j < s.len() ==> su[j].key == s[j].key);
    }
    if i == s.len() - 1 {
        assert(su.drop_last() =~= s.drop_last());
        assert(su.last() == e);
        assert(entries_map(su) =~= entries_map(s).insert(e.key, e.record));
    } else {
        assert(su.drop_last() =~= s.drop_last().update(i, e));
        assert(s.drop_last()[i] == s[i]);
        lemma_entries_map_update(s.drop_last(), i, e);
        assert(su.last() == s.last());
        assert(e.key != s.last().key);
        assert(entries_map(su) =~= entries_map(s).insert(e.key, e.record));
    }
}

/// Removing the entry at `i` removes exactly its key from the map.
proof fn lemma_entries_map_remove(s: Seq<EntryView>, i: int)
    requires
        keys_distinct(s),
        0 <= i < s.len(),
    ensures
        keys_distinct(s.remove(i)),
        entries_map(s.remove(i)) == entries_map(s).remove(s[i].key),
    decreases s.len(),
{
    let sr = s.remove(i);
    assert(keys_distinct(sr)) by {
        assert(forall|j: int| 0 <= j < i ==> sr[j] == s[j]);
        assert(forall|j: int| i <= j < sr.len() ==> sr[j] == s[j + 1]);
    }
    lemma_entries_map_domain(s.drop_last());
    if i == s.len() - 1 {
        assert(sr =~= s.drop_last());
        assert(!entries_map(s.drop_last()).contains_key(s[i].key)) by {
            assert(forall|j: int| 0 <= j < s.drop_last().len() ==> s.drop_last()[j] == s[j]);
        }
        assert(entries_map(sr) =~= entries_map(s).remove(s[i].key));
    } else {
        assert(sr.drop_last() =~= s.drop_last().remove(i));
        assert(s.drop_last()[i] == s[i]);
        lemma_entries_map_remove(s.drop_last(), i);
        assert(sr.last() == s.last());
        assert(s[i].key != s.last().key);
        assert(entries_map(sr) =~= entries_map(s).remove(s[i].key));
    }
}

/// A lookup asks for a background job exactly when its key is unknown, and
/// the same call claims the key — so a repeated lookup of the key, at any
/// later point before its job completes, never asks for a second job.
pub proof fn lemma_no_duplicate_job(m: Map<Seq<char>, RecordView>, k: Seq<char>)
    ensures
        (spec_lookup_step(m, k) == (LookupStepView::NotYet { spawn_job: true })) <==> !m.contains_key(k),
        spec_lookup_next(m, k).contains_key(k),
        spec_lookup_step(spec_lookup_next(m, k), k) != (LookupStepView::NotYet { spawn_job: true }),
{
}

/// The in-flight claim on a key survives every lookup and every upload, of
/// this key or any other, and survives the completion of other keys' jobs;
/// only the completion of this key's own job releases it.
pub proof fn lemma_claim_released_only_by_completion(
    m: Map<Seq<char>, RecordView>,
    k: Seq<char>,
    k2: Seq<char>,
    t: TextureSet,
    fetched: Option<ImageSetView>,
)
    requires
        spec_in_flight(m, k),
    ensures
        spec_in_flight(spec_lookup_next(m, k2), k),
        spec_in_flight(spec_upload_next(m, k2, t), k),
        k2 != k ==> spec_in_flight(spec_complete_next(m, k2, fetched), k),
        !spec_in_flight(spec_complete_next(m, k, fetched), k),
{
}

/// A resolved key is served from the cache forever after: the lookup answers
/// the stored handles and changes nothing, so repeated lookups return the
/// identical texture set and never re-enter the pipeline.
pub proof fn lemma_resolved_lookup_idempotent(
    m: Map<Seq<char>, RecordView>,
    k: Seq<char>,
    t: TextureSet,
)
    requires
        m.contains_key(k),
        m[k] == RecordView::Resolved(t),
    ensures
        spec_lookup_step(m, k) == LookupStepView::Ready(t),
        spec_lookup_next(m, k) == m,
{
}

/// A failed job leaves nothing behind: the key reads as unknown again, and
/// the next lookup claims it afresh.
pub proof fn lemma_failed_job_allows_retry(m: Map<Seq<char>, RecordView>, k: Seq<char>)
    requires
        spec_in_flight(m, k),
    ensures
        spec_stage(spec_complete_next(m, k, None::<ImageSetView>), k) == Stage::Unknown,
        spec_lookup_step(spec_complete_next(m, k, None::<ImageSetView>), k) == (LookupStepView::NotYet { spawn_job: true }),
{
}

} // verus!
