//! The two ways to a saved scene: the save of the whole scene, which a state
//! machine runs once each time it is entered, and the export of single
//! entities as prefabs, one for each queued request.
//!
//! Encoding a scene and writing bytes are the host's work. The functions here
//! say what is handed to the encoder and what becomes of its answer.

use crate::closure::{closure, collect_closure, HierarchyCycle};
use crate::graph::{
    cleared_graph, delete_prepared_children, node_of, parents_of, prepare_children, prepared_graph,
    scene_roots, LiveGraph, NodeView, TypeKey,
};
use crate::index::Entity;
use crate::scene::{build_scene, scene_of, PortableScene, PortableSceneView};
use vstd::prelude::*;
use vstd::string::StringExecFns;

verus! {

/// Where a save of the whole scene puts the scene.
#[derive(Debug, Clone, PartialEq, Eq)]
pub enum EditorPrefabPath {
    /// Into the file at this path.
    File(String),
    /// Into the memory cache.
    MemoryCache,
}

/// The configuration of the save of the whole scene.
#[derive(Debug, Clone, PartialEq, Eq)]
pub struct SaveConfig {
    /// Where the scene goes. Without a path an encoded scene goes nowhere.
    pub path: Option<EditorPrefabPath>,
}

impl Default for SaveConfig {
    fn default() -> (config: Self)
        ensures
            config.path is None,
    {
        SaveConfig { path: None }
    }
}

/// The state of the save of the whole scene.
#[derive(Debug, Clone, Copy, PartialEq, Eq, Hash, Structural)]
pub enum SaveState {
    /// A save was asked for and has not run yet.
    Save,
    /// Nothing to do.
    Idle,
}

impl Default for SaveState {
    fn default() -> (state: Self)
        ensures
            state == SaveState::Idle,
    {
        SaveState::Idle
    }
}

/// The directory that exported prefabs are written to.
#[derive(Debug, Clone, PartialEq, Eq)]
pub struct PrefabsPath {
    pub path: String,
}

impl Default for PrefabsPath {
    fn default() -> (prefabs: Self)
        ensures
            prefabs.path@ == ".\\assets\\prefabs"@,
    {
        PrefabsPath { path: String::from_str(".\\assets\\prefabs") }
    }
}

/// A request to export one entity, with all below it, as a prefab.
#[derive(Debug, Clone, Copy, PartialEq, Eq, Structural)]
pub struct PrefabMade {
    pub entity: Entity,
}

/// The slot that holds the scene of the last save into memory.
#[derive(Debug, Clone, PartialEq, Eq)]
pub struct PrefabMemoryCache {
    pub scene: Option<PortableScene>,
}

impl Default for PrefabMemoryCache {
    fn default() -> (cache: Self)
        ensures
            cache.scene is None,
    {
        PrefabMemoryCache { scene: None }
    }
}

/// How grave a notification is.
#[derive(Debug, Clone, Copy, PartialEq, Eq, Structural)]
pub enum ToastKind {
    Warning,
    Error,
}

/// A notification for the user.
#[derive(Debug, Clone, PartialEq, Eq)]
pub struct ToastMessage {
    pub text: String,
    pub kind: ToastKind,
}

/// A file to write in the background: the whole of `contents` to `path`,
/// in place of what the file held.
#[derive(Debug, Clone, PartialEq, Eq)]
pub struct FileWrite {
    pub path: String,
    pub contents: String,
}

/// What a save of the whole scene hands to the encoder.
#[derive(Debug, Clone, PartialEq, Eq)]
pub struct SceneDraft {
    /// The scene to encode.
    pub scene: PortableScene,
    /// The warning that nothing was selected, where nothing was.
    pub notice: Option<ToastMessage>,
}

/// How a save of the whole scene ends.
#[derive(Debug, Clone, PartialEq, Eq)]
pub struct SaveOutcome {
    /// The file to write, if the save goes to a file and the scene was
    /// encoded.
    pub write: Option<FileWrite>,
    /// The report of a failed encoding.
    pub notice: Option<ToastMessage>,
    /// The state after the save.
    pub next_state: SaveState,
}

/// One prefab to encode and write.
#[derive(Debug, Clone, PartialEq, Eq)]
pub struct PrefabDraft {
    /// The entity that was asked for.
    pub entity: Entity,
    /// The path of the file for the prefab.
    pub path: String,
    /// The scene of the entity and all below it.
    pub scene: PortableScene,
}

/// A [`PrefabDraft`] as a value.
pub struct PrefabDraftView {
    pub entity: Entity,
    pub path: Seq<char>,
    pub scene: PortableSceneView,
}

impl View for PrefabDraft {
    type V = PrefabDraftView;

    open spec fn view(&self) -> PrefabDraftView {
        PrefabDraftView { entity: self.entity, path: self.path@, scene: self.scene@ }
    }
}

/// The text of the warning about a save that selects nothing.
pub open spec fn empty_scene_warning() -> Seq<char> {
    "Saving empty scene"@
}

/// The text of the report of an encoding that failed with `error`.
pub open spec fn encoding_failure(error: Seq<char>) -> Seq<char> {
    "failed to serialize prefab: "@ + error
}

/// The path of the file for the prefab named `name` in the directory `dir`.
pub open spec fn prefab_file(dir: Seq<char>, name: Seq<char>) -> Seq<char> {
    dir + "\\"@ + name + ".scn.ron"@
}

/// The display name of `entity` in the graph.
pub open spec fn name_of(nodes: Seq<NodeView>, entity: Entity) -> Option<Seq<char>> {
    match node_of(nodes, entity) {
        Some(node) => node.name,
        None => None,
    }
}

/// The prefab of `entity`: the scene of its closure, for the file that is
/// named after the entity. There is none where the walk below the entity
/// closes a cycle.
pub open spec fn prefab_of(
    nodes: Seq<NodeView>,
    dir: Seq<char>,
    allow: Set<TypeKey>,
    entity: Entity,
) -> Option<PrefabDraftView> {
    match closure(parents_of(nodes), entity) {
        Some(entities) => Some(
            PrefabDraftView {
                entity,
                path: prefab_file(dir, name_of(nodes, entity)->0),
                scene: scene_of(nodes, entities, allow),
            },
        ),
        None => None,
    }
}

/// Whether `outcome` and the cache `after` are how a save ends that was
/// configured by `config`, built `scene`, got `encoded` from the encoder and
/// found the cache as `before`.
///
/// An encoded scene goes where the configuration says: a file is to be
/// written, or the scene itself takes the place of what the cache held. A
/// failed encoding is reported, and nothing is written or stored. Either way
/// the next state is `Idle`.
pub open spec fn ends_save(
    config: SaveConfig,
    scene: PortableScene,
    encoded: Result<String, String>,
    before: PrefabMemoryCache,
    after: PrefabMemoryCache,
    outcome: SaveOutcome,
) -> bool {
    &&& outcome.next_state == SaveState::Idle
    &&& match encoded {
        Ok(text) => outcome.notice is None && match config.path {
            Some(EditorPrefabPath::File(path)) => outcome.write is Some && outcome.write->0.path@
                == path@ && outcome.write->0.contents@ == text@ && after == before,
            Some(EditorPrefabPath::MemoryCache) => outcome.write is None && after.scene == Some(
                scene,
            ),
            None => outcome.write is None && after == before,
        },
        Err(error) => outcome.write is None && outcome.notice is Some && outcome.notice->0.kind
            == ToastKind::Error && outcome.notice->0.text@ == encoding_failure(error@) && after
            == before,
    }
}

/// Whether `draft` is what a save of the whole scene hands to the encoder for
/// the graph `nodes`: the scene of the selected entities, and a warning
/// exactly where none is selected.
pub open spec fn drafts_scene(draft: SceneDraft, nodes: Seq<NodeView>, allow: Set<TypeKey>) -> bool {
    &&& draft.scene@ == scene_of(nodes, scene_roots(nodes), allow)
    &&& match draft.notice {
        Some(notice) => scene_roots(nodes).len() == 0 && notice.kind == ToastKind::Warning
            && notice.text@ == empty_scene_warning(),
        None => scene_roots(nodes).len() > 0,
    }
}

/// The path of the file for the prefab named `name` in the directory `dir`.
pub fn prefab_file_path(dir: &String, name: &String) -> (path: String)
    ensures
        path@ == prefab_file(dir@, name@),
{
    dir.clone().concat("\\").concat(name.as_str()).concat(".scn.ron")
}

/// Selects the entities of a save of the whole scene, which are those marked
/// as part of a prefab that no loaded scene brought, and builds their scene.
/// Warns where none is selected; the scene is then empty.
pub fn serialize_scene(graph: &LiveGraph, allow_types: &Vec<TypeKey>) -> (draft: SceneDraft)
    ensures
        drafts_scene(draft, graph@, allow_types@.to_set()),
{
    let entities = graph.scene_roots();
    let notice = if entities.len() == 0 {
        Some(
            ToastMessage { text: String::from_str("Saving empty scene"), kind: ToastKind::Warning },
        )
    } else {
        None
    };
    let scene = build_scene(graph, &entities, allow_types);
    SceneDraft { scene, notice }
}

/// Decides what becomes of the scene once the encoder has answered, and ends
/// the save.
///
/// An encoded scene goes where the configuration says: a file is to be
/// written, or the scene itself takes the place of what the memory cache held.
/// A failed encoding is reported, and nothing is written or stored. Either
/// way the next state is `Idle`.
pub fn persist_scene(
    config: &SaveConfig,
    scene: PortableScene,
    encoded: Result<String, String>,
    cache: &mut PrefabMemoryCache,
) -> (outcome: SaveOutcome)
    ensures
        ends_save(*config, scene, encoded, *old(cache), *final(cache), outcome),
{
    match encoded {
        Ok(text) => {
            let write = match &config.path {
                Some(EditorPrefabPath::File(path)) => Some(
                    FileWrite { path: path.clone(), contents: text },
                ),
                Some(EditorPrefabPath::MemoryCache) => {
                    cache.scene = Some(scene);
                    None
                },
                None => None,
            };
            SaveOutcome { write, notice: None, next_state: SaveState::Idle }
        },
        Err(error) => {
            let text = String::from_str("failed to serialize prefab: ").concat(error.as_str());
            SaveOutcome {
                write: None,
                notice: Some(ToastMessage { text, kind: ToastKind::Error }),
                next_state: SaveState::Idle,
            }
        },
    }
}

/// Decides what becomes of a prefab once the encoder has answered: an encoded
/// prefab is to be written to its file, a failed encoding is reported.
pub fn persist_prefab(draft: &PrefabDraft, encoded: Result<String, String>) -> (outcome: Result<
    FileWrite,
    ToastMessage,
>)
    ensures
        match encoded {
            Ok(text) => outcome is Ok && outcome->Ok_0.path@ == draft.path@
                && outcome->Ok_0.contents@ == text@,
            Err(error) => outcome is Err && outcome->Err_0.kind == ToastKind::Error
                && outcome->Err_0.text@ == encoding_failure(error@),
        },
{
    match encoded {
        Ok(text) => Ok(FileWrite { path: draft.path.clone(), contents: text }),
        Err(error) => {
            let text = String::from_str("failed to serialize prefab: ").concat(error.as_str());
            Err(ToastMessage { text, kind: ToastKind::Error })
        },
    }
}

/// Runs the first half of a save of the whole scene, if one was asked for:
/// attaches the records of children, then selects and builds the scene for
/// the encoder. In any other state it does nothing.
pub fn enter_save(state: SaveState, graph: &mut LiveGraph, allow_types: &Vec<TypeKey>) -> (draft:
    Option<SceneDraft>)
    ensures
        match state {
            SaveState::Save => final(graph)@ == prepared_graph(old(graph)@, false) && draft is Some
                && drafts_scene(draft->0, final(graph)@, allow_types@.to_set()),
            SaveState::Idle => draft is None && *final(graph) == *old(graph),
        },
{
    match state {
        SaveState::Save => {
            prepare_children(graph, false);
            Some(serialize_scene(graph, allow_types))
        },
        SaveState::Idle => None,
    }
}

/// Runs the second half of a save of the whole scene, once the encoder has
/// answered: decides what becomes of the scene, and takes the records of
/// children away again, whatever the encoder answered.
pub fn leave_save(
    graph: &mut LiveGraph,
    config: &SaveConfig,
    scene: PortableScene,
    encoded: Result<String, String>,
    cache: &mut PrefabMemoryCache,
) -> (outcome: SaveOutcome)
    ensures
        ends_save(*config, scene, encoded, *old(cache), *final(cache), outcome),
        final(graph)@ == cleared_graph(old(graph)@),
        forall|i: int| 0 <= i < final(graph)@.len() ==> (#[trigger] final(graph)@[i]).prepared is None,
{
    let outcome = persist_scene(config, scene, encoded, cache);
    delete_prepared_children(graph);
    outcome
}

/// Exports each requested entity as a prefab, in the order of the requests,
/// and leaves the queue empty. Two requests for one entity give two prefabs.
///
/// Each prefab is the scene of the entity's closure, whatever the markers of
/// the entities in it, built while every entity that is marked as part of a
/// prefab and has a child holds the record of its children; the records are
/// taken away again before the function returns. The file of a prefab is
/// named after the entity. A request whose entity is above itself in the
/// index gives `HierarchyCycle` in place of a prefab.
///
/// Every requested entity must have a display name.
pub fn serialize_prefab(
    graph: &mut LiveGraph,
    prefabs_path: &PrefabsPath,
    allow_types: &Vec<TypeKey>,
    events: &mut Vec<PrefabMade>,
) -> (exports: Vec<Result<PrefabDraft, HierarchyCycle>>)
    requires
        forall|i: int|
            0 <= i < old(events)@.len() ==> name_of(old(graph)@, (#[trigger] old(events)@[i]).entity)
                is Some,
    ensures
        final(events)@.len() == 0,
        final(graph)@ == cleared_graph(old(graph)@),
        forall|i: int| 0 <= i < final(graph)@.len() ==> (#[trigger] final(graph)@[i]).prepared is None,
        exports@.len() == old(events)@.len(),
        forall|i: int|
            0 <= i < exports@.len() ==> exports_prefab(
                #[trigger] exports@[i],
                prepared_graph(old(graph)@, true),
                prefabs_path.path@,
                allow_types@.to_set(),
                old(events)@[i].entity,
            ),
{
    prepare_children(graph, true);
    let index = graph.children_index();
    let mut exports: Vec<Result<PrefabDraft, HierarchyCycle>> = Vec::new();
    let mut i: usize = 0;
    while i < events.len()
        invariant
            i <= events.len(),
            events@ == old(events)@,
            graph@ == prepared_graph(old(graph)@, true),
            index@ == parents_of(graph@),
            forall|k: int|
                0 <= k < events@.len() ==> name_of(old(graph)@, (#[trigger] events@[k]).entity)
                    is Some,
            exports@.len() == i,
            forall|k: int|
                0 <= k < i ==> exports_prefab(
                    #[trigger] exports@[k],
                    graph@,
                    prefabs_path.path@,
                    allow_types@.to_set(),
                    events@[k].entity,
                ),
        decreases events.len() - i,
    {
        let entity = events[i].entity;
        proof {
            crate::graph::lemma_prepared_node_of(old(graph)@, true, entity);
            assert(name_of(old(graph)@, events@[i as int].entity) is Some);
        }
        let name = match graph.display_name(entity) {
            Some(name) => name,
            None => vstd::pervasive::unreached(),
        };
        let export = match collect_closure(&index, entity) {
            Ok(entities) => {
                let path = prefab_file_path(&prefabs_path.path, name);
                let scene = build_scene(graph, &entities, allow_types);
                Ok(PrefabDraft { entity, path, scene })
            },
            Err(cycle) => Err(cycle),
        };
        exports.push(export);
        i += 1;
    }
    delete_prepared_children(graph);
    events.clear();
    proof {
        crate::graph::lemma_cleared_graph(old(graph)@, true);
    }
    exports
}

/// Whether `export` is what the request for `entity` gives in the graph
/// `nodes`.
pub open spec fn exports_prefab(
    export: Result<PrefabDraft, HierarchyCycle>,
    nodes: Seq<NodeView>,
    dir: Seq<char>,
    allow: Set<TypeKey>,
    entity: Entity,
) -> bool {
    match prefab_of(nodes, dir, allow, entity) {
        Some(prefab) => export is Ok && export->Ok_0@ == prefab,
        None => export is Err,
    }
}

} // verus!
