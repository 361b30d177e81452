//! The registry of entity definitions: every entity has an id, which is
//! its position in the lists of definitions, and a path by which it is
//! found.

use ahash::AHashMap;
use vstd::prelude::*;

verus! {

/// `ahash::AHashMap`: a hash map. What it holds is visible here only
/// through `path_entries`.
#[verifier::external_type_specification]
#[verifier::external_body]
#[verifier::reject_recursive_types(K)]
#[verifier::reject_recursive_types(V)]
#[verifier::reject_recursive_types(S)]
pub struct ExAHashMap<K, V, S>(AHashMap<K, V, S>);

/// The map from the paths of the entities to their ids.
pub type PathMap = AHashMap<String, EntityDataId>;

/// The content of a map that holds no path.
pub open spec fn no_paths() -> Map<Seq<char>, u32> {
    Map::empty()
}

/// What a map from paths to entity ids holds.
pub uninterp spec fn path_entries(paths: PathMap) -> Map<Seq<char>, u32>;

/// `AHashMap::default`: an empty map.
#[verifier::external_body]
fn paths_default() -> (paths: PathMap)
    ensures
        path_entries(paths) == no_paths(),
{
    AHashMap::default()
}

/// `AHashMap::insert`: the map then holds `id` under `path`, in place of
/// what it held under `path` before, and everything else as before.
#[verifier::external_body]
fn paths_insert(paths: &mut PathMap, path: String, id: EntityDataId)
    ensures
        path_entries(*final(paths)) == path_entries(*old(paths)).insert(path@, id.0),
{
    paths.insert(path, id);
}

/// An entity that can be spawned: the position of its definition.
#[derive(Debug, Clone, Copy, PartialEq, Eq, Hash, Structural)]
pub struct EntityDataId(pub u32);

impl Default for EntityDataId {
    fn default() -> (id: EntityDataId)
        ensures
            id.0 == 0,
    {
        EntityDataId(0)
    }
}

impl EntityDataId {
    /// The definition of the entity, where `data` holds one under this
    /// id.
    pub fn data(self, data: &Data) -> (found: Option<&()>)
        ensures
            found is Some <==> self.0 < data.entities@.len(),
    {
        if (self.0 as usize) < data.entities.len() {
            Some(&data.entities[self.0 as usize])
        } else {
            None
        }
    }

    /// The render definition of the entity, where `data` holds one under
    /// this id.
    pub fn render_data(self, data: &Data) -> (found: Option<&()>)
        ensures
            found is Some <==> self.0 < data.entities_render@.len(),
    {
        if (self.0 as usize) < data.entities_render.len() {
            Some(&data.entities_render[self.0 as usize])
        } else {
            None
        }
    }
}

/// The entity definitions.
pub struct Data {
    pub entities_path: PathMap,
    pub entities: Vec<()>,
    pub entities_render: Vec<()>,
}

impl Data {
    /// Every entity has both of its definitions, and every path leads to
    /// an entity.
    pub open spec fn wf(&self) -> bool {
        &&& self.entities@.len() == self.entities_render@.len()
        &&& forall|path: Seq<char>|
            path_entries(self.entities_path).dom().contains(path) ==> (#[trigger] path_entries(
                self.entities_path,
            )[path]) < self.entities@.len()
    }

    /// Drops every entity.
    pub fn clear(&mut self)
        ensures
            final(self).wf(),
            final(self).entities@.len() == 0,
            path_entries(final(self).entities_path) == no_paths(),
    {
        self.entities_path = paths_default();
        self.entities = Vec::new();
        self.entities_render = Vec::new();
    }

    /// Adds an entity under `path` and returns its id, which is the
    /// number of entities that were there before. A path that led to
    /// another entity leads to the new one. Where the ids are used up,
    /// that is, where every id up to `u32::MAX` names an entity, nothing
    /// is added.
    pub fn add_entity(&mut self, path: String, entity_data: (), entity_render_data: ()) -> (id:
        Option<EntityDataId>)
        requires
            old(self).wf(),
        ensures
            final(self).wf(),
            id is Some <==> old(self).entities@.len() <= u32::MAX,
            id is None ==> final(self).entities@ == old(self).entities@ && path_entries(
                final(self).entities_path,
            ) == path_entries(old(self).entities_path),
            id matches Some(new_id) ==> {
                &&& new_id.0 == old(self).entities@.len()
                &&& final(self).entities@.len() == old(self).entities@.len() + 1
                &&& path_entries(final(self).entities_path) == path_entries(
                    old(self).entities_path,
                ).insert(path@, new_id.0)
            },
    {
        if self.entities.len() > u32::MAX as usize {
            return None;
        }
        let id = EntityDataId(self.entities.len() as u32);
        paths_insert(&mut self.entities_path, path, id);
        self.entities.push(entity_data);
        self.entities_render.push(entity_render_data);
        Some(id)
    }
}

impl Default for Data {
    fn default() -> (data: Data)
        ensures
            data.wf(),
            data.entities@.len() == 0,
            path_entries(data.entities_path) == no_paths(),
    {
        Data { entities_path: paths_default(), entities: Vec::new(), entities_render: Vec::new() }
    }
}

} // verus!
