//! The controller states of all models, held in a [`dashmap::DashMap`].
//!
//! [`ModelMap`] keeps its map to itself and changes it by exclusive reference only.

use crate::state::ModelState;
use dashmap::DashMap;
use vstd::prelude::*;

verus! {

/// The states that a map of models holds, by model key.
pub uninterp spec fn model_contents(map: DashMap<String, ModelState>) -> Map<Seq<char>, ModelState>;

/// Whether `keys` lists the keys of a map, each once.
pub open spec fn lists_keys(keys: Seq<String>, models: Map<Seq<char>, ModelState>) -> bool {
    &&& crate::url_set::distinct_texts(keys)
    &&& crate::url_set::texts(keys) == models.dom()
}

/// `DashMap::new`: the new map holds nothing.
#[verifier::external_body]
fn models_new() -> (fresh: DashMap<String, ModelState>)
    ensures
        (model_contents(fresh) == Map::<Seq<char>, ModelState>::empty()),
{
    DashMap::new()
}

/// `DashMap::insert`: afterwards the map holds `state` under `key`, in place of what it held
/// there, and every other entry as before.
#[verifier::external_body]
fn models_insert(map: &mut DashMap<String, ModelState>, key: String, state: ModelState)
    ensures
        model_contents(*final(map)) == model_contents(*old(map)).insert(key@, state),
{
    map.insert(key, state);
}

/// `DashMap::remove`: takes the entry under `key` out of the map, if there is one, and leaves
/// every other entry as before.
#[verifier::external_body]
fn models_remove(map: &mut DashMap<String, ModelState>, key: &str) -> (state: Option<
    ModelState,
>)
    ensures
        model_contents(*final(map)) == model_contents(*old(map)).remove(key@),
        state == (if model_contents(*old(map)).contains_key(key@) {
            Some(model_contents(*old(map))[key@])
        } else {
            None
        }),
{
    map.remove(key).map(|entry| entry.1)
}

/// `DashMap::iter`: walks the map's entries, each once, in an order that is left unsaid; the keys
/// are handed out.
#[verifier::external_body]
fn models_keys(map: &DashMap<String, ModelState>) -> (keys: Vec<String>)
    ensures
        lists_keys(keys@, model_contents(*map)),
{
    map.iter().map(|entry| entry.key().clone()).collect()
}

/// `DashMap::clear`: afterwards the map holds nothing.
#[verifier::external_body]
fn models_clear(map: &mut DashMap<String, ModelState>)
    ensures
        (model_contents(*final(map)) == Map::<Seq<char>, ModelState>::empty()),
{
    map.clear();
}

/// The controller states of all models, by model key.
#[derive(Debug)]
pub struct ModelMap {
    map: DashMap<String, ModelState>,
}

impl View for ModelMap {
    type V = Map<Seq<char>, crate::state::ModelView>;

    closed spec fn view(&self) -> Map<Seq<char>, crate::state::ModelView> {
        model_contents(self.map).map_values(|s: ModelState| s@)
    }
}

impl ModelMap {
    /// No model has a state.
    pub fn new() -> (models: ModelMap)
        ensures
            models@ == Map::<Seq<char>, crate::state::ModelView>::empty(),
    {
        let models = ModelMap { map: models_new() };
        assert(models@ =~= Map::<Seq<char>, crate::state::ModelView>::empty());
        models
    }

    /// Takes the state of the model `key` out, if it has one.
    pub fn take(&mut self, key: &str) -> (state: Option<ModelState>)
        ensures
            final(self)@ == old(self)@.remove(key@),
            state is Some <==> old(self)@.contains_key(key@),
            state matches Some(s) ==> s@ == old(self)@[key@],
    {
        let state = models_remove(&mut self.map, key);
        assert(self@ =~= old(self)@.remove(key@));
        state
    }

    /// Makes `state` the state of the model `key`.
    pub fn put(&mut self, key: &str, state: ModelState)
        ensures
            final(self)@ == old(self)@.insert(key@, state@),
    {
        models_insert(&mut self.map, key.to_owned(), state);
        assert(self@ =~= old(self)@.insert(key@, state@));
    }

    /// The keys of the models that have a state, each once, in no particular order.
    pub fn keys(&self) -> (keys: Vec<String>)
        ensures
            crate::url_set::distinct_texts(keys@),
            crate::url_set::texts(keys@) == self@.dom(),
    {
        let keys = models_keys(&self.map);
        assert(self@.dom() =~= model_contents(self.map).dom());
        keys
    }

    /// Forgets all states.
    pub fn clear(&mut self)
        ensures
            final(self)@ == Map::<Seq<char>, crate::state::ModelView>::empty(),
    {
        models_clear(&mut self.map);
        assert(self@ =~= Map::<Seq<char>, crate::state::ModelView>::empty());
    }
}

} // verus!
