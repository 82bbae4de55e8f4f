//! The registry: which context is registered under which key, and the
//! configuration that every context of the registry takes over.

use vstd::prelude::*;
use std::any::TypeId;
use std::fmt::Debug;
use std::hash::Hash;
use crate::context::{ContextId, TreeContext};
use crate::arena::data_of;
use crate::span::Span;
use crate::text::{decimal_text, number_text};

verus! {

/// `std::any::TypeId`: the id of a type.
#[verifier::external_type_specification]
#[verifier::external_body]
pub struct ExTypeId(core::any::TypeId);

/// Configuration of a registry, taken over by every tree registered in it.
#[derive(Debug, Clone, Copy, PartialEq, Eq, Structural)]
pub struct Config {
    verbose: bool,
}

impl Default for Config {
    /// The default configuration shows no verbose spans.
    fn default() -> (config: Config)
        ensures
            !config.verbose_spec(),
    {
        Config { verbose: false }
    }
}

impl Config {
    /// Whether verbose spans are shown.
    pub closed spec fn verbose_spec(&self) -> bool {
        self.verbose
    }

    /// Whether verbose spans are shown.
    pub fn verbose(&self) -> (verbose: bool)
        ensures
            verbose == self.verbose_spec(),
    {
        self.verbose
    }
}

/// Builds a `Config`; what is not set keeps its default.
#[derive(Debug, Clone, Copy)]
pub struct ConfigBuilder {
    verbose: Option<bool>,
}

/// Why a `Config` could not be built.
#[derive(Debug, Clone, Copy, PartialEq, Eq, Structural)]
pub enum ConfigBuilderError {
    /// A field without default was not set.
    UninitializedField,
}

impl Default for ConfigBuilder {
    fn default() -> (builder: ConfigBuilder)
        ensures
            builder.verbose_choice() is None,
    {
        ConfigBuilder { verbose: None }
    }
}

impl ConfigBuilder {
    /// What was set for the verbose flag, if anything.
    pub closed spec fn verbose_choice(&self) -> Option<bool> {
        self.verbose
    }

    /// Sets whether verbose spans are shown.
    pub fn verbose(&mut self, value: bool)
        ensures
            final(self).verbose_choice() == Some(value),
    {
        self.verbose = Some(value);
    }

    /// The configuration: what was set, and the default for the rest. Every field
    /// has a default, so this does not fail.
    pub fn build(&self) -> (built: Result<Config, ConfigBuilderError>)
        ensures
            built is Ok,
            built->Ok_0.verbose_spec() == (match self.verbose_choice() {
                Some(value) => value,
                None => false,
            }),
    {
        match self.verbose {
            Some(value) => Ok(Config { verbose: value }),
            None => Ok(Config { verbose: false }),
        }
    }
}

/// A key that identifies a task and its tree in a registry: any thread-safe
/// type that can key a hash map.
pub trait Key: Hash + Eq + Debug + Send + Sync + 'static {}

impl<T> Key for T where T: Hash + Eq + Debug + Send + Sync + 'static {}

/// A key without its type. The registry finds a key again by its number: the
/// caller numbers the keys by their own equality, so that equal keys have one
/// number and unequal keys have different ones.
#[derive(Debug)]
pub struct AnyKey {
    number: u64,
    type_id: TypeId,
    debug: String,
    text: String,
    anonymous: Option<ContextId>,
}

/// The type that stands for the keys of anonymous trees.
pub struct AnonymousKey(pub ContextId);

/// `TypeId::of`: the id of a type. Nothing is stated of the value.
#[verifier::external_body]
fn type_id_of<K: 'static>() -> (id: TypeId)
{
    TypeId::of::<K>()
}

/// `==` on type ids: two ids are equal when they are the same id.
#[verifier::external_body]
fn type_id_eq(a: TypeId, b: TypeId) -> (equal: bool)
    ensures
        equal == (a == b),
{
    a == b
}

/// The debug form of a key, by the key type's own `Debug`. Nothing is stated
/// of the text.
#[verifier::external_body]
fn debug_text<K: Key>(key: &K) -> (text: String)
{
    format!("{:?}", key)
}

/// `<dyn Any>::downcast_ref::<String>`: the key itself where it is a `String`.
#[verifier::external_body]
fn key_as_string<K: Key>(key: &K) -> (text: Option<&String>)
{
    (key as &dyn std::any::Any).downcast_ref::<String>()
}

/// `<dyn Any>::downcast_ref::<&str>`: the key itself where it is a string slice.
#[verifier::external_body]
fn key_as_str<K: Key>(key: &K) -> (text: Option<&&'static str>)
{
    (key as &dyn std::any::Any).downcast_ref::<&'static str>()
}

impl Clone for AnyKey {
    fn clone(&self) -> (copy: AnyKey)
        ensures
            copy.same(self),
    {
        AnyKey {
            number: self.number,
            type_id: self.type_id,
            debug: self.debug.clone(),
            text: self.text.clone(),
            anonymous: self.anonymous,
        }
    }
}

impl AnyKey {
    /// The number of the key.
    pub closed spec fn number_spec(&self) -> u64 {
        self.number
    }

    /// The key had the type with the id `type_id`.
    pub open spec fn has_type(&self, type_id: TypeId) -> bool {
        self.type_spec() == type_id
    }

    /// The id of the type that the key had.
    pub closed spec fn type_spec(&self) -> TypeId {
        self.type_id
    }

    /// The text of the key when shown.
    pub closed spec fn text_spec(&self) -> Seq<char> {
        self.text@
    }

    /// The debug text of the key.
    pub closed spec fn debug_spec(&self) -> Seq<char> {
        self.debug@
    }

    /// The context whose anonymous key this is, if it is one.
    pub closed spec fn anonymous_id(&self) -> Option<ContextId> {
        self.anonymous
    }

    /// Two keys are the same key: both of users with the same number, or both
    /// the anonymous key of the same context.
    pub open spec fn same(&self, other: &AnyKey) -> bool {
        &&& self.number_spec() == other.number_spec()
        &&& self.anonymous_id() == other.anonymous_id()
    }

    /// The key of a user, known under `number`: never anonymous. A string is
    /// shown as it is, any other key by its debug text.
    pub fn new<K: Key>(key: &K, number: u64) -> (any: AnyKey)
        ensures
            any.number_spec() == number,
            any.anonymous_id() is None,
    {
        // Of what is read off the key nothing is stated: see `from_parts`.
        let type_id = type_id_of::<K>();
        let debug = debug_text(key);
        let string = key_as_string(key);
        let slice = match key_as_str(key) {
            Some(text) => Some(*text),
            None => None,
        };
        AnyKey::from_parts(number, type_id, debug, string, slice)
    }

    /// The key of the anonymous tree of the context `id`; its number is the id
    /// and its text is `Anonymous #` and the id.
    pub fn anonymous(id: ContextId) -> (any: AnyKey)
        ensures
            any.anonymous_id() == Some(id),
            any.number_spec() == id.0,
            any.text_spec() == "Anonymous #"@ + decimal_text(id.0 as nat),
    {
        let mut text = String::new();
        text.push_str("Anonymous #");
        let number = number_text(id.0);
        text.push_str(number.as_str());
        proof {
            assert(text@ =~= "Anonymous #"@ + decimal_text(id.0 as nat));
        }
        AnyKey { number: id.0, type_id: type_id_of::<AnonymousKey>(), debug: text.clone(), text, anonymous: Some(id) }
    }

    /// Whether the key had the type with the id `type_id`.
    pub fn is_type(&self, type_id: TypeId) -> (yes: bool)
        ensures
            yes == self.has_type(type_id),
    {
        type_id_eq(self.type_id, type_id)
    }

    /// Whether the key had the type `K`: what `is_type` answers for the id of
    /// `K`. Of that id nothing is stated.
    pub fn is<K: 'static>(&self) -> (yes: bool)
        ensures
            exists|type_id: TypeId| yes == self.has_type(type_id),
    {
        self.is_type(type_id_of::<K>())
    }

    /// Whether the key is that of an anonymous tree.
    pub fn is_anonymous(&self) -> (yes: bool)
        ensures
            yes == self.anonymous_id() is Some,
    {
        self.anonymous.is_some()
    }

    /// The text of the key when shown.
    pub fn text(&self) -> (text: String)
        ensures
            text@ == self.text_spec(),
    {
        self.text.clone()
    }

    /// The debug text of the key.
    pub fn debug(&self) -> (text: String)
        ensures
            text@ == self.debug_spec(),
    {
        self.debug.clone()
    }

    /// Whether two keys are the same key.
    pub fn same_key(&self, other: &AnyKey) -> (yes: bool)
        ensures
            yes == self.same(other),
    {
        let same_anonymous = match (self.anonymous, other.anonymous) {
            (Some(a), Some(b)) => a.0 == b.0,
            (None, None) => true,
            _ => false,
        };
        self.number == other.number && same_anonymous
    }

    /// The key of a user from its number and what is read off it: the id of its
    /// type, its debug text, and the key itself where it is a `String` or a
    /// string slice. The key is not anonymous. A string is shown as it is, any
    /// other key by its debug text.
    pub fn from_parts(number: u64, type_id: TypeId, debug: String, string: Option<&String>, slice: Option<&str>) -> (any: AnyKey)
        ensures
            any.number_spec() == number,
            any.type_spec() == type_id,
            any.debug_spec() == debug@,
            any.text_spec() == (match string {
                Some(text) => text@,
                None => match slice {
                    Some(text) => text@,
                    None => debug@,
                },
            }),
            any.anonymous_id() is None,
    {
        let text = match string {
            Some(text) => text.clone(),
            None => match slice {
                Some(text) => text.to_owned(),
                None => debug.clone(),
            },
        };
        AnyKey { number, type_id, debug, text, anonymous: None }
    }
}

/// One entry of a registry: a key and the context registered under it.
pub struct Registration {
    pub key: AnyKey,
    pub context: ContextId,
}

/// The contexts of the anonymous entries among `entries`, in their order.
pub open spec fn anonymous_contexts(entries: Seq<Registration>) -> Seq<ContextId>
    decreases entries.len(),
{
    if entries.len() == 0 {
        Seq::empty()
    } else if entries.last().key.anonymous_id() is Some {
        anonymous_contexts(entries.drop_last()).push(entries.last().context)
    } else {
        anonymous_contexts(entries.drop_last())
    }
}

/// The contexts of the entries among `entries` whose key had the type
/// `type_id`, in their order.
pub open spec fn contexts_of_type(entries: Seq<Registration>, type_id: TypeId) -> Seq<ContextId>
    decreases entries.len(),
{
    if entries.len() == 0 {
        Seq::empty()
    } else if entries.last().key.type_spec() == type_id {
        contexts_of_type(entries.drop_last(), type_id).push(entries.last().context)
    } else {
        contexts_of_type(entries.drop_last(), type_id)
    }
}

/// The contexts of all of `entries`, in their order.
pub open spec fn all_contexts(entries: Seq<Registration>) -> Seq<ContextId> {
    Seq::new(entries.len(), |i: int| entries[i].context)
}

/// The registry of the trees of many tasks.
///
/// It records under which key each context stands, oldest entry first, and holds
/// the configuration. The contexts themselves are held by their tasks.
pub struct Registry {
    config: Config,
    entries: Vec<Registration>,
}

impl Registry {
    /// The configuration of the registry.
    pub closed spec fn config_spec(&self) -> Config {
        self.config
    }

    /// The entries, oldest first.
    pub closed spec fn entries_spec(&self) -> Seq<Registration> {
        self.entries@
    }

    /// No two entries stand under the same key or hold the same context.
    pub open spec fn wf(&self) -> bool {
        forall|i: int, j: int|
            0 <= i < j < self.entries_spec().len() ==> {
                &&& !(#[trigger] self.entries_spec()[i]).key.same(&(#[trigger] self.entries_spec()[j]).key)
                &&& self.entries_spec()[i].context != self.entries_spec()[j].context
            }
    }

    /// Where the entry of `key` stands, if there is one.
    pub open spec fn position(&self, key: &AnyKey) -> Option<int> {
        if exists|i: int| 0 <= i < self.entries_spec().len() && (#[trigger] self.entries_spec()[i]).key.same(key) {
            Some(choose|i: int| 0 <= i < self.entries_spec().len() && (#[trigger] self.entries_spec()[i]).key.same(key))
        } else {
            None
        }
    }

    /// Whether a context with the id `id` is registered.
    pub open spec fn holds(&self, id: ContextId) -> bool {
        exists|i: int| 0 <= i < self.entries_spec().len() && (#[trigger] self.entries_spec()[i]).context == id
    }

    /// A registry without entries.
    pub fn new(config: Config) -> (registry: Registry)
        ensures
            registry.wf(),
            registry.config_spec() == config,
            registry.entries_spec().len() == 0,
    {
        Registry { config, entries: Vec::new() }
    }

    /// The configuration of the registry.
    pub fn config(&self) -> (config: Config)
        ensures
            config == self.config_spec(),
    {
        self.config
    }

    /// Whether a context with the id `id` is registered.
    pub fn contains(&self, id: ContextId) -> (yes: bool)
        ensures
            yes == self.holds(id),
    {
        let mut i: usize = 0;
        while i < self.entries.len()
            invariant
                0 <= i <= self.entries.len(),
                forall|j: int| 0 <= j < i ==> (#[trigger] self.entries_spec()[j]).context != id,
            decreases self.entries.len() - i,
        {
            if self.entries[i].context.0 == id.0 {
                assert(self.entries_spec()[i as int].context == id);
                return true;
            }
            i += 1;
        }
        false
    }

    /// The number of entries.
    pub fn len(&self) -> (len: usize)
        ensures
            len == self.entries_spec().len(),
    {
        self.entries.len()
    }

    /// Where the entry of `key` stands, if there is one.
    fn find(&self, key: &AnyKey) -> (found: Option<usize>)
        requires
            self.wf(),
        ensures
            match found {
                Some(i) => self.position(key) == Some(i as int) && i < self.entries_spec().len() && self.entries_spec()[i as int].key.same(key),
                None => self.position(key) is None,
            },
    {
        let mut i: usize = 0;
        while i < self.entries.len()
            invariant
                0 <= i <= self.entries.len(),
                self.wf(),
                forall|j: int| 0 <= j < i ==> !(#[trigger] self.entries_spec()[j]).key.same(key),
            decreases self.entries.len() - i,
        {
            if self.entries[i].key.same_key(key) {
                proof {
                    let c = choose|c: int| 0 <= c < self.entries_spec().len() && (#[trigger] self.entries_spec()[c]).key.same(key);
                    assert(self.entries_spec()[i as int].key.same(key));
                    if c < i {
                        assert(!self.entries_spec()[c].key.same(key));
                    } else if c > i {
                        assert(!self.entries_spec()[i as int].key.same(&self.entries_spec()[c].key));
                    }
                }
                return Some(i);
            }
            i += 1;
        }
        None
    }

    /// Registers a new context under `key`, with the root span `root_span` and the
    /// verbose flag of the configuration, and returns the context. An entry that
    /// stood under the same key leaves the registry; the new entry is the last.
    pub fn register(&mut self, key: AnyKey, id: ContextId, root_span: Span) -> (context: TreeContext)
        requires
            old(self).wf(),
            !old(self).holds(id),
        ensures
            final(self).wf(),
            final(self).config_spec() == old(self).config_spec(),
            final(self).entries_spec() == (match old(self).position(&key) {
                Some(i) => old(self).entries_spec().remove(i),
                None => old(self).entries_spec(),
            }).push(Registration { key, context: id }),
            context.wf(),
            context.id_spec() == id,
            context.verbose_spec() == old(self).config_spec().verbose_spec(),
            context.tree_spec().current_id() == context.tree_spec().root_id(),
            context.tree_spec().node_count() == 1,
            data_of(context.tree_spec().forest(), context.tree_spec().root_id()).span.name == root_span.name,
            data_of(context.tree_spec().forest(), context.tree_spec().root_id()).span.is_long_running,
    {
        let ghost before = self.entries@;
        match self.find(&key) {
            Some(i) => {
                self.entries.remove(i);
            },
            None => {},
        }
        let ghost rest = self.entries@;
        proof {
            assert forall|j: int| 0 <= j < rest.len() implies !(#[trigger] rest[j]).key.same(&key) && rest[j].context != id by {
                match old(self).position(&key) {
                    Some(p) => {
                        let k = if j < p { j } else { j + 1 };
                        assert(rest[j] == before[k]);
                        if k < p {
                            assert(!before[k].key.same(&before[p].key));
                        } else {
                            assert(!before[p].key.same(&before[k].key));
                        }
                    },
                    None => {
                        assert(rest[j] == before[j]);
                    },
                }
            }
            assert forall|a: int, b: int| 0 <= a < b < rest.len() implies !(#[trigger] rest[a]).key.same(&(#[trigger] rest[b]).key)
                && rest[a].context != rest[b].context by {
                match old(self).position(&key) {
                    Some(p) => {
                        let ka = if a < p { a } else { a + 1 };
                        let kb = if b < p { b } else { b + 1 };
                        assert(rest[a] == before[ka]);
                        assert(rest[b] == before[kb]);
                    },
                    None => {},
                }
            }
        }
        let context = TreeContext::new(id, root_span, self.config.verbose());
        self.entries.push(Registration { key, context: id });
        proof {
            assert(set![context.tree_spec().root_id()].len() == 1);
        }
        context
    }

    /// Registers a new context without a key of the user's: its key is the
    /// anonymous key of the context's own id. Such a context is found by no key
    /// of a user.
    pub fn register_anonymous(&mut self, id: ContextId, root_span: Span) -> (context: TreeContext)
        requires
            old(self).wf(),
            !old(self).holds(id),
        ensures
            final(self).wf(),
            final(self).config_spec() == old(self).config_spec(),
            final(self).entries_spec().len() > 0,
            final(self).entries_spec().last().context == id,
            final(self).entries_spec().last().key.anonymous_id() == Some(id),
            final(self).entries_spec().drop_last() == (match old(self).position(&final(self).entries_spec().last().key) {
                Some(i) => old(self).entries_spec().remove(i),
                None => old(self).entries_spec(),
            }),
            context.wf(),
            context.id_spec() == id,
            context.verbose_spec() == old(self).config_spec().verbose_spec(),
            context.tree_spec().current_id() == context.tree_spec().root_id(),
            context.tree_spec().node_count() == 1,
            data_of(context.tree_spec().forest(), context.tree_spec().root_id()).span.name == root_span.name,
            data_of(context.tree_spec().forest(), context.tree_spec().root_id()).span.is_long_running,
    {
        let key = AnyKey::anonymous(id);
        let ghost pushed = Registration { key, context: id };
        let context = self.register(key, id, root_span);
        proof {
            let rest = match old(self).position(&key) {
                Some(i) => old(self).entries_spec().remove(i),
                None => old(self).entries_spec(),
            };
            assert(self.entries_spec() == rest.push(pushed));
            assert(rest.push(pushed).drop_last() =~= rest);
        }
        context
    }

    /// The context registered under `key`, if there is one.
    pub fn get(&self, key: &AnyKey) -> (context: Option<ContextId>)
        requires
            self.wf(),
        ensures
            context == (match self.position(key) {
                Some(i) => Some(self.entries_spec()[i].context),
                None => None,
            }),
    {
        match self.find(key) {
            Some(i) => Some(self.entries[i].context),
            None => None,
        }
    }

    /// Removes every entry.
    pub fn clear(&mut self)
        ensures
            final(self).wf(),
            final(self).config_spec() == old(self).config_spec(),
            final(self).entries_spec().len() == 0,
    {
        self.entries.clear();
    }

    /// Removes the entry of the context `id`, if there is one: the context is
    /// gone.
    pub fn forget(&mut self, id: ContextId)
        requires
            old(self).wf(),
        ensures
            final(self).wf(),
            final(self).config_spec() == old(self).config_spec(),
            !final(self).holds(id),
            forall|i: int| 0 <= i < old(self).entries_spec().len() && (#[trigger] old(self).entries_spec()[i]).context == id
                ==> final(self).entries_spec() == old(self).entries_spec().remove(i),
            !old(self).holds(id) ==> final(self).entries_spec() == old(self).entries_spec(),
    {
        let ghost before = self.entries@;
        let mut i: usize = 0;
        while i < self.entries.len()
            invariant
                0 <= i <= self.entries.len(),
                self.entries@ == before,
                before == old(self).entries_spec(),
                self.config == old(self).config,
                self.wf(),
                forall|j: int| 0 <= j < i ==> (#[trigger] before[j]).context != id,
            decreases self.entries.len() - i,
        {
            if self.entries[i].context.0 == id.0 {
                self.entries.remove(i);
                proof {
                    let rest = self.entries@;
                    assert(before[i as int].context == id);
                    assert(old(self).holds(id));
                    assert forall|j: int| 0 <= j < rest.len() implies (#[trigger] rest[j]).context != id by {
                        let k = if j < i { j } else { j + 1 };
                        assert(rest[j] == before[k]);
                        if k > i {
                            assert(before[i as int].context != before[k].context);
                        }
                    }
                    assert forall|a: int, b: int| 0 <= a < b < rest.len() implies !(#[trigger] rest[a]).key.same(&(#[trigger] rest[b]).key)
                        && rest[a].context != rest[b].context by {
                        let ka = if a < i { a } else { a + 1 };
                        let kb = if b < i { b } else { b + 1 };
                        assert(rest[a] == before[ka]);
                        assert(rest[b] == before[kb]);
                    }
                    assert forall|k: int| 0 <= k < before.len() && (#[trigger] before[k]).context == id implies rest == before.remove(k) by {
                        if k > i {
                            assert(before[i as int].context != before[k].context);
                        }
                    }
                }
                return;
            }
            i += 1;
        }
    }

    /// The contexts of all entries, oldest entry first.
    pub fn collect_all(&self) -> (contexts: Vec<ContextId>)
        ensures
            contexts@ == all_contexts(self.entries_spec()),
    {
        let mut contexts: Vec<ContextId> = Vec::new();
        let mut i: usize = 0;
        while i < self.entries.len()
            invariant
                0 <= i <= self.entries.len(),
                contexts@.len() == i,
                forall|j: int| 0 <= j < i ==> contexts@[j] == self.entries_spec()[j].context,
            decreases self.entries.len() - i,
        {
            contexts.push(self.entries[i].context);
            i += 1;
        }
        proof {
            assert(contexts@ =~= all_contexts(self.entries_spec()));
        }
        contexts
    }

    /// The contexts registered anonymously, oldest entry first.
    pub fn collect_anonymous(&self) -> (contexts: Vec<ContextId>)
        ensures
            contexts@ == anonymous_contexts(self.entries_spec()),
    {
        let mut contexts: Vec<ContextId> = Vec::new();
        let mut i: usize = 0;
        proof {
            assert(self.entries@.take(0) =~= Seq::<Registration>::empty());
        }
        while i < self.entries.len()
            invariant
                0 <= i <= self.entries.len(),
                contexts@ == anonymous_contexts(self.entries@.take(i as int)),
            decreases self.entries.len() - i,
        {
            proof {
                let upto = self.entries@.take(i as int + 1);
                assert(upto.drop_last() =~= self.entries@.take(i as int));
                assert(upto.last() == self.entries@[i as int]);
            }
            if self.entries[i].key.is_anonymous() {
                contexts.push(self.entries[i].context);
            }
            i += 1;
        }
        proof {
            assert(self.entries@.take(self.entries@.len() as int) =~= self.entries@);
        }
        contexts
    }

    /// The contexts registered under a key of the type with the id `type_id`,
    /// oldest entry first.
    pub fn collect_of(&self, type_id: TypeId) -> (contexts: Vec<ContextId>)
        ensures
            contexts@ == contexts_of_type(self.entries_spec(), type_id),
    {
        let mut contexts: Vec<ContextId> = Vec::new();
        let mut i: usize = 0;
        proof {
            assert(self.entries@.take(0) =~= Seq::<Registration>::empty());
        }
        while i < self.entries.len()
            invariant
                0 <= i <= self.entries.len(),
                contexts@ == contexts_of_type(self.entries@.take(i as int), type_id),
            decreases self.entries.len() - i,
        {
            proof {
                let upto = self.entries@.take(i as int + 1);
                assert(upto.drop_last() =~= self.entries@.take(i as int));
                assert(upto.last() == self.entries@[i as int]);
            }
            if self.entries[i].key.is_type(type_id) {
                contexts.push(self.entries[i].context);
            }
            i += 1;
        }
        proof {
            assert(self.entries@.take(self.entries@.len() as int) =~= self.entries@);
        }
        contexts
    }

    /// The contexts registered under a key of the type `K`, oldest entry first.
    pub fn collect<K: 'static>(&self) -> (contexts: Vec<ContextId>)
        ensures
            exists|type_id: TypeId| contexts@ == contexts_of_type(self.entries_spec(), type_id),
    {
        self.collect_of(type_id_of::<K>())
    }
}

/// A tree registered anonymously is found by no key of a user: where the entry
/// of a key that is not anonymous is found, that entry is not anonymous.
pub proof fn lemma_user_key_finds_no_anonymous_tree(registry: Registry, key: AnyKey)
    requires
        key.anonymous_id() is None,
        registry.position(&key) is Some,
    ensures
        0 <= registry.position(&key)->Some_0 < registry.entries_spec().len(),
        registry.entries_spec()[registry.position(&key)->Some_0].key.anonymous_id() is None,
{
}

/// Fills the slot of the global registry, once, with a registry of the given
/// configuration.
pub fn init_global_registry(slot: &mut Option<Registry>, config: Config)
    requires
        *old(slot) is None,
    ensures
        *final(slot) is Some,
        final(slot)->Some_0.wf(),
        final(slot)->Some_0.config_spec() == config,
        final(slot)->Some_0.entries_spec().len() == 0,
{
    *slot = Some(Registry::new(config));
}

} // verus!
