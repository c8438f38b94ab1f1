//! The binder: where components are registered before the container is
//! built.

use crate::builder::{Build, FnBuild};
use crate::collections::{KeyMap, KeySet};
use crate::component_meta::ComponentMeta;
use crate::error::{ErrorView, InjectError};
use crate::expander::ComponentExpander;
use crate::graph::{
    all_keys_named, duplicate_keys, nested_lazy_keys, nodes_of, provided, validation, Node,
    Registration,
};
use crate::laws::{fully_provided, lemma_missing_dependency_is_reported};
use crate::injector::Injector;
use crate::named::Named;
use crate::registry::{erase, erased, OpaqueValue};
use crate::resolution::validate;
use crate::tuples::{fails_to_read, read_parts, TupleInjectTypes};
use crate::type_key::{is_key_of, key_of, same_key};
use std::any::TypeId;
use std::marker::PhantomData;
use std::sync::Arc;
use vstd::prelude::*;

verus! {

/// What a binder holds.
pub struct BinderView {
    /// The registrations, in the order in which they were made.
    pub registrations: Seq<Node>,
    /// The values that were supplied, each under the key of its type.
    pub statics: Map<TypeId, OpaqueValue>,
    /// The names of the types that were mentioned.
    pub names: Map<TypeId, String>,
    /// Where the components were declared, as far as that was recorded.
    pub sites: Map<TypeId, String>,
    /// The keys of the deferred components.
    pub lazy: Set<TypeId>,
    /// The keys of the registered constructors, in order.
    pub builders: Seq<TypeId>,
}

/// The keys of a list of keys with names.
pub open spec fn pair_keys(pairs: Seq<(TypeId, String)>) -> Seq<TypeId> {
    Seq::new(pairs.len(), |i: int| pairs[i].0)
}

/// The names with those of `pairs` added, one after the other.
pub open spec fn named_all(names: Map<TypeId, String>, pairs: Seq<(TypeId, String)>) -> Map<
    TypeId,
    String,
>
    decreases pairs.len(),
{
    if pairs.len() == 0 {
        names
    } else {
        named_all(names, pairs.drop_last()).insert(pairs.last().0, pairs.last().1)
    }
}

impl BinderView {
    /// A binder that holds nothing.
    pub open spec fn empty() -> BinderView {
        BinderView {
            registrations: Seq::empty(),
            statics: Map::empty(),
            names: Map::empty(),
            sites: Map::empty(),
            lazy: Set::empty(),
            builders: Seq::empty(),
        }
    }

    /// The binder after a value was supplied: the value stands under its
    /// key, and a registration without dependencies is recorded.
    pub open spec fn with_instance(self, key: TypeId, label: String, value: OpaqueValue) -> BinderView {
        BinderView {
            registrations: self.registrations.push(Node { key, deps: Seq::empty() }),
            statics: self.statics.insert(key, value),
            names: self.names.insert(key, label),
            ..self
        }
    }

    /// The binder after a constructor was registered.
    pub open spec fn with_registration(
        self,
        key: TypeId,
        label: String,
        pairs: Seq<(TypeId, String)>,
        debug_line: Option<String>,
        lazy: bool,
    ) -> BinderView {
        BinderView {
            registrations: self.registrations.push(Node { key, deps: pair_keys(pairs) }),
            statics: self.statics,
            names: named_all(self.names, pairs).insert(key, label),
            sites: match debug_line {
                Some(site) => self.sites.insert(key, site),
                None => self.sites,
            },
            lazy: if lazy {
                self.lazy.insert(key)
            } else {
                self.lazy
            },
            builders: self.builders.push(key),
        }
    }

    /// Two binders in one: the registrations of the first, then those of
    /// the second; where both hold something under one key, what the
    /// second holds stays.
    pub open spec fn merged(self, other: BinderView) -> BinderView {
        BinderView {
            registrations: self.registrations + other.registrations,
            statics: self.statics.union_prefer_right(other.statics),
            names: self.names.union_prefer_right(other.names),
            sites: self.sites.union_prefer_right(other.sites),
            lazy: self.lazy.union(other.lazy),
            builders: self.builders + other.builders,
        }
    }

    /// Whether every registered key, and every key that a registration
    /// needs, has a name.
    pub open spec fn all_named(self) -> bool {
        all_keys_named(self.registrations, self.names)
    }

    /// Whether no key of `order` has a constructor: each was supplied as a
    /// value.
    pub open spec fn without_constructor(self, order: Seq<TypeId>) -> bool {
        forall|t: int| 0 <= t < order.len() ==> !self.builders.contains(#[trigger] order[t])
    }

    /// The keys that are provided without a registration: `additional`
    /// and the keys of the supplied values.
    pub open spec fn known(self, additional: Set<TypeId>) -> Set<TypeId> {
        additional.union(self.statics.dom())
    }

    /// Whether nothing is registered twice, no deferred component needs a
    /// deferred one, and a registration needs a key that nothing provides.
    pub open spec fn lacks_only_a_dependency(self, additional: Set<TypeId>) -> bool {
        &&& duplicate_keys(self.known(additional), self.registrations).len() == 0
        &&& nested_lazy_keys(self.lazy, self.registrations).len() == 0
        &&& !fully_provided(self.known(additional), self.registrations)
    }

    /// What validation answers for this binder, `additional` being the
    /// keys that are provided from outside.
    pub open spec fn validation(self, additional: Set<TypeId>, short_types: bool) -> Result<
        Seq<TypeId>,
        ErrorView,
    > {
        validation(
            self.known(additional),
            self.registrations,
            self.lazy,
            self.names,
            self.sites,
            short_types,
        )
    }
}

/// Adding names keeps the names that were there, and names every key that
/// is added.
pub proof fn lemma_named_all(names: Map<TypeId, String>, pairs: Seq<(TypeId, String)>)
    ensures
        forall|key: TypeId| names.contains_key(key) ==> named_all(names, pairs).contains_key(key),
        forall|i: int|
            0 <= i < pairs.len() ==> named_all(names, pairs).contains_key((#[trigger] pairs[i]).0),
    decreases pairs.len(),
{
    if pairs.len() > 0 {
        let before = pairs.drop_last();
        lemma_named_all(names, before);
        assert forall|i: int| 0 <= i < pairs.len() implies named_all(names, pairs).contains_key(
            (#[trigger] pairs[i]).0,
        ) by {
            if i < before.len() {
                assert(before[i] == pairs[i]);
            }
        }
    }
}

/// A binder that names all its keys does so after a value was supplied.
pub proof fn lemma_instance_named(view: BinderView, key: TypeId, label: String, value: OpaqueValue)
    requires
        view.all_named(),
    ensures
        view.with_instance(key, label, value).all_named(),
{
    let after = view.with_instance(key, label, value);
    assert forall|i: int| 0 <= i < after.registrations.len() implies after.names.contains_key(
        (#[trigger] after.registrations[i]).key,
    ) && forall|d: int|
        0 <= d < after.registrations[i].deps.len() ==> after.names.contains_key(
            #[trigger] after.registrations[i].deps[d],
        ) by {
        if i < view.registrations.len() {
            assert(after.registrations[i] == view.registrations[i]);
            assert forall|d: int|
                0 <= d < after.registrations[i].deps.len() implies after.names.contains_key(
                #[trigger] after.registrations[i].deps[d],
            ) by {
                assert(view.names.contains_key(view.registrations[i].deps[d]));
            }
        }
    }
}

/// A binder that names all its keys does so after a constructor was
/// registered.
pub proof fn lemma_registration_named(
    view: BinderView,
    key: TypeId,
    label: String,
    pairs: Seq<(TypeId, String)>,
    debug_line: Option<String>,
    lazy: bool,
)
    requires
        view.all_named(),
    ensures
        view.with_registration(key, label, pairs, debug_line, lazy).all_named(),
{
    let after = view.with_registration(key, label, pairs, debug_line, lazy);
    lemma_named_all(view.names, pairs);
    assert forall|i: int| 0 <= i < after.registrations.len() implies after.names.contains_key(
        (#[trigger] after.registrations[i]).key,
    ) && forall|d: int|
        0 <= d < after.registrations[i].deps.len() ==> after.names.contains_key(
            #[trigger] after.registrations[i].deps[d],
        ) by {
        if i < view.registrations.len() {
            assert(after.registrations[i] == view.registrations[i]);
            assert forall|d: int|
                0 <= d < after.registrations[i].deps.len() implies after.names.contains_key(
                #[trigger] after.registrations[i].deps[d],
            ) by {
                assert(view.names.contains_key(view.registrations[i].deps[d]));
            }
        } else {
            assert forall|d: int|
                0 <= d < after.registrations[i].deps.len() implies after.names.contains_key(
                #[trigger] after.registrations[i].deps[d],
            ) by {
                assert(after.registrations[i].deps[d] == pairs[d].0);
            }
        }
    }
}

/// Two binders that name all their keys do so when they are merged.
pub proof fn lemma_merged_named(one: BinderView, other: BinderView)
    requires
        one.all_named(),
        other.all_named(),
    ensures
        one.merged(other).all_named(),
{
    let after = one.merged(other);
    assert forall|i: int| 0 <= i < after.registrations.len() implies after.names.contains_key(
        (#[trigger] after.registrations[i]).key,
    ) && forall|d: int|
        0 <= d < after.registrations[i].deps.len() ==> after.names.contains_key(
            #[trigger] after.registrations[i].deps[d],
        ) by {
        if i < one.registrations.len() {
            assert(after.registrations[i] == one.registrations[i]);
            assert forall|d: int|
                0 <= d < after.registrations[i].deps.len() implies after.names.contains_key(
                #[trigger] after.registrations[i].deps[d],
            ) by {
                assert(one.names.contains_key(one.registrations[i].deps[d]));
            }
        } else {
            let j = i - one.registrations.len();
            assert(after.registrations[i] == other.registrations[j]);
            assert forall|d: int|
                0 <= d < after.registrations[i].deps.len() implies after.names.contains_key(
                #[trigger] after.registrations[i].deps[d],
            ) by {
                assert(other.names.contains_key(other.registrations[j].deps[d]));
            }
        }
    }
}

/// Two sequences joined hold the items of both.
proof fn lemma_joined<A>(first: Seq<A>, second: Seq<A>)
    ensures
        (first + second).len() == first.len() + second.len(),
        forall|i: int| 0 <= i < first.len() ==> (first + second)[i] == first[i],
        forall|i: int| 0 <= i < second.len() ==> (first + second)[first.len() + i] == second[i],
{
}

/// Collects what the container is to hold: values, and constructors with
/// the keys of what they need.
pub struct InjectionBinder<LastType> {
    static_values: KeyMap<OpaqueValue>,
    builders: Vec<Box<dyn Build>>,
    builder_keys: Vec<TypeId>,
    requirements_graph: Vec<Registration>,
    type_names: KeyMap<String>,
    debug_lines: KeyMap<String>,
    lazy_types: KeySet,
    _phantom_data: PhantomData<LastType>,
}

impl<LastType> View for InjectionBinder<LastType> {
    type V = BinderView;

    closed spec fn view(&self) -> BinderView {
        BinderView {
            registrations: nodes_of(self.requirements_graph@),
            statics: self.static_values@,
            names: self.type_names@,
            sites: self.debug_lines@,
            lazy: self.lazy_types@,
            builders: self.builder_keys@,
        }
    }
}

impl<LastType> InjectionBinder<LastType> {
    /// Every key of a constructor has its constructor, and every key that
    /// is registered or needed has a name.
    #[verifier::type_invariant]
    spec fn sound(self) -> bool {
        &&& self.builders@.len() == self.builder_keys@.len()
        &&& self@.all_named()
    }

    /// Whether the constructor that the binder keeps for `key`, run on
    /// `injector`, may hand back `made`. Where a key has several
    /// constructors, the one that was registered last is kept for it.
    pub closed spec fn constructs(
        &self,
        injector: &Injector,
        key: TypeId,
        made: Result<OpaqueValue, InjectError>,
    ) -> bool {
        constructor_gives(self.builder_keys@, self.builders@, injector, key, made)
    }

    /// Whether nothing is left to do for `key` on `injector`: the binder
    /// keeps no constructor for it, or its constructor, run on `injector`,
    /// has handed back a value.
    pub open spec fn done_with(&self, injector: &Injector, key: TypeId) -> bool {
        self@.builders.contains(key) ==> exists|value: OpaqueValue| #[trigger]
            self.constructs(injector, key, Ok::<OpaqueValue, InjectError>(value))
    }

    /// Only a key with a constructor is constructed.
    pub proof fn lemma_constructs_with_constructor(
        &self,
        injector: &Injector,
        key: TypeId,
        made: Result<OpaqueValue, InjectError>,
    )
        requires
            self.constructs(injector, key, made),
        ensures
            self@.builders.contains(key),
    {
        let i = choose|i: int|
            #[trigger] last_under(self.builder_keys@, key, i) && i < self.builders@.len()
                && self.builders@[i].gives(injector, made);
        assert(self.builder_keys@[i] == key);
    }
}

/// Whether `made` is what the function `f`, run on `injector`, may hand
/// back: the very value that it made, hidden behind `dyn Any`, or its
/// failure as it is.
pub open spec fn made_by<X, F: Fn(&Injector) -> Result<X, InjectError>>(
    f: F,
    injector: &Injector,
    made: Result<OpaqueValue, InjectError>,
) -> bool {
    match made {
        Ok(stored) => exists|value: X|
            #[trigger] call_ensures(f, (injector,), Ok::<X, InjectError>(value)) && erased(
                value,
                stored,
            ),
        Err(error) => call_ensures(f, (injector,), Err::<X, InjectError>(error)),
    }
}

/// Whether `binder` keeps the function `f` as the constructor for `key`.
pub open spec fn keeps_function<Last, X, F: Fn(&Injector) -> Result<X, InjectError>>(
    binder: InjectionBinder<Last>,
    key: TypeId,
    f: F,
) -> bool {
    forall|injector: &Injector, made: Result<OpaqueValue, InjectError>|
        #[trigger] binder.constructs(injector, key, made) == made_by::<X, F>(f, injector, made)
}

/// Whether `f`, called on `arg`, may hand back `out`.
pub open spec fn yields<A, R, F: Fn(A) -> R>(f: &F, arg: A, out: R) -> bool {
    call_ensures(*f, (arg,), out)
}

/// Whether the constructor that `binder` keeps for `key` hands back only
/// what `allowed` admits.
pub open spec fn constructs_only<Last>(
    binder: InjectionBinder<Last>,
    key: TypeId,
    allowed: spec_fn(&Injector, Result<OpaqueValue, InjectError>) -> bool,
) -> bool {
    forall|injector: &Injector, made: Result<OpaqueValue, InjectError>|
        #[trigger] binder.constructs(injector, key, made) ==> allowed(injector, made)
}

/// Whether `made` is what the component `X` makes of itself on `injector`:
/// the very value that it made, hidden behind `dyn Any`, or its failure as
/// it is.
pub open spec fn made_by_component<X: ComponentMeta>(
    injector: &Injector,
    made: Result<OpaqueValue, InjectError>,
) -> bool {
    match made {
        Ok(stored) => exists|value: X|
            #[trigger] call_ensures(X::inject, (injector,), Ok::<X, InjectError>(value)) && erased(
                value,
                stored,
            ),
        Err(error) => call_ensures(X::inject, (injector,), Err::<X, InjectError>(error)),
    }
}

/// Whether `made` is what `f` makes of the parts that the tuple `In` reads
/// from `injector`, or the failure of the reading or of `f`.
pub open spec fn made_of_parts<R, In: TupleInjectTypes, FN: Fn(In) -> Result<R, InjectError>>(
    f: FN,
    injector: &Injector,
    made: Result<OpaqueValue, InjectError>,
) -> bool {
    match made {
        Ok(stored) => exists|parts: In, value: R|
            read_parts(injector, parts) && #[trigger] call_ensures(
                f,
                (parts,),
                Ok::<R, InjectError>(value),
            ) && erased(value, stored),
        Err(error) => fails_to_read::<In>(injector, error) || exists|parts: In|
            read_parts(injector, parts) && #[trigger] call_ensures(
                f,
                (parts,),
                Err::<R, InjectError>(error),
            ),
    }
}

/// Whether `made` is what `f`, which does not fail, makes of the parts
/// that the tuple `In` reads from `injector`, or the failure of the
/// reading.
pub open spec fn made_of_parts_plainly<R, In: TupleInjectTypes, FN: Fn(In) -> R>(
    f: FN,
    injector: &Injector,
    made: Result<OpaqueValue, InjectError>,
) -> bool {
    match made {
        Ok(stored) => exists|parts: In, value: R|
            read_parts(injector, parts) && #[trigger] call_ensures(f, (parts,), value) && erased(
                value,
                stored,
            ),
        Err(error) => fails_to_read::<In>(injector, error),
    }
}

/// Whether `after` keeps, for every key but `key`, the constructor that
/// `before` keeps.
pub open spec fn keeps_constructors<Before, After>(
    before: InjectionBinder<Before>,
    after: InjectionBinder<After>,
    key: TypeId,
) -> bool {
    forall|injector: &Injector, other: TypeId, made: Result<OpaqueValue, InjectError>|
        other != key ==> #[trigger] after.constructs(injector, other, made) == before.constructs(
            injector,
            other,
            made,
        )
}

/// Whether `both` keeps the constructors of `first` and of `second`: for a
/// key that `second` keeps a constructor for, that one; for any other key,
/// what `first` keeps.
pub open spec fn joins_constructors<First, Second, Both>(
    first: InjectionBinder<First>,
    second: InjectionBinder<Second>,
    both: InjectionBinder<Both>,
) -> bool {
    forall|injector: &Injector, key: TypeId, made: Result<OpaqueValue, InjectError>|
        #[trigger] both.constructs(injector, key, made) == if second@.builders.contains(key) {
            second.constructs(injector, key, made)
        } else {
            first.constructs(injector, key, made)
        }
}

/// Whether `after` keeps every constructor as `before` keeps it.
pub open spec fn same_constructors<Before, After>(
    before: InjectionBinder<Before>,
    after: InjectionBinder<After>,
) -> bool {
    forall|injector: &Injector, key: TypeId, made: Result<OpaqueValue, InjectError>|
        #[trigger] after.constructs(injector, key, made) == before.constructs(injector, key, made)
}

impl InjectionBinder<()> {
    /// A binder that holds nothing.
    pub fn new() -> (binder: Self)
        ensures
            binder@ == BinderView::empty(),
            binder@.all_named(),
            forall|injector: &Injector, key: TypeId, made: Result<OpaqueValue, InjectError>|
                !binder.constructs(injector, key, made),
    {
        let static_values: KeyMap<OpaqueValue> = KeyMap::new();
        let builders: Vec<Box<dyn Build>> = Vec::new();
        let builder_keys: Vec<TypeId> = Vec::new();
        let requirements_graph: Vec<Registration> = Vec::new();
        let type_names: KeyMap<String> = KeyMap::new();
        let debug_lines: KeyMap<String> = KeyMap::new();
        let lazy_types = KeySet::new();
        assert(nodes_of(requirements_graph@) =~= Seq::<Node>::empty());
        let binder = InjectionBinder {
            static_values,
            builders,
            builder_keys,
            requirements_graph,
            type_names,
            debug_lines,
            lazy_types,
            _phantom_data: PhantomData,
        };
        assert(binder@.registrations =~= Seq::empty());
        binder
    }
}

/// Whether `i` is the position of the last occurrence of `key` in `keys`.
pub open spec fn last_under(keys: Seq<TypeId>, key: TypeId, i: int) -> bool {
    &&& 0 <= i < keys.len()
    &&& keys[i] == key
    &&& forall|j: int| i < j < keys.len() ==> keys[j] != key
}

/// Whether the constructor that stands for `key`, run on `injector`, may
/// hand back `made`. Where a key has several constructors, the last one
/// stands for it.
pub(crate) open spec fn constructor_gives(
    keys: Seq<TypeId>,
    builders: Seq<Box<dyn Build>>,
    injector: &Injector,
    key: TypeId,
    made: Result<OpaqueValue, InjectError>,
) -> bool {
    exists|i: int|
        #[trigger] last_under(keys, key, i) && i < builders.len() && builders[i].gives(
            injector,
            made,
        )
}

/// Whether nothing is left to do for `key`: it has no constructor, or its
/// constructor has handed back a value.
pub(crate) open spec fn settled(
    keys: Seq<TypeId>,
    builders: Seq<Box<dyn Build>>,
    injector: &Injector,
    key: TypeId,
) -> bool {
    keys.contains(key) ==> exists|value: OpaqueValue| #[trigger]
        constructor_gives(keys, builders, injector, key, Ok::<OpaqueValue, InjectError>(value))
}

/// The position of the last occurrence of `key` in `keys`, if there is
/// one.
fn find_last(keys: &Vec<TypeId>, key: &TypeId) -> (at: Option<usize>)
    ensures
        match at {
            Some(i) => last_under(keys@, *key, i as int),
            None => !keys@.contains(*key),
        },
{
    let mut i: usize = keys.len();
    while i > 0
        invariant
            i <= keys.len(),
            forall|j: int| i <= j < keys@.len() ==> keys@[j] != *key,
        decreases i,
    {
        i -= 1;
        if same_key(&keys[i], key) {
            return Some(i);
        }
    }
    None
}

/// Runs the constructors in the order `order` and puts what they make into
/// the container. Where a key has several constructors the last one runs;
/// a key without one was supplied as a value. Stops at the first
/// constructor that fails, with its failure.
fn run_builders(
    order: &Vec<TypeId>,
    builder_keys: &Vec<TypeId>,
    builders: &Vec<Box<dyn Build>>,
    injector: &Injector,
) -> (done: Result<(), InjectError>)
    requires
        builders@.len() == builder_keys@.len(),
    ensures
        match done {
            Ok(_) => forall|t: int|
                0 <= t < order@.len() ==> settled(
                    builder_keys@,
                    builders@,
                    injector,
                    #[trigger] order@[t],
                ),
            Err(error) => exists|t: int|
                0 <= t < order@.len() && #[trigger] constructor_gives(
                    builder_keys@,
                    builders@,
                    injector,
                    order@[t],
                    Err::<OpaqueValue, InjectError>(error),
                ) && forall|s: int|
                    0 <= s < t ==> settled(
                        builder_keys@,
                        builders@,
                        injector,
                        #[trigger] order@[s],
                    ),
        },
        (forall|t: int| 0 <= t < order@.len() ==> !builder_keys@.contains(#[trigger] order@[t]))
            ==> done is Ok,
{
    let mut t: usize = 0;
    while t < order.len()
        invariant
            t <= order.len(),
            builders@.len() == builder_keys@.len(),
            forall|s: int|
                0 <= s < t ==> settled(builder_keys@, builders@, injector, #[trigger] order@[s]),
        decreases order.len() - t,
    {
        match find_last(builder_keys, &order[t]) {
            Some(i) => {
                let made = builders[i].build(injector);
                assert(constructor_gives(
                    builder_keys@,
                    builders@,
                    injector,
                    order@[t as int],
                    made,
                ));
                let ghost outcome = made;
                match injector.store(order[t], made) {
                    Ok(_) => {
                        assert(outcome is Ok);
                        assert(constructor_gives(
                            builder_keys@,
                            builders@,
                            injector,
                            order@[t as int],
                            Ok::<OpaqueValue, InjectError>(outcome->Ok_0),
                        ));
                    },
                    Err(error) => {
                        return Err(error);
                    },
                }
            },
            None => {},
        }
        t += 1;
    }
    Ok(())
}

impl<LastType: Clone + Named + 'static> InjectionBinder<LastType> {
    /// The same binder, ready for a chain that starts anew.
    pub fn void(self) -> (binder: InjectionBinder<()>)
        ensures
            binder@ == self@,
            binder@.all_named(),
            same_constructors(self, binder),
    {
        self.change_type()
    }

    fn change_type<T>(self) -> (binder: InjectionBinder<T>)
        ensures
            binder@ == self@,
            binder@.all_named(),
            same_constructors(self, binder),
    {
        proof {
            use_type_invariant(&self);
        }
        InjectionBinder {
            static_values: self.static_values,
            builders: self.builders,
            builder_keys: self.builder_keys,
            requirements_graph: self.requirements_graph,
            type_names: self.type_names,
            debug_lines: self.debug_lines,
            lazy_types: self.lazy_types,
            _phantom_data: PhantomData,
        }
    }

    /// Registers the parts of `expander`, as the expander decides: the
    /// binder that comes back is one that the expander makes of this one.
    pub fn expand<X: ComponentExpander>(self, expander: X) -> (binder: Self)
        ensures
            expander.expansion(self@, binder@),
    {
        expander.expand(self)
    }

    /// Puts everything that `other` holds into this binder, after what
    /// this binder holds. The constructors of both are kept; where both
    /// keep one for a key, that of `other` is kept for it.
    pub fn merge<OtherLast>(self, other: InjectionBinder<OtherLast>) -> (binder: Self)
        ensures
            binder@ == self@.merged(other@),
            binder@.all_named(),
            joins_constructors(self, other, binder),
    {
        proof {
            use_type_invariant(&self);
            use_type_invariant(&other);
            lemma_merged_named(self@, other@);
        }
        let mut static_values = self.static_values;
        let mut builders = self.builders;
        let mut builder_keys = self.builder_keys;
        let mut requirements_graph = self.requirements_graph;
        let mut type_names = self.type_names;
        let mut debug_lines = self.debug_lines;
        let mut lazy_types = self.lazy_types;
        let mut their_builders = other.builders;
        let mut their_keys = other.builder_keys;
        let mut their_graph = other.requirements_graph;
        static_values.extend(other.static_values);
        builders.append(&mut their_builders);
        builder_keys.append(&mut their_keys);
        requirements_graph.append(&mut their_graph);
        type_names.extend(other.type_names);
        debug_lines.extend(other.debug_lines);
        lazy_types.extend(&other.lazy_types);
        proof {
            let target = self@.merged(other@);
            lemma_joined::<Box<dyn Build>>(self.builders@, other.builders@);
            assert(nodes_of(requirements_graph@) =~= target.registrations);
            assert(builder_keys@ =~= target.builders);
            assert(target.all_named());
            assert forall|injector: &Injector, key: TypeId, made: Result<OpaqueValue, InjectError>|
                #[trigger] constructor_gives(builder_keys@, builders@, injector, key, made)
                    == if other.builder_keys@.contains(key) {
                    constructor_gives(other.builder_keys@, other.builders@, injector, key, made)
                } else {
                    constructor_gives(self.builder_keys@, self.builders@, injector, key, made)
                } by {
                lemma_joined_constructors(
                    self.builder_keys@,
                    self.builders@,
                    other.builder_keys@,
                    other.builders@,
                    injector,
                    key,
                    made,
                );
            }
        }
        InjectionBinder {
            static_values,
            builders,
            builder_keys,
            requirements_graph,
            type_names,
            debug_lines,
            lazy_types,
            _phantom_data: PhantomData,
        }
    }

    /// Supplies `x` as the component of its type.
    pub fn instance<X: Clone + Named + 'static>(self, x: X) -> (binder: Self)
        ensures
            exists|key: TypeId, label: String, value: OpaqueValue|
                call_ensures(X::type_label, (), label) && is_key_of::<X>(key) && erased(x, value) && binder@
                    == #[trigger] self@.with_instance(key, label, value),
            binder@.all_named(),
            same_constructors(self, binder),
    {
        self.instance_as(key_of::<X>(), X::type_label(), x)
    }

    /// Supplies `x` as the component under `key`, a type called `label`:
    /// what is stored under `key` is `x`, behind `dyn Any`.
    pub fn instance_as<X: Clone + 'static>(self, key: TypeId, label: String, x: X) -> (binder: Self)
        ensures
            exists|value: OpaqueValue|
                erased(x, value) && binder@ == #[trigger] self@.with_instance(key, label, value),
            binder@.all_named(),
            same_constructors(self, binder),
    {
        proof {
            use_type_invariant(&self);
        }
        let mut static_values = self.static_values;
        let mut requirements_graph = self.requirements_graph;
        let mut type_names = self.type_names;
        let value = erase(x);
        static_values.insert(key, value);
        type_names.insert(key, label);
        requirements_graph.push(Registration { key, dependencies: Vec::new() });
        proof {
            let target = self@.with_instance(key, label, value);
            lemma_instance_named(self@, key, label, value);
            assert(nodes_of(requirements_graph@) =~= target.registrations);
        }
        InjectionBinder {
            static_values,
            builders: self.builders,
            builder_keys: self.builder_keys,
            requirements_graph,
            type_names,
            debug_lines: self.debug_lines,
            lazy_types: self.lazy_types,
            _phantom_data: PhantomData,
        }
    }

    /// Registers the component `X`, with what it tells about itself. The
    /// constructor that is kept for it is the component's `inject`.
    pub fn inject<X: ComponentMeta + Clone + Named + 'static>(self) -> (binder: InjectionBinder<X>)
        ensures
            exists|
                key: TypeId,
                label: String,
                pairs: Vec<(TypeId, String)>,
                debug_line: Option<String>,
                lazy: bool,
            |
                call_ensures(X::type_label, (), label) && is_key_of::<X>(key) && call_ensures(
                    X::dependencies_names,
                    (),
                    pairs,
                ) && call_ensures(X::debug_line, (), debug_line) && call_ensures(X::lazy, (), lazy)
                    && binder@ == #[trigger] self@.with_registration(
                    key,
                    label,
                    pairs@,
                    debug_line,
                    lazy,
                ) && keeps_constructors(self, binder, key) && constructs_only(
                    binder,
                    key,
                    |injector: &Injector, made: Result<OpaqueValue, InjectError>|
                        made_by_component::<X>(injector, made),
                ),
            binder@.all_named(),
    {
        let construct = move |injector: &Injector| -> (made: Result<X, InjectError>)
            ensures
                call_ensures(X::inject, (injector,), made),
            { X::inject(injector) };
        let pairs = X::dependencies_names();
        let debug_line = X::debug_line();
        let lazy = X::lazy();
        let binder = self.inject_fn_raw::<X, _>(construct, pairs, debug_line, lazy);
        proof {
            let (key, label) = choose|key: TypeId, label: String|
                call_ensures(X::type_label, (), label) && is_key_of::<X>(key) && binder@
                    == #[trigger] self@.with_registration(key, label, pairs@, debug_line, lazy)
                    && keeps_constructors(self, binder, key) && keeps_function::<X, X, _>(
                    binder,
                    key,
                    construct,
                );
            assert forall|injector: &Injector, made: Result<OpaqueValue, InjectError>|
                #[trigger] binder.constructs(injector, key, made) implies made_by_component::<X>(
                injector,
                made,
            ) by {
                assert(made_by::<X, _>(construct, injector, made));
                match made {
                    Ok(stored) => {
                        let value = choose|value: X|
                            #[trigger] call_ensures(
                                construct,
                                (injector,),
                                Ok::<X, InjectError>(value),
                            ) && erased(value, stored);
                        assert(call_ensures(X::inject, (injector,), Ok::<X, InjectError>(value))
                            && erased(value, stored));
                    },
                    Err(error) => {},
                }
            }
        }
        binder
    }

    /// Registers a box around the component that was registered last. Its
    /// constructor reads that component from the container and hands back
    /// a box around what it read, or the failure of the reading.
    pub fn auto_box(self) -> (binder: Self)
        ensures
            exists|key: TypeId, label: String, pairs: Vec<(TypeId, String)>|
                call_ensures(<Box<LastType>>::type_label, (), label) && is_key_of::<Box<LastType>>(key) && call_ensures(
                    <(LastType,)>::dependencies_names,
                    (),
                    pairs,
                ) && binder@ == #[trigger] self@.with_registration(key, label, pairs@, None, false)
                    && keeps_constructors(self, binder, key) && constructs_only(
                    binder,
                    key,
                    |injector: &Injector, made: Result<OpaqueValue, InjectError>|
                        match made {
                            Ok(stored) => exists|parts: (LastType,)|
                                read_parts(injector, parts) && #[trigger] erased(
                                    Box::new(parts.0),
                                    stored,
                                ),
                            Err(error) => fails_to_read::<(LastType,)>(injector, error),
                        },
                ),
            binder@.all_named(),
    {
        let wrap = |parts: (LastType,)| -> (boxed: Box<LastType>)
            ensures
                boxed == Box::new(parts.0),
            { Box::new(parts.0) };
        let registered = self.inject_fn(wrap);
        let binder = registered.change_type::<LastType>();
        proof {
            let (key, label, pairs) = choose|key: TypeId, label: String, pairs: Vec<(TypeId, String)>|
                call_ensures(<Box<LastType>>::type_label, (), label) && is_key_of::<Box<LastType>>(key) && call_ensures(
                    <(LastType,)>::dependencies_names,
                    (),
                    pairs,
                ) && registered@ == #[trigger] self@.with_registration(
                    key,
                    label,
                    pairs@,
                    None,
                    false,
                ) && keeps_constructors(self, registered, key) && constructs_only(
                    registered,
                    key,
                    |injector: &Injector, made: Result<OpaqueValue, InjectError>|
                        made_of_parts_plainly::<Box<LastType>, (LastType,), _>(wrap, injector, made),
                );
            assert forall|injector: &Injector, made: Result<OpaqueValue, InjectError>|
                #[trigger] binder.constructs(injector, key, made) implies match made {
                Ok(stored) => exists|parts: (LastType,)|
                    read_parts(injector, parts) && #[trigger] erased(Box::new(parts.0), stored),
                Err(error) => fails_to_read::<(LastType,)>(injector, error),
            } by {
                assert(registered.constructs(injector, key, made));
                assert(made_of_parts_plainly::<Box<LastType>, (LastType,), _>(wrap, injector, made));
                match made {
                    Ok(stored) => {
                        let (parts, value) = choose|parts: (LastType,), value: Box<LastType>|
                            read_parts(injector, parts) && #[trigger] call_ensures(
                                wrap,
                                (parts,),
                                value,
                            ) && erased(value, stored);
                        assert(value == Box::new(parts.0));
                        assert(erased(Box::new(parts.0), stored));
                    },
                    Err(error) => {},
                }
            }
        }
        binder
    }

    /// Registers a shared pointer to the component that was registered
    /// last. Its constructor reads that component from the container and
    /// hands back a shared pointer to what it read, or the failure of the
    /// reading.
    pub fn auto_arc(self) -> (binder: Self)
        ensures
            exists|key: TypeId, label: String, pairs: Vec<(TypeId, String)>|
                call_ensures(<Arc<LastType>>::type_label, (), label) && is_key_of::<Arc<LastType>>(key) && call_ensures(
                    <(LastType,)>::dependencies_names,
                    (),
                    pairs,
                ) && binder@ == #[trigger] self@.with_registration(key, label, pairs@, None, false)
                    && keeps_constructors(self, binder, key) && constructs_only(
                    binder,
                    key,
                    |injector: &Injector, made: Result<OpaqueValue, InjectError>|
                        match made {
                            Ok(stored) => exists|parts: (LastType,)|
                                read_parts(injector, parts) && #[trigger] erased(
                                    Arc::new(parts.0),
                                    stored,
                                ),
                            Err(error) => fails_to_read::<(LastType,)>(injector, error),
                        },
                ),
            binder@.all_named(),
    {
        let wrap = |parts: (LastType,)| -> (shared: Arc<LastType>)
            ensures
                shared == Arc::new(parts.0),
            { Arc::new(parts.0) };
        let registered = self.inject_fn(wrap);
        let binder = registered.change_type::<LastType>();
        proof {
            let (key, label, pairs) = choose|key: TypeId, label: String, pairs: Vec<(TypeId, String)>|
                call_ensures(<Arc<LastType>>::type_label, (), label) && is_key_of::<Arc<LastType>>(key) && call_ensures(
                    <(LastType,)>::dependencies_names,
                    (),
                    pairs,
                ) && registered@ == #[trigger] self@.with_registration(
                    key,
                    label,
                    pairs@,
                    None,
                    false,
                ) && keeps_constructors(self, registered, key) && constructs_only(
                    registered,
                    key,
                    |injector: &Injector, made: Result<OpaqueValue, InjectError>|
                        made_of_parts_plainly::<Arc<LastType>, (LastType,), _>(wrap, injector, made),
                );
            assert forall|injector: &Injector, made: Result<OpaqueValue, InjectError>|
                #[trigger] binder.constructs(injector, key, made) implies match made {
                Ok(stored) => exists|parts: (LastType,)|
                    read_parts(injector, parts) && #[trigger] erased(Arc::new(parts.0), stored),
                Err(error) => fails_to_read::<(LastType,)>(injector, error),
            } by {
                assert(registered.constructs(injector, key, made));
                assert(made_of_parts_plainly::<Arc<LastType>, (LastType,), _>(wrap, injector, made));
                match made {
                    Ok(stored) => {
                        let (parts, value) = choose|parts: (LastType,), value: Arc<LastType>|
                            read_parts(injector, parts) && #[trigger] call_ensures(
                                wrap,
                                (parts,),
                                value,
                            ) && erased(value, stored);
                        assert(value == Arc::new(parts.0));
                        assert(erased(Arc::new(parts.0), stored));
                    },
                    Err(error) => {},
                }
            }
        }
        binder
    }

    /// Registers what `f` makes of the component that was registered last.
    pub fn auto<Din: Clone + Named + 'static, F: Fn(LastType) -> Din + 'static>(self, f: F) -> (binder:
        Self)
        requires
            forall|last: LastType| call_requires(f, (last,)),
        ensures
            exists|key: TypeId, label: String, pairs: Vec<(TypeId, String)>|
                call_ensures(Din::type_label, (), label) && is_key_of::<Din>(key) && call_ensures(
                    <(LastType,)>::dependencies_names,
                    (),
                    pairs,
                ) && binder@ == #[trigger] self@.with_registration(key, label, pairs@, None, false)
                    && keeps_constructors(self, binder, key) && constructs_only(
                    binder,
                    key,
                    |injector: &Injector, made: Result<OpaqueValue, InjectError>|
                        match made {
                            Ok(stored) => exists|parts: (LastType,), value: Din|
                                read_parts(injector, parts) && #[trigger] call_ensures(
                                    f,
                                    (parts.0,),
                                    value,
                                ) && erased(value, stored),
                            Err(error) => fails_to_read::<(LastType,)>(injector, error),
                        },
                ),
            binder@.all_named(),
    {
        let wrap = move |parts: (LastType,)| -> (made: Din)
            ensures
                yields(&f, parts.0, made),
            { f(parts.0) };
        let registered = self.inject_fn(wrap);
        let binder = registered.change_type::<LastType>();
        proof {
            let (key, label, pairs) = choose|key: TypeId, label: String, pairs: Vec<(TypeId, String)>|
                call_ensures(Din::type_label, (), label) && is_key_of::<Din>(key) && call_ensures(
                    <(LastType,)>::dependencies_names,
                    (),
                    pairs,
                ) && registered@ == #[trigger] self@.with_registration(
                    key,
                    label,
                    pairs@,
                    None,
                    false,
                ) && keeps_constructors(self, registered, key) && constructs_only(
                    registered,
                    key,
                    |injector: &Injector, made: Result<OpaqueValue, InjectError>|
                        made_of_parts_plainly::<Din, (LastType,), _>(wrap, injector, made),
                );
            assert forall|injector: &Injector, made: Result<OpaqueValue, InjectError>|
                #[trigger] binder.constructs(injector, key, made) implies match made {
                Ok(stored) => exists|parts: (LastType,), value: Din|
                    read_parts(injector, parts) && #[trigger] call_ensures(f, (parts.0,), value)
                        && erased(value, stored),
                Err(error) => fails_to_read::<(LastType,)>(injector, error),
            } by {
                assert(registered.constructs(injector, key, made));
                assert(made_of_parts_plainly::<Din, (LastType,), _>(wrap, injector, made));
                match made {
                    Ok(stored) => {
                        let (parts, value) = choose|parts: (LastType,), value: Din|
                            read_parts(injector, parts) && #[trigger] call_ensures(
                                wrap,
                                (parts,),
                                value,
                            ) && erased(value, stored);
                        assert(call_ensures(f, (parts.0,), value) && erased(value, stored));
                    },
                    Err(error) => {},
                }
            }
        }
        binder
    }

    /// Registers what `f` makes of the components of the tuple `In`.
    pub fn inject_fn<
        R: Clone + Named + 'static,
        In: TupleInjectTypes,
        FN: Fn(In) -> R + 'static,
    >(self, f: FN) -> (binder: InjectionBinder<R>)
        requires
            forall|parts: In| call_requires(f, (parts,)),
        ensures
            exists|key: TypeId, label: String, pairs: Vec<(TypeId, String)>|
                call_ensures(R::type_label, (), label) && is_key_of::<R>(key) && call_ensures(
                    In::dependencies_names,
                    (),
                    pairs,
                ) && binder@ == #[trigger] self@.with_registration(key, label, pairs@, None, false)
                    && keeps_constructors(self, binder, key) && constructs_only(
                    binder,
                    key,
                    |injector: &Injector, made: Result<OpaqueValue, InjectError>|
                        made_of_parts_plainly::<R, In, FN>(f, injector, made),
                ),
            binder@.all_named(),
    {
        let construct = move |parts: In| -> (made: Result<R, InjectError>)
            ensures
                made matches Ok(value) && yields(&f, parts, value),
            { Ok(f(parts)) };
        let binder = self.inject_fn_ok::<R, In, _>(construct);
        proof {
            let (key, label, pairs) = choose|key: TypeId, label: String, pairs: Vec<(TypeId, String)>|
                call_ensures(R::type_label, (), label) && is_key_of::<R>(key) && call_ensures(
                    In::dependencies_names,
                    (),
                    pairs,
                ) && binder@ == #[trigger] self@.with_registration(key, label, pairs@, None, false)
                    && keeps_constructors(self, binder, key) && constructs_only(
                    binder,
                    key,
                    |injector: &Injector, made: Result<OpaqueValue, InjectError>|
                        made_of_parts::<R, In, _>(construct, injector, made),
                );
            assert forall|injector: &Injector, made: Result<OpaqueValue, InjectError>|
                #[trigger] binder.constructs(injector, key, made) implies made_of_parts_plainly::<
                R,
                In,
                FN,
            >(f, injector, made) by {
                assert(made_of_parts::<R, In, _>(construct, injector, made));
                match made {
                    Ok(stored) => {
                        let (parts, value) = choose|parts: In, value: R|
                            read_parts(injector, parts) && #[trigger] call_ensures(
                                construct,
                                (parts,),
                                Ok::<R, InjectError>(value),
                            ) && erased(value, stored);
                        assert(call_ensures(f, (parts,), value) && erased(value, stored));
                    },
                    Err(error) => {
                        if !fails_to_read::<In>(injector, error) {
                            let parts = choose|parts: In|
                                read_parts(injector, parts) && #[trigger] call_ensures(
                                    construct,
                                    (parts,),
                                    Err::<R, InjectError>(error),
                                );
                        }
                    },
                }
            }
        }
        binder
    }

    /// Registers what `f` makes of the components of the tuple `In`, where
    /// `f` may fail.
    pub fn inject_fn_ok<
        R: Clone + Named + 'static,
        In: TupleInjectTypes,
        FN: Fn(In) -> Result<R, InjectError> + 'static,
    >(self, f: FN) -> (binder: InjectionBinder<R>)
        requires
            forall|parts: In| call_requires(f, (parts,)),
        ensures
            exists|key: TypeId, label: String, pairs: Vec<(TypeId, String)>|
                call_ensures(R::type_label, (), label) && is_key_of::<R>(key) && call_ensures(
                    In::dependencies_names,
                    (),
                    pairs,
                ) && binder@ == #[trigger] self@.with_registration(key, label, pairs@, None, false)
                    && keeps_constructors(self, binder, key) && constructs_only(
                    binder,
                    key,
                    |injector: &Injector, made: Result<OpaqueValue, InjectError>|
                        made_of_parts::<R, In, FN>(f, injector, made),
                ),
            binder@.all_named(),
    {
        let type_names = In::dependencies_names();
        let construct = move |injector: &Injector| -> (made: Result<R, InjectError>)
            ensures
                match made {
                    Ok(value) => exists|parts: In|
                        read_parts(injector, parts) && #[trigger] yields(
                            &f,
                            parts,
                            Ok::<R, InjectError>(value),
                        ),
                    Err(error) => fails_to_read::<In>(injector, error) || exists|parts: In|
                        read_parts(injector, parts) && #[trigger] yields(
                            &f,
                            parts,
                            Err::<R, InjectError>(error),
                        ),
                },
            {
                match In::read_from_injector(injector) {
                    Ok(parts) => {
                        let ghost read = parts;
                        assert(read_parts(injector, read));
                        match f(parts) {
                            Ok(value) => {
                                assert(yields(&f, read, Ok::<R, InjectError>(value)));
                                Ok(value)
                            },
                            Err(error) => {
                                assert(yields(&f, read, Err::<R, InjectError>(error)));
                                Err(error)
                            },
                        }
                    },
                    Err(error) => {
                        assert(fails_to_read::<In>(injector, error));
                        Err(error)
                    },
                }
            };
        let binder = self.inject_fn_raw(construct, type_names, None, false);
        proof {
            let (key, label) = choose|key: TypeId, label: String|
                call_ensures(R::type_label, (), label) && is_key_of::<R>(key) && binder@
                    == #[trigger] self@.with_registration(key, label, type_names@, None, false)
                    && keeps_constructors(self, binder, key) && keeps_function::<R, R, _>(
                    binder,
                    key,
                    construct,
                );
            assert forall|injector: &Injector, made: Result<OpaqueValue, InjectError>|
                #[trigger] binder.constructs(injector, key, made) implies made_of_parts::<R, In, FN>(
                f,
                injector,
                made,
            ) by {
                assert(made_by::<R, _>(construct, injector, made));
                match made {
                    Ok(_) => {
                        let value = choose|value: R| #[trigger]
                            call_ensures(construct, (injector,), Ok::<R, InjectError>(value));
                        let parts = choose|parts: In|
                            read_parts(injector, parts) && #[trigger] yields(
                                &f,
                                parts,
                                Ok::<R, InjectError>(value),
                            );
                        assert(call_ensures(f, (parts,), Ok::<R, InjectError>(value)));
                    },
                    Err(error) => {
                        if !fails_to_read::<In>(injector, error) {
                            let parts = choose|parts: In|
                                read_parts(injector, parts) && #[trigger] yields(
                                    &f,
                                    parts,
                                    Err::<R, InjectError>(error),
                                );
                            assert(call_ensures(f, (parts,), Err::<R, InjectError>(error)));
                        }
                    },
                }
            }
        }
        binder
    }

    /// Registers the constructor `f` of the component `X`, which needs
    /// `dependencies_names`: `f` is kept as the constructor for the key of
    /// `X`.
    pub fn inject_fn_raw<
        X: Clone + Named + 'static,
        F: Fn(&Injector) -> Result<X, InjectError> + 'static,
    >(
        self,
        f: F,
        dependencies_names: Vec<(TypeId, String)>,
        debug_line: Option<String>,
        lazy: bool,
    ) -> (binder: InjectionBinder<X>)
        requires
            forall|injector: &Injector| call_requires(f, (injector,)),
        ensures
            exists|key: TypeId, label: String|
                call_ensures(X::type_label, (), label) && is_key_of::<X>(key) && binder@
                    == #[trigger] self@.with_registration(
                    key,
                    label,
                    dependencies_names@,
                    debug_line,
                    lazy,
                ) && keeps_constructors(self, binder, key) && keeps_function::<X, X, F>(
                    binder,
                    key,
                    f,
                ),
            binder@.all_named(),
    {
        self.register::<X, F>(
            key_of::<X>(),
            X::type_label(),
            f,
            dependencies_names,
            debug_line,
            lazy,
        )
    }

    /// Registers the constructor `f` of the component under `key`, a type
    /// called `label`, which needs `dependencies_names`. The constructors
    /// that the binder keeps for other keys stay as they are.
    pub fn register<X: Clone + 'static, F: Fn(&Injector) -> Result<X, InjectError> + 'static>(
        self,
        key: TypeId,
        label: String,
        f: F,
        dependencies_names: Vec<(TypeId, String)>,
        debug_line: Option<String>,
        lazy: bool,
    ) -> (binder: InjectionBinder<X>)
        requires
            forall|injector: &Injector| call_requires(f, (injector,)),
        ensures
            binder@ == self@.with_registration(key, label, dependencies_names@, debug_line, lazy),
            binder@.all_named(),
            keeps_function::<X, X, F>(binder, key, f),
            keeps_constructors(self, binder, key),
    {
        proof {
            use_type_invariant(&self);
        }
        let mut builders = self.builders;
        let mut builder_keys = self.builder_keys;
        let mut requirements_graph = self.requirements_graph;
        let mut type_names = self.type_names;
        let mut debug_lines = self.debug_lines;
        let mut lazy_types = self.lazy_types;
        let mut requirements: Vec<TypeId> = Vec::new();
        let mut i: usize = 0;
        assert(dependencies_names@.take(0) =~= Seq::empty());
        while i < dependencies_names.len()
            invariant
                i <= dependencies_names.len(),
                requirements@ == pair_keys(dependencies_names@.take(i as int)),
                type_names@ == named_all(self@.names, dependencies_names@.take(i as int)),
                self@.all_named(),
                self.builders@.len() == self.builder_keys@.len(),
                builders@ == self.builders@,
                builder_keys@ == self.builder_keys@,
                requirements_graph@ == self.requirements_graph@,
                debug_lines@ == self.debug_lines@,
                lazy_types@ == self.lazy_types@,
            decreases dependencies_names.len() - i,
        {
            proof {
                let pairs = dependencies_names@;
                assert(pairs.take(i + 1).drop_last() =~= pairs.take(i as int));
                assert(pairs.take(i + 1).last() == pairs[i as int]);
            }
            requirements.push(dependencies_names[i].0);
            type_names.insert(dependencies_names[i].0, dependencies_names[i].1.clone());
            assert(requirements@ =~= pair_keys(dependencies_names@.take(i + 1)));
            i += 1;
        }
        assert(dependencies_names@.take(dependencies_names.len() as int) =~= dependencies_names@);
        let builder: Box<dyn Build> = Box::new(FnBuild::<X, F>::new(f));
        let ghost kept = builder;
        assert(forall|injector: &Injector, made: Result<OpaqueValue, InjectError>|
            #[trigger] kept.gives(injector, made) == made_by::<X, F>(f, injector, made));
        let mut one = vec![builder];
        let ghost single = one@;
        assert(single == seq![kept]);
        assert(seq![kept][0] == kept);
        assert(single[0] == kept);
        assert(single.len() == 1);
        assert(forall|injector: &Injector, made: Result<OpaqueValue, InjectError>|
            #[trigger] single[0].gives(injector, made) == made_by::<X, F>(f, injector, made));
        builders.append(&mut one);
        builder_keys.push(key);
        requirements_graph.push(Registration { key, dependencies: requirements });
        type_names.insert(key, label);
        if lazy {
            lazy_types.insert(key);
        }
        match debug_line {
            Some(site) => {
                debug_lines.insert(key, site);
            },
            None => {},
        }
        proof {
            let target = self@.with_registration(key, label, dependencies_names@, debug_line, lazy);
            lemma_registration_named(self@, key, label, dependencies_names@, debug_line, lazy);
            lemma_joined::<Box<dyn Build>>(self.builders@, single);
            assert(builders@ == self.builders@ + single);
            assert(builder_keys@ =~= self.builder_keys@ + seq![key]);
            assert(nodes_of(requirements_graph@) =~= target.registrations);
            assert(builder_keys@ =~= target.builders);
            assert forall|injector: &Injector, other: TypeId, made: Result<OpaqueValue, InjectError>|
                #[trigger] constructor_gives(builder_keys@, builders@, injector, other, made)
                    == if other == key {
                    made_by::<X, F>(f, injector, made)
                } else {
                    constructor_gives(self.builder_keys@, self.builders@, injector, other, made)
                } by {
                lemma_joined_constructors(
                    self.builder_keys@,
                    self.builders@,
                    seq![key],
                    single,
                    injector,
                    other,
                    made,
                );
                if other == key {
                    assert(seq![key][0] == key);
                    assert(last_under(seq![key], key, 0));
                    assert(seq![key].contains(key));
                    if constructor_gives(seq![key], single, injector, key, made) {
                        let i = choose|i: int|
                            #[trigger] last_under(seq![key], key, i) && i < single.len()
                                && single[i].gives(injector, made);
                        assert(i == 0);
                    }
                } else {
                    if seq![key].contains(other) {
                        let i = choose|i: int| 0 <= i < seq![key].len() && seq![key][i] == other;
                    }
                }
            }
        }
        InjectionBinder {
            static_values: self.static_values,
            builders,
            builder_keys,
            requirements_graph,
            type_names,
            debug_lines,
            lazy_types,
            _phantom_data: PhantomData,
        }
    }

    /// The keys that are provided without a registration: `additional_types`
    /// and the keys of the supplied values.
    fn known_keys(&self, additional_types: &Vec<TypeId>) -> (known: KeySet)
        ensures
            known@ == self@.known(additional_types@.to_set()),
    {
        let mut known = KeySet::new();
        known.insert_all(additional_types);
        let supplied = self.static_values.keys();
        known.insert_all(&supplied);
        assert(known@ =~= additional_types@.to_set().union(self@.statics.dom()));
        known
    }

    /// Validates what the binder holds, without constructing anything.
    ///
    /// The passes run in this order, and the first that finds something
    /// decides the failure: components registered twice, deferred
    /// components that depend on deferred components, dependencies that
    /// nothing provides, cycles. Each failure names every offender. A
    /// dependency that nothing provides is always found, where the two
    /// passes before find nothing: every key of a binder has a name.
    pub fn verify(&self, additional_types: Vec<TypeId>, short_types: bool) -> (checked: Result<
        (),
        InjectError,
    >)
        ensures
            match checked {
                Ok(_) => self@.validation(additional_types@.to_set(), short_types) is Ok,
                Err(error) => self@.validation(additional_types@.to_set(), short_types) == Err::<
                    Seq<TypeId>,
                    ErrorView,
                >(error@),
            },
            self@.all_named(),
            self@.lacks_only_a_dependency(additional_types@.to_set()) ==> (checked matches Err(
                error,
            ) && error@ is MissingDependencies),
    {
        proof {
            use_type_invariant(self);
            lemma_missing_dependency_fails(self@, additional_types@.to_set(), short_types);
        }
        let known = self.known_keys(&additional_types);
        match validate(
            &known,
            &self.requirements_graph,
            &self.lazy_types,
            &self.type_names,
            &self.debug_lines,
            short_types,
        ) {
            Ok(_) => Ok(()),
            Err(error) => Err(error),
        }
    }

    /// Validates what the binder holds, then constructs every component in
    /// the order of resolution and hands back the container.
    ///
    /// A failure of validation is returned as `verify` returns it, before
    /// any constructor has run. Otherwise every constructor is run on the
    /// container that is handed back, in the order of resolution; the call
    /// fails only where a constructor fails, with the failure of that
    /// constructor, and where no resolved key has a constructor, it
    /// succeeds.
    pub fn build(self) -> (built: Result<Injector, InjectError>)
        ensures
            self@.validation(Set::empty(), false) matches Err(failure) ==> built matches Err(error)
                && error@ == failure,
            built is Ok ==> self@.validation(Set::empty(), false) is Ok,
            self@.validation(Set::empty(), false) matches Ok(order) ==> (
            self@.without_constructor(order) ==> built is Ok),
            self@.validation(Set::empty(), false) matches Ok(order) ==> match built {
                Ok(injector) => forall|t: int|
                    0 <= t < order.len() ==> self.done_with(&injector, #[trigger] order[t]),
                Err(error) => exists|injector: &Injector, t: int|
                    0 <= t < order.len() && #[trigger] self.constructs(
                        injector,
                        order[t],
                        Err::<OpaqueValue, InjectError>(error),
                    ),
            },
            self@.lacks_only_a_dependency(Set::empty()) ==> (built matches Err(error) && error@
                is MissingDependencies),
    {
        proof {
            use_type_invariant(&self);
            lemma_missing_dependency_fails(self@, Set::empty(), false);
        }
        let none: Vec<TypeId> = Vec::new();
        assert(none@.to_set() =~= Set::<TypeId>::empty());
        let known = self.known_keys(&none);
        let order = match validate(
            &known,
            &self.requirements_graph,
            &self.lazy_types,
            &self.type_names,
            &self.debug_lines,
            false,
        ) {
            Ok(order) => order,
            Err(error) => {
                return Err(error);
            },
        };
        let injector = Injector::new(self.static_values);
        let done = run_builders(&order, &self.builder_keys, &self.builders, &injector);
        proof {
            assert(self@.validation(Set::empty(), false) == Ok::<Seq<TypeId>, ErrorView>(order@));
            assert(self@.builders == self.builder_keys@);
        }
        let ghost meant = self@.validation(Set::empty(), false)->Ok_0;
        assert(meant == order@);
        match done {
            Ok(_) => {
                assert forall|t: int| 0 <= t < meant.len() implies self.done_with(
                    &injector,
                    #[trigger] meant[t],
                ) by {
                    assert(settled(self.builder_keys@, self.builders@, &injector, order@[t]));
                    if self@.builders.contains(meant[t]) {
                        let value = choose|value: OpaqueValue| #[trigger]
                            constructor_gives(
                                self.builder_keys@,
                                self.builders@,
                                &injector,
                                order@[t],
                                Ok::<OpaqueValue, InjectError>(value),
                            );
                        assert(self.constructs(
                            &injector,
                            meant[t],
                            Ok::<OpaqueValue, InjectError>(value),
                        ));
                    }
                }
                Ok(injector)
            },
            Err(error) => {
                proof {
                    let t = choose|t: int|
                        0 <= t < order@.len() && #[trigger] constructor_gives(
                            self.builder_keys@,
                            self.builders@,
                            &injector,
                            order@[t],
                            Err::<OpaqueValue, InjectError>(error),
                        );
                    assert(self.constructs(
                        &injector,
                        meant[t],
                        Err::<OpaqueValue, InjectError>(error),
                    ));
                    assert(exists|injector: &Injector, t: int|
                        0 <= t < meant.len() && #[trigger] self.constructs(
                            injector,
                            meant[t],
                            Err::<OpaqueValue, InjectError>(error),
                        ));
                }
                Err(error)
            },
        }
    }
}

/// The constructors of two joined lists: a key that the second list holds
/// has its constructor there, any other has it in the first.
proof fn lemma_joined_constructors(
    first_keys: Seq<TypeId>,
    first: Seq<Box<dyn Build>>,
    second_keys: Seq<TypeId>,
    second: Seq<Box<dyn Build>>,
    injector: &Injector,
    key: TypeId,
    made: Result<OpaqueValue, InjectError>,
)
    requires
        first.len() == first_keys.len(),
        second.len() == second_keys.len(),
    ensures
        constructor_gives(first_keys + second_keys, first + second, injector, key, made)
            == if second_keys.contains(key) {
            constructor_gives(second_keys, second, injector, key, made)
        } else {
            constructor_gives(first_keys, first, injector, key, made)
        },
{
    let keys = first_keys + second_keys;
    let all = first + second;
    let n = first_keys.len() as int;
    lemma_joined::<Box<dyn Build>>(first, second);
    if second_keys.contains(key) {
        let p = choose|p: int| 0 <= p < second_keys.len() && second_keys[p] == key;
        assert(keys[n + p] == key);
        if constructor_gives(keys, all, injector, key, made) {
            let i = choose|i: int|
                #[trigger] last_under(keys, key, i) && i < all.len() && all[i].gives(
                    injector,
                    made,
                );
            assert(i >= n + p);
            let j = i - n;
            assert(last_under(second_keys, key, j)) by {
                assert forall|t: int| j < t < second_keys.len() implies second_keys[t] != key by {
                    assert(keys[n + t] == second_keys[t]);
                }
            }
            assert(all[n + j] == second[j]);
        }
        if constructor_gives(second_keys, second, injector, key, made) {
            let j = choose|j: int|
                #[trigger] last_under(second_keys, key, j) && j < second.len() && second[j].gives(
                    injector,
                    made,
                );
            assert(last_under(keys, key, n + j)) by {
                assert forall|t: int| n + j < t < keys.len() implies keys[t] != key by {
                    assert(keys[t] == second_keys[t - n]);
                }
            }
            assert(all[n + j] == second[j]);
        }
    } else {
        if constructor_gives(keys, all, injector, key, made) {
            let i = choose|i: int|
                #[trigger] last_under(keys, key, i) && i < all.len() && all[i].gives(
                    injector,
                    made,
                );
            if i >= n {
                assert(second_keys[i - n] == key);
            }
            assert(last_under(first_keys, key, i)) by {
                assert forall|t: int| i < t < first_keys.len() implies first_keys[t] != key by {
                    assert(keys[t] == first_keys[t]);
                }
            }
            assert(all[i] == first[i]);
        }
        if constructor_gives(first_keys, first, injector, key, made) {
            let i = choose|i: int|
                #[trigger] last_under(first_keys, key, i) && i < first.len() && first[i].gives(
                    injector,
                    made,
                );
            assert(last_under(keys, key, i)) by {
                assert forall|t: int| i < t < keys.len() implies keys[t] != key by {
                    if t < n {
                        assert(keys[t] == first_keys[t]);
                    } else {
                        assert(keys[t] == second_keys[t - n]);
                        if second_keys[t - n] == key {
                            assert(second_keys.contains(key));
                        }
                    }
                }
            }
            assert(all[i] == first[i]);
        }
    }
}

/// Two binders merged either way hold the same supplied values, but for
/// the keys under which both hold one: the merged binders hold values
/// under the same keys, and under a key that at most one of the two holds
/// a value for, the same value.
pub proof fn lemma_merged_values_alike(one: BinderView, other: BinderView, key: TypeId)
    ensures
        one.merged(other).statics.dom() == other.merged(one).statics.dom(),
        one.merged(other).statics.contains_key(key) && !(one.statics.contains_key(key)
            && other.statics.contains_key(key)) ==> one.merged(other).statics[key] == other.merged(
            one,
        ).statics[key],
{
    assert(one.merged(other).statics.dom() =~= other.merged(one).statics.dom());
}

/// Two binders merged either way keep the same constructors, but for the
/// keys for which both keep one: for a key that at most one of the two
/// keeps a constructor for, the merged binders keep the same.
pub proof fn lemma_merged_constructors_alike<First, Second>(
    one: InjectionBinder<First>,
    other: InjectionBinder<Second>,
    forth: InjectionBinder<First>,
    back: InjectionBinder<Second>,
    injector: &Injector,
    key: TypeId,
    made: Result<OpaqueValue, InjectError>,
)
    requires
        joins_constructors(one, other, forth),
        joins_constructors(other, one, back),
        !(one@.builders.contains(key) && other@.builders.contains(key)),
    ensures
        forth.constructs(injector, key, made) == back.constructs(injector, key, made),
{
    if one.constructs(injector, key, made) {
        one.lemma_constructs_with_constructor(injector, key, made);
    }
    if other.constructs(injector, key, made) {
        other.lemma_constructs_with_constructor(injector, key, made);
    }
}

/// A dependency that nothing provides makes validation fail, where the
/// binder names all its keys and the two passes before find nothing: the
/// failure is that of missing dependencies.
pub proof fn lemma_missing_dependency_fails(
    view: BinderView,
    additional: Set<TypeId>,
    short_types: bool,
)
    requires
        view.all_named(),
    ensures
        view.lacks_only_a_dependency(additional) ==> (view.validation(additional, short_types)
            matches Err(error) && error is MissingDependencies),
{
    if view.lacks_only_a_dependency(additional) {
        let known = view.known(additional);
        let nodes = view.registrations;
        let (i, d) = choose|i: int, d: int|
            0 <= i < nodes.len() && 0 <= d < nodes[i].deps.len() && !provided(
                known,
                nodes,
                #[trigger] nodes[i].deps[d],
            );
        lemma_missing_dependency_is_reported(
            known,
            nodes,
            view.lazy,
            view.names,
            view.sites,
            short_types,
            i,
            d,
        );
    }
}

} // verus!
