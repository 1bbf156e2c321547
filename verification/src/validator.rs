//! The compiled validator of one schema document, and how it is built.
use vstd::prelude::*;
use crate::compiler::{Context, ContextView, compile};
use crate::rules::{accepted, reference_free};
use crate::shape::{compiled, filter_compiled};
use crate::error::{ErrorView, ValidationError, ValidationErrorKind, error_views};
use crate::json::{Json, Value, obj_get};
use crate::keywords::unevaluated_properties::{PropertiesFilter, filter_wf};
use crate::node::{
    MAX_DEPTH, Registry, SchemaNode, Target, first_error, node_errors, node_valid, node_wf,
};
use crate::paths::{Location, Seg, json_at, lookup};
use crate::references::{filter_refers, lemma_spots_push, node_refers, spots};
use crate::text::str_eq;
use crate::types::Draft;

verus! {

/// A count, as far as the machine counts.
pub open spec fn capped(n: nat) -> nat {
    if n > usize::MAX {
        usize::MAX as nat
    } else {
        n
    }
}

/// The sum of two counts, as far as the machine counts.
fn add_capped(a: usize, b: usize) -> (r: usize)
    ensures
        r as nat == capped(a as nat + b as nat),
{
    if a > usize::MAX - b {
        usize::MAX
    } else {
        a + b
    }
}

/// How many places a document has: each value in it is one. References
/// can lead to no more schemas than that.
pub fn count_places(value: &Value) -> (r: usize)
    ensures
        r as nat == capped(crate::compiler::json_size(value@)),
    decreases value,
{
    match value {
        Value::Array(items) => {
            proof {
                crate::json::lemma_views(items@);
            }
            let ghost all = crate::json::views(items@);
            let mut total: usize = 0;
            let mut i: usize = 0;
            proof {
                assert(all.take(0) =~= Seq::<Json>::empty());
            }
            while i < items.len()
                invariant
                    i <= items.len(),
                    value is Array && value->Array_0 == *items,
                    all == crate::json::views(items@),
                    all.len() == items@.len(),
                    forall|j: int| 0 <= j < items@.len() ==> (#[trigger] all[j]) == items@[j]@,
                    total as nat == capped(crate::compiler::items_size(all.take(i as int))),
                decreases items.len() - i,
            {
                proof {
                    assert(all.take(i + 1).drop_last() =~= all.take(i as int));
                    assert(all.take(i + 1).last() == all[i as int]);
                }
                let here = count_places(&items[i]);
                total = add_capped(total, here);
                i += 1;
            }
            proof {
                assert(all.take(items@.len() as int) =~= all);
            }
            add_capped(total, 1)
        },
        Value::Object(map) => {
            proof {
                crate::json::lemma_member_views(map.entries@);
            }
            let ghost all = map@;
            let mut total: usize = 0;
            let mut i: usize = 0;
            proof {
                assert(all.take(0) =~= Seq::<(Seq<char>, Json)>::empty());
            }
            while i < map.entries.len()
                invariant
                    i <= map.entries.len(),
                    value is Object && value->Object_0 == *map,
                    all == map@,
                    all.len() == map.entries@.len(),
                    forall|j: int|
                        0 <= j < map.entries@.len() ==> (#[trigger] all[j]) == (
                            map.entries@[j].0@,
                            map.entries@[j].1@,
                        ),
                    total as nat == capped(crate::compiler::members_size(all.take(i as int))),
                decreases map.entries.len() - i,
            {
                proof {
                    assert(all.take(i + 1).drop_last() =~= all.take(i as int));
                    assert(all.take(i + 1).last() == all[i as int]);
                }
                let here = count_places(&map.entries[i].1);
                total = add_capped(total, here);
                i += 1;
            }
            proof {
                assert(all.take(map.entries@.len() as int) =~= all);
            }
            add_capped(total, 1)
        },
        _ => 1,
    }
}

/// How a validator is built.
#[derive(Debug)]
pub struct ValidationOptions {
    draft: Option<Draft>,
    base_uri: Option<String>,
}

/// The validator of one schema document.
#[derive(Debug)]
pub struct Validator {
    registry: Registry,
    root: SchemaNode,
    draft: Draft,
    base_uri: Option<String>,
}

/// The draft that a `$schema` value names, if it names one.
pub open spec fn draft_named(uri: Seq<char>) -> Option<Draft> {
    if uri == "http://json-schema.org/draft-04/schema#"@ || uri
        == "http://json-schema.org/draft-04/schema"@ {
        Some(Draft::Draft4)
    } else if uri == "http://json-schema.org/draft-06/schema#"@ || uri
        == "http://json-schema.org/draft-06/schema"@ {
        Some(Draft::Draft6)
    } else if uri == "http://json-schema.org/draft-07/schema#"@ || uri
        == "http://json-schema.org/draft-07/schema"@ {
        Some(Draft::Draft7)
    } else if uri == "https://json-schema.org/draft/2019-09/schema"@ || uri
        == "https://json-schema.org/draft/2019-09/schema#"@ {
        Some(Draft::Draft201909)
    } else if uri == "https://json-schema.org/draft/2020-12/schema"@ || uri
        == "https://json-schema.org/draft/2020-12/schema#"@ {
        Some(Draft::Draft202012)
    } else {
        None
    }
}

/// The draft by which a schema document is read: the one that was asked for;
/// else the one that its `$schema` names; else the latest.
pub open spec fn draft_for(asked: Option<Draft>, schema: Json) -> Draft {
    match asked {
        Some(draft) => draft,
        None => match schema {
            Json::Object(entries) => match obj_get(entries, "$schema"@) {
                Some(Json::String(uri)) => match draft_named(uri) {
                    Some(draft) => draft,
                    None => Draft::Draft202012,
                },
                _ => Draft::Draft202012,
            },
            _ => Draft::Draft202012,
        },
    }
}

/// The draft that a `$schema` value names.
pub fn draft_from_uri(uri: &str) -> (r: Option<Draft>)
    ensures
        r == draft_named(uri@),
{
    if str_eq(uri, "http://json-schema.org/draft-04/schema#") || str_eq(
        uri,
        "http://json-schema.org/draft-04/schema",
    ) {
        Some(Draft::Draft4)
    } else if str_eq(uri, "http://json-schema.org/draft-06/schema#") || str_eq(
        uri,
        "http://json-schema.org/draft-06/schema",
    ) {
        Some(Draft::Draft6)
    } else if str_eq(uri, "http://json-schema.org/draft-07/schema#") || str_eq(
        uri,
        "http://json-schema.org/draft-07/schema",
    ) {
        Some(Draft::Draft7)
    } else if str_eq(uri, "https://json-schema.org/draft/2019-09/schema") || str_eq(
        uri,
        "https://json-schema.org/draft/2019-09/schema#",
    ) {
        Some(Draft::Draft201909)
    } else if str_eq(uri, "https://json-schema.org/draft/2020-12/schema") || str_eq(
        uri,
        "https://json-schema.org/draft/2020-12/schema#",
    ) {
        Some(Draft::Draft202012)
    } else {
        None
    }
}

/// Whether the target holds what the schema that lies at its pointer in the
/// document is compiled to, and the filter of that schema where it is an
/// object.
pub open spec fn target_compiled(target: Target, document: Json, draft: Draft) -> bool {
    let ctx = ContextView { document, draft, location: target.pointer@ };
    let contents = json_at(document, target.pointer@)->0;
    &&& json_at(document, target.pointer@) is Some
    &&& accepted(ctx, contents)
    &&& compiled(ctx, contents, &target.node)
    &&& match contents {
        Json::Object(parent) => target.filter matches Some(f) && filter_compiled(ctx, parent, &f),
        _ => target.filter is None,
    }
}

/// Whether the target refers to the place: its schema does, or its filter.
pub open spec fn target_refers(target: Target, t: Seq<Seg>) -> bool {
    node_refers(&target.node, t) || (target.filter matches Some(f) && filter_refers(&f, t))
}

/// Whether the registry has a target at every place that its targets refer
/// to.
pub open spec fn closed(registry: &Registry) -> bool {
    forall|i: int, t: Seq<Seg>|
        0 <= i < registry.targets@.len() && #[trigger] target_refers(registry.targets@[i], t)
            ==> registry.has(t)
}

/// Whether the registry holds compiled schemas of the document, no two of
/// them for the same place.
pub open spec fn describes(registry: &Registry, document: Json, draft: Draft) -> bool {
    &&& forall|i: int|
        0 <= i < registry.targets@.len() ==> target_compiled(
            #[trigger] registry.targets@[i],
            document,
            draft,
        )
    &&& forall|i: int, j: int|
        0 <= i < j < registry.targets@.len() ==> (#[trigger] registry.targets@[i]).pointer@ != (
        #[trigger] registry.targets@[j]).pointer@
}

/// The error of a document in which something is wrong with the schemas
/// that the references lead to, and not with one of the schemas themselves:
/// more places were taken than the document has, or one is not found.
pub open spec fn referencing_fault(message: Seq<char>) -> ErrorView {
    ErrorView {
        kind: crate::error::KindView::Referencing { message },
        instance: Json::Null,
        instance_path: Seq::empty(),
        schema_path: Seq::empty(),
        evaluation_path: Seq::empty(),
    }
}

/// Whether the error is one that a schema to which a reference leads can
/// give: the first rule that a schema of the document breaks where it
/// lies, or that the filter of such a schema breaks; or that more places
/// were taken than the document has, or that one is not found.
pub open spec fn target_fault(document: Json, draft: Draft, error: ErrorView) -> bool {
    ||| error == referencing_fault("Too many referenced schemas"@)
    ||| error == referencing_fault("Unresolvable reference"@)
    ||| exists|t: Seq<Seg>|
        json_at(document, t) is Some && {
            let ctx = ContextView { document, draft, location: t };
            let contents = #[trigger] json_at(document, t)->0;
            ||| crate::refusal::refusal(ctx, contents) == Some(error)
            ||| contents is Object && crate::refusal::filter_refusal(ctx, contents->Object_0)
                == Some(error)
        }
}

/// The places of the targets of a registry, in their order.
pub open spec fn pointers(registry: &Registry) -> Seq<Seq<Seg>> {
    Seq::new(registry.targets@.len(), |i: int| registry.targets@[i].pointer@)
}

/// Whether the schema that lies at `place` in the document is found and
/// accepted there, and its filter too where it is an object.
pub open spec fn target_accepted(document: Json, draft: Draft, place: Seq<Seg>) -> bool {
    let ctx = ContextView { document, draft, location: place };
    let contents = json_at(document, place)->0;
    &&& json_at(document, place) is Some
    &&& accepted(ctx, contents)
    &&& contents is Object ==> crate::rules::filter_accepted(ctx, contents->Object_0)
}

/// The places that the references of the schema at `place` lead to: those
/// of the schema, and then those of its filter where it is an object.
pub open spec fn target_found(document: Json, draft: Draft, place: Seq<Seg>) -> Seq<Seq<Seg>> {
    let ctx = ContextView { document, draft, location: place };
    let contents = json_at(document, place)->0;
    crate::found::found(ctx, contents) + if contents is Object {
        crate::found::filter_found(ctx, contents->Object_0)
    } else {
        Seq::empty()
    }
}

/// Whether every schema that the places in `pending` lead to, and every
/// schema that the references of those lead to in turn, is found and
/// accepted, `done` being the places that are settled already. The places
/// are taken from the end of `pending`; a place that is settled is passed
/// over, and each other place takes one of the `budget`, which is as many
/// as the document has places.
pub open spec fn settled(
    document: Json,
    draft: Draft,
    pending: Seq<Seq<Seg>>,
    done: Seq<Seq<Seg>>,
    budget: nat,
) -> bool
    decreases budget, pending.len(),
{
    if pending.len() == 0 {
        true
    } else if done.contains(pending.last()) {
        settled(document, draft, pending.drop_last(), done, budget)
    } else if budget == 0 {
        false
    } else {
        target_accepted(document, draft, pending.last()) && settled(
            document,
            draft,
            pending.drop_last() + target_found(document, draft, pending.last()),
            done.push(pending.last()),
            (budget - 1) as nat,
        )
    }
}

/// A registry has a target at a place exactly when the place is among its
/// pointers.
pub proof fn lemma_pointers(registry: &Registry, place: Seq<Seg>)
    ensures
        registry.has(place) <==> pointers(registry).contains(place),
{
    if registry.has(place) {
        let i = registry.position(place);
        assert(registry.first_at(place, i));
        assert(pointers(registry)[i] == place);
    }
    if pointers(registry).contains(place) {
        let i = choose|i: int| 0 <= i < pointers(registry).len() && pointers(registry)[i] == place;
        registry.lemma_has(place, i);
    }
}

/// Compiles the schemas that the references in `found` lead to, and those
/// that their own references lead to, and so on.
fn resolve_targets(document: &Value, draft: Draft, found: Vec<Location>) -> (r: Result<
    Registry,
    ValidationError,
>)
    ensures
        r matches Ok(registry) ==> {
            &&& registry.wf()
            &&& describes(&registry, document@, draft)
            &&& closed(&registry)
            &&& forall|t: Seq<Seg>| spots(found@).contains(t) ==> registry.has(t)
        },
        found@.len() == 0 ==> (r matches Ok(registry) && registry.targets@.len() == 0),
        r matches Err(e) ==> target_fault(document@, draft, e@),
        r is Ok <==> settled(
            document@,
            draft,
            crate::found::places(found@),
            Seq::empty(),
            capped(crate::compiler::json_size(document@)),
        ),
{
    let mut pending = found;
    let mut registry = Registry { targets: Vec::new() };
    let mut budget: usize = count_places(document);
    let ghost goal = settled(
        document@,
        draft,
        crate::found::places(found@),
        Seq::empty(),
        capped(crate::compiler::json_size(document@)),
    );
    proof {
        assert(pointers(&registry) =~= Seq::<Seq<Seg>>::empty());
    }
    while pending.len() > 0
        invariant
            goal == settled(
                document@,
                draft,
                crate::found::places(pending@),
                pointers(&registry),
                budget as nat,
            ),
            goal == settled(
                document@,
                draft,
                crate::found::places(found@),
                Seq::empty(),
                capped(crate::compiler::json_size(document@)),
            ),
            registry.wf(),
            describes(&registry, document@, draft),
            found@.len() == 0 ==> pending@.len() == 0 && registry.targets@.len() == 0,
            forall|i: int, t: Seq<Seg>|
                0 <= i < registry.targets@.len() && #[trigger] target_refers(registry.targets@[i], t)
                    ==> registry.has(t) || spots(pending@).contains(t),
            forall|t: Seq<Seg>| #[trigger]
                spots(found@).contains(t) ==> registry.has(t) || spots(pending@).contains(t),
        decreases budget, pending@.len(),
    {
        let ghost waiting = pending@;
        let pointer = match pending.pop() {
            Some(pointer) => pointer,
            None => {
                return Err(unreachable_target());
            },
        };
        let ghost left = crate::found::places(pending@);
        proof {
            assert(waiting == pending@.push(pointer));
            lemma_spots_push(pending@, pointer);
            assert(crate::found::places(waiting).last() == pointer@);
            assert(crate::found::places(waiting).drop_last() =~= left);
            lemma_pointers(&registry, pointer@);
            let all = crate::found::places(waiting);
            assert(settled(document@, draft, all, pointers(&registry), budget as nat) == if pointers(
                &registry,
            ).contains(all.last()) {
                settled(document@, draft, all.drop_last(), pointers(&registry), budget as nat)
            } else if budget == 0 {
                false
            } else {
                target_accepted(document@, draft, all.last()) && settled(
                    document@,
                    draft,
                    all.drop_last() + target_found(document@, draft, all.last()),
                    pointers(&registry).push(all.last()),
                    (budget - 1) as nat,
                )
            });
        }
        if registry.find(&pointer).is_none() {
            if budget == 0 {
                return Err(
                    ValidationError::new(
                        ValidationErrorKind::Referencing {
                            message: String::from_str("Too many referenced schemas"),
                        },
                        Location::new(),
                        Location::new(),
                        Location::new(),
                        &Value::Null,
                    ),
                );
            }
            budget = budget - 1;
            let contents = match lookup(document, &pointer) {
                Some(contents) => contents,
                None => {
                    return Err(unreachable_target());
                },
            };
            {
                let ctx = Context { document, draft, location: pointer.clone() };
                let node = match compile(&ctx, contents, &mut pending) {
                    Ok(node) => node,
                    Err(e) => {
                        proof {
                            assert(json_at(document@, pointer@)->0 == contents@);
                        }
                        return Err(e);
                    },
                };
                let filter = match contents {
                    Value::Object(parent) => match PropertiesFilter::new(&ctx, parent, &mut pending) {
                        Ok(filter) => Some(filter),
                        Err(e) => {
                            proof {
                                assert(json_at(document@, pointer@)->0 == contents@);
                            }
                            return Err(e);
                        },
                    },
                    _ => None,
                };
                let ghost before = registry.targets@;
                let ghost earlier = registry;
                let ghost spot = pointer@;
                registry.targets.push(Target { pointer, node, filter });
                proof {
                    assert forall|i: int| 0 <= i < registry.targets@.len() implies node_wf(
                        &(#[trigger] registry.targets@[i]).node,
                    ) && (registry.targets@[i].filter matches Some(f) ==> filter_wf(&f)) by {
                        if i < before.len() {
                            assert(registry.targets@[i] == before[i]);
                        }
                    }
                    assert forall|i: int| 0 <= i < registry.targets@.len() implies target_compiled(
                        #[trigger] registry.targets@[i],
                        document@,
                        draft,
                    ) by {
                        if i < before.len() {
                            assert(registry.targets@[i] == before[i]);
                        }
                    }
                    assert forall|i: int, j: int|
                        0 <= i < j < registry.targets@.len() implies (#[trigger] registry.targets@[i]).pointer@
                        != (#[trigger] registry.targets@[j]).pointer@ by {
                        assert(registry.targets@[i] == before[i]);
                        if j < before.len() {
                            assert(registry.targets@[j] == before[j]);
                        } else {
                            if before[i].pointer@ == spot {
                                earlier.lemma_has(spot, i);
                            }
                        }
                    }
                    registry.lemma_has(spot, before.len() as int);
                    assert(pointers(&registry) =~= pointers(&earlier).push(spot));
                    assert(crate::found::places(pending@) =~= left + target_found(
                        document@,
                        draft,
                        spot,
                    ));
                    assert forall|t: Seq<Seg>| earlier.has(t) implies registry.has(t) by {
                        lemma_has_kept(&earlier, &registry, t);
                    }
                    assert forall|i: int, t: Seq<Seg>|
                        0 <= i < registry.targets@.len() && #[trigger] target_refers(
                            registry.targets@[i],
                            t,
                        ) implies registry.has(t) || spots(pending@).contains(t) by {
                        if i < before.len() {
                            assert(registry.targets@[i] == before[i]);
                            assert(target_refers(earlier.targets@[i], t));
                        }
                    }
                }
            }
        }
    }
    proof {
        assert(spots(pending@) =~= Set::empty());
        assert(crate::found::places(pending@).len() == 0);
    }
    Ok(registry)
}

/// The error of a reference whose target is not found in the document.
fn unreachable_target() -> (r: ValidationError)
    ensures
        r@ == referencing_fault("Unresolvable reference"@),
{
    ValidationError::new(
        ValidationErrorKind::Referencing { message: String::from_str("Unresolvable reference") },
        Location::new(),
        Location::new(),
        Location::new(),
        &Value::Null,
    )
}

/// A registry that grows keeps the targets that it has.
pub proof fn lemma_has_kept(earlier: &Registry, later: &Registry, t: Seq<Seg>)
    requires
        earlier.targets@.is_prefix_of(later.targets@),
        earlier.has(t),
    ensures
        later.has(t),
{
    let i = earlier.position(t);
    assert(earlier.first_at(t, i));
    assert(later.targets@[i] == earlier.targets@[i]);
    assert forall|j: int| 0 <= j < i implies (#[trigger] later.targets@[j]).pointer@ != t by {
        assert(later.targets@[j] == earlier.targets@[j]);
    }
    assert(later.first_at(t, i));
}

/// Whether a validator is built of the schema document: the document is
/// accepted, and every schema that its references lead to, one after the
/// other, is found and accepted.
pub open spec fn buildable(asked: Option<Draft>, schema: Json) -> bool {
    let draft = draft_for(asked, schema);
    let ctx = ContextView { document: schema, draft, location: Seq::empty() };
    accepted(ctx, schema) && settled(
        schema,
        draft,
        crate::found::found(ctx, schema),
        Seq::empty(),
        capped(crate::compiler::json_size(schema)),
    )
}

/// Whether `r` is what building a validator of the schema document gives,
/// read by the draft that was asked for or else by its own:
/// - a validator is built exactly of a document that is buildable;
/// - a validator is built only of a document that is accepted, and the
///   error of a document that is not is the first rule that it breaks;
/// - the error of an accepted document comes from a schema to which a
///   reference leads;
/// - of an accepted document without references a validator is built, and
///   its registry is empty; and so of one whose references lead to itself
///   alone;
/// - the validator holds the compiled document, and its registry holds
///   compiled schemas of the document.
pub open spec fn built(
    asked: Option<Draft>,
    schema: Json,
    r: Result<Validator, ValidationError>,
) -> bool {
    let draft = draft_for(asked, schema);
    let ctx = ContextView { document: schema, draft, location: Seq::empty() };
    &&& r is Ok <==> buildable(asked, schema)
    &&& r is Ok ==> accepted(ctx, schema)
    &&& !accepted(ctx, schema) ==> crate::refusal::fault(r) == crate::refusal::refusal(ctx, schema)
    &&& accepted(ctx, schema) ==> (r matches Err(e) ==> target_fault(schema, draft, e@))
    &&& reference_free(schema) && accepted(ctx, schema) ==> r is Ok
    &&& crate::shape::still(ctx, schema) && accepted(ctx, schema) ==> r is Ok
    &&& r matches Ok(validator) ==> {
        &&& validator.draft() == draft
        &&& compiled(ctx, schema, &validator.root())
        &&& describes(&validator.registry(), schema, draft)
        &&& closed(&validator.registry())
        &&& forall|t: Seq<Seg>| #[trigger]
            node_refers(&validator.root(), t) ==> validator.registry().has(t)
        &&& reference_free(schema) ==> validator.registry().targets@.len() == 0
        &&& crate::shape::still(ctx, schema) ==> validator.registry().targets@.len() == 0
    }
}

/// The options with which a validator is built where nothing else is asked
/// for.
pub fn options() -> (r: ValidationOptions)
    ensures
        r.asked_draft() is None,
        r.base() is None,
{
    ValidationOptions { draft: None, base_uri: None }
}

impl ValidationOptions {
    /// The draft that was asked for.
    pub closed spec fn asked_draft(&self) -> Option<Draft> {
        self.draft
    }

    /// The URI by which the schema document is known.
    pub closed spec fn base(&self) -> Option<Seq<char>> {
        match self.base_uri {
            Some(uri) => Some(uri@),
            None => None,
        }
    }

    /// Asks for a draft, whatever the schema document says of itself.
    pub fn with_draft(self, draft: Draft) -> (r: ValidationOptions)
        ensures
            r.asked_draft() == Some(draft),
            r.base() == self.base(),
    {
        ValidationOptions { draft: Some(draft), base_uri: self.base_uri }
    }

    /// Names the URI by which the schema document is known.
    pub fn with_base_uri(self, uri: String) -> (r: ValidationOptions)
        ensures
            r.base() == Some(uri@),
            r.asked_draft() == self.asked_draft(),
    {
        ValidationOptions { draft: self.draft, base_uri: Some(uri) }
    }

    /// The draft by which `schema` is read.
    pub fn draft_of(&self, schema: &Value) -> (r: Draft)
        ensures
            r == draft_for(self.asked_draft(), schema@),
    {
        match self.draft {
            Some(draft) => draft,
            None => match schema {
                Value::Object(map) => match map.get("$schema") {
                    Some(Value::String(uri)) => match draft_from_uri(uri.as_str()) {
                        Some(draft) => draft,
                        None => Draft::Draft202012,
                    },
                    _ => Draft::Draft202012,
                },
                _ => Draft::Draft202012,
            },
        }
    }

    /// Builds the validator of a schema document. The schema and every
    /// schema that its references lead to are compiled; an error of any of
    /// them is the error of the build.
    pub fn build(&self, schema: &Value) -> (r: Result<Validator, ValidationError>)
        ensures
            built(self.asked_draft(), schema@, r),
            r matches Ok(validator) ==> validator.base() == self.base(),
    {
        let draft = self.draft_of(schema);
        let ctx = Context::new(schema, draft);
        let mut pending: Vec<Location> = Vec::new();
        let root = compile(&ctx, schema, &mut pending)?;
        let registry = match resolve_targets(schema, draft, pending) {
            Ok(registry) => registry,
            Err(e) => {
                return Err(e);
            },
        };
        Ok(Validator { registry, root, draft, base_uri: self.base_uri.clone() })
    }
}

/// Builds the validator of a schema document, read by the draft that its
/// `$schema` names or else by the latest.
pub fn validator_for(schema: &Value) -> (r: Result<Validator, ValidationError>)
    ensures
        built(None, schema@, r),
        r matches Ok(validator) ==> validator.base() is None,
{
    options().build(schema)
}

impl Validator {
    #[verifier::type_invariant]
    spec fn well_formed(&self) -> bool {
        self.registry.wf() && node_wf(&self.root)
    }

    /// The schemas that the references of the document lead to.
    pub closed spec fn registry(&self) -> Registry {
        self.registry
    }

    /// The compiled schema.
    pub closed spec fn root(&self) -> SchemaNode {
        self.root
    }

    /// The draft by which the schema is read.
    pub closed spec fn draft(&self) -> Draft {
        self.draft
    }

    /// Whether `root` is the structured result of the schema on `instance`.
    pub open spec fn evaluated(&self, instance: Json, root: &crate::evaluation::EvaluationNode) -> bool {
        crate::outcome::node_result(
            &self.registry(),
            &self.root(),
            instance,
            Seq::empty(),
            None,
            MAX_DEPTH as nat,
            root,
        )
    }

    /// Whether `instance` satisfies the schema.
    pub open spec fn valid(&self, instance: Json) -> bool {
        node_valid(&self.registry(), &self.root(), instance, MAX_DEPTH as nat)
    }

    /// The errors of the schema on `instance`.
    pub open spec fn errors(&self, instance: Json) -> Seq<ErrorView> {
        node_errors(&self.registry(), &self.root(), instance, Seq::empty(), None, MAX_DEPTH as nat)
    }

    /// The URI by which the schema document is known.
    pub closed spec fn base(&self) -> Option<Seq<char>> {
        match self.base_uri {
            Some(uri) => Some(uri@),
            None => None,
        }
    }

    /// The URI by which the schema document is known.
    pub fn base_uri(&self) -> (r: Option<&String>)
        ensures
            r is Some <==> self.base() is Some,
            r matches Some(uri) ==> self.base() == Some(uri@),
    {
        self.base_uri.as_ref()
    }

    /// The draft by which the schema is read.
    pub fn get_draft(&self) -> (r: Draft)
        ensures
            r == self.draft(),
    {
        self.draft
    }

    /// Whether `instance` satisfies the schema.
    pub fn is_valid(&self, instance: &Value) -> (r: bool)
        ensures
            r == self.valid(instance@),
    {
        proof {
            use_type_invariant(self);
        }
        self.root.is_valid(&self.registry, instance, MAX_DEPTH)
    }

    /// The first error of the schema on `instance`, if there is one.
    pub fn validate(&self, instance: &Value) -> (r: Result<(), ValidationError>)
        ensures
            first_error(r, self.errors(instance@)),
    {
        proof {
            use_type_invariant(self);
        }
        self.root.validate(&self.registry, instance, &Location::new(), None, MAX_DEPTH)
    }

    /// Every error of the schema on `instance`, in the order in which the
    /// keywords are applied.
    pub fn iter_errors(&self, instance: &Value) -> (r: Vec<ValidationError>)
        ensures
            error_views(r@) == self.errors(instance@),
    {
        proof {
            use_type_invariant(self);
        }
        self.root.iter_errors(&self.registry, instance, &Location::new(), None, MAX_DEPTH)
    }
}

impl Validator {
    /// The structured result of the schema on `instance`. Its verdict is
    /// that of [`Validator::is_valid`].
    pub fn evaluate(&self, instance: &Value) -> (r: crate::evaluation::Evaluation)
        ensures
            r.root.valid == self.valid(instance@),
            self.evaluated(instance@, &r.root),
    {
        proof {
            use_type_invariant(self);
        }
        crate::evaluation::Evaluation {
            root: self.root.evaluate_instance(
                &self.registry,
                instance,
                &Location::new(),
                None,
                MAX_DEPTH,
            ),
        }
    }
}

} // verus!
