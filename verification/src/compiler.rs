//! Compiling a schema document into validators.
use vstd::prelude::*;
use crate::error::{ErrorView, KindView, TypeKind, ValidationError, ValidationErrorKind};
use crate::keywords::additional_properties::AdditionalPropertiesValidator;
use crate::keywords::boolean::FalseValidator;
use crate::keywords::combinators::{AllOfValidator, AnyOfValidator, OneOfValidator};
use crate::keywords::const_::ConstValidator;
use crate::keywords::items::nodes_wf;
use crate::keywords::min_length::MinLengthValidator;
use crate::keywords::properties::properties_wf;
use crate::keywords::type_::TypeValidator;
use crate::node::{
    CompilationResult, KeywordValidator, RefValidator, SchemaNode, kw_wf, same_location,
};
use crate::rules::{accepted, all_accepted, keyword_accepted, members_accepted, present};
use crate::shape::{compiled, members_compiled, nodes_compiled};
use crate::types::JsonType;
use crate::json::{
    Json, Number, ObjectMap, Value, lemma_obj_get_member, lemma_views, obj_get, obj_has, views,
};
use crate::paths::{
    Location, LocationSegment, Seg, index_like, digits_value, parse_index, pointer_tokens, split_pointer,
    string_views, unescape, unescape_segment,
};
use crate::text::{push_char, str_chars};
use crate::types::Draft;

verus! {

/// What the compiler knows at one point of a schema document: the document,
/// the draft it is read by, and where in the document the point lies.
#[derive(Debug)]
pub struct Context<'a> {
    pub document: &'a Value,
    pub draft: Draft,
    pub location: Location,
}

/// The model of a [`Context`].
pub struct ContextView {
    pub document: Json,
    pub draft: Draft,
    pub location: Seq<Seg>,
}

impl<'a> View for Context<'a> {
    type V = ContextView;

    open spec fn view(&self) -> ContextView {
        ContextView { document: self.document@, draft: self.draft, location: self.location@ }
    }
}

impl ContextView {
    /// The context one property further.
    pub open spec fn at(self, name: Seq<char>) -> ContextView {
        ContextView { location: self.location.push(Seg::Property(name)), ..self }
    }

    /// The context one array index further.
    pub open spec fn at_index(self, index: nat) -> ContextView {
        ContextView { location: self.location.push(Seg::Index(index)), ..self }
    }
}

/// How much there is of a value: one for the value itself, and what there is
/// of its items or members.
pub open spec fn json_size(v: Json) -> nat
    decreases v,
{
    match v {
        Json::Array(items) => 1 + items_size(items),
        Json::Object(entries) => 1 + members_size(entries),
        _ => 1,
    }
}

/// How much there is of the items together.
pub open spec fn items_size(items: Seq<Json>) -> nat
    decreases items,
{
    if items.len() == 0 {
        0
    } else {
        items_size(items.drop_last()) + json_size(items.last())
    }
}

/// How much there is of the members together.
pub open spec fn members_size(entries: Seq<(Seq<char>, Json)>) -> nat
    decreases entries,
{
    if entries.len() == 0 {
        0
    } else {
        members_size(entries.drop_last()) + json_size(entries.last().1)
    }
}

/// An item is smaller than the array that holds it.
pub proof fn lemma_item_smaller(items: Seq<Json>, i: int)
    requires
        0 <= i < items.len(),
    ensures
        json_size(items[i]) < json_size(Json::Array(items)),
    decreases items.len(),
{
    assert(items_size(items) == items_size(items.drop_last()) + json_size(items.last()));
    if i < items.len() - 1 {
        lemma_item_smaller(items.drop_last(), i);
        assert(items.drop_last()[i] == items[i]);
    }
}

/// The value of a member is smaller than the object that holds it.
pub proof fn lemma_member_smaller(entries: Seq<(Seq<char>, Json)>, i: int)
    requires
        0 <= i < entries.len(),
    ensures
        json_size(entries[i].1) < json_size(Json::Object(entries)),
    decreases entries.len(),
{
    assert(members_size(entries) == members_size(entries.drop_last()) + json_size(entries.last().1));
    if i < entries.len() - 1 {
        lemma_member_smaller(entries.drop_last(), i);
        assert(entries.drop_last()[i] == entries[i]);
    }
}

/// What a lookup by name finds is smaller than the object.
pub proof fn lemma_found_smaller(entries: Seq<(Seq<char>, Json)>, name: Seq<char>)
    requires
        obj_get(entries, name) is Some,
    ensures
        json_size(obj_get(entries, name)->0) < json_size(Json::Object(entries)),
{
    lemma_obj_get_member(entries, name);
    let i = choose|i: int|
        0 <= i < entries.len() && (#[trigger] entries[i]).0 == name && entries[i].1 == obj_get(
            entries,
            name,
        )->0;
    lemma_member_smaller(entries, i);
}

/// The step that one segment of a pointer, as written, takes from `parent`:
/// into an object by the name that the segment stands for, into an array by
/// the index that it writes.
pub open spec fn token_step(parent: Json, token: Seq<char>) -> Option<(Seg, Json)> {
    match parent {
        Json::Object(entries) => match obj_get(entries, unescape(token)) {
            Some(value) => Some((Seg::Property(unescape(token)), value)),
            None => None,
        },
        Json::Array(items) => if index_like(token) && digits_value(token) < items.len() {
            Some((Seg::Index(digits_value(token)), items[digits_value(token) as int]))
        } else {
            None
        },
        _ => None,
    }
}

/// Where the segments of a pointer, as written, lead from the root of the
/// document, and what lies there.
pub open spec fn resolve_tokens(document: Json, tokens: Seq<Seq<char>>) -> Option<(Seq<Seg>, Json)>
    decreases tokens.len(),
{
    if tokens.len() == 0 {
        Some((Seq::empty(), document))
    } else {
        match resolve_tokens(document, tokens.drop_last()) {
            Some((path, parent)) => match token_step(parent, tokens.last()) {
                Some((seg, value)) => Some((path.push(seg), value)),
                None => None,
            },
            None => None,
        }
    }
}

/// The pointer of a reference into the same document: what follows the `#`,
/// split into segments. `None` for a reference of any other form.
pub open spec fn reference_tokens(reference: Seq<char>) -> Option<Seq<Seq<char>>> {
    if reference.len() == 0 || reference[0] != '#' {
        None
    } else if reference.len() == 1 {
        Some(Seq::empty())
    } else if reference[1] == '/' {
        Some(pointer_tokens(reference.skip(1)))
    } else {
        None
    }
}

/// Where a reference leads in the document, and what lies there.
pub open spec fn resolve(document: Json, reference: Seq<char>) -> Option<(Seq<Seg>, Json)> {
    match reference_tokens(reference) {
        Some(tokens) => resolve_tokens(document, tokens),
        None => None,
    }
}

/// The error of a reference that leads nowhere in the document.
pub open spec fn dangling(location: Seq<Seg>, reference: Seq<char>) -> ErrorView {
    ErrorView {
        kind: KindView::Referencing { message: "Unresolvable reference: "@ + reference },
        instance: Json::String(reference),
        instance_path: Seq::empty(),
        schema_path: location,
        evaluation_path: location,
    }
}

/// Where the first `n` prefixes of a pointer lead nowhere, the pointer leads
/// nowhere.
proof fn lemma_resolve_prefix_none(document: Json, tokens: Seq<Seq<char>>, n: int)
    requires
        0 <= n <= tokens.len(),
        resolve_tokens(document, tokens.take(n)) is None,
    ensures
        resolve_tokens(document, tokens) is None,
    decreases tokens.len() - n,
{
    if n == tokens.len() {
        assert(tokens.take(n) =~= tokens);
    } else {
        assert(tokens.take(n + 1).drop_last() =~= tokens.take(n));
        lemma_resolve_prefix_none(document, tokens, n + 1);
    }
}

impl<'a> Context<'a> {
    /// The context at the root of a document.
    pub fn new(document: &'a Value, draft: Draft) -> (r: Context<'a>)
        ensures
            r@ == (ContextView { document: document@, draft, location: Seq::empty() }),
    {
        Context { document, draft, location: Location::new() }
    }

    /// The context one property further.
    pub fn new_at_location(&self, name: &str) -> (r: Context<'a>)
        ensures
            r@ == self@.at(name@),
    {
        Context { document: self.document, draft: self.draft, location: self.location.join(name) }
    }

    /// The context one array index further.
    pub fn new_at_index(&self, index: usize) -> (r: Context<'a>)
        ensures
            r@ == self@.at_index(index as nat),
    {
        Context {
            document: self.document,
            draft: self.draft,
            location: self.location.join_index(index),
        }
    }

    pub fn draft(&self) -> (r: Draft)
        ensures
            r == self@.draft,
    {
        self.draft
    }

    pub fn location(&self) -> (r: &Location)
        ensures
            r@ == self@.location,
    {
        &self.location
    }

    /// Follows a reference into the document: where it leads, and what lies
    /// there. A reference that is no pointer into this document, or that
    /// leads nowhere, is an error.
    pub fn lookup(&self, reference: &str) -> (r: Result<(Location, &'a Value), ValidationError>)
        ensures
            match r {
                Ok((location, value)) => resolve(self@.document, reference@) == Some(
                    (location@, value@),
                ),
                Err(e) => resolve(self@.document, reference@) is None && e@ == dangling(
                    self@.location,
                    reference@,
                ),
            },
    {
        let chars = str_chars(reference);
        let supported = chars.len() > 0 && chars[0] == '#' && (chars.len() == 1 || chars[1] == '/');
        if !supported {
            return Err(self.dangling_reference(reference));
        }
        let mut rest = String::new();
        let mut k: usize = 1;
        proof {
            assert(reference@.skip(1).take(0) =~= Seq::<char>::empty());
        }
        while k < chars.len()
            invariant
                1 <= k <= chars.len(),
                chars@ == reference@,
                rest@ == reference@.skip(1).take(k - 1),
            decreases chars.len() - k,
        {
            push_char(&mut rest, chars[k]);
            proof {
                assert(reference@.skip(1).take(k as int) =~= reference@.skip(1).take(k - 1).push(
                    chars@[k as int],
                ));
            }
            k += 1;
        }
        proof {
            assert(reference@.skip(1).take(chars@.len() - 1) =~= reference@.skip(1));
        }
        let tokens = if chars.len() == 1 {
            let empty: Vec<String> = Vec::new();
            proof {
                assert(string_views(empty@) =~= Seq::<Seq<char>>::empty());
            }
            empty
        } else {
            split_pointer(rest.as_str())
        };
        proof {
            assert(reference_tokens(reference@) == Some(string_views(tokens@)));
        }
        let ghost all = string_views(tokens@);
        let mut current: &'a Value = self.document;
        let mut location = Location::new();
        let mut i: usize = 0;
        proof {
            assert(all.take(0) =~= Seq::<Seq<char>>::empty());
        }
        while i < tokens.len()
            invariant
                i <= tokens.len(),
                all == string_views(tokens@),
                reference_tokens(reference@) == Some(all),
                resolve_tokens(self@.document, all.take(i as int)) == Some((location@, current@)),
            decreases tokens.len() - i,
        {
            let token = &tokens[i];
            proof {
                assert(all.take(i as int + 1).drop_last() =~= all.take(i as int));
                assert(all.take(i as int + 1).last() == token@);
            }
            let step: Option<(LocationSegment, &'a Value)> = match current {
                Value::Object(map) => {
                    let name = unescape_segment(token.as_str());
                    match map.get(name.as_str()) {
                        Some(value) => Some((LocationSegment::Property(name), value)),
                        None => {
                            assert(token_step(current@, token@) is None);
                            None
                        },
                    }
                },
                Value::Array(items) => {
                    proof {
                        crate::json::lemma_views(items@);
                    }
                    let count = items.len();
                    match parse_index(token.as_str()) {
                        Some(index) => if index < count {
                            Some((LocationSegment::Index(index), &items[index]))
                        } else {
                            assert(token_step(current@, token@) is None);
                            None
                        },
                        None => {
                            assert(token_step(current@, token@) is None);
                            None
                        },
                    }
                },
                _ => {
                    assert(token_step(current@, token@) is None);
                    None
                },
            };
            match step {
                Some((segment, value)) => {
                    assert(token_step(current@, token@) == Some((segment@, value@)));
                    location = location.push(segment);
                    current = value;
                },
                None => {
                    proof {
                        assert(token_step(current@, token@) is None);
                        lemma_resolve_prefix_none(self@.document, all, i as int + 1);
                    }
                    return Err(self.dangling_reference(reference));
                },
            }
            i += 1;
        }
        proof {
            assert(all.take(all.len() as int) =~= all);
        }
        Ok((location, current))
    }

    /// The error of a reference that cannot be followed.
    fn dangling_reference(&self, reference: &str) -> (r: ValidationError)
        ensures
            r@ == dangling(self@.location, reference@),
    {
        let mut message = String::from_str("Unresolvable reference: ");
        message.append(reference);
        ValidationError::new(
            ValidationErrorKind::Referencing { message },
            self.location.clone(),
            self.location.clone(),
            Location::new(),
            &Value::String(String::from_str(reference)),
        )
    }
}

/// The error of a schema in which `found` stands where a value of the type
/// `expected` must.
pub fn schema_type_error(location: &Location, found: &Value, expected: JsonType) -> (r:
    ValidationError)
    ensures
        r@ == crate::keywords::required::wrong_type(location@, found@, expected),
{
    ValidationError::single_type_error(
        location.clone(),
        location.clone(),
        Location::new(),
        found,
        expected,
    )
}

/// The error of a schema in which `found` breaks a rule of the given kind.
pub fn schema_error(kind: ValidationErrorKind, location: &Location, found: &Value) -> (r:
    ValidationError)
    ensures
        r@ == (ErrorView {
            kind: kind@,
            instance: found@,
            instance_path: Seq::empty(),
            schema_path: location@,
            evaluation_path: location@,
        }),
{
    ValidationError::new(kind, location.clone(), location.clone(), Location::new(), found)
}

/// Compiles each schema of a list, at its position under `ctx`.
pub fn compile_each(ctx: &Context, schemas: &Vec<Value>, refs: &mut Vec<Location>) -> (r: Result<
    Vec<SchemaNode>,
    ValidationError,
>)
    ensures
        r is Ok ==> crate::found::places(final(refs)@) == crate::found::places(old(refs)@) + crate::found::all_found(ctx@, views(schemas@), views(schemas@).len()),
        crate::refusal::fault(r) == crate::refusal::all_refusal(ctx@, views(schemas@)),
        crate::references::kept(old(refs)@, final(refs)@),
        r matches Ok(nodes) ==> crate::references::nodes_held(nodes@, final(refs)@),
        crate::rules::reference_free(Json::Array(views(schemas@))) ==> final(refs)@ == old(refs)@,
        r is Ok <==> all_accepted(ctx@, views(schemas@)),
        r matches Ok(nodes) ==> nodes_compiled(ctx@, views(schemas@), nodes@) && nodes_wf(nodes@),
    decreases json_size(Json::Array(views(schemas@))), 0nat,
{
    let mut nodes: Vec<SchemaNode> = Vec::with_capacity(schemas.len());
    let mut i: usize = 0;
    proof {
        lemma_views(schemas@);
    }
    while i < schemas.len()
        invariant
            i <= schemas.len(),
            nodes@.len() == i,
            views(schemas@).len() == schemas@.len(),
            forall|j: int| 0 <= j < schemas@.len() ==> (#[trigger] views(schemas@)[j]) == schemas@[j]@,
            forall|j: int|
                0 <= j < i ==> compiled(ctx@.at_index(j as nat), views(schemas@)[j], #[trigger] &nodes@[j]),
            forall|j: int|
                0 <= j < i ==> accepted(ctx@.at_index(j as nat), #[trigger] views(schemas@)[j]),
            crate::rules::reference_free(Json::Array(views(schemas@))) ==> refs@ == old(refs)@,
            crate::references::kept(old(refs)@, refs@),
            forall|j: int| 0 <= j < i ==> crate::references::node_held(#[trigger] &nodes@[j], refs@),
            crate::refusal::first_refused(ctx@, views(schemas@), 0) == crate::refusal::first_refused(
                ctx@,
                views(schemas@),
                i as nat,
            ),
            crate::found::places(refs@) == crate::found::places(old(refs)@) + crate::found::all_found(
                ctx@,
                views(schemas@),
                i as nat,
            ),
        decreases schemas.len() - i,
    {
        proof {
            let all = views(schemas@);
            assert(crate::found::all_found(ctx@, all, (i + 1) as nat) == crate::found::all_found(
                ctx@,
                all,
                i as nat,
            ) + crate::found::found(ctx@.at_index(i as nat), all[i as int]));
            assert(crate::refusal::first_refused(ctx@, all, i as nat) == if !accepted(
                ctx@.at_index(i as nat),
                all[i as int],
            ) {
                i as nat
            } else {
                crate::refusal::first_refused(ctx@, all, (i + 1) as nat)
            });
        }
        let ictx = ctx.new_at_index(i);
        proof {
            lemma_item_smaller(views(schemas@), i as int);
        }
        let node = match compile(&ictx, &schemas[i], refs) {
            Ok(node) => node,
            Err(e) => {
                proof {
                    assert(!accepted(ctx@.at_index(i as nat), views(schemas@)[i as int]));
                }
                return Err(e);
            },
        };
        let ghost before = nodes@;
        nodes.push(node);
        proof {
            assert forall|j: int| 0 <= j < i + 1 implies compiled(
                ctx@.at_index(j as nat),
                views(schemas@)[j],
                #[trigger] &nodes@[j],
            ) by {
                if j < i {
                    assert(nodes@[j] == before[j]);
                }
            }
        }
        i += 1;
    }
    proof {
        crate::references::lemma_nodes_held(nodes@, refs@);
    }
    Ok(nodes)
}

/// Compiles the schema of each member, at its name under `ctx`.
pub fn compile_members(ctx: &Context, map: &ObjectMap, refs: &mut Vec<Location>) -> (r: Result<
    Vec<(String, SchemaNode)>,
    ValidationError,
>)
    ensures
        r is Ok ==> crate::found::places(final(refs)@) == crate::found::places(old(refs)@) + crate::found::members_found(ctx@, map@, map@.len()),
        crate::refusal::fault(r) == crate::refusal::members_refusal(ctx@, map@),
        crate::references::kept(old(refs)@, final(refs)@),
        r matches Ok(properties) ==> crate::references::properties_held(properties@, final(refs)@),
        crate::rules::reference_free(Json::Object(map@)) ==> final(refs)@ == old(refs)@,
        r is Ok <==> members_accepted(ctx@, map@),
        r matches Ok(properties) ==> members_compiled(ctx@, map@, properties@) && properties_wf(
            properties@,
        ),
    decreases json_size(Json::Object(map@)), 0nat,
{
    let n = map.len();
    let mut properties: Vec<(String, SchemaNode)> = Vec::with_capacity(n);
    let mut i: usize = 0;
    while i < n
        invariant
            i <= n,
            n == map@.len(),
            properties@.len() == i,
            forall|j: int|
                0 <= j < i ==> (#[trigger] properties@[j]).0@ == map@[j].0 && compiled(
                    ctx@.at(map@[j].0),
                    map@[j].1,
                    &properties@[j].1,
                ),
            forall|j: int| 0 <= j < i ==> accepted(ctx@.at((#[trigger] map@[j]).0), map@[j].1),
            crate::rules::reference_free(Json::Object(map@)) ==> refs@ == old(refs)@,
            crate::references::kept(old(refs)@, refs@),
            forall|j: int|
                0 <= j < i ==> crate::references::node_held(&(#[trigger] properties@[j]).1, refs@),
            crate::refusal::first_refused_member(ctx@, map@, 0)
                == crate::refusal::first_refused_member(ctx@, map@, i as nat),
            crate::found::places(refs@) == crate::found::places(old(refs)@)
                + crate::found::members_found(ctx@, map@, i as nat),
        decreases n - i,
    {
        proof {
            assert(crate::found::members_found(ctx@, map@, (i + 1) as nat)
                == crate::found::members_found(ctx@, map@, i as nat) + crate::found::found(
                ctx@.at(map@[i as int].0),
                map@[i as int].1,
            ));
            assert(crate::refusal::first_refused_member(ctx@, map@, i as nat) == if !accepted(
                ctx@.at(map@[i as int].0),
                map@[i as int].1,
            ) {
                i as nat
            } else {
                crate::refusal::first_refused_member(ctx@, map@, (i + 1) as nat)
            });
        }
        let key = map.key_at(i);
        let subschema = map.value_at(i);
        let pctx = ctx.new_at_location(key.as_str());
        proof {
            lemma_member_smaller(map@, i as int);
        }
        let node = match compile(&pctx, subschema, refs) {
            Ok(node) => node,
            Err(e) => {
                proof {
                    assert(!accepted(ctx@.at(map@[i as int].0), map@[i as int].1));
                }
                return Err(e);
            },
        };
        let ghost before = properties@;
        properties.push((key.clone(), node));
        proof {
            assert forall|j: int| 0 <= j < i + 1 implies (#[trigger] properties@[j]).0@ == map@[j].0
                && compiled(ctx@.at(map@[j].0), map@[j].1, &properties@[j].1) by {
                if j < i {
                    assert(properties@[j] == before[j]);
                }
            }
        }
        i += 1;
    }
    proof {
        crate::references::lemma_properties_held(properties@, refs@);
    }
    Ok(properties)
}

/// The seven names that `type` may give.
fn type_names() -> (r: Value)
    ensures
        r@ == crate::refusal::known_types(),
{
    let mut names: Vec<Value> = Vec::new();
    names.push(Value::String(String::from_str("array")));
    names.push(Value::String(String::from_str("boolean")));
    names.push(Value::String(String::from_str("integer")));
    names.push(Value::String(String::from_str("null")));
    names.push(Value::String(String::from_str("number")));
    names.push(Value::String(String::from_str("object")));
    names.push(Value::String(String::from_str("string")));
    proof {
        lemma_views(names@);
        assert(views(names@) =~= crate::refusal::known_types()->Array_0);
    }
    Value::Array(names)
}

/// Compiles a `type` keyword: one name of a type, or a list of names that is
/// not empty.
pub fn compile_type(ctx: &Context, schema: &Value) -> (r: CompilationResult)
    ensures
        crate::refusal::fault(r) == crate::refusal::type_refusal(
            ctx@.location.push(Seg::Property("type"@)),
            schema@,
        ),
        r matches Ok(validator) ==> {
            &&& validator matches KeywordValidator::Type(v)
            &&& v.types@ == crate::shape::type_list(schema@)
            &&& v.strict == ctx@.draft.strict_integers()
            &&& v.location@ == ctx@.location.push(Seg::Property("type"@))
            &&& schema@ is String || schema@ is Array
        },
        r is Ok <==> match schema@ {
            Json::String(name) => JsonType::named(name) is Some,
            Json::Array(items) => items.len() > 0 && forall|i: int|
                0 <= i < items.len() ==> (#[trigger] items[i]) is String && JsonType::named(
                    items[i]->String_0,
                ) is Some,
            _ => false,
        },
{
    let location = ctx.location().join("type");
    let strict = ctx.draft().has_strict_integers();
    match schema {
        Value::String(name) => match JsonType::from_name(name.as_str()) {
            Some(ty) => {
                let mut types: Vec<JsonType> = Vec::new();
                types.push(ty);
                proof {
                    assert(types@ =~= crate::shape::type_list(schema@));
                }
                Ok(KeywordValidator::Type(TypeValidator { types, strict, location }))
            },
            None => Err(
                schema_error(ValidationErrorKind::Enum { options: type_names() }, &location, schema),
            ),
        },
        Value::Array(items) => {
            proof {
                lemma_views(items@);
            }
            if items.len() == 0 {
                return Err(schema_error(ValidationErrorKind::MinItems { limit: 1 }, &location, schema));
            }
            let ghost all = views(items@);
            let mut types: Vec<JsonType> = Vec::new();
            let mut i: usize = 0;
            while i < items.len()
                invariant
                    i <= items.len(),
                    all == views(items@),
                    schema@ == Json::Array(all),
                    all.len() == items@.len(),
                    forall|j: int| 0 <= j < items@.len() ==> (#[trigger] all[j]) == items@[j]@,
                    types@.len() == i,
                    forall|j: int|
                        0 <= j < i ==> (#[trigger] all[j]) is String && JsonType::named(all[j]->String_0)
                            == Some(types@[j]),
                    crate::refusal::first_unknown(all, 0) == crate::refusal::first_unknown(
                        all,
                        i as nat,
                    ),
                    location@ == ctx@.location.push(Seg::Property("type"@)),
                decreases items.len() - i,
            {
                proof {
                    assert(crate::refusal::first_unknown(all, i as nat) == if !crate::refusal::names_type(
                        all[i as int],
                    ) {
                        i as nat
                    } else {
                        crate::refusal::first_unknown(all, (i + 1) as nat)
                    });
                }
                match &items[i] {
                    Value::String(name) => match JsonType::from_name(name.as_str()) {
                        Some(ty) => types.push(ty),
                        None => {
                            proof {
                                assert(!(all[i as int] is String && JsonType::named(
                                    all[i as int]->String_0,
                                ) is Some));
                            }
                            return Err(
                                schema_error(
                                    ValidationErrorKind::Enum { options: type_names() },
                                    &location,
                                    &items[i],
                                ),
                            );
                        },
                    },
                    other => {
                        proof {
                            assert(!(all[i as int] is String));
                        }
                        return Err(schema_type_error(&location, other, JsonType::String));
                    },
                }
                i += 1;
            }
            proof {
                assert(types@ =~= crate::shape::type_list(schema@));
            }
            Ok(KeywordValidator::Type(TypeValidator { types, strict, location }))
        },
        _ => {
            let mut expected: Vec<JsonType> = Vec::new();
            expected.push(JsonType::String);
            expected.push(JsonType::Array);
            proof {
                assert(expected@ =~= seq![JsonType::String, JsonType::Array]);
            }
            Err(
                schema_error(
                    ValidationErrorKind::Type { kind: TypeKind::Multiple(expected) },
                    &location,
                    schema,
                ),
            )
        },
    }
}

/// Compiles an `enum` keyword: a list of values. Any other value is an
/// error of the schema.
pub fn compile_enum(ctx: &Context, schema: &Value) -> (r: CompilationResult)
    ensures
        match r {
            Ok(KeywordValidator::Enum(v)) => {
                &&& v.wf()
                &&& schema@ is Array
                &&& v.options@ == schema@
                &&& v.location@ == ctx@.location.push(Seg::Property("enum"@))
                &&& v.strings is Some <==> schema@->Array_0.len()
                    >= crate::keywords::enum_::ENUM_THRESHOLD
            },
            Ok(_) => false,
            Err(e) => !(schema@ is Array) && e@ == crate::keywords::required::wrong_type(
                ctx@.location.push(Seg::Property("enum"@)),
                schema@,
                JsonType::Array,
            ),
        },
{
    let location = ctx.location().join("enum");
    match schema {
        Value::Array(items) => {
            proof {
                lemma_views(items@);
            }
            Ok(
                KeywordValidator::Enum(
                    crate::keywords::enum_::EnumValidator::new(items, schema.clone(), location),
                ),
            )
        },
        _ => Err(schema_type_error(&location, schema, JsonType::Array)),
    }
}

/// Compiles a `const` keyword: any value.
pub fn compile_const(ctx: &Context, schema: &Value) -> (r: CompilationResult)
    ensures
        r matches Ok(KeywordValidator::Const(v)) && v.value@ == schema@ && v.location@
            == ctx@.location.push(Seg::Property("const"@)),
{
    Ok(
        KeywordValidator::Const(
            ConstValidator { value: schema.clone(), location: ctx.location().join("const") },
        ),
    )
}

/// Compiles a `minLength` keyword: an integer that is not negative.
pub fn compile_min_length(ctx: &Context, schema: &Value) -> (r: CompilationResult)
    ensures
        match r {
            Ok(KeywordValidator::MinLength(v)) => schema@ == Json::Number(
                crate::json::Num::PosInt(v.limit),
            ) && v.location@ == ctx@.location.push(Seg::Property("minLength"@)),
            Ok(_) => false,
            Err(e) => !(schema@ is Number && schema@->Number_0 is PosInt) && e@
                == crate::keywords::required::wrong_type(
                ctx@.location.push(Seg::Property("minLength"@)),
                schema@,
                JsonType::Integer,
            ),
        },
{
    let location = ctx.location().join("minLength");
    match schema {
        Value::Number(Number::PosInt(limit)) => Ok(
            KeywordValidator::MinLength(MinLengthValidator { limit: *limit, location }),
        ),
        _ => Err(schema_type_error(&location, schema, JsonType::Integer)),
    }
}

/// Compiles a keyword that bounds a count: a whole number that is not
/// negative. Any other value is an error of the schema.
pub fn compile_limit(ctx: &Context, rule: crate::keywords::limits::Limit, schema: &Value) -> (r:
    CompilationResult)
    ensures
        match r {
            Ok(KeywordValidator::Limit(v)) => v.rule == rule && schema@ == Json::Number(
                crate::json::Num::PosInt(v.limit),
            ) && v.location@ == ctx@.location.push(Seg::Property(rule.name())),
            Ok(_) => false,
            Err(e) => !(schema@ is Number && schema@->Number_0 is PosInt) && e@
                == crate::keywords::required::wrong_type(
                ctx@.location.push(Seg::Property(rule.name())),
                schema@,
                JsonType::Integer,
            ),
        },
{
    let location = ctx.location().join(rule.as_str());
    match schema {
        Value::Number(Number::PosInt(limit)) => Ok(
            KeywordValidator::Limit(
                crate::keywords::limits::LimitValidator { rule, limit: *limit, location },
            ),
        ),
        _ => Err(schema_type_error(&location, schema, JsonType::Integer)),
    }
}

/// Compiles a `uniqueItems` keyword: `true` or `false`. The value `false`
/// asks nothing, and gives no validator; any other value than these two is
/// an error of the schema.
pub fn compile_unique_items(ctx: &Context, schema: &Value) -> (r: Option<CompilationResult>)
    ensures
        r is None <==> schema@ == Json::Bool(false),
        match r {
            Some(Ok(KeywordValidator::UniqueItems(v))) => schema@ == Json::Bool(true) && v.location@
                == ctx@.location.push(Seg::Property("uniqueItems"@)),
            Some(Ok(_)) => false,
            Some(Err(e)) => !(schema@ is Bool) && e@ == crate::keywords::required::wrong_type(
                ctx@.location.push(Seg::Property("uniqueItems"@)),
                schema@,
                JsonType::Boolean,
            ),
            None => true,
        },
{
    let location = ctx.location().join("uniqueItems");
    match schema {
        Value::Bool(true) => Some(
            Ok(
                KeywordValidator::UniqueItems(
                    crate::keywords::unique_items::UniqueItemsValidator { location },
                ),
            ),
        ),
        Value::Bool(false) => None,
        _ => Some(Err(schema_type_error(&location, schema, JsonType::Boolean))),
    }
}

/// Compiles the list of schemas of `allOf`, `anyOf` or `oneOf`.
fn compile_branches(ctx: &Context, keyword: &str, schema: &Value, refs: &mut Vec<Location>) -> (r:
    Result<Vec<SchemaNode>, ValidationError>)
    ensures
        r is Ok ==> crate::found::places(final(refs)@) == crate::found::places(old(refs)@) + crate::found::list_found(ctx@, keyword@, schema@),
        crate::refusal::fault(r) == crate::refusal::list_refusal(ctx@, keyword@, schema@),
        crate::references::kept(old(refs)@, final(refs)@),
        r matches Ok(nodes) ==> crate::references::nodes_held(nodes@, final(refs)@),
        crate::rules::reference_free(schema@) ==> final(refs)@ == old(refs)@,
        r matches Ok(nodes) ==> nodes_wf(nodes@) && schema@ is Array && nodes_compiled(
            ctx@.at(keyword@),
            schema@->Array_0,
            nodes@,
        ),
        r is Ok <==> schema@ is Array && all_accepted(ctx@.at(keyword@), schema@->Array_0),
    decreases json_size(schema@), 1nat,
{
    let kctx = ctx.new_at_location(keyword);
    match schema {
        Value::Array(items) => compile_each(&kctx, items, refs),
        _ => Err(schema_type_error(kctx.location(), schema, JsonType::Array)),
    }
}

/// Compiles a `$ref` keyword: a pointer into the same document. A reference
/// to the schema in which it stands asks nothing, and gives no validator.
pub fn compile_ref(ctx: &Context, schema: &Value, refs: &mut Vec<Location>) -> (r: Option<
    CompilationResult,
>)
    ensures
        !(r matches Some(Err(_))) ==> crate::found::places(final(refs)@) == crate::found::places(old(refs)@) + crate::found::ref_found(ctx@, schema@),
        r is None ==> final(refs)@ == old(refs)@,
        crate::refusal::keyword_fault(r) == match schema@ {
            Json::String(reference) => if resolve(ctx@.document, reference) is None {
                Some(dangling(ctx@.location, reference))
            } else {
                None
            },
            _ => Some(
                crate::keywords::required::wrong_type(
                    ctx@.location.push(Seg::Property("$ref"@)),
                    schema@,
                    JsonType::String,
                ),
            ),
        },
        crate::references::kept(old(refs)@, final(refs)@),
        r matches Some(Ok(validator)) ==> crate::references::kw_held(&validator, final(refs)@),
        r is None <==> schema@ is String && (resolve(ctx@.document, schema@->String_0) matches Some(
            (target, _),
        ) && target == ctx@.location),
        r matches Some(Ok(validator)) ==> {
            &&& validator matches KeywordValidator::Ref(v)
            &&& schema@ is String
            &&& resolve(ctx@.document, schema@->String_0) matches Some((target, _)) && v.target@
                == target
            &&& v.location@ == ctx@.location.push(Seg::Property("$ref"@))
        },
        r matches Some(Err(_)) <==> !(schema@ is String && resolve(
            ctx@.document,
            schema@->String_0,
        ) is Some),
{
    let location = ctx.location().join("$ref");
    match schema {
        Value::String(reference) => match ctx.lookup(reference.as_str()) {
            Ok((target, _)) => {
                if same_location(&target, ctx.location()) {
                    None
                } else {
                    let copy = target.clone();
                    let ghost before = refs@;
                    let ghost pushed = copy;
                    refs.push(copy);
                    proof {
                        crate::references::lemma_spots_push(before, pushed);
                        assert(crate::found::places(refs@) =~= crate::found::places(before).push(
                            pushed@,
                        ));
                    }
                    Some(Ok(KeywordValidator::Ref(RefValidator { target, location })))
                }
            },
            Err(e) => Some(Err(e)),
        },
        _ => Some(Err(schema_type_error(&location, schema, JsonType::String))),
    }
}

/// The one name that `required` lists, where the validator of
/// `additionalProperties` checks it: the schema admits no other member, has
/// `properties` and no `patternProperties`, and requires one member.
pub open spec fn fused_required(parent: Seq<(Seq<char>, Json)>) -> bool {
    &&& obj_get(parent, "additionalProperties"@) == Some(Json::Bool(false))
    &&& obj_has(parent, "properties"@)
    &&& !obj_has(parent, "patternProperties"@)
    &&& obj_get(parent, "required"@) matches Some(Json::Array(items)) && items.len() == 1
}

/// Whether the validator of `additionalProperties` checks `required` too.
pub fn has_fused_required(parent: &ObjectMap) -> (r: bool)
    ensures
        r == fused_required(parent@),
{
    let admits_none = match parent.get("additionalProperties") {
        Some(Value::Bool(false)) => true,
        _ => false,
    };
    let one_required = match parent.get("required") {
        Some(Value::Array(items)) => {
            proof {
                lemma_views(items@);
            }
            items.len() == 1
        },
        _ => false,
    };
    admits_none && parent.contains_key("properties") && !parent.contains_key("patternProperties")
        && one_required
}

/// Compiles an `additionalProperties` keyword, which is `false` or a
/// schema, together with the `properties` beside it. The value `true` asks
/// nothing, and gives no validator.
pub fn compile_additional_properties(
    ctx: &Context,
    parent: &ObjectMap,
    schema: &Value,
    refs: &mut Vec<Location>,
) -> (r: Option<CompilationResult>)
    requires
        obj_get(parent@, "additionalProperties"@) == Some(schema@),
    ensures
        !(r matches Some(Err(_))) ==> crate::found::places(final(refs)@) == crate::found::places(old(refs)@) + crate::found::keyword_found(ctx@, parent@, Keyword::AdditionalProperties),
        r is None ==> final(refs)@ == old(refs)@,
        crate::refusal::keyword_fault(r) == crate::refusal::keyword_refusal(ctx@, parent@, Keyword::AdditionalProperties),
        crate::references::kept(old(refs)@, final(refs)@),
        r matches Some(Ok(validator)) ==> crate::references::kw_held(&validator, final(refs)@),
        crate::rules::reference_free(Json::Object(parent@)) ==> final(refs)@ == old(refs)@,
        r matches Some(Ok(validator)) ==> kw_wf(&validator) && crate::shape::keyword_compiled(
            ctx@,
            parent@,
            Keyword::AdditionalProperties,
            &validator,
        ),
        r is None <==> schema@ == Json::Bool(true),
        r matches Some(Err(_)) <==> !keyword_accepted(ctx@, parent@, Keyword::AdditionalProperties),
    decreases json_size(Json::Object(parent@)), 2nat,
{
    proof {
        crate::rules::lemma_members_reference_free(parent@);
    }
    let location = ctx.location().join("additionalProperties");
    proof {
        assert(Keyword::AdditionalProperties.name() == "additionalProperties"@);
    }
    proof {
        lemma_found_smaller(parent@, "additionalProperties"@);
    }
    let additional = match schema {
        Value::Bool(true) => {
            return None;
        },
        Value::Bool(false) => None,
        Value::Object(_) => {
            let actx = ctx.new_at_location("additionalProperties");
            match compile(&actx, schema, refs) {
                Ok(node) => Some(node),
                Err(e) => {
                    return Some(Err(e));
                },
            }
        },
        _ => {
            let mut expected: Vec<JsonType> = Vec::new();
            expected.push(JsonType::Boolean);
            expected.push(JsonType::Object);
            proof {
                assert(expected@ =~= seq![JsonType::Boolean, JsonType::Object]);
            }
            return Some(
                Err(
                    schema_error(
                        ValidationErrorKind::Type { kind: TypeKind::Multiple(expected) },
                        &location,
                        schema,
                    ),
                ),
            );
        },
    };
    let properties = match parent.get("properties") {
        Some(Value::Object(map)) => {
            let pctx = ctx.new_at_location("properties");
            proof {
                lemma_found_smaller(parent@, "properties"@);
            }
            match compile_members(&pctx, map, refs) {
                Ok(properties) => properties,
                Err(e) => {
                    return Some(Err(e));
                },
            }
        },
        Some(other) => {
            return Some(
                Err(schema_type_error(ctx.new_at_location("properties").location(), other, JsonType::Object)),
            );
        },
        None => {
            let none: Vec<(String, SchemaNode)> = Vec::new();
            none
        },
    };
    proof {
        assert(additional matches Some(node) ==> crate::references::node_held(&node, refs@));
        assert(crate::references::properties_held(properties@, refs@));
    }
    let required_location = ctx.location().join("required");
    let required = if has_fused_required(parent) {
        match parent.get("required") {
            Some(Value::Array(items)) => {
                proof {
                    lemma_views(items@);
                }
                match &items[0] {
                    Value::String(name) => Some(name.clone()),
                    other => {
                        return Some(Err(schema_type_error(&required_location, other, JsonType::String)));
                    },
                }
            },
            _ => None,
        }
    } else {
        None
    };
    let validator = AdditionalPropertiesValidator {
        properties,
        additional,
        required,
        location,
        required_location,
    };
    proof {
        assert(properties_wf(validator.properties@));
        assert(crate::shape::properties_under(ctx@, parent@, validator.properties@));
        assert forall|t: Seq<Seg>| #[trigger]
            crate::references::kw_refers(
                &KeywordValidator::AdditionalProperties(validator),
                t,
            ) implies crate::references::spots(refs@).contains(t) by {
            if crate::references::properties_refer(validator.properties@, t) {
            } else {
                assert(crate::references::node_refers(&validator.additional->0, t));
            }
        }
    }
    Some(Ok(KeywordValidator::AdditionalProperties(validator)))
}

/// The keywords that the compiler knows, in the order in which their
/// validators are applied.
#[derive(Clone, Copy, PartialEq, Eq, Structural)]
pub enum Keyword {
    Type,
    Const,
    Enum,
    MinLength,
    MaxLength,
    MinItems,
    MaxItems,
    UniqueItems,
    MinProperties,
    MaxProperties,
    Required,
    DependentRequired,
    Properties,
    AdditionalProperties,
    PropertyNames,
    DependentSchemas,
    Items,
    PrefixItems,
    Contains,
    AllOf,
    AnyOf,
    OneOf,
    Not,
    If,
    Ref,
    UnevaluatedProperties,
}

/// How many keywords the compiler knows.
pub const KEYWORD_COUNT: usize = 26;

/// The keyword at a position of the order.
pub open spec fn keyword_order(position: nat) -> Keyword {
    if position == 0 {
        Keyword::Type
    } else if position == 1 {
        Keyword::Const
    } else if position == 2 {
        Keyword::Enum
    } else if position == 3 {
        Keyword::MinLength
    } else if position == 4 {
        Keyword::MaxLength
    } else if position == 5 {
        Keyword::MinItems
    } else if position == 6 {
        Keyword::MaxItems
    } else if position == 7 {
        Keyword::UniqueItems
    } else if position == 8 {
        Keyword::MinProperties
    } else if position == 9 {
        Keyword::MaxProperties
    } else if position == 10 {
        Keyword::Required
    } else if position == 11 {
        Keyword::DependentRequired
    } else if position == 12 {
        Keyword::Properties
    } else if position == 13 {
        Keyword::AdditionalProperties
    } else if position == 14 {
        Keyword::PropertyNames
    } else if position == 15 {
        Keyword::DependentSchemas
    } else if position == 16 {
        Keyword::Items
    } else if position == 17 {
        Keyword::PrefixItems
    } else if position == 18 {
        Keyword::Contains
    } else if position == 19 {
        Keyword::AllOf
    } else if position == 20 {
        Keyword::AnyOf
    } else if position == 21 {
        Keyword::OneOf
    } else if position == 22 {
        Keyword::Not
    } else if position == 23 {
        Keyword::If
    } else if position == 24 {
        Keyword::Ref
    } else {
        Keyword::UnevaluatedProperties
    }
}

impl Keyword {
    /// The name of the keyword in a schema.
    pub open spec fn name(self) -> Seq<char> {
        match self {
            Keyword::Type => "type"@,
            Keyword::Const => "const"@,
            Keyword::Enum => "enum"@,
            Keyword::MinLength => "minLength"@,
            Keyword::MaxLength => "maxLength"@,
            Keyword::MinItems => "minItems"@,
            Keyword::MaxItems => "maxItems"@,
            Keyword::MinProperties => "minProperties"@,
            Keyword::MaxProperties => "maxProperties"@,
            Keyword::Required => "required"@,
            Keyword::Properties => "properties"@,
            Keyword::AdditionalProperties => "additionalProperties"@,
            Keyword::Items => "items"@,
            Keyword::PrefixItems => "prefixItems"@,
            Keyword::AllOf => "allOf"@,
            Keyword::AnyOf => "anyOf"@,
            Keyword::OneOf => "oneOf"@,
            Keyword::Not => "not"@,
            Keyword::DependentRequired => "dependentRequired"@,
            Keyword::PropertyNames => "propertyNames"@,
            Keyword::Contains => "contains"@,
            Keyword::UniqueItems => "uniqueItems"@,
            Keyword::DependentSchemas => "dependentSchemas"@,
            Keyword::If => "if"@,
            Keyword::Ref => "$ref"@,
            Keyword::UnevaluatedProperties => "unevaluatedProperties"@,
        }
    }

    /// The keyword at a position of the order.
    pub fn at(position: usize) -> (r: Keyword)
        ensures
            r == keyword_order(position as nat),
    {
        if position == 0 {
            Keyword::Type
        } else if position == 1 {
            Keyword::Const
        } else if position == 2 {
            Keyword::Enum
        } else if position == 3 {
            Keyword::MinLength
        } else if position == 4 {
            Keyword::MaxLength
        } else if position == 5 {
            Keyword::MinItems
        } else if position == 6 {
            Keyword::MaxItems
        } else if position == 7 {
            Keyword::UniqueItems
        } else if position == 8 {
            Keyword::MinProperties
        } else if position == 9 {
            Keyword::MaxProperties
        } else if position == 10 {
            Keyword::Required
        } else if position == 11 {
            Keyword::DependentRequired
        } else if position == 12 {
            Keyword::Properties
        } else if position == 13 {
            Keyword::AdditionalProperties
        } else if position == 14 {
            Keyword::PropertyNames
        } else if position == 15 {
            Keyword::DependentSchemas
        } else if position == 16 {
            Keyword::Items
        } else if position == 17 {
            Keyword::PrefixItems
        } else if position == 18 {
            Keyword::Contains
        } else if position == 19 {
            Keyword::AllOf
        } else if position == 20 {
            Keyword::AnyOf
        } else if position == 21 {
            Keyword::OneOf
        } else if position == 22 {
            Keyword::Not
        } else if position == 23 {
            Keyword::If
        } else if position == 24 {
            Keyword::Ref
        } else {
            Keyword::UnevaluatedProperties
        }
    }

    pub fn as_str(self) -> (r: &'static str)
        ensures
            r@ == self.name(),
    {
        match self {
            Keyword::Type => "type",
            Keyword::Const => "const",
            Keyword::Enum => "enum",
            Keyword::MinLength => "minLength",
            Keyword::MaxLength => "maxLength",
            Keyword::MinItems => "minItems",
            Keyword::MaxItems => "maxItems",
            Keyword::MinProperties => "minProperties",
            Keyword::MaxProperties => "maxProperties",
            Keyword::Required => "required",
            Keyword::Properties => "properties",
            Keyword::AdditionalProperties => "additionalProperties",
            Keyword::Items => "items",
            Keyword::PrefixItems => "prefixItems",
            Keyword::AllOf => "allOf",
            Keyword::AnyOf => "anyOf",
            Keyword::OneOf => "oneOf",
            Keyword::Not => "not",
            Keyword::DependentRequired => "dependentRequired",
            Keyword::PropertyNames => "propertyNames",
            Keyword::Contains => "contains",
            Keyword::UniqueItems => "uniqueItems",
            Keyword::DependentSchemas => "dependentSchemas",
            Keyword::If => "if",
            Keyword::Ref => "$ref",
            Keyword::UnevaluatedProperties => "unevaluatedProperties",
        }
    }

    /// The count that the keyword bounds, where it bounds one from above or
    /// counts items or members.
    pub open spec fn limit(self) -> Option<crate::keywords::limits::Limit> {
        match self {
            Keyword::MaxLength => Some(crate::keywords::limits::Limit::MaxLength),
            Keyword::MinItems => Some(crate::keywords::limits::Limit::MinItems),
            Keyword::MaxItems => Some(crate::keywords::limits::Limit::MaxItems),
            Keyword::MinProperties => Some(crate::keywords::limits::Limit::MinProperties),
            Keyword::MaxProperties => Some(crate::keywords::limits::Limit::MaxProperties),
            _ => None,
        }
    }

    /// Whether the keyword holds no schema and follows no reference: it asks
    /// something of the instance by itself.
    pub open spec fn leaf(self) -> bool {
        self == Keyword::Type || self == Keyword::Const || self == Keyword::Enum || self
            == Keyword::MinLength || self == Keyword::Required || self == Keyword::UniqueItems
            || self == Keyword::DependentRequired
            || self.limit() is Some
    }

    /// Whether the draft knows the keyword.
    pub open spec fn known_to(self, draft: Draft) -> bool {
        match self {
            Keyword::UnevaluatedProperties => draft == Draft::Draft201909 || draft
                == Draft::Draft202012,
            Keyword::PrefixItems => draft == Draft::Draft202012,
            Keyword::Const => draft != Draft::Draft4,
            Keyword::DependentRequired => draft == Draft::Draft201909 || draft == Draft::Draft202012,
            Keyword::PropertyNames => draft != Draft::Draft4,
            Keyword::Contains => draft != Draft::Draft4,
            Keyword::DependentSchemas => draft == Draft::Draft201909 || draft == Draft::Draft202012,
            Keyword::If => draft != Draft::Draft4 && draft != Draft::Draft6,
            _ => true,
        }
    }

    pub fn is_known_to(self, draft: Draft) -> (r: bool)
        ensures
            r == self.known_to(draft),
    {
        match self {
            Keyword::UnevaluatedProperties => draft == Draft::Draft201909 || draft
                == Draft::Draft202012,
            Keyword::PrefixItems => draft == Draft::Draft202012,
            Keyword::Const => draft != Draft::Draft4,
            Keyword::DependentRequired => draft == Draft::Draft201909 || draft == Draft::Draft202012,
            Keyword::PropertyNames => draft != Draft::Draft4,
            Keyword::Contains => draft != Draft::Draft4,
            Keyword::DependentSchemas => draft == Draft::Draft201909 || draft == Draft::Draft202012,
            Keyword::If => draft != Draft::Draft4 && draft != Draft::Draft6,
            _ => true,
        }
    }
}

/// The name of the keyword at a position of the list of keywords that the
/// library does not enforce.
fn unenforced_name(position: usize) -> (r: &'static str)
    ensures
        r@ == crate::rules::unenforced(position as nat),
{
    if position == 0 {
        "pattern"
    } else if position == 1 {
        "minimum"
    } else if position == 2 {
        "maximum"
    } else if position == 3 {
        "exclusiveMinimum"
    } else if position == 4 {
        "exclusiveMaximum"
    } else if position == 5 {
        "multipleOf"
    } else if position == 6 {
        "patternProperties"
    } else if position == 7 {
        "format"
    } else if position == 8 {
        "dependencies"
    } else if position == 9 {
        "additionalItems"
    } else if position == 10 {
        "unevaluatedItems"
    } else if position == 11 {
        "$recursiveRef"
    } else {
        "$dynamicRef"
    }
}

/// Whether the draft knows the keyword at that position of the list.
fn unenforced_is_known(position: usize, draft: Draft) -> (r: bool)
    ensures
        r == crate::rules::unenforced_known(position as nat, draft),
{
    if position <= 6 {
        true
    } else if position <= 8 {
        draft == Draft::Draft4 || draft == Draft::Draft6 || draft == Draft::Draft7
    } else if position == 9 {
        draft != Draft::Draft202012
    } else if position == 10 {
        draft == Draft::Draft201909 || draft == Draft::Draft202012
    } else if position == 11 {
        draft == Draft::Draft201909
    } else {
        draft == Draft::Draft202012
    }
}

/// The first keyword of the schema that the library does not enforce, by
/// its position in the list of those keywords.
fn find_unenforced(parent: &ObjectMap, draft: Draft) -> (r: Option<usize>)
    ensures
        match r {
            Some(position) => position < crate::rules::UNENFORCED_COUNT
                && crate::rules::first_unenforced(draft, parent@, 0) == position && obj_has(
                parent@,
                crate::rules::unenforced(position as nat),
            ),
            None => crate::rules::first_unenforced(draft, parent@, 0)
                >= crate::rules::UNENFORCED_COUNT,
        },
{
    let mut position: usize = 0;
    while position < crate::rules::UNENFORCED_COUNT
        invariant
            position <= crate::rules::UNENFORCED_COUNT,
            crate::rules::first_unenforced(draft, parent@, 0) == crate::rules::first_unenforced(
                draft,
                parent@,
                position as nat,
            ),
        decreases crate::rules::UNENFORCED_COUNT - position,
    {
        proof {
            assert(crate::rules::first_unenforced(draft, parent@, position as nat)
                == if crate::rules::unenforced_known(position as nat, draft) && obj_has(
                parent@,
                crate::rules::unenforced(position as nat),
            ) {
                position as nat
            } else {
                crate::rules::first_unenforced(draft, parent@, (position + 1) as nat)
            });
        }
        if unenforced_is_known(position, draft) && parent.contains_key(unenforced_name(position)) {
            return Some(position);
        }
        position += 1;
    }
    None
}

/// Compiles one keyword of a schema. `None` where the keyword gives no
/// validator of its own.
pub fn compile_keyword(
    ctx: &Context,
    parent: &ObjectMap,
    keyword: Keyword,
    schema: &Value,
    refs: &mut Vec<Location>,
) -> (r: Option<CompilationResult>)
    requires
        obj_get(parent@, keyword.name()) == Some(schema@),
    ensures
        !(r matches Some(Err(_))) ==> crate::found::places(final(refs)@) == crate::found::places(old(refs)@) + crate::found::keyword_found(ctx@, parent@, keyword),
        r is None ==> final(refs)@ == old(refs)@,
        crate::refusal::keyword_fault(r) == crate::refusal::keyword_refusal(ctx@, parent@, keyword),
        crate::references::kept(old(refs)@, final(refs)@),
        r matches Some(Ok(validator)) ==> crate::references::kw_held(&validator, final(refs)@),
        crate::rules::reference_free(Json::Object(parent@)) ==> final(refs)@ == old(refs)@,
        r is None <==> !crate::shape::gives(ctx@, parent@, keyword),
        keyword.leaf() ==> final(refs)@ == old(refs)@,
        r matches Some(Err(_)) <==> !keyword_accepted(ctx@, parent@, keyword),
        r matches Some(Ok(validator)) ==> kw_wf(&validator) && crate::shape::keyword_compiled(
            ctx@,
            parent@,
            keyword,
            &validator,
        ),
    decreases json_size(Json::Object(parent@)), 5nat,
{
    proof {
        crate::rules::lemma_members_reference_free(parent@);
    }
    proof {
        lemma_found_smaller(parent@, keyword.name());
    }
    match keyword {
        Keyword::Type => Some(compile_type(ctx, schema)),
        Keyword::Const => Some(compile_const(ctx, schema)),
        Keyword::Enum => Some(compile_enum(ctx, schema)),
        Keyword::MinLength => Some(compile_min_length(ctx, schema)),
        Keyword::MaxLength => Some(compile_limit(ctx, crate::keywords::limits::Limit::MaxLength, schema)),
        Keyword::MinItems => Some(compile_limit(ctx, crate::keywords::limits::Limit::MinItems, schema)),
        Keyword::MaxItems => Some(compile_limit(ctx, crate::keywords::limits::Limit::MaxItems, schema)),
        Keyword::MinProperties => Some(compile_limit(ctx, crate::keywords::limits::Limit::MinProperties, schema)),
        Keyword::MaxProperties => Some(compile_limit(ctx, crate::keywords::limits::Limit::MaxProperties, schema)),
        Keyword::Required => crate::keywords::required::compile(ctx, parent, schema),
        Keyword::Properties => crate::keywords::properties::compile(ctx, parent, schema, refs),
        Keyword::AdditionalProperties => compile_additional_properties(ctx, parent, schema, refs),
        Keyword::Items => crate::keywords::items::compile(ctx, parent, schema, refs),
        Keyword::PrefixItems => crate::keywords::prefix_items::compile(ctx, parent, schema, refs),
        Keyword::AllOf => match compile_branches(ctx, "allOf", schema, refs) {
            Ok(schemas) => {
                let validator = KeywordValidator::AllOf(AllOfValidator { schemas });
                proof {
                    assert forall|t: Seq<Seg>| #[trigger]
                        crate::references::kw_refers(
                            &validator,
                            t,
                        ) implies crate::references::spots(refs@).contains(t) by {
                        assert(crate::references::nodes_refer(schemas@, t));
                    }
                }
                Some(Ok(validator))
            },
            Err(e) => Some(Err(e)),
        },
        Keyword::AnyOf => match compile_branches(ctx, "anyOf", schema, refs) {
            Ok(schemas) => {
                let location = ctx.location().join("anyOf");
                let validator = KeywordValidator::AnyOf(AnyOfValidator { schemas, location });
                proof {
                    assert forall|t: Seq<Seg>| #[trigger]
                        crate::references::kw_refers(
                            &validator,
                            t,
                        ) implies crate::references::spots(refs@).contains(t) by {
                        assert(crate::references::nodes_refer(schemas@, t));
                    }
                }
                Some(Ok(validator))
            },
            Err(e) => Some(Err(e)),
        },
        Keyword::OneOf => match compile_branches(ctx, "oneOf", schema, refs) {
            Ok(schemas) => {
                let location = ctx.location().join("oneOf");
                let validator = KeywordValidator::OneOf(OneOfValidator { schemas, location });
                proof {
                    assert forall|t: Seq<Seg>| #[trigger]
                        crate::references::kw_refers(
                            &validator,
                            t,
                        ) implies crate::references::spots(refs@).contains(t) by {
                        assert(crate::references::nodes_refer(schemas@, t));
                    }
                }
                Some(Ok(validator))
            },
            Err(e) => Some(Err(e)),
        },
        Keyword::Not => Some(crate::keywords::not_::NotValidator::compile(ctx, schema, refs)),
        Keyword::If => Some(crate::keywords::conditional::IfValidator::compile(ctx, parent, schema, refs)),
        Keyword::DependentSchemas => Some(
            crate::keywords::dependent::DependentSchemasValidator::compile(ctx, schema, refs),
        ),
        Keyword::UniqueItems => compile_unique_items(ctx, schema),
        Keyword::Contains => Some(
            crate::keywords::contains::ContainsValidator::compile(ctx, parent, schema, refs),
        ),
        Keyword::PropertyNames => Some(
            crate::keywords::property_names::PropertyNamesValidator::compile(ctx, schema, refs),
        ),
        Keyword::DependentRequired => Some(
            crate::keywords::dependent_required::DependentRequiredValidator::compile(ctx, schema),
        ),
        Keyword::Ref => compile_ref(ctx, schema, refs),
        Keyword::UnevaluatedProperties => crate::keywords::unevaluated_properties::compile(
            ctx,
            parent,
            schema,
            refs,
        ),
    }
}

/// Compiles a schema: `true`, `false`, or an object of keywords. An object
/// with a keyword that the library does not enforce is refused. The
/// keywords that the draft knows are compiled in their order; any other
/// member of the object is passed over. In the drafts in which a `$ref`
/// hides the keywords beside it, a schema with a `$ref` is compiled to that
/// reference alone.
pub fn compile(ctx: &Context, schema: &Value, refs: &mut Vec<Location>) -> (r: Result<
    SchemaNode,
    ValidationError,
>)
    ensures
        r is Ok ==> crate::found::places(final(refs)@) == crate::found::places(old(refs)@) + crate::found::found(ctx@, schema@),
        crate::refusal::fault(r) == crate::refusal::refusal(ctx@, schema@),
        crate::references::kept(old(refs)@, final(refs)@),
        r matches Ok(node) ==> crate::references::node_held(&node, final(refs)@),
        crate::rules::reference_free(schema@) ==> final(refs)@ == old(refs)@,
        r is Ok <==> accepted(ctx@, schema@),
        crate::shape::still(ctx@, schema@) ==> final(refs)@ == old(refs)@,
        r matches Ok(node) ==> compiled(ctx@, schema@, &node),
        schema@ is Bool ==> final(refs)@ == old(refs)@,
    decreases json_size(schema@), 6nat,
{
    match schema {
        Value::Bool(true) => {
            let node = SchemaNode { validators: Vec::new(), location: ctx.location().clone() };
            proof {
                crate::references::lemma_node_held(&node, refs@);
            }
            Ok(node)
        },
        Value::Bool(false) => {
            let mut validators: Vec<KeywordValidator> = Vec::new();
            validators.push(
                KeywordValidator::FalseSchema(FalseValidator { location: ctx.location().clone() }),
            );
            let node = SchemaNode { validators, location: ctx.location().clone() };
            proof {
                crate::references::lemma_node_held(&node, refs@);
            }
            Ok(node)
        },
        Value::Object(map) => {
            let mut validators: Vec<KeywordValidator> = Vec::new();
            if ctx.draft().has_ref_hiding_siblings() {
                if let Some(reference) = map.get("$ref") {
                    proof {
                        assert(Keyword::Ref.name() == "$ref"@);
                    }
                    match compile_keyword(ctx, map, Keyword::Ref, reference, refs) {
                        Some(Ok(validator)) => validators.push(validator),
                        Some(Err(e)) => {
                            return Err(e);
                        },
                        None => {},
                    }
                    proof {
                        assert(accepted(ctx@, schema@));
                    }
                    let node = SchemaNode { validators, location: ctx.location().clone() };
                    proof {
                        crate::references::lemma_node_held(&node, refs@);
                    }
                    return Ok(node);
                }
            }
            if let Some(found) = find_unenforced(map, ctx.draft()) {
                let name = unenforced_name(found);
                let location = ctx.location().join(name);
                return match map.get(name) {
                    Some(value) => Err(
                        schema_error(
                            ValidationErrorKind::Custom {
                                keyword: String::from_str(name),
                                message: String::from_str("This keyword is not enforced"),
                            },
                            &location,
                            value,
                        ),
                    ),
                    None => Err(schema_type_error(&location, schema, JsonType::Object)),
                };
            }
            let mut position: usize = 0;
            while position < KEYWORD_COUNT
                invariant
                    position <= KEYWORD_COUNT,
                    crate::rules::first_unenforced(ctx@.draft, map@, 0)
                        >= crate::rules::UNENFORCED_COUNT,
                    schema@ == Json::Object(map@),
                    forall|j: int| 0 <= j < validators@.len() ==> kw_wf(#[trigger] &validators@[j]),
                    validators@.len() == crate::shape::produced(ctx@, map@, position as nat),
                    !(ctx@.draft.ref_hides_siblings() && obj_has(map@, "$ref"@)),
                    crate::rules::reference_free(schema@) ==> refs@ == old(refs)@,
                    (forall|p: nat|
                        p < position && #[trigger] crate::shape::yields(ctx@, map@, p)
                            ==> keyword_order(p).leaf()) ==> refs@ == old(refs)@,
                    crate::refusal::first_broken(ctx@, map@, 0) == crate::refusal::first_broken(
                        ctx@,
                        map@,
                        position as nat,
                    ),
                    crate::found::places(refs@) == crate::found::places(old(refs)@)
                        + crate::found::keywords_found(ctx@, map@, position as nat),
                    crate::references::kept(old(refs)@, refs@),
                    forall|j: int|
                        0 <= j < validators@.len() ==> crate::references::kw_held(
                            #[trigger] &validators@[j],
                            refs@,
                        ),
                    forall|p: nat|
                        p < position && #[trigger] present(ctx@, map@, p) ==> keyword_accepted(
                            ctx@,
                            map@,
                            keyword_order(p),
                        ),
                    forall|p: nat|
                        p < position && #[trigger] crate::shape::yields(ctx@, map@, p)
                            ==> crate::shape::produced(ctx@, map@, p) < validators@.len()
                            && crate::shape::keyword_compiled(
                            ctx@,
                            map@,
                            keyword_order(p),
                            &validators@[crate::shape::produced(ctx@, map@, p) as int],
                        ),
                decreases KEYWORD_COUNT - position,
            {
                let keyword = Keyword::at(position);
                let ghost before = validators@;
                proof {
                    assert(crate::found::keywords_found(ctx@, map@, (position + 1) as nat)
                        == crate::found::keywords_found(ctx@, map@, position as nat) + if present(
                        ctx@,
                        map@,
                        position as nat,
                    ) {
                        crate::found::keyword_found(ctx@, map@, keyword_order(position as nat))
                    } else {
                        Seq::<Seq<Seg>>::empty()
                    });
                    assert(crate::refusal::first_broken(ctx@, map@, position as nat) == if present(
                        ctx@,
                        map@,
                        position as nat,
                    ) && !keyword_accepted(ctx@, map@, keyword_order(position as nat)) {
                        position as nat
                    } else {
                        crate::refusal::first_broken(ctx@, map@, (position + 1) as nat)
                    });
                }
                let ghost count = crate::shape::produced(ctx@, map@, position as nat);
                proof {
                    assert(crate::shape::produced(ctx@, map@, (position + 1) as nat) == count
                        + if crate::shape::yields(ctx@, map@, position as nat) {
                        1nat
                    } else {
                        0nat
                    });
                }
                if keyword.is_known_to(ctx.draft()) {
                    if let Some(value) = map.get(keyword.as_str()) {
                        match compile_keyword(ctx, map, keyword, value, refs) {
                            Some(Ok(validator)) => {
                                validators.push(validator);
                            },
                            Some(Err(e)) => {
                                proof {
                                    assert(present(ctx@, map@, position as nat));
                                    assert(!accepted(ctx@, schema@));
                                }
                                return Err(e);
                            },
                            None => {},
                        }
                    }
                }
                proof {
                    assert forall|p: nat|
                        p < position + 1 && #[trigger] crate::shape::yields(
                            ctx@,
                            map@,
                            p,
                        ) implies crate::shape::produced(ctx@, map@, p) < validators@.len()
                        && crate::shape::keyword_compiled(
                        ctx@,
                        map@,
                        keyword_order(p),
                        &validators@[crate::shape::produced(ctx@, map@, p) as int],
                    ) by {
                        if p < position {
                            assert(validators@[crate::shape::produced(ctx@, map@, p) as int]
                                == before[crate::shape::produced(ctx@, map@, p) as int]);
                        }
                    }
                    assert forall|j: int| 0 <= j < validators@.len() implies kw_wf(
                        #[trigger] &validators@[j],
                    ) by {
                        if j < before.len() {
                            assert(validators@[j] == before[j]);
                        }
                    }
                }
                position += 1;
            }
            let node = SchemaNode { validators, location: ctx.location().clone() };
            proof {
                crate::references::lemma_node_held(&node, refs@);
            }
            Ok(node)
        },
        _ => {
            let mut expected: Vec<JsonType> = Vec::new();
            expected.push(JsonType::Boolean);
            expected.push(JsonType::Object);
            proof {
                assert(expected@ =~= seq![JsonType::Boolean, JsonType::Object]);
            }
            Err(
                schema_error(
                    ValidationErrorKind::Type { kind: TypeKind::Multiple(expected) },
                    ctx.location(),
                    schema,
                ),
            )
        },
    }
}

} // verus!
