//! The `items` keyword: what the items of an array must satisfy.
use vstd::prelude::*;
use crate::error::{ErrorView, KindView, TypeKindView, ValidationError, error_views, lemma_error_views_push};
use crate::json::{Json, Value, lemma_views, views};
use crate::error::lemma_error_views_concat;
use crate::node::{
    CompilationResult, KeywordValidator, Registry, SchemaNode, first_error, node_errors, node_valid,
    node_wf,
};
use crate::paths::{Location, RefTracker, Seg, capture_evaluation_path, captured, tracker_view};
use crate::types::JsonType;

verus! {

/// The error for an item that is not of the type asked for.
pub open spec fn item_type_error(
    ty: JsonType,
    schema_path: Seq<Seg>,
    evaluation_path: Seq<Seg>,
    item: Json,
    instance_path: Seq<Seg>,
    index: nat,
) -> ErrorView {
    ErrorView {
        kind: KindView::Type { kind: TypeKindView::Single(ty) },
        instance: item,
        instance_path: instance_path.push(Seg::Index(index)),
        schema_path,
        evaluation_path,
    }
}

/// What `items: {"type": ty}` asks: every item of an array is of the type.
pub open spec fn items_type_valid(ty: JsonType, strict: bool, instance: Json) -> bool {
    instance is Array ==> forall|i: int|
        0 <= i < instance->Array_0.len() ==> ty.admits(strict, #[trigger] instance->Array_0[i])
}

/// The errors for those of the first `n` items that are not of the type, in
/// the order of the items.
pub open spec fn item_type_errors(
    ty: JsonType,
    strict: bool,
    items: Seq<Json>,
    n: nat,
    schema_path: Seq<Seg>,
    evaluation_path: Seq<Seg>,
    instance_path: Seq<Seg>,
) -> Seq<ErrorView>
    decreases n,
{
    if n == 0 || n > items.len() {
        Seq::empty()
    } else {
        let before = item_type_errors(
            ty,
            strict,
            items,
            (n - 1) as nat,
            schema_path,
            evaluation_path,
            instance_path,
        );
        if ty.admits(strict, items[n - 1]) {
            before
        } else {
            before.push(
                item_type_error(
                    ty,
                    schema_path,
                    evaluation_path,
                    items[n - 1],
                    instance_path,
                    (n - 1) as nat,
                ),
            )
        }
    }
}

/// The errors of `items: {"type": ty}`: one for each item that is not of the
/// type, in the order of the items; none for a value that is no array.
pub open spec fn items_type_errors(
    ty: JsonType,
    strict: bool,
    schema_path: Seq<Seg>,
    tracker: Option<(Seq<Seg>, Seq<Seg>)>,
    instance: Json,
    instance_path: Seq<Seg>,
) -> Seq<ErrorView> {
    if instance is Array {
        item_type_errors(
            ty,
            strict,
            instance->Array_0,
            instance->Array_0.len(),
            schema_path,
            captured(tracker, schema_path),
            instance_path,
        )
    } else {
        Seq::empty()
    }
}

/// There are no errors exactly when each of the first `n` items is of the
/// type.
pub proof fn lemma_item_type_none(
    ty: JsonType,
    strict: bool,
    items: Seq<Json>,
    n: nat,
    schema_path: Seq<Seg>,
    evaluation_path: Seq<Seg>,
    instance_path: Seq<Seg>,
)
    requires
        n <= items.len(),
    ensures
        item_type_errors(ty, strict, items, n, schema_path, evaluation_path, instance_path).len()
            == 0 <==> forall|i: int| 0 <= i < n ==> ty.admits(strict, #[trigger] items[i]),
    decreases n,
{
    if n > 0 {
        lemma_item_type_none(
            ty,
            strict,
            items,
            (n - 1) as nat,
            schema_path,
            evaluation_path,
            instance_path,
        );
        if !ty.admits(strict, items[n - 1]) {
            assert(!(forall|i: int| 0 <= i < n ==> ty.admits(strict, #[trigger] items[i])));
        }
    }
}

/// The errors for the first `n` items open the errors for the first `m`.
pub proof fn lemma_item_type_prefix(
    ty: JsonType,
    strict: bool,
    items: Seq<Json>,
    n: nat,
    m: nat,
    schema_path: Seq<Seg>,
    evaluation_path: Seq<Seg>,
    instance_path: Seq<Seg>,
)
    requires
        n <= m <= items.len(),
    ensures
        item_type_errors(
            ty,
            strict,
            items,
            n,
            schema_path,
            evaluation_path,
            instance_path,
        ).is_prefix_of(
            item_type_errors(ty, strict, items, m, schema_path, evaluation_path, instance_path),
        ),
    decreases m - n,
{
    if n < m {
        lemma_item_type_prefix(
            ty,
            strict,
            items,
            n,
            (m - 1) as nat,
            schema_path,
            evaluation_path,
            instance_path,
        );
    }
}

/// The verdict and the errors of `items: {"type": ty}` agree.
pub proof fn lemma_items_type_consistent(
    ty: JsonType,
    strict: bool,
    schema_path: Seq<Seg>,
    tracker: Option<(Seq<Seg>, Seq<Seg>)>,
    instance: Json,
    instance_path: Seq<Seg>,
)
    ensures
        items_type_valid(ty, strict, instance) <==> items_type_errors(
            ty,
            strict,
            schema_path,
            tracker,
            instance,
            instance_path,
        ).len() == 0,
{
    if instance is Array {
        lemma_item_type_none(
            ty,
            strict,
            instance->Array_0,
            instance->Array_0.len(),
            schema_path,
            captured(tracker, schema_path),
            instance_path,
        );
    }
}

/// Whether every item of an array is of the type.
pub fn all_of_type(ty: JsonType, strict: bool, instance: &Value) -> (r: bool)
    ensures
        r == items_type_valid(ty, strict, instance@),
{
    if let Value::Array(items) = instance {
        proof {
            lemma_views(items@);
        }
        let mut i: usize = 0;
        while i < items.len()
            invariant
                i <= items.len(),
                instance@ is Array,
                instance@->Array_0 == views(items@),
                views(items@).len() == items@.len(),
                forall|j: int| 0 <= j < items@.len() ==> (#[trigger] views(items@)[j]) == items@[j]@,
                forall|j: int| 0 <= j < i ==> ty.admits(strict, #[trigger] instance@->Array_0[j]),
            decreases items.len() - i,
        {
            if !ty.is_type_of(strict, &items[i]) {
                proof {
                    assert(!ty.admits(strict, instance@->Array_0[i as int]));
                }
                return false;
            }
            i += 1;
        }
        true
    } else {
        true
    }
}

/// The first item of an array that is not of the type, as an error.
pub fn first_of_other_type(
    ty: JsonType,
    strict: bool,
    schema_path: &Location,
    instance: &Value,
    location: &Location,
    tracker: Option<&RefTracker>,
) -> (r: Result<(), ValidationError>)
    ensures
        first_error(
            r,
            items_type_errors(
                ty,
                strict,
                schema_path@,
                tracker_view(tracker),
                instance@,
                location@,
            ),
        ),
{
    if let Value::Array(items) = instance {
        let ghost all = views(items@);
        let ghost path = captured(tracker_view(tracker), schema_path@);
        proof {
            lemma_views(items@);
        }
        let mut i: usize = 0;
        while i < items.len()
            invariant
                i <= items.len(),
                instance@ is Array,
                all == views(items@),
                instance@->Array_0 == all,
                all.len() == items@.len(),
                path == captured(tracker_view(tracker), schema_path@),
                forall|j: int| 0 <= j < items@.len() ==> (#[trigger] all[j]) == items@[j]@,
                item_type_errors(ty, strict, all, i as nat, schema_path@, path, location@).len() == 0,
            decreases items.len() - i,
        {
            let item = &items[i];
            if !ty.is_type_of(strict, item) {
                proof {
                    let upto = item_type_errors(
                        ty,
                        strict,
                        all,
                        (i + 1) as nat,
                        schema_path@,
                        path,
                        location@,
                    );
                    let total = item_type_errors(
                        ty,
                        strict,
                        all,
                        all.len(),
                        schema_path@,
                        path,
                        location@,
                    );
                    lemma_item_type_prefix(
                        ty,
                        strict,
                        all,
                        (i + 1) as nat,
                        all.len(),
                        schema_path@,
                        path,
                        location@,
                    );
                    assert(upto.len() == 1);
                    assert(total.subrange(0, 1)[0] == total[0]);
                }
                return Err(
                    ValidationError::single_type_error(
                        schema_path.clone(),
                        capture_evaluation_path(tracker, schema_path),
                        location.join_index(i),
                        item,
                        ty,
                    ),
                );
            }
            i += 1;
        }
    }
    Ok(())
}

/// Every item of an array that is not of the type, as an error.
pub fn each_of_other_type(
    ty: JsonType,
    strict: bool,
    schema_path: &Location,
    instance: &Value,
    location: &Location,
    tracker: Option<&RefTracker>,
) -> (r: Vec<ValidationError>)
    ensures
        error_views(r@) == items_type_errors(
            ty,
            strict,
            schema_path@,
            tracker_view(tracker),
            instance@,
            location@,
        ),
{
    let mut errors: Vec<ValidationError> = Vec::new();
    if let Value::Array(items) = instance {
        let ghost all = views(items@);
        let ghost path = captured(tracker_view(tracker), schema_path@);
        proof {
            lemma_views(items@);
        }
        let mut i: usize = 0;
        while i < items.len()
            invariant
                i <= items.len(),
                instance@ is Array,
                all == views(items@),
                instance@->Array_0 == all,
                all.len() == items@.len(),
                path == captured(tracker_view(tracker), schema_path@),
                forall|j: int| 0 <= j < items@.len() ==> (#[trigger] all[j]) == items@[j]@,
                error_views(errors@) == item_type_errors(
                    ty,
                    strict,
                    all,
                    i as nat,
                    schema_path@,
                    path,
                    location@,
                ),
            decreases items.len() - i,
        {
            let item = &items[i];
            if !ty.is_type_of(strict, item) {
                let error = ValidationError::single_type_error(
                    schema_path.clone(),
                    capture_evaluation_path(tracker, schema_path),
                    location.join_index(i),
                    item,
                    ty,
                );
                proof {
                    lemma_error_views_push(errors@, error);
                }
                errors.push(error);
            }
            i += 1;
        }
    }
    errors
}

/// `items: {"type": "number"}`.
#[derive(Debug)]
pub struct ItemsNumberTypeValidator {
    pub location: Location,
}

/// `items: {"type": "string"}`.
#[derive(Debug)]
pub struct ItemsStringTypeValidator {
    pub location: Location,
}

/// `items: {"type": "integer"}`, where a number with a zero fraction counts
/// as an integer.
#[derive(Debug)]
pub struct ItemsIntegerTypeValidator {
    pub location: Location,
}

/// `items: {"type": "integer"}` in the oldest draft, where only a number
/// written without a fraction counts as an integer.
#[derive(Debug)]
pub struct ItemsIntegerTypeValidatorDraft4 {
    pub location: Location,
}

/// `items: {"type": "boolean"}`.
#[derive(Debug)]
pub struct ItemsBooleanTypeValidator {
    pub location: Location,
}

impl ItemsNumberTypeValidator {
    pub fn compile(location: Location) -> (r: CompilationResult)
        ensures
            r matches Ok(KeywordValidator::ItemsNumberType(v)) && v.location@ == location@,
    {
        Ok(KeywordValidator::ItemsNumberType(ItemsNumberTypeValidator { location }))
    }

    pub fn is_valid(&self, instance: &Value) -> (r: bool)
        ensures
            r == items_type_valid(JsonType::Number, false, instance@),
    {
        all_of_type(JsonType::Number, false, instance)
    }

    pub fn validate(
        &self,
        instance: &Value,
        location: &Location,
        tracker: Option<&RefTracker>,
    ) -> (r: Result<(), ValidationError>)
        ensures
            first_error(
                r,
                items_type_errors(
                    JsonType::Number,
                    false,
                    self.location@,
                    tracker_view(tracker),
                    instance@,
                    location@,
                ),
            ),
    {
        first_of_other_type(JsonType::Number, false, &self.location, instance, location, tracker)
    }

    pub fn iter_errors(
        &self,
        instance: &Value,
        location: &Location,
        tracker: Option<&RefTracker>,
    ) -> (r: Vec<ValidationError>)
        ensures
            error_views(r@) == items_type_errors(
                JsonType::Number,
                false,
                self.location@,
                tracker_view(tracker),
                instance@,
                location@,
            ),
    {
        each_of_other_type(JsonType::Number, false, &self.location, instance, location, tracker)
    }
}

impl ItemsStringTypeValidator {
    pub fn compile(location: Location) -> (r: CompilationResult)
        ensures
            r matches Ok(KeywordValidator::ItemsStringType(v)) && v.location@ == location@,
    {
        Ok(KeywordValidator::ItemsStringType(ItemsStringTypeValidator { location }))
    }

    pub fn is_valid(&self, instance: &Value) -> (r: bool)
        ensures
            r == items_type_valid(JsonType::String, false, instance@),
    {
        all_of_type(JsonType::String, false, instance)
    }

    pub fn validate(
        &self,
        instance: &Value,
        location: &Location,
        tracker: Option<&RefTracker>,
    ) -> (r: Result<(), ValidationError>)
        ensures
            first_error(
                r,
                items_type_errors(
                    JsonType::String,
                    false,
                    self.location@,
                    tracker_view(tracker),
                    instance@,
                    location@,
                ),
            ),
    {
        first_of_other_type(JsonType::String, false, &self.location, instance, location, tracker)
    }

    pub fn iter_errors(
        &self,
        instance: &Value,
        location: &Location,
        tracker: Option<&RefTracker>,
    ) -> (r: Vec<ValidationError>)
        ensures
            error_views(r@) == items_type_errors(
                JsonType::String,
                false,
                self.location@,
                tracker_view(tracker),
                instance@,
                location@,
            ),
    {
        each_of_other_type(JsonType::String, false, &self.location, instance, location, tracker)
    }
}

impl ItemsIntegerTypeValidator {
    pub fn compile(location: Location) -> (r: CompilationResult)
        ensures
            r matches Ok(KeywordValidator::ItemsIntegerType(v)) && v.location@ == location@,
    {
        Ok(KeywordValidator::ItemsIntegerType(ItemsIntegerTypeValidator { location }))
    }

    pub fn is_valid(&self, instance: &Value) -> (r: bool)
        ensures
            r == items_type_valid(JsonType::Integer, false, instance@),
    {
        all_of_type(JsonType::Integer, false, instance)
    }

    pub fn validate(
        &self,
        instance: &Value,
        location: &Location,
        tracker: Option<&RefTracker>,
    ) -> (r: Result<(), ValidationError>)
        ensures
            first_error(
                r,
                items_type_errors(
                    JsonType::Integer,
                    false,
                    self.location@,
                    tracker_view(tracker),
                    instance@,
                    location@,
                ),
            ),
    {
        first_of_other_type(JsonType::Integer, false, &self.location, instance, location, tracker)
    }

    pub fn iter_errors(
        &self,
        instance: &Value,
        location: &Location,
        tracker: Option<&RefTracker>,
    ) -> (r: Vec<ValidationError>)
        ensures
            error_views(r@) == items_type_errors(
                JsonType::Integer,
                false,
                self.location@,
                tracker_view(tracker),
                instance@,
                location@,
            ),
    {
        each_of_other_type(JsonType::Integer, false, &self.location, instance, location, tracker)
    }
}

impl ItemsIntegerTypeValidatorDraft4 {
    pub fn compile(location: Location) -> (r: CompilationResult)
        ensures
            r matches Ok(KeywordValidator::ItemsIntegerTypeDraft4(v)) && v.location@ == location@,
    {
        Ok(KeywordValidator::ItemsIntegerTypeDraft4(ItemsIntegerTypeValidatorDraft4 { location }))
    }

    pub fn is_valid(&self, instance: &Value) -> (r: bool)
        ensures
            r == items_type_valid(JsonType::Integer, true, instance@),
    {
        all_of_type(JsonType::Integer, true, instance)
    }

    pub fn validate(
        &self,
        instance: &Value,
        location: &Location,
        tracker: Option<&RefTracker>,
    ) -> (r: Result<(), ValidationError>)
        ensures
            first_error(
                r,
                items_type_errors(
                    JsonType::Integer,
                    true,
                    self.location@,
                    tracker_view(tracker),
                    instance@,
                    location@,
                ),
            ),
    {
        first_of_other_type(JsonType::Integer, true, &self.location, instance, location, tracker)
    }

    pub fn iter_errors(
        &self,
        instance: &Value,
        location: &Location,
        tracker: Option<&RefTracker>,
    ) -> (r: Vec<ValidationError>)
        ensures
            error_views(r@) == items_type_errors(
                JsonType::Integer,
                true,
                self.location@,
                tracker_view(tracker),
                instance@,
                location@,
            ),
    {
        each_of_other_type(JsonType::Integer, true, &self.location, instance, location, tracker)
    }
}

impl ItemsBooleanTypeValidator {
    pub fn compile(location: Location) -> (r: CompilationResult)
        ensures
            r matches Ok(KeywordValidator::ItemsBooleanType(v)) && v.location@ == location@,
    {
        Ok(KeywordValidator::ItemsBooleanType(ItemsBooleanTypeValidator { location }))
    }

    pub fn is_valid(&self, instance: &Value) -> (r: bool)
        ensures
            r == items_type_valid(JsonType::Boolean, false, instance@),
    {
        all_of_type(JsonType::Boolean, false, instance)
    }

    pub fn validate(
        &self,
        instance: &Value,
        location: &Location,
        tracker: Option<&RefTracker>,
    ) -> (r: Result<(), ValidationError>)
        ensures
            first_error(
                r,
                items_type_errors(
                    JsonType::Boolean,
                    false,
                    self.location@,
                    tracker_view(tracker),
                    instance@,
                    location@,
                ),
            ),
    {
        first_of_other_type(JsonType::Boolean, false, &self.location, instance, location, tracker)
    }

    pub fn iter_errors(
        &self,
        instance: &Value,
        location: &Location,
        tracker: Option<&RefTracker>,
    ) -> (r: Vec<ValidationError>)
        ensures
            error_views(r@) == items_type_errors(
                JsonType::Boolean,
                false,
                self.location@,
                tracker_view(tracker),
                instance@,
                location@,
            ),
    {
        each_of_other_type(JsonType::Boolean, false, &self.location, instance, location, tracker)
    }
}

/// Whether each of the schemas is well formed.
pub open spec fn nodes_wf(nodes: Seq<SchemaNode>) -> bool
    decreases nodes, 0nat,
{
    forall|i: int| 0 <= i < nodes.len() ==> node_wf(#[trigger] &nodes[i])
}

/// Whether each item that has a schema at its position satisfies that schema.
pub open spec fn positional_valid(
    reg: &Registry,
    nodes: Seq<SchemaNode>,
    items: Seq<Json>,
    depth: nat,
) -> bool
    decreases depth, nodes, 0nat,
{
    forall|i: int|
        0 <= i < nodes.len() && i < items.len() ==> node_valid(reg, #[trigger] &nodes[i], items[i], depth)
}

/// The errors of the first `n` items against the schemas at their positions,
/// in the order of the items.
pub open spec fn positional_errors(
    reg: &Registry,
    nodes: Seq<SchemaNode>,
    n: nat,
    items: Seq<Json>,
    path: Seq<Seg>,
    tracker: Option<(Seq<Seg>, Seq<Seg>)>,
    depth: nat,
) -> Seq<ErrorView>
    decreases depth, nodes, n,
{
    if n == 0 || n > nodes.len() || n > items.len() {
        Seq::empty()
    } else {
        positional_errors(reg, nodes, (n - 1) as nat, items, path, tracker, depth) + node_errors(
            reg,
            &nodes[n - 1],
            items[n - 1],
            path.push(Seg::Index((n - 1) as nat)),
            tracker,
            depth,
        )
    }
}

/// How many items have a schema at their position.
pub open spec fn paired(nodes: nat, items: nat) -> nat {
    if nodes < items {
        nodes
    } else {
        items
    }
}

/// Whether each item from position `skip` on satisfies the schema.
pub open spec fn each_valid(
    reg: &Registry,
    node: &SchemaNode,
    skip: nat,
    items: Seq<Json>,
    depth: nat,
) -> bool
    decreases depth, node, node.validators@.len() + 2,
{
    forall|i: int| skip <= i < items.len() ==> node_valid(reg, node, #[trigger] items[i], depth)
}

/// The errors of the items from position `skip` up to `n`, in the order of
/// the items.
pub open spec fn each_errors(
    reg: &Registry,
    node: &SchemaNode,
    skip: nat,
    n: nat,
    items: Seq<Json>,
    path: Seq<Seg>,
    tracker: Option<(Seq<Seg>, Seq<Seg>)>,
    depth: nat,
) -> Seq<ErrorView>
    decreases depth, node, node.validators@.len() + 3 + n,
{
    if n <= skip || n > items.len() {
        Seq::empty()
    } else {
        each_errors(reg, node, skip, (n - 1) as nat, items, path, tracker, depth) + node_errors(
            reg,
            node,
            items[n - 1],
            path.push(Seg::Index((n - 1) as nat)),
            tracker,
            depth,
        )
    }
}

/// Whether the item at each position that has a schema satisfies it.
pub fn positional_is_valid(
    nodes: &Vec<SchemaNode>,
    reg: &Registry,
    instance: &Value,
    depth: usize,
) -> (r: bool)
    requires
        reg.wf(),
        nodes_wf(nodes@),
    ensures
        r == (instance@ is Array ==> positional_valid(reg, nodes@, instance@->Array_0, depth as nat)),
    decreases depth, nodes, 0nat,
{
    if let Value::Array(items) = instance {
        proof {
            lemma_views(items@);
        }
        let mut i: usize = 0;
        while i < items.len() && i < nodes.len()
            invariant
                i <= items.len(),
                i <= nodes.len(),
                reg.wf(),
                nodes_wf(nodes@),
                instance@ is Array,
                instance@->Array_0 == views(items@),
                views(items@).len() == items@.len(),
                forall|j: int| 0 <= j < items@.len() ==> (#[trigger] views(items@)[j]) == items@[j]@,
                forall|j: int|
                    0 <= j < i ==> node_valid(
                        reg,
                        #[trigger] &nodes@[j],
                        instance@->Array_0[j],
                        depth as nat,
                    ),
            decreases items.len() - i,
        {
            if !nodes[i].is_valid(reg, &items[i], depth) {
                return false;
            }
            i += 1;
        }
        true
    } else {
        true
    }
}

/// The errors of the item at each position that has a schema.
pub fn positional_iter_errors(
    nodes: &Vec<SchemaNode>,
    reg: &Registry,
    instance: &Value,
    location: &Location,
    tracker: Option<&RefTracker>,
    depth: usize,
) -> (r: Vec<ValidationError>)
    requires
        reg.wf(),
        nodes_wf(nodes@),
    ensures
        error_views(r@) == if instance@ is Array {
            positional_errors(
                reg,
                nodes@,
                paired(nodes@.len(), instance@->Array_0.len()),
                instance@->Array_0,
                location@,
                tracker_view(tracker),
                depth as nat,
            )
        } else {
            Seq::empty()
        },
    decreases depth, nodes, 0nat,
{
    let mut errors: Vec<ValidationError> = Vec::new();
    if let Value::Array(items) = instance {
        proof {
            lemma_views(items@);
        }
        let ghost all = views(items@);
        let mut i: usize = 0;
        while i < items.len() && i < nodes.len()
            invariant
                i <= items.len(),
                i <= nodes.len(),
                reg.wf(),
                nodes_wf(nodes@),
                instance@ is Array,
                all == views(items@),
                instance@->Array_0 == all,
                all.len() == items@.len(),
                forall|j: int| 0 <= j < items@.len() ==> (#[trigger] all[j]) == items@[j]@,
                error_views(errors@) == positional_errors(
                    reg,
                    nodes@,
                    i as nat,
                    all,
                    location@,
                    tracker_view(tracker),
                    depth as nat,
                ),
            decreases items.len() - i,
        {
            let mut found = nodes[i].iter_errors(reg, &items[i], &location.join_index(i), tracker, depth);
            proof {
                lemma_error_views_concat(errors@, found@);
                assert(positional_errors(
                    reg,
                    nodes@,
                    (i + 1) as nat,
                    all,
                    location@,
                    tracker_view(tracker),
                    depth as nat,
                ) == positional_errors(
                    reg,
                    nodes@,
                    i as nat,
                    all,
                    location@,
                    tracker_view(tracker),
                    depth as nat,
                ) + node_errors(
                    reg,
                    &nodes@[i as int],
                    all[i as int],
                    location@.push(Seg::Index(i as nat)),
                    tracker_view(tracker),
                    depth as nat,
                ));
            }
            errors.append(&mut found);
            i += 1;
        }
    }
    errors
}

/// Whether each item from position `skip` on satisfies the schema.
pub fn each_is_valid(
    node: &SchemaNode,
    skip: usize,
    reg: &Registry,
    instance: &Value,
    depth: usize,
) -> (r: bool)
    requires
        reg.wf(),
        node_wf(node),
    ensures
        r == (instance@ is Array ==> each_valid(reg, node, skip as nat, instance@->Array_0, depth as nat)),
    decreases depth, node, node.validators@.len() + 2,
{
    if let Value::Array(items) = instance {
        proof {
            lemma_views(items@);
        }
        if skip >= items.len() {
            return true;
        }
        let mut i: usize = skip;
        while i < items.len()
            invariant
                skip <= i <= items.len(),
                reg.wf(),
                node_wf(node),
                instance@ is Array,
                instance@->Array_0 == views(items@),
                views(items@).len() == items@.len(),
                forall|j: int| 0 <= j < items@.len() ==> (#[trigger] views(items@)[j]) == items@[j]@,
                forall|j: int|
                    skip <= j < i ==> node_valid(reg, node, #[trigger] instance@->Array_0[j], depth as nat),
            decreases items.len() - i,
        {
            if !node.is_valid(reg, &items[i], depth) {
                proof {
                    assert(!node_valid(reg, node, instance@->Array_0[i as int], depth as nat));
                }
                return false;
            }
            i += 1;
        }
        true
    } else {
        true
    }
}

/// The errors of each item from position `skip` on.
pub fn each_iter_errors(
    node: &SchemaNode,
    skip: usize,
    reg: &Registry,
    instance: &Value,
    location: &Location,
    tracker: Option<&RefTracker>,
    depth: usize,
) -> (r: Vec<ValidationError>)
    requires
        reg.wf(),
        node_wf(node),
    ensures
        error_views(r@) == if instance@ is Array {
            each_errors(
                reg,
                node,
                skip as nat,
                instance@->Array_0.len(),
                instance@->Array_0,
                location@,
                tracker_view(tracker),
                depth as nat,
            )
        } else {
            Seq::empty()
        },
    decreases depth, node, node.validators@.len() + 2,
{
    let mut errors: Vec<ValidationError> = Vec::new();
    if let Value::Array(items) = instance {
        proof {
            lemma_views(items@);
        }
        let ghost all = views(items@);
        if skip >= items.len() {
            return errors;
        }
        let mut i: usize = skip;
        while i < items.len()
            invariant
                skip <= i <= items.len(),
                reg.wf(),
                node_wf(node),
                instance@ is Array,
                all == views(items@),
                instance@->Array_0 == all,
                all.len() == items@.len(),
                forall|j: int| 0 <= j < items@.len() ==> (#[trigger] all[j]) == items@[j]@,
                error_views(errors@) == each_errors(
                    reg,
                    node,
                    skip as nat,
                    i as nat,
                    all,
                    location@,
                    tracker_view(tracker),
                    depth as nat,
                ),
            decreases items.len() - i,
        {
            let mut found = node.iter_errors(reg, &items[i], &location.join_index(i), tracker, depth);
            proof {
                lemma_error_views_concat(errors@, found@);
                assert(each_errors(
                    reg,
                    node,
                    skip as nat,
                    (i + 1) as nat,
                    all,
                    location@,
                    tracker_view(tracker),
                    depth as nat,
                ) == each_errors(
                    reg,
                    node,
                    skip as nat,
                    i as nat,
                    all,
                    location@,
                    tracker_view(tracker),
                    depth as nat,
                ) + node_errors(
                    reg,
                    node,
                    all[i as int],
                    location@.push(Seg::Index(i as nat)),
                    tracker_view(tracker),
                    depth as nat,
                ));
            }
            errors.append(&mut found);
            i += 1;
        }
    }
    errors
}

/// `items` as a list of schemas: the item at each position satisfies the
/// schema at that position.
#[derive(Debug)]
pub struct ItemsArrayValidator {
    pub items: Vec<SchemaNode>,
}

/// `items` as one schema: every item satisfies it.
#[derive(Debug)]
pub struct ItemsObjectValidator {
    pub node: SchemaNode,
}

/// `items` beside `prefixItems`: every item after the prefix satisfies the
/// schema.
#[derive(Debug)]
pub struct ItemsObjectSkipPrefixValidator {
    pub node: SchemaNode,
    pub skip_prefix: usize,
}

impl ItemsArrayValidator {
    pub open spec fn wf(&self) -> bool
        decreases self, 0nat,
    {
        nodes_wf(self.items@)
    }

    pub open spec fn valid(&self, reg: &Registry, instance: Json, depth: nat) -> bool
        decreases depth, self, 0nat,
    {
        instance is Array ==> positional_valid(reg, self.items@, instance->Array_0, depth)
    }

    pub open spec fn errors(
        &self,
        reg: &Registry,
        instance: Json,
        path: Seq<Seg>,
        tracker: Option<(Seq<Seg>, Seq<Seg>)>,
        depth: nat,
    ) -> Seq<ErrorView>
        decreases depth, self, 0nat,
    {
        if instance is Array {
            positional_errors(
                reg,
                self.items@,
                paired(self.items@.len(), instance->Array_0.len()),
                instance->Array_0,
                path,
                tracker,
                depth,
            )
        } else {
            Seq::empty()
        }
    }

    pub fn is_valid(&self, reg: &Registry, instance: &Value, depth: usize) -> (r: bool)
        requires
            reg.wf(),
            self.wf(),
        ensures
            r == self.valid(reg, instance@, depth as nat),
        decreases depth, self, 0nat,
    {
        positional_is_valid(&self.items, reg, instance, depth)
    }

    pub fn iter_errors(
        &self,
        reg: &Registry,
        instance: &Value,
        location: &Location,
        tracker: Option<&RefTracker>,
        depth: usize,
    ) -> (r: Vec<ValidationError>)
        requires
            reg.wf(),
            self.wf(),
        ensures
            error_views(r@) == self.errors(
                reg,
                instance@,
                location@,
                tracker_view(tracker),
                depth as nat,
            ),
        decreases depth, self, 0nat,
    {
        positional_iter_errors(&self.items, reg, instance, location, tracker, depth)
    }
}

impl ItemsObjectValidator {
    pub open spec fn wf(&self) -> bool
        decreases self, 0nat,
    {
        node_wf(&self.node)
    }

    pub open spec fn valid(&self, reg: &Registry, instance: Json, depth: nat) -> bool
        decreases depth, self, 0nat,
    {
        instance is Array ==> each_valid(reg, &self.node, 0, instance->Array_0, depth)
    }

    pub open spec fn errors(
        &self,
        reg: &Registry,
        instance: Json,
        path: Seq<Seg>,
        tracker: Option<(Seq<Seg>, Seq<Seg>)>,
        depth: nat,
    ) -> Seq<ErrorView>
        decreases depth, self, 0nat,
    {
        if instance is Array {
            each_errors(
                reg,
                &self.node,
                0,
                instance->Array_0.len(),
                instance->Array_0,
                path,
                tracker,
                depth,
            )
        } else {
            Seq::empty()
        }
    }

    pub fn is_valid(&self, reg: &Registry, instance: &Value, depth: usize) -> (r: bool)
        requires
            reg.wf(),
            self.wf(),
        ensures
            r == self.valid(reg, instance@, depth as nat),
        decreases depth, self, 0nat,
    {
        each_is_valid(&self.node, 0, reg, instance, depth)
    }

    pub fn iter_errors(
        &self,
        reg: &Registry,
        instance: &Value,
        location: &Location,
        tracker: Option<&RefTracker>,
        depth: usize,
    ) -> (r: Vec<ValidationError>)
        requires
            reg.wf(),
            self.wf(),
        ensures
            error_views(r@) == self.errors(
                reg,
                instance@,
                location@,
                tracker_view(tracker),
                depth as nat,
            ),
        decreases depth, self, 0nat,
    {
        each_iter_errors(&self.node, 0, reg, instance, location, tracker, depth)
    }
}

impl ItemsObjectSkipPrefixValidator {
    pub open spec fn wf(&self) -> bool
        decreases self, 0nat,
    {
        node_wf(&self.node)
    }

    pub open spec fn valid(&self, reg: &Registry, instance: Json, depth: nat) -> bool
        decreases depth, self, 0nat,
    {
        instance is Array ==> each_valid(
            reg,
            &self.node,
            self.skip_prefix as nat,
            instance->Array_0,
            depth,
        )
    }

    pub open spec fn errors(
        &self,
        reg: &Registry,
        instance: Json,
        path: Seq<Seg>,
        tracker: Option<(Seq<Seg>, Seq<Seg>)>,
        depth: nat,
    ) -> Seq<ErrorView>
        decreases depth, self, 0nat,
    {
        if instance is Array {
            each_errors(
                reg,
                &self.node,
                self.skip_prefix as nat,
                instance->Array_0.len(),
                instance->Array_0,
                path,
                tracker,
                depth,
            )
        } else {
            Seq::empty()
        }
    }

    pub fn is_valid(&self, reg: &Registry, instance: &Value, depth: usize) -> (r: bool)
        requires
            reg.wf(),
            self.wf(),
        ensures
            r == self.valid(reg, instance@, depth as nat),
        decreases depth, self, 0nat,
    {
        each_is_valid(&self.node, self.skip_prefix, reg, instance, depth)
    }

    pub fn iter_errors(
        &self,
        reg: &Registry,
        instance: &Value,
        location: &Location,
        tracker: Option<&RefTracker>,
        depth: usize,
    ) -> (r: Vec<ValidationError>)
        requires
            reg.wf(),
            self.wf(),
        ensures
            error_views(r@) == self.errors(
                reg,
                instance@,
                location@,
                tracker_view(tracker),
                depth as nat,
            ),
        decreases depth, self, 0nat,
    {
        each_iter_errors(&self.node, self.skip_prefix, reg, instance, location, tracker, depth)
    }
}

/// The type that a schema names which is `{"type": name}` and nothing else.
pub open spec fn simple_type(schema: Json) -> Option<Seq<char>> {
    match schema {
        Json::Object(entries) => if entries.len() == 1 {
            match crate::json::obj_get(entries, "type"@) {
                Some(Json::String(name)) => Some(name),
                _ => None,
            }
        } else {
            None
        },
        _ => None,
    }
}

/// The type that the schema names, where it is `{"type": name}` and nothing
/// else.
fn get_simple_type_schema(schema: &Value) -> (r: Option<&str>)
    ensures
        r is Some <==> simple_type(schema@) is Some,
        r matches Some(name) ==> simple_type(schema@) == Some(name@),
{
    let obj = match schema.as_object() {
        Some(obj) => obj,
        None => {
            return None;
        },
    };
    if obj.len() != 1 {
        return None;
    }
    match obj.get("type") {
        Some(value) => value.as_str(),
        None => None,
    }
}

impl ItemsArrayValidator {
    pub fn compile(
        ctx: &crate::compiler::Context,
        schemas: &Vec<Value>,
        refs: &mut Vec<Location>,
    ) -> (r: CompilationResult)
        ensures
            r is Ok ==> crate::found::places(final(refs)@) == crate::found::places(old(refs)@) + crate::found::all_found(ctx@.at("items"@), views(schemas@), views(schemas@).len()),
            crate::refusal::fault(r) == crate::refusal::all_refusal(ctx@.at("items"@), views(schemas@)),
            crate::references::kept(old(refs)@, final(refs)@),
            r matches Ok(validator) ==> crate::references::kw_held(&validator, final(refs)@),
            crate::rules::reference_free(Json::Array(views(schemas@))) ==> final(refs)@ == old(refs)@,
            r is Ok <==> crate::rules::all_accepted(ctx@.at("items"@), views(schemas@)),
            r matches Ok(validator) ==> {
                &&& validator matches KeywordValidator::ItemsArray(v)
                &&& crate::node::kw_wf(&validator)
                &&& crate::shape::nodes_compiled(ctx@.at("items"@), views(schemas@), v.items@)
            },
        decreases crate::compiler::json_size(Json::Array(views(schemas@))), 1nat,
    {
        let kctx = ctx.new_at_location("items");
        let items = crate::compiler::compile_each(&kctx, schemas, refs)?;
        let validator = KeywordValidator::ItemsArray(ItemsArrayValidator { items });
        proof {
            crate::references::lemma_held_by_nodes(&validator, validator->ItemsArray_0.items@, refs@);
        }
        Ok(validator)
    }
}

impl ItemsObjectValidator {
    pub fn compile(ctx: &crate::compiler::Context, schema: &Value, refs: &mut Vec<Location>) -> (r:
        CompilationResult)
        ensures
            r is Ok ==> crate::found::places(final(refs)@) == crate::found::places(old(refs)@) + crate::found::found(ctx@.at("items"@), schema@),
            crate::refusal::fault(r) == crate::refusal::refusal(ctx@.at("items"@), schema@),
            crate::references::kept(old(refs)@, final(refs)@),
            r matches Ok(validator) ==> crate::references::kw_held(&validator, final(refs)@),
            crate::rules::reference_free(schema@) ==> final(refs)@ == old(refs)@,
            r is Ok <==> crate::rules::accepted(ctx@.at("items"@), schema@),
            r matches Ok(validator) ==> {
                &&& validator matches KeywordValidator::ItemsObject(v)
                &&& crate::node::kw_wf(&validator)
                &&& crate::shape::compiled(ctx@.at("items"@), schema@, &v.node)
            },
        decreases crate::compiler::json_size(schema@), 7nat,
    {
        let ctx = ctx.new_at_location("items");
        let node = crate::compiler::compile(&ctx, schema, refs)?;
        let validator = KeywordValidator::ItemsObject(ItemsObjectValidator { node });
        proof {
            crate::references::lemma_held_by_node(&validator, &validator->ItemsObject_0.node, refs@);
        }
        Ok(validator)
    }
}

impl ItemsObjectSkipPrefixValidator {
    pub fn compile(
        schema: &Value,
        skip_prefix: usize,
        ctx: &crate::compiler::Context,
        refs: &mut Vec<Location>,
    ) -> (r: CompilationResult)
        ensures
            r is Ok ==> crate::found::places(final(refs)@) == crate::found::places(old(refs)@) + crate::found::found(ctx@.at("items"@), schema@),
            crate::refusal::fault(r) == crate::refusal::refusal(ctx@.at("items"@), schema@),
            crate::references::kept(old(refs)@, final(refs)@),
            r matches Ok(validator) ==> crate::references::kw_held(&validator, final(refs)@),
            crate::rules::reference_free(schema@) ==> final(refs)@ == old(refs)@,
            r is Ok <==> crate::rules::accepted(ctx@.at("items"@), schema@),
            r matches Ok(validator) ==> {
                &&& validator matches KeywordValidator::ItemsObjectSkipPrefix(v)
                &&& crate::node::kw_wf(&validator)
                &&& v.skip_prefix == skip_prefix
                &&& crate::shape::compiled(ctx@.at("items"@), schema@, &v.node)
            },
        decreases crate::compiler::json_size(schema@), 7nat,
    {
        let ctx = ctx.new_at_location("items");
        let node = crate::compiler::compile(&ctx, schema, refs)?;
        let validator = KeywordValidator::ItemsObjectSkipPrefix(
            ItemsObjectSkipPrefixValidator { node, skip_prefix },
        );
        proof {
            crate::references::lemma_held_by_node(
                &validator,
                &validator->ItemsObjectSkipPrefix_0.node,
                refs@,
            );
        }
        Ok(validator)
    }
}

/// The form that the validator of an `items` keyword takes:
/// - a list of schemas: one schema for each position;
/// - a schema, or `false`, beside a `prefixItems` list: the schema for the
///   items after that prefix;
/// - `{"type": T}` with `T` one of `number`, `string`, `integer` and
///   `boolean`: the check of that type on each item, without a schema;
/// - any other schema, or `false`: the schema for each item;
/// - anything else: no validator.
pub open spec fn items_form(
    draft: crate::types::Draft,
    parent: Seq<(Seq<char>, Json)>,
    schema: Json,
    validator: KeywordValidator,
) -> bool {
    match schema {
        Json::Array(_) => validator is ItemsArray,
        Json::Object(_) | Json::Bool(false) => {
            if prefix_of(parent) is Some {
                validator matches KeywordValidator::ItemsObjectSkipPrefix(v) && v.skip_prefix
                    == prefix_of(parent)->0
            } else if simple_type(schema) == Some("number"@) {
                validator is ItemsNumberType
            } else if simple_type(schema) == Some("string"@) {
                validator is ItemsStringType
            } else if simple_type(schema) == Some("integer"@) {
                if draft.strict_integers() {
                    validator is ItemsIntegerTypeDraft4
                } else {
                    validator is ItemsIntegerType
                }
            } else if simple_type(schema) == Some("boolean"@) {
                validator is ItemsBooleanType
            } else {
                validator is ItemsObject
            }
        },
        _ => false,
    }
}

/// How many schemas the `prefixItems` list beside the keyword holds, where
/// there is such a list.
pub open spec fn prefix_of(parent: Seq<(Seq<char>, Json)>) -> Option<nat> {
    match crate::json::obj_get(parent, "prefixItems"@) {
        Some(Json::Array(prefix)) => Some(prefix.len()),
        _ => None,
    }
}

/// Where a type check that stands for `items: {"type": T}` reports to lie.
pub open spec fn items_type_location(validator: KeywordValidator) -> Option<Seq<Seg>> {
    match validator {
        KeywordValidator::ItemsNumberType(v) => Some(v.location@),
        KeywordValidator::ItemsStringType(v) => Some(v.location@),
        KeywordValidator::ItemsIntegerType(v) => Some(v.location@),
        KeywordValidator::ItemsIntegerTypeDraft4(v) => Some(v.location@),
        KeywordValidator::ItemsBooleanType(v) => Some(v.location@),
        _ => None,
    }
}

/// Compiles an `items` keyword of the schema `parent`.
pub fn compile(
    ctx: &crate::compiler::Context,
    parent: &crate::json::ObjectMap,
    schema: &Value,
    refs: &mut Vec<Location>,
) -> (r: Option<CompilationResult>)
    requires
        crate::json::obj_get(parent@, "items"@) == Some(schema@),
    ensures
        !(r matches Some(Err(_))) ==> crate::found::places(final(refs)@) == crate::found::places(old(refs)@) + crate::found::keyword_found(ctx@, parent@, crate::compiler::Keyword::Items),
        r is None ==> final(refs)@ == old(refs)@,
        crate::refusal::keyword_fault(r) == crate::refusal::keyword_refusal(ctx@, parent@, crate::compiler::Keyword::Items),
        crate::references::kept(old(refs)@, final(refs)@),
        r matches Some(Ok(validator)) ==> crate::references::kw_held(&validator, final(refs)@),
        crate::rules::reference_free(Json::Object(parent@)) ==> final(refs)@ == old(refs)@,
        r is Some <==> schema@ is Array || schema@ is Object || schema@ == Json::Bool(false),
        r matches Some(Err(_)) <==> !crate::rules::keyword_accepted(
            ctx@,
            parent@,
            crate::compiler::Keyword::Items,
        ),
        r matches Some(Ok(validator)) ==> crate::node::kw_wf(&validator)
            && crate::shape::keyword_compiled(
            ctx@,
            parent@,
            crate::compiler::Keyword::Items,
            &validator,
        ),
    decreases crate::compiler::json_size(Json::Object(parent@)), 2nat,
{
    proof {
        crate::rules::lemma_members_reference_free(parent@);
    }
    proof {
        crate::compiler::lemma_found_smaller(parent@, "items"@);
    }
    match schema {
        Value::Array(items) => Some(ItemsArrayValidator::compile(ctx, items, refs)),
        Value::Object(_) | Value::Bool(false) => {
            if let Some(Value::Array(prefix_items)) = parent.get("prefixItems") {
                proof {
                    lemma_views(prefix_items@);
                }
                return Some(
                    ItemsObjectSkipPrefixValidator::compile(schema, prefix_items.len(), ctx, refs),
                );
            }
            // A schema that only names a type is checked without a compiled node.
            if let Some(name) = get_simple_type_schema(schema) {
                let location = ctx.location().join("items").join("type");
                if crate::text::str_eq(name, "number") {
                    return Some(ItemsNumberTypeValidator::compile(location));
                } else if crate::text::str_eq(name, "string") {
                    return Some(ItemsStringTypeValidator::compile(location));
                } else if crate::text::str_eq(name, "integer") {
                    // The oldest draft admits no number with a fraction part as an integer.
                    return if ctx.draft().has_strict_integers() {
                        Some(ItemsIntegerTypeValidatorDraft4::compile(location))
                    } else {
                        Some(ItemsIntegerTypeValidator::compile(location))
                    };
                } else if crate::text::str_eq(name, "boolean") {
                    return Some(ItemsBooleanTypeValidator::compile(location));
                }
            }
            Some(ItemsObjectValidator::compile(ctx, schema, refs))
        },
        _ => None,
    }
}

/// What `items` notes of an array: whether it was applied to any item.
pub open spec fn applied_note(applied: bool) -> Option<Value> {
    Some(Value::Bool(applied))
}

/// The result of checking the type of each item of an array: one error in
/// words for each item that is not of the type, and a note of whether there
/// was any item.
pub fn evaluate_item_types(ty: JsonType, strict: bool, instance: &Value) -> (r:
    crate::evaluation::EvaluationResult)
    ensures
        r.valid == items_type_valid(ty, strict, instance@),
        r.children@.len() == 0,
        instance@ is Array ==> r.annotations == applied_note(instance@->Array_0.len() > 0),
        !(instance@ is Array) ==> r.annotations is None,
        crate::evaluation::told(r.errors@) == match instance@ {
            Json::Array(items) => crate::outcome::item_faults(ty, strict, items, items.len()),
            _ => Seq::empty(),
        },
{
    if let Value::Array(items) = instance {
        proof {
            lemma_views(items@);
        }
        let mut errors: Vec<crate::evaluation::ErrorDescription> = Vec::new();
        let mut idx: usize = 0;
        while idx < items.len()
            invariant
                idx <= items.len(),
                instance@ is Array,
                instance@->Array_0 == views(items@),
                views(items@).len() == items@.len(),
                forall|j: int| 0 <= j < items@.len() ==> (#[trigger] views(items@)[j]) == items@[j]@,
                errors@.len() == 0 <==> forall|j: int|
                    0 <= j < idx ==> ty.admits(strict, #[trigger] instance@->Array_0[j]),
                crate::evaluation::told(errors@) == crate::outcome::item_faults(
                    ty,
                    strict,
                    views(items@),
                    idx as nat,
                ),
            decreases items.len() - idx,
        {
            let item = &items[idx];
            let ghost before = errors@;
            proof {
                let all = views(items@);
                assert(crate::outcome::item_faults(ty, strict, all, (idx + 1) as nat)
                    == crate::outcome::item_faults(ty, strict, all, idx as nat) + if ty.admits(
                    strict,
                    all[idx as int],
                ) {
                    Seq::<(Seq<char>, Seq<char>)>::empty()
                } else {
                    seq![crate::outcome::item_fault(ty, all[idx as int], idx as nat)]
                });
            }
            if !ty.is_type_of(strict, item) {
                let mut message = crate::render::render(item);
                message.append(" at index ");
                message.append(crate::text::usize_to_string(idx).as_str());
                message.append(" is not of type \"");
                message.append(ty.as_str());
                message.append("\"");
                errors.push(crate::evaluation::ErrorDescription::new("type", message));
                proof {
                    assert(!ty.admits(strict, instance@->Array_0[idx as int]));
                    assert(errors@.drop_last() =~= before);
                    assert(crate::evaluation::told(errors@) =~= crate::evaluation::told(before).push(
                        crate::outcome::item_fault(ty, views(items@)[idx as int], idx as nat),
                    ));
                }
            } else {
                proof {
                    assert(crate::evaluation::told(errors@) =~= crate::evaluation::told(before)
                        + Seq::<(Seq<char>, Seq<char>)>::empty());
                }
            }
            idx += 1;
        }
        let schema_was_applied = items.len() > 0;
        if errors.len() == 0 {
            let mut result = crate::evaluation::EvaluationResult::valid_empty();
            result.annotate(Value::Bool(schema_was_applied));
            result
        } else {
            let mut result = crate::evaluation::EvaluationResult::invalid_empty(errors);
            result.annotate(Value::Bool(schema_was_applied));
            result
        }
    } else {
        let r = crate::evaluation::EvaluationResult::valid_empty();
        proof {
            assert(crate::evaluation::told(r.errors@) =~= Seq::<(Seq<char>, Seq<char>)>::empty());
        }
        r
    }
}

/// The results of the items that have a schema at their position.
pub fn positional_children(
    nodes: &Vec<SchemaNode>,
    items: &Vec<Value>,
    reg: &Registry,
    location: &Location,
    tracker: Option<&RefTracker>,
    depth: usize,
) -> (r: Vec<crate::evaluation::EvaluationNode>)
    requires
        reg.wf(),
        nodes_wf(nodes@),
    ensures
        r@.len() == paired(nodes@.len(), items@.len()),
        forall|j: int|
            0 <= j < r@.len() ==> (#[trigger] r@[j]).valid == node_valid(
                reg,
                &nodes@[j],
                items@[j]@,
                depth as nat,
            ),
        crate::outcome::positional_below(
            reg,
            nodes@,
            views(items@),
            location@,
            tracker_view(tracker),
            depth as nat,
            r@,
        ),
    decreases depth, nodes, 0nat,
{
    proof {
        lemma_views(items@);
    }
    let mut children: Vec<crate::evaluation::EvaluationNode> = Vec::new();
    let mut idx: usize = 0;
    while idx < items.len() && idx < nodes.len()
        invariant
            idx <= items.len(),
            idx <= nodes.len(),
            reg.wf(),
            nodes_wf(nodes@),
            children@.len() == idx,
            views(items@).len() == items@.len(),
            forall|j: int| 0 <= j < items@.len() ==> (#[trigger] views(items@)[j]) == items@[j]@,
            forall|j: int|
                0 <= j < idx ==> (#[trigger] children@[j]).valid == node_valid(
                    reg,
                    &nodes@[j],
                    items@[j]@,
                    depth as nat,
                ),
            forall|j: int|
                0 <= j < idx ==> crate::outcome::node_result(
                    reg,
                    &nodes@[j],
                    views(items@)[j],
                    location@.push(Seg::Index(j as nat)),
                    tracker_view(tracker),
                    depth as nat,
                    #[trigger] &children@[j],
                ),
        decreases items.len() - idx,
    {
        let ghost before = children@;
        children.push(
            nodes[idx].evaluate_instance(reg, &items[idx], &location.join_index(idx), tracker, depth),
        );
        proof {
            assert forall|j: int| 0 <= j < idx + 1 implies crate::outcome::node_result(
                reg,
                &nodes@[j],
                views(items@)[j],
                location@.push(Seg::Index(j as nat)),
                tracker_view(tracker),
                depth as nat,
                #[trigger] &children@[j],
            ) by {
                if j < idx {
                    assert(children@[j] == before[j]);
                }
            }
            assert forall|j: int| 0 <= j < idx + 1 implies (#[trigger] children@[j]).valid
                == node_valid(reg, &nodes@[j], items@[j]@, depth as nat) by {
                if j < idx {
                    assert(children@[j] == before[j]);
                }
            }
        }
        idx += 1;
    }
    children
}

/// The results of the items from position `skip` on.
pub fn each_children(
    node: &SchemaNode,
    skip: usize,
    items: &Vec<Value>,
    reg: &Registry,
    location: &Location,
    tracker: Option<&RefTracker>,
    depth: usize,
) -> (r: Vec<crate::evaluation::EvaluationNode>)
    requires
        reg.wf(),
        node_wf(node),
    ensures
        skip <= items@.len() ==> r@.len() == items@.len() - skip,
        skip > items@.len() ==> r@.len() == 0,
        forall|j: int|
            0 <= j < r@.len() ==> (#[trigger] r@[j]).valid == node_valid(
                reg,
                node,
                items@[j + skip]@,
                depth as nat,
            ),
        crate::outcome::each_below(
            reg,
            node,
            skip as nat,
            views(items@),
            location@,
            tracker_view(tracker),
            depth as nat,
            r@,
        ),
    decreases depth, node, node.validators@.len() + 2,
{
    let mut children: Vec<crate::evaluation::EvaluationNode> = Vec::new();
    proof {
        lemma_views(items@);
    }
    if skip >= items.len() {
        return children;
    }
    let mut idx: usize = skip;
    while idx < items.len()
        invariant
            skip <= idx <= items.len(),
            reg.wf(),
            node_wf(node),
            children@.len() == idx - skip,
            views(items@).len() == items@.len(),
            forall|j: int| 0 <= j < items@.len() ==> (#[trigger] views(items@)[j]) == items@[j]@,
            forall|j: int|
                0 <= j < children@.len() ==> (#[trigger] children@[j]).valid == node_valid(
                    reg,
                    node,
                    items@[j + skip]@,
                    depth as nat,
                ),
            forall|j: int|
                0 <= j < children@.len() ==> crate::outcome::node_result(
                    reg,
                    node,
                    views(items@)[j + skip],
                    location@.push(Seg::Index((j + skip) as nat)),
                    tracker_view(tracker),
                    depth as nat,
                    #[trigger] &children@[j],
                ),
        decreases items.len() - idx,
    {
        let ghost before = children@;
        children.push(node.evaluate_instance(reg, &items[idx], &location.join_index(idx), tracker, depth));
        proof {
            assert forall|j: int| 0 <= j < children@.len() implies crate::outcome::node_result(
                reg,
                node,
                views(items@)[j + skip],
                location@.push(Seg::Index((j + skip) as nat)),
                tracker_view(tracker),
                depth as nat,
                #[trigger] &children@[j],
            ) by {
                if j < before.len() {
                    assert(children@[j] == before[j]);
                }
            }
            assert forall|j: int| 0 <= j < children@.len() implies (#[trigger] children@[j]).valid
                == node_valid(reg, node, items@[j + skip]@, depth as nat) by {
                if j < before.len() {
                    assert(children@[j] == before[j]);
                }
            }
        }
        idx += 1;
    }
    children
}

impl ItemsArrayValidator {
    pub fn evaluate(
        &self,
        reg: &Registry,
        instance: &Value,
        location: &Location,
        tracker: Option<&RefTracker>,
        depth: usize,
    ) -> (r: crate::evaluation::EvaluationResult)
        requires
            reg.wf(),
            self.wf(),
        ensures
            r.valid == self.valid(reg, instance@, depth as nat),
            crate::outcome::kw_outcome(
                reg,
                &KeywordValidator::ItemsArray(*self),
                instance@,
                location@,
                tracker_view(tracker),
                depth as nat,
                &r,
            ),
        decreases depth, self, 0nat,
    {
        if let Value::Array(items) = instance {
            let children = positional_children(&self.items, items, reg, location, tracker, depth);
            proof {
                lemma_views(items@);
                assert(crate::evaluation::all_hold(children@) <==> positional_valid(
                    reg,
                    self.items@,
                    instance@->Array_0,
                    depth as nat,
                )) by {
                    if crate::evaluation::all_hold(children@) {
                        assert forall|j: int|
                            0 <= j < self.items@.len() && j < instance@->Array_0.len() implies node_valid(
                            reg,
                            #[trigger] &self.items@[j],
                            instance@->Array_0[j],
                            depth as nat,
                        ) by {
                            assert(children@[j].valid);
                        }
                    }
                }
            }
            let r = crate::evaluation::EvaluationResult::from_children(children);
            proof {
                assert(crate::evaluation::told(r.errors@) =~= Seq::<(Seq<char>, Seq<char>)>::empty());
            }
            r
        } else {
            let r = crate::evaluation::EvaluationResult::valid_empty();
            proof {
                assert(crate::evaluation::told(r.errors@) =~= Seq::<(Seq<char>, Seq<char>)>::empty());
            }
            r
        }
    }
}

impl ItemsObjectValidator {
    pub fn evaluate(
        &self,
        reg: &Registry,
        instance: &Value,
        location: &Location,
        tracker: Option<&RefTracker>,
        depth: usize,
    ) -> (r: crate::evaluation::EvaluationResult)
        requires
            reg.wf(),
            self.wf(),
        ensures
            r.valid == self.valid(reg, instance@, depth as nat),
            crate::outcome::kw_outcome(
                reg,
                &KeywordValidator::ItemsObject(*self),
                instance@,
                location@,
                tracker_view(tracker),
                depth as nat,
                &r,
            ),
            instance@ is Array ==> r.annotations == applied_note(instance@->Array_0.len() > 0),
        decreases depth, self, 0nat,
    {
        if let Value::Array(items) = instance {
            let children = each_children(&self.node, 0, items, reg, location, tracker, depth);
            proof {
                lemma_views(items@);
                assert(crate::evaluation::all_hold(children@) <==> each_valid(
                    reg,
                    &self.node,
                    0,
                    instance@->Array_0,
                    depth as nat,
                )) by {
                    if crate::evaluation::all_hold(children@) {
                        assert forall|j: int| 0 <= j < instance@->Array_0.len() implies node_valid(
                            reg,
                            &self.node,
                            #[trigger] instance@->Array_0[j],
                            depth as nat,
                        ) by {
                            assert(children@[j].valid);
                        }
                    } else {
                        let j = choose|j: int| 0 <= j < children@.len() && !(#[trigger] children@[j]).valid;
                        assert(!node_valid(reg, &self.node, instance@->Array_0[j], depth as nat));
                    }
                }
            }
            let schema_was_applied = items.len() > 0;
            let mut r = crate::evaluation::EvaluationResult::from_children(children);
            r.annotate(Value::Bool(schema_was_applied));
            proof {
                assert(crate::evaluation::told(r.errors@) =~= Seq::<(Seq<char>, Seq<char>)>::empty());
            }
            r
        } else {
            let r = crate::evaluation::EvaluationResult::valid_empty();
            proof {
                assert(crate::evaluation::told(r.errors@) =~= Seq::<(Seq<char>, Seq<char>)>::empty());
            }
            r
        }
    }
}

impl ItemsObjectSkipPrefixValidator {
    pub fn evaluate(
        &self,
        reg: &Registry,
        instance: &Value,
        location: &Location,
        tracker: Option<&RefTracker>,
        depth: usize,
    ) -> (r: crate::evaluation::EvaluationResult)
        requires
            reg.wf(),
            self.wf(),
        ensures
            r.valid == self.valid(reg, instance@, depth as nat),
            crate::outcome::kw_outcome(
                reg,
                &KeywordValidator::ItemsObjectSkipPrefix(*self),
                instance@,
                location@,
                tracker_view(tracker),
                depth as nat,
                &r,
            ),
            instance@ is Array ==> r.annotations == applied_note(
                instance@->Array_0.len() > self.skip_prefix,
            ),
        decreases depth, self, 0nat,
    {
        if let Value::Array(items) = instance {
            let children = each_children(
                &self.node,
                self.skip_prefix,
                items,
                reg,
                location,
                tracker,
                depth,
            );
            proof {
                lemma_views(items@);
                let skip = self.skip_prefix as int;
                assert(crate::evaluation::all_hold(children@) <==> each_valid(
                    reg,
                    &self.node,
                    self.skip_prefix as nat,
                    instance@->Array_0,
                    depth as nat,
                )) by {
                    if crate::evaluation::all_hold(children@) {
                        assert forall|j: int| skip <= j < instance@->Array_0.len() implies node_valid(
                            reg,
                            &self.node,
                            #[trigger] instance@->Array_0[j],
                            depth as nat,
                        ) by {
                            assert(children@[j - skip].valid);
                        }
                    } else {
                        let j = choose|j: int| 0 <= j < children@.len() && !(#[trigger] children@[j]).valid;
                        assert(!node_valid(reg, &self.node, instance@->Array_0[j + skip], depth as nat));
                    }
                }
            }
            let schema_was_applied = items.len() > self.skip_prefix;
            let mut r = crate::evaluation::EvaluationResult::from_children(children);
            r.annotate(Value::Bool(schema_was_applied));
            proof {
                assert(crate::evaluation::told(r.errors@) =~= Seq::<(Seq<char>, Seq<char>)>::empty());
            }
            r
        } else {
            let r = crate::evaluation::EvaluationResult::valid_empty();
            proof {
                assert(crate::evaluation::told(r.errors@) =~= Seq::<(Seq<char>, Seq<char>)>::empty());
            }
            r
        }
    }
}

impl ItemsNumberTypeValidator {
    pub fn evaluate(&self, instance: &Value) -> (r: crate::evaluation::EvaluationResult)
        ensures
            r.valid == items_type_valid(JsonType::Number, false, instance@),
            r.children@.len() == 0,
            instance@ is Array ==> r.annotations == applied_note(instance@->Array_0.len() > 0),
            !(instance@ is Array) ==> r.annotations is None,
            crate::evaluation::told(r.errors@) == match instance@ {
                Json::Array(items) => crate::outcome::item_faults(
                    JsonType::Number,
                    false,
                    items,
                    items.len(),
                ),
                _ => Seq::empty(),
            },
    {
        evaluate_item_types(JsonType::Number, false, instance)
    }
}

impl ItemsStringTypeValidator {
    pub fn evaluate(&self, instance: &Value) -> (r: crate::evaluation::EvaluationResult)
        ensures
            r.valid == items_type_valid(JsonType::String, false, instance@),
            r.children@.len() == 0,
            instance@ is Array ==> r.annotations == applied_note(instance@->Array_0.len() > 0),
            !(instance@ is Array) ==> r.annotations is None,
            crate::evaluation::told(r.errors@) == match instance@ {
                Json::Array(items) => crate::outcome::item_faults(
                    JsonType::String,
                    false,
                    items,
                    items.len(),
                ),
                _ => Seq::empty(),
            },
    {
        evaluate_item_types(JsonType::String, false, instance)
    }
}

impl ItemsIntegerTypeValidator {
    pub fn evaluate(&self, instance: &Value) -> (r: crate::evaluation::EvaluationResult)
        ensures
            r.valid == items_type_valid(JsonType::Integer, false, instance@),
            r.children@.len() == 0,
            instance@ is Array ==> r.annotations == applied_note(instance@->Array_0.len() > 0),
            !(instance@ is Array) ==> r.annotations is None,
            crate::evaluation::told(r.errors@) == match instance@ {
                Json::Array(items) => crate::outcome::item_faults(
                    JsonType::Integer,
                    false,
                    items,
                    items.len(),
                ),
                _ => Seq::empty(),
            },
    {
        evaluate_item_types(JsonType::Integer, false, instance)
    }
}

impl ItemsIntegerTypeValidatorDraft4 {
    pub fn evaluate(&self, instance: &Value) -> (r: crate::evaluation::EvaluationResult)
        ensures
            r.valid == items_type_valid(JsonType::Integer, true, instance@),
            r.children@.len() == 0,
            instance@ is Array ==> r.annotations == applied_note(instance@->Array_0.len() > 0),
            !(instance@ is Array) ==> r.annotations is None,
            crate::evaluation::told(r.errors@) == match instance@ {
                Json::Array(items) => crate::outcome::item_faults(
                    JsonType::Integer,
                    true,
                    items,
                    items.len(),
                ),
                _ => Seq::empty(),
            },
    {
        evaluate_item_types(JsonType::Integer, true, instance)
    }
}

impl ItemsBooleanTypeValidator {
    pub fn evaluate(&self, instance: &Value) -> (r: crate::evaluation::EvaluationResult)
        ensures
            r.valid == items_type_valid(JsonType::Boolean, false, instance@),
            r.children@.len() == 0,
            instance@ is Array ==> r.annotations == applied_note(instance@->Array_0.len() > 0),
            !(instance@ is Array) ==> r.annotations is None,
            crate::evaluation::told(r.errors@) == match instance@ {
                Json::Array(items) => crate::outcome::item_faults(
                    JsonType::Boolean,
                    false,
                    items,
                    items.len(),
                ),
                _ => Seq::empty(),
            },
    {
        evaluate_item_types(JsonType::Boolean, false, instance)
    }
}

impl ItemsArrayValidator {
    /// The first error of the keyword on `instance`, if there is one.
    pub fn validate(
        &self,
        reg: &Registry,
        instance: &Value,
        location: &Location,
        tracker: Option<&RefTracker>,
        depth: usize,
    ) -> (r: Result<(), ValidationError>)
        requires
            reg.wf(),
            self.wf(),
        ensures
            crate::node::first_error(
                r,
                self.errors(reg, instance@, location@, tracker_view(tracker), depth as nat),
            ),
    {
        crate::node::take_first(self.iter_errors(reg, instance, location, tracker, depth))
    }
}

impl ItemsObjectValidator {
    /// The first error of the keyword on `instance`, if there is one.
    pub fn validate(
        &self,
        reg: &Registry,
        instance: &Value,
        location: &Location,
        tracker: Option<&RefTracker>,
        depth: usize,
    ) -> (r: Result<(), ValidationError>)
        requires
            reg.wf(),
            self.wf(),
        ensures
            crate::node::first_error(
                r,
                self.errors(reg, instance@, location@, tracker_view(tracker), depth as nat),
            ),
    {
        crate::node::take_first(self.iter_errors(reg, instance, location, tracker, depth))
    }
}

impl ItemsObjectSkipPrefixValidator {
    /// The first error of the keyword on `instance`, if there is one.
    pub fn validate(
        &self,
        reg: &Registry,
        instance: &Value,
        location: &Location,
        tracker: Option<&RefTracker>,
        depth: usize,
    ) -> (r: Result<(), ValidationError>)
        requires
            reg.wf(),
            self.wf(),
        ensures
            crate::node::first_error(
                r,
                self.errors(reg, instance@, location@, tracker_view(tracker), depth as nat),
            ),
    {
        crate::node::take_first(self.iter_errors(reg, instance, location, tracker, depth))
    }
}

} // verus!
