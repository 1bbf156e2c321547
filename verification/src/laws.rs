//! What holds of every schema and every instance.
use vstd::prelude::*;
use crate::error::ErrorView;
use crate::json::Json;
use crate::keywords::additional_properties::AdditionalPropertiesValidator;
use crate::keywords::combinators::all_errors;
use crate::keywords::items::{
    each_errors, each_valid, lemma_items_type_consistent, paired, positional_errors,
    positional_valid,
};
use crate::keywords::properties::{
    BigPropertiesValidator, properties_errors, property_errors, property_valid,
};
use crate::keywords::required::lemma_required_consistent;
use crate::keywords::unevaluated_properties::UnevaluatedPropertiesValidator;
use crate::node::{
    KeywordValidator, Registry, SchemaNode, kw_errors, kw_valid, kws_errors, node_errors, node_valid,
};
use crate::json::{json_wf, lemma_obj_get_at, lemma_obj_get_member, obj_get};
use crate::keywords::boolean::keyword_error;
use crate::keywords::items::item_type_errors;
use crate::keywords::required::missing_errors;
use crate::paths::{Seg, captured, json_at, json_child};
use crate::types::JsonType;
use crate::validator::Validator;

verus! {

/// The verdict and the errors agree: a value satisfies a schema exactly when
/// the schema has no error on it, wherever the value lies and whatever
/// reference was followed to the schema.
pub proof fn lemma_verdict_consistent(
    reg: &Registry,
    node: &SchemaNode,
    instance: Json,
    path: Seq<Seg>,
    tracker: Option<(Seq<Seg>, Seq<Seg>)>,
    depth: nat,
)
    ensures
        node_valid(reg, node, instance, depth) <==> node_errors(
            reg,
            node,
            instance,
            path,
            tracker,
            depth,
        ).len() == 0,
    decreases depth, node, node.validators@.len() + 1,
{
    lemma_keywords_consistent(reg, node, node.validators@.len(), instance, path, tracker, depth);
}

/// The first `n` keywords have no error exactly when the value satisfies
/// each of them.
proof fn lemma_keywords_consistent(
    reg: &Registry,
    node: &SchemaNode,
    n: nat,
    instance: Json,
    path: Seq<Seg>,
    tracker: Option<(Seq<Seg>, Seq<Seg>)>,
    depth: nat,
)
    requires
        n <= node.validators@.len(),
    ensures
        kws_errors(reg, node, n, instance, path, tracker, depth).len() == 0 <==> forall|j: int|
            0 <= j < n ==> kw_valid(reg, #[trigger] &node.validators@[j], instance, depth),
    decreases depth, node, n,
{
    if n > 0 {
        lemma_keywords_consistent(reg, node, (n - 1) as nat, instance, path, tracker, depth);
        lemma_keyword_consistent(reg, &node.validators@[n - 1], instance, path, tracker, depth);
        assert(kws_errors(reg, node, n, instance, path, tracker, depth) == kws_errors(
            reg,
            node,
            (n - 1) as nat,
            instance,
            path,
            tracker,
            depth,
        ) + kw_errors(reg, &node.validators@[n - 1], instance, path, tracker, depth));
        if !kw_valid(reg, &node.validators@[n - 1], instance, depth) {
            assert(!(forall|j: int|
                0 <= j < n ==> kw_valid(reg, #[trigger] &node.validators@[j], instance, depth)));
        }
    }
}

/// One keyword has no error exactly when the value satisfies it.
pub proof fn lemma_keyword_consistent(
    reg: &Registry,
    kw: &KeywordValidator,
    instance: Json,
    path: Seq<Seg>,
    tracker: Option<(Seq<Seg>, Seq<Seg>)>,
    depth: nat,
)
    ensures
        kw_valid(reg, kw, instance, depth) <==> kw_errors(reg, kw, instance, path, tracker, depth).len()
            == 0,
    decreases depth, kw, instance->Object_0.len() + 2,
{
    match kw {
        KeywordValidator::Required(v) => {
            lemma_required_consistent(v.names(), v.location@, tracker, instance, path);
        },
        KeywordValidator::SingleItemRequired(v) => {
            lemma_required_consistent(v.names(), v.location@, tracker, instance, path);
        },
        KeywordValidator::Required2(v) => {
            lemma_required_consistent(v.names(), v.location@, tracker, instance, path);
        },
        KeywordValidator::Required3(v) => {
            lemma_required_consistent(v.names(), v.location@, tracker, instance, path);
        },
        KeywordValidator::ItemsNumberType(v) => {
            lemma_items_type_consistent(JsonType::Number, false, v.location@, tracker, instance, path);
        },
        KeywordValidator::ItemsStringType(v) => {
            lemma_items_type_consistent(JsonType::String, false, v.location@, tracker, instance, path);
        },
        KeywordValidator::ItemsIntegerType(v) => {
            lemma_items_type_consistent(JsonType::Integer, false, v.location@, tracker, instance, path);
        },
        KeywordValidator::ItemsIntegerTypeDraft4(v) => {
            lemma_items_type_consistent(JsonType::Integer, true, v.location@, tracker, instance, path);
        },
        KeywordValidator::ItemsBooleanType(v) => {
            lemma_items_type_consistent(JsonType::Boolean, false, v.location@, tracker, instance, path);
        },
        KeywordValidator::ItemsArray(v) => {
            lemma_items_array_consistent(reg, v, instance, path, tracker, depth);
        },
        KeywordValidator::PrefixItems(v) => {
            lemma_prefix_items_consistent(reg, v, instance, path, tracker, depth);
        },
        KeywordValidator::ItemsObject(v) => {
            lemma_items_object_consistent(reg, v, instance, path, tracker, depth);
        },
        KeywordValidator::ItemsObjectSkipPrefix(v) => {
            lemma_items_skip_consistent(reg, v, instance, path, tracker, depth);
        },
        KeywordValidator::SmallProperties(v) => {
            lemma_small_consistent(reg, v, instance, path, tracker, depth);
        },
        KeywordValidator::SmallPropertiesWithRequired2(v) => {
            lemma_fused_consistent(reg, v, instance, path, tracker, depth);
        },
        KeywordValidator::BigProperties(v) => {
            lemma_big_properties_consistent(reg, v, instance, path, tracker, depth);
        },
        KeywordValidator::AdditionalProperties(v) => {
            lemma_additional_properties_consistent(reg, v, instance, path, tracker, depth);
        },
        KeywordValidator::UnevaluatedProperties(v) => {
            lemma_unevaluated_properties_consistent(reg, v, instance, path, tracker, depth);
        },
        KeywordValidator::AllOf(v) => {
            lemma_all_of_consistent(reg, v, instance, path, tracker, depth);
        },
        KeywordValidator::AnyOf(_) => {},
        KeywordValidator::OneOf(_) => {},
        KeywordValidator::FalseSchema(_) => {},
        KeywordValidator::Type(_) => {},
        KeywordValidator::MinLength(_) => {},
        KeywordValidator::Const(_) => {},
        KeywordValidator::Enum(_) => {},
        KeywordValidator::Not(_) => {},
        KeywordValidator::DependentRequired(v) => {
            if instance is Object {
                lemma_rules_consistent(v.rules@, v.rules@.len(), instance, path, tracker);
            }
        },
        KeywordValidator::PropertyNames(v) => {
            if instance is Object {
                lemma_names_consistent(
                    reg,
                    &v.node,
                    v.location@,
                    instance->Object_0.len(),
                    instance,
                    path,
                    tracker,
                    depth,
                );
            }
        },
        KeywordValidator::Contains(_) => {},
        KeywordValidator::DependentSchemas(v) => {
            if instance is Object {
                lemma_dependent_consistent(
                    reg,
                    v.schemas@,
                    v.schemas@.len(),
                    instance,
                    path,
                    tracker,
                    depth,
                );
            }
        },
        KeywordValidator::If(v) => {
            match v.chosen(reg, instance, depth) {
                Some(node) => {
                    lemma_verdict_consistent(reg, &node, instance, path, tracker, depth);
                },
                None => {},
            }
        },
        KeywordValidator::Limit(_) => {},
        KeywordValidator::UniqueItems(_) => {},
        KeywordValidator::Ref(v) => {
            if depth > 0 && reg.has(v.target@) {
                lemma_verdict_consistent(
                    reg,
                    &reg.targets@[reg.position(v.target@)].node,
                    instance,
                    path,
                    Some((v.target@, crate::paths::captured(tracker, v.location@))),
                    (depth - 1) as nat,
                );
            }
        },
    }
}

proof fn lemma_items_array_consistent(
    reg: &Registry,
    v: &crate::keywords::items::ItemsArrayValidator,
    instance: Json,
    path: Seq<Seg>,
    tracker: Option<(Seq<Seg>, Seq<Seg>)>,
    depth: nat,
)
    ensures
        v.valid(reg, instance, depth) <==> v.errors(reg, instance, path, tracker, depth).len() == 0,
    decreases depth, v, 0nat,
{
    if instance is Array {
        let n = paired(v.items@.len(), instance->Array_0.len());
        lemma_positional_consistent(reg, v.items@, n, instance->Array_0, path, tracker, depth);
        assert(positional_valid(reg, v.items@, instance->Array_0, depth) <==> forall|j: int|
            0 <= j < n ==> node_valid(reg, #[trigger] &v.items@[j], instance->Array_0[j], depth));
    }
}

proof fn lemma_prefix_items_consistent(
    reg: &Registry,
    v: &crate::keywords::prefix_items::PrefixItemsValidator,
    instance: Json,
    path: Seq<Seg>,
    tracker: Option<(Seq<Seg>, Seq<Seg>)>,
    depth: nat,
)
    ensures
        v.valid(reg, instance, depth) <==> v.errors(reg, instance, path, tracker, depth).len() == 0,
    decreases depth, v, 0nat,
{
    if instance is Array {
        let n = paired(v.schemas@.len(), instance->Array_0.len());
        lemma_positional_consistent(reg, v.schemas@, n, instance->Array_0, path, tracker, depth);
        assert(positional_valid(reg, v.schemas@, instance->Array_0, depth) <==> forall|j: int|
            0 <= j < n ==> node_valid(reg, #[trigger] &v.schemas@[j], instance->Array_0[j], depth));
    }
}

proof fn lemma_items_object_consistent(
    reg: &Registry,
    v: &crate::keywords::items::ItemsObjectValidator,
    instance: Json,
    path: Seq<Seg>,
    tracker: Option<(Seq<Seg>, Seq<Seg>)>,
    depth: nat,
)
    ensures
        v.valid(reg, instance, depth) <==> v.errors(reg, instance, path, tracker, depth).len() == 0,
    decreases depth, v, 0nat,
{
    if instance is Array {
        let items = instance->Array_0;
        let skip: nat = 0;
        lemma_each_consistent(reg, &v.node, skip, items.len(), items, path, tracker, depth);
        assert(each_valid(reg, &v.node, skip, items, depth) <==> forall|j: int|
            skip <= j < items.len() ==> node_valid(reg, &v.node, #[trigger] items[j], depth));
    }
}

proof fn lemma_items_skip_consistent(
    reg: &Registry,
    v: &crate::keywords::items::ItemsObjectSkipPrefixValidator,
    instance: Json,
    path: Seq<Seg>,
    tracker: Option<(Seq<Seg>, Seq<Seg>)>,
    depth: nat,
)
    ensures
        v.valid(reg, instance, depth) <==> v.errors(reg, instance, path, tracker, depth).len() == 0,
    decreases depth, v, 0nat,
{
    if instance is Array {
        let items = instance->Array_0;
        let skip: nat = v.skip_prefix as nat;
        lemma_each_consistent(reg, &v.node, skip, items.len(), items, path, tracker, depth);
        assert(each_valid(reg, &v.node, skip, items, depth) <==> forall|j: int|
            skip <= j < items.len() ==> node_valid(reg, &v.node, #[trigger] items[j], depth));
    }
}

proof fn lemma_small_consistent(
    reg: &Registry,
    v: &crate::keywords::properties::SmallPropertiesValidator,
    instance: Json,
    path: Seq<Seg>,
    tracker: Option<(Seq<Seg>, Seq<Seg>)>,
    depth: nat,
)
    ensures
        v.valid(reg, instance, depth) <==> v.errors(reg, instance, path, tracker, depth).len() == 0,
    decreases depth, v, 0nat,
{
    if instance is Object {
        lemma_properties_consistent(
            reg,
            v.properties@,
            v.properties@.len(),
            instance->Object_0,
            path,
            tracker,
            depth,
        );
    }
}

proof fn lemma_fused_consistent(
    reg: &Registry,
    v: &crate::keywords::properties::SmallPropertiesWithRequired2Validator,
    instance: Json,
    path: Seq<Seg>,
    tracker: Option<(Seq<Seg>, Seq<Seg>)>,
    depth: nat,
)
    ensures
        v.valid(reg, instance, depth) <==> v.errors(reg, instance, path, tracker, depth).len() == 0,
    decreases depth, v, 0nat,
{
    if instance is Object {
        lemma_required_consistent(v.names(), v.required_location@, tracker, instance, path);
        lemma_properties_consistent(
            reg,
            v.properties@,
            v.properties@.len(),
            instance->Object_0,
            path,
            tracker,
            depth,
        );
    }
}

proof fn lemma_big_properties_consistent(
    reg: &Registry,
    v: &BigPropertiesValidator,
    instance: Json,
    path: Seq<Seg>,
    tracker: Option<(Seq<Seg>, Seq<Seg>)>,
    depth: nat,
)
    ensures
        v.valid(reg, instance, depth) <==> v.errors(reg, instance, path, tracker, depth).len() == 0,
    decreases depth, v, instance->Object_0.len() + 1,
{
    if instance is Object {
        lemma_big_consistent(
            reg,
            v,
            instance->Object_0.len(),
            instance->Object_0,
            path,
            tracker,
            depth,
        );
    }
}

proof fn lemma_additional_properties_consistent(
    reg: &Registry,
    v: &AdditionalPropertiesValidator,
    instance: Json,
    path: Seq<Seg>,
    tracker: Option<(Seq<Seg>, Seq<Seg>)>,
    depth: nat,
)
    ensures
        v.valid(reg, instance, depth) <==> v.errors(reg, instance, path, tracker, depth).len() == 0,
    decreases depth, v, instance->Object_0.len() + 1,
{
    if instance is Object {
        lemma_required_consistent(v.names(), v.required_location@, tracker, instance, path);
        lemma_additional_consistent(
            reg,
            v,
            instance->Object_0.len(),
            instance->Object_0,
            path,
            tracker,
            depth,
        );
        if v.required is Some {
            assert(v.names()[0] == v.required->0@);
        }
    }
}

proof fn lemma_unevaluated_properties_consistent(
    reg: &Registry,
    v: &UnevaluatedPropertiesValidator,
    instance: Json,
    path: Seq<Seg>,
    tracker: Option<(Seq<Seg>, Seq<Seg>)>,
    depth: nat,
)
    ensures
        v.valid(reg, instance, depth) <==> v.errors(reg, instance, path, tracker, depth).len() == 0,
    decreases depth, v, 0nat,
{
    if instance is Object {
        lemma_unevaluated_consistent(reg, v, instance, instance->Object_0.len(), depth);
    }
}

proof fn lemma_all_of_consistent(
    reg: &Registry,
    v: &crate::keywords::combinators::AllOfValidator,
    instance: Json,
    path: Seq<Seg>,
    tracker: Option<(Seq<Seg>, Seq<Seg>)>,
    depth: nat,
)
    ensures
        v.valid(reg, instance, depth) <==> v.errors(reg, instance, path, tracker, depth).len() == 0,
    decreases depth, v, 0nat,
{
    lemma_all_consistent(reg, v.schemas@, v.schemas@.len(), instance, path, tracker, depth);
}

proof fn lemma_properties_consistent(
    reg: &Registry,
    properties: Seq<(String, SchemaNode)>,
    n: nat,
    members: Seq<(Seq<char>, Json)>,
    path: Seq<Seg>,
    tracker: Option<(Seq<Seg>, Seq<Seg>)>,
    depth: nat,
)
    requires
        n <= properties.len(),
    ensures
        properties_errors(reg, properties, n, members, path, tracker, depth).len() == 0
            <==> forall|j: int|
            0 <= j < n ==> property_valid(reg, #[trigger] &properties[j], members, depth),
    decreases depth, properties, n,
{
    if n > 0 {
        lemma_properties_consistent(reg, properties, (n - 1) as nat, members, path, tracker, depth);
        let property = &properties[n - 1];
        assert(properties_errors(reg, properties, n, members, path, tracker, depth)
            == properties_errors(reg, properties, (n - 1) as nat, members, path, tracker, depth)
            + property_errors(reg, property, members, path, tracker, depth));
        match crate::json::obj_get(members, property.0@) {
            Some(value) => {
                lemma_verdict_consistent(
                    reg,
                    &property.1,
                    value,
                    path.push(Seg::Property(property.0@)),
                    tracker,
                    depth,
                );
            },
            None => {},
        }
        if !property_valid(reg, property, members, depth) {
            assert(!(forall|j: int|
                0 <= j < n ==> property_valid(reg, #[trigger] &properties[j], members, depth)));
        }
    }
}

proof fn lemma_big_consistent(
    reg: &Registry,
    v: &BigPropertiesValidator,
    n: nat,
    members: Seq<(Seq<char>, Json)>,
    path: Seq<Seg>,
    tracker: Option<(Seq<Seg>, Seq<Seg>)>,
    depth: nat,
)
    requires
        n <= members.len(),
    ensures
        v.members_errors(reg, n, members, path, tracker, depth).len() == 0 <==> forall|j: int|
            0 <= j < n ==> v.member_valid(reg, #[trigger] members[j], depth),
    decreases depth, v, n,
{
    if n > 0 {
        lemma_big_consistent(reg, v, (n - 1) as nat, members, path, tracker, depth);
        let member = members[n - 1];
        assert(v.members_errors(reg, n, members, path, tracker, depth) == v.members_errors(
            reg,
            (n - 1) as nat,
            members,
            path,
            tracker,
            depth,
        ) + v.member_errors(reg, member, path, tracker, depth));
        let index = crate::collections::index_contents(v.names);
        if index.contains_key(member.0) && index[member.0] < v.properties@.len() {
            lemma_verdict_consistent(
                reg,
                &v.properties@[index[member.0] as int].1,
                member.1,
                path.push(Seg::Property(member.0)),
                tracker,
                depth,
            );
        }
        if !v.member_valid(reg, member, depth) {
            assert(!(forall|j: int| 0 <= j < n ==> v.member_valid(reg, #[trigger] members[j], depth)));
        }
    }
}

proof fn lemma_additional_consistent(
    reg: &Registry,
    v: &AdditionalPropertiesValidator,
    n: nat,
    members: Seq<(Seq<char>, Json)>,
    path: Seq<Seg>,
    tracker: Option<(Seq<Seg>, Seq<Seg>)>,
    depth: nat,
)
    requires
        n <= members.len(),
    ensures
        (v.members_errors(reg, n, members, path, tracker, depth).len() == 0 && v.unexpected(
            n,
            members,
        ).len() == 0) <==> forall|j: int|
            0 <= j < n ==> v.member_valid(reg, #[trigger] members[j], depth),
    decreases depth, v, n,
{
    if n > 0 {
        lemma_additional_consistent(reg, v, (n - 1) as nat, members, path, tracker, depth);
        let member = members[n - 1];
        assert(v.members_errors(reg, n, members, path, tracker, depth) == v.members_errors(
            reg,
            (n - 1) as nat,
            members,
            path,
            tracker,
            depth,
        ) + v.member_errors(reg, member, path, tracker, depth));
        let index = crate::keywords::additional_properties::schema_index(v.properties@, member.0);
        if crate::keywords::additional_properties::known(v.properties@, member.0) && 0 <= index
            < v.properties@.len() {
            lemma_verdict_consistent(
                reg,
                &v.properties@[index].1,
                member.1,
                path.push(Seg::Property(member.0)),
                tracker,
                depth,
            );
        } else {
            match v.additional {
                Some(node) => {
                    lemma_verdict_consistent(
                        reg,
                        &node,
                        member.1,
                        path.push(Seg::Property(member.0)),
                        tracker,
                        depth,
                    );
                },
                None => {},
            }
        }
        if !v.member_valid(reg, member, depth) {
            assert(!(forall|j: int| 0 <= j < n ==> v.member_valid(reg, #[trigger] members[j], depth)));
        }
    }
}

proof fn lemma_positional_consistent(
    reg: &Registry,
    nodes: Seq<SchemaNode>,
    n: nat,
    items: Seq<Json>,
    path: Seq<Seg>,
    tracker: Option<(Seq<Seg>, Seq<Seg>)>,
    depth: nat,
)
    requires
        n <= nodes.len(),
        n <= items.len(),
    ensures
        positional_errors(reg, nodes, n, items, path, tracker, depth).len() == 0 <==> forall|j: int|
            0 <= j < n ==> node_valid(reg, #[trigger] &nodes[j], items[j], depth),
    decreases depth, nodes, n,
{
    if n > 0 {
        lemma_positional_consistent(reg, nodes, (n - 1) as nat, items, path, tracker, depth);
        lemma_verdict_consistent(
            reg,
            &nodes[n - 1],
            items[n - 1],
            path.push(Seg::Index((n - 1) as nat)),
            tracker,
            depth,
        );
        assert(positional_errors(reg, nodes, n, items, path, tracker, depth) == positional_errors(
            reg,
            nodes,
            (n - 1) as nat,
            items,
            path,
            tracker,
            depth,
        ) + node_errors(
            reg,
            &nodes[n - 1],
            items[n - 1],
            path.push(Seg::Index((n - 1) as nat)),
            tracker,
            depth,
        ));
        if !node_valid(reg, &nodes[n - 1], items[n - 1], depth) {
            assert(!(forall|j: int|
                0 <= j < n ==> node_valid(reg, #[trigger] &nodes[j], items[j], depth)));
        }
    }
}

proof fn lemma_each_consistent(
    reg: &Registry,
    node: &SchemaNode,
    skip: nat,
    n: nat,
    items: Seq<Json>,
    path: Seq<Seg>,
    tracker: Option<(Seq<Seg>, Seq<Seg>)>,
    depth: nat,
)
    requires
        n <= items.len(),
    ensures
        each_errors(reg, node, skip, n, items, path, tracker, depth).len() == 0 <==> forall|j: int|
            skip <= j < n ==> node_valid(reg, node, #[trigger] items[j], depth),
    decreases depth, node, node.validators@.len() + 2 + n,
{
    if n > skip {
        lemma_each_consistent(reg, node, skip, (n - 1) as nat, items, path, tracker, depth);
        lemma_verdict_consistent(
            reg,
            node,
            items[n - 1],
            path.push(Seg::Index((n - 1) as nat)),
            tracker,
            depth,
        );
        assert(each_errors(reg, node, skip, n, items, path, tracker, depth) == each_errors(
            reg,
            node,
            skip,
            (n - 1) as nat,
            items,
            path,
            tracker,
            depth,
        ) + node_errors(
            reg,
            node,
            items[n - 1],
            path.push(Seg::Index((n - 1) as nat)),
            tracker,
            depth,
        ));
        if !node_valid(reg, node, items[n - 1], depth) {
            assert(!(forall|j: int|
                skip <= j < n ==> node_valid(reg, node, #[trigger] items[j], depth)));
        }
    }
}

proof fn lemma_dependent_consistent(
    reg: &Registry,
    schemas: Seq<(String, SchemaNode)>,
    n: nat,
    instance: Json,
    path: Seq<Seg>,
    tracker: Option<(Seq<Seg>, Seq<Seg>)>,
    depth: nat,
)
    requires
        n <= schemas.len(),
    ensures
        crate::keywords::dependent::dependent_errors(
            reg,
            schemas,
            n,
            instance,
            path,
            tracker,
            depth,
        ).len() == 0 <==> forall|j: int|
            0 <= j < n && crate::json::obj_has(instance->Object_0, (#[trigger] schemas[j]).0@)
                ==> node_valid(reg, &schemas[j].1, instance, depth),
    decreases depth, schemas, n,
{
    if n > 0 {
        lemma_dependent_consistent(reg, schemas, (n - 1) as nat, instance, path, tracker, depth);
        lemma_verdict_consistent(reg, &schemas[n - 1].1, instance, path, tracker, depth);
        let before = crate::keywords::dependent::dependent_errors(
            reg,
            schemas,
            (n - 1) as nat,
            instance,
            path,
            tracker,
            depth,
        );
        let has = crate::json::obj_has(instance->Object_0, schemas[n - 1].0@);
        assert(crate::keywords::dependent::dependent_errors(
            reg,
            schemas,
            n,
            instance,
            path,
            tracker,
            depth,
        ) == before + if has {
            node_errors(reg, &schemas[n - 1].1, instance, path, tracker, depth)
        } else {
            Seq::<ErrorView>::empty()
        });
        if has && !node_valid(reg, &schemas[n - 1].1, instance, depth) {
            assert(!(forall|j: int|
                0 <= j < n && crate::json::obj_has(instance->Object_0, (#[trigger] schemas[j]).0@)
                    ==> node_valid(reg, &schemas[j].1, instance, depth)));
        }
    }
}

proof fn lemma_names_consistent(
    reg: &Registry,
    node: &SchemaNode,
    location: Seq<Seg>,
    n: nat,
    instance: Json,
    path: Seq<Seg>,
    tracker: Option<(Seq<Seg>, Seq<Seg>)>,
    depth: nat,
)
    requires
        n <= instance->Object_0.len(),
    ensures
        crate::keywords::property_names::name_errors(
            reg,
            node,
            location,
            n,
            instance,
            path,
            tracker,
            depth,
        ).len() == 0 <==> forall|i: int|
            0 <= i < n ==> node_valid(
                reg,
                node,
                Json::String((#[trigger] instance->Object_0[i]).0),
                depth,
            ),
    decreases n,
{
    if n > 0 {
        lemma_names_consistent(reg, node, location, (n - 1) as nat, instance, path, tracker, depth);
        let members = instance->Object_0;
        let before = crate::keywords::property_names::name_errors(
            reg,
            node,
            location,
            (n - 1) as nat,
            instance,
            path,
            tracker,
            depth,
        );
        let fine = node_valid(reg, node, Json::String(members[n - 1].0), depth);
        assert(crate::keywords::property_names::name_errors(
            reg,
            node,
            location,
            n,
            instance,
            path,
            tracker,
            depth,
        ) == before + if fine {
            Seq::<ErrorView>::empty()
        } else {
            seq![
                crate::keywords::property_names::name_error(
                    reg,
                    node,
                    location,
                    members[n - 1].0,
                    instance,
                    path,
                    tracker,
                    depth,
                ),
            ]
        });
        if !fine {
            assert(!(forall|i: int|
                0 <= i < n ==> node_valid(
                    reg,
                    node,
                    Json::String((#[trigger] instance->Object_0[i]).0),
                    depth,
                )));
        }
    }
}

proof fn lemma_rules_consistent(
    rules: Seq<(String, KeywordValidator)>,
    n: nat,
    instance: Json,
    path: Seq<Seg>,
    tracker: Option<(Seq<Seg>, Seq<Seg>)>,
)
    requires
        n <= rules.len(),
    ensures
        crate::keywords::dependent_required::rule_errors(rules, n, instance, path, tracker).len() == 0
            <==> forall|j: int|
            0 <= j < n && crate::json::obj_has(instance->Object_0, (#[trigger] rules[j]).0@)
                ==> crate::keywords::required::required_valid(
                crate::keywords::required::required_names(rules[j].1),
                instance,
            ),
    decreases n,
{
    if n > 0 {
        lemma_rules_consistent(rules, (n - 1) as nat, instance, path, tracker);
        let names = crate::keywords::required::required_names(rules[n - 1].1);
        let location = crate::keywords::required::required_location(rules[n - 1].1);
        lemma_required_consistent(names, location, tracker, instance, path);
        let has = crate::json::obj_has(instance->Object_0, rules[n - 1].0@);
        assert(crate::keywords::dependent_required::rule_errors(rules, n, instance, path, tracker)
            == crate::keywords::dependent_required::rule_errors(
            rules,
            (n - 1) as nat,
            instance,
            path,
            tracker,
        ) + if has {
            crate::keywords::required::required_errors(names, location, tracker, instance, path)
        } else {
            Seq::<ErrorView>::empty()
        });
        if has && !crate::keywords::required::required_valid(names, instance) {
            assert(!(forall|j: int|
                0 <= j < n && crate::json::obj_has(instance->Object_0, (#[trigger] rules[j]).0@)
                    ==> crate::keywords::required::required_valid(
                    crate::keywords::required::required_names(rules[j].1),
                    instance,
                )));
        }
    }
}

proof fn lemma_all_consistent(
    reg: &Registry,
    nodes: Seq<SchemaNode>,
    n: nat,
    instance: Json,
    path: Seq<Seg>,
    tracker: Option<(Seq<Seg>, Seq<Seg>)>,
    depth: nat,
)
    requires
        n <= nodes.len(),
    ensures
        all_errors(reg, nodes, n, instance, path, tracker, depth).len() == 0 <==> forall|j: int|
            0 <= j < n ==> node_valid(reg, #[trigger] &nodes[j], instance, depth),
    decreases depth, nodes, n,
{
    if n > 0 {
        lemma_all_consistent(reg, nodes, (n - 1) as nat, instance, path, tracker, depth);
        lemma_verdict_consistent(reg, &nodes[n - 1], instance, path, tracker, depth);
        assert(all_errors(reg, nodes, n, instance, path, tracker, depth) == all_errors(
            reg,
            nodes,
            (n - 1) as nat,
            instance,
            path,
            tracker,
            depth,
        ) + node_errors(reg, &nodes[n - 1], instance, path, tracker, depth));
        if !node_valid(reg, &nodes[n - 1], instance, depth) {
            assert(!(forall|j: int|
                0 <= j < n ==> node_valid(reg, #[trigger] &nodes[j], instance, depth)));
        }
    }
}

proof fn lemma_unevaluated_consistent(
    reg: &Registry,
    v: &UnevaluatedPropertiesValidator,
    instance: Json,
    n: nat,
    depth: nat,
)
    requires
        n <= instance->Object_0.len(),
    ensures
        v.unexpected(reg, instance, n, depth).len() == 0 <==> forall|j: int|
            0 <= j < n ==> v.member_passes(reg, instance, #[trigger] instance->Object_0[j], depth),
    decreases n,
{
    if n > 0 {
        lemma_unevaluated_consistent(reg, v, instance, (n - 1) as nat, depth);
        if !v.member_passes(reg, instance, instance->Object_0[n - 1], depth) {
            assert(!(forall|j: int|
                0 <= j < n ==> v.member_passes(
                    reg,
                    instance,
                    #[trigger] instance->Object_0[j],
                    depth,
                )));
        }
    }
}

/// For every schema and instance the three ways of asking agree: the
/// instance is valid exactly when there is no first error, and exactly when
/// the list of all errors is empty.
pub proof fn law_verdicts_agree(validator: &Validator, instance: Json)
    ensures
        validator.valid(instance) <==> validator.errors(instance).len() == 0,
{
    lemma_verdict_consistent(
        &validator.registry(),
        &validator.root(),
        instance,
        Seq::empty(),
        None,
        crate::node::MAX_DEPTH as nat,
    );
}

/// A validator is built only of a schema document that keeps the rules of
/// its draft: whenever building succeeds, the check of the document passes,
/// and a document that the check refuses is never built.
pub proof fn law_built_is_well_formed(
    asked: Option<crate::types::Draft>,
    schema: Json,
    result: Result<Validator, crate::error::ValidationError>,
    checked: Result<(), crate::error::ValidationError>,
)
    requires
        crate::validator::built(asked, schema, result),
        checked is Ok <==> crate::meta::well_formed(asked, schema),
    ensures
        result is Ok ==> checked is Ok,
        checked is Err ==> result is Err,
{
}

/// Whether these are outcomes of the validator on the instance: what
/// `is_valid` answers, what `validate` returns, the errors that
/// `iter_errors` lists, and the verdict of the evaluation's flag.
pub open spec fn outcomes_of(
    validator: &Validator,
    instance: Json,
    verdict: bool,
    first: Result<(), crate::error::ValidationError>,
    all: Seq<crate::error::ValidationError>,
    flag: bool,
) -> bool {
    &&& verdict == validator.valid(instance)
    &&& crate::node::first_error(first, validator.errors(instance))
    &&& crate::error::error_views(all) == validator.errors(instance)
    &&& flag == validator.valid(instance)
}

/// The four ways of asking agree: for every schema and instance, the
/// instance is valid exactly when `validate` returns no error, exactly when
/// `iter_errors` lists none, and exactly when the flag of the evaluation
/// says so.
pub proof fn law_outcomes_agree(
    validator: &Validator,
    instance: Json,
    verdict: bool,
    first: Result<(), crate::error::ValidationError>,
    all: Seq<crate::error::ValidationError>,
    flag: bool,
)
    requires
        outcomes_of(validator, instance, verdict, first, all, flag),
    ensures
        verdict <==> first is Ok,
        verdict <==> all.len() == 0,
        verdict <==> flag,
{
    law_verdicts_agree(validator, instance);
    crate::error::lemma_error_views(all);
}

/// Validating again gives the same: any two outcomes of one validator on
/// one instance agree, in the verdict, in the first error and in each
/// error of the list.
pub proof fn law_repeatable(
    validator: &Validator,
    instance: Json,
    verdict: (bool, bool),
    first: (Result<(), crate::error::ValidationError>, Result<(), crate::error::ValidationError>),
    all: (Seq<crate::error::ValidationError>, Seq<crate::error::ValidationError>),
    flag: (bool, bool),
)
    requires
        outcomes_of(validator, instance, verdict.0, first.0, all.0, flag.0),
        outcomes_of(validator, instance, verdict.1, first.1, all.1, flag.1),
    ensures
        verdict.0 == verdict.1,
        flag.0 == flag.1,
        first.0 is Ok <==> first.1 is Ok,
        first.0 is Err ==> first.0->Err_0@ == first.1->Err_0@,
        all.0.len() == all.1.len(),
        forall|i: int| 0 <= i < all.0.len() ==> (#[trigger] all.0[i])@ == all.1[i]@,
{
    crate::error::lemma_error_views(all.0);
    crate::error::lemma_error_views(all.1);
    assert forall|i: int| 0 <= i < all.0.len() implies (#[trigger] all.0[i])@ == all.1[i]@ by {
        assert(crate::error::error_views(all.0)[i] == crate::error::error_views(all.1)[i]);
    }
}

/// Evaluating again gives the same: any two structured results of one
/// validator on one instance show the same flag, the same list and the same
/// tree.
pub proof fn law_evaluations_agree(
    validator: &Validator,
    instance: Json,
    first: &crate::evaluation::Evaluation,
    second: &crate::evaluation::Evaluation,
)
    requires
        validator.evaluated(instance, &first.root),
        validator.evaluated(instance, &second.root),
    ensures
        first.root.valid == second.root.valid,
        crate::evaluation::list_of(&first.root) == crate::evaluation::list_of(&second.root),
        crate::evaluation::unit_of(&first.root) == crate::evaluation::unit_of(&second.root),
{
    crate::agreement::lemma_same_node(
        &validator.registry(),
        &validator.root(),
        instance,
        Seq::empty(),
        None,
        crate::node::MAX_DEPTH as nat,
        &first.root,
        &second.root,
    );
}

/// Whether the error names a value of `instance`, which lies at `path`, and
/// where that value lies: the path of the error goes on from `path`, and
/// leads from `instance` to the value that the error holds.
pub open spec fn located(error: ErrorView, instance: Json, path: Seq<Seg>) -> bool {
    path.is_prefix_of(error.instance_path) && json_at(
        instance,
        error.instance_path.skip(path.len() as int),
    ) == Some(error.instance)
}

/// Whether nothing was followed on the way to the error: its evaluation path
/// is its schema location.
pub open spec fn unrouted(error: ErrorView) -> bool {
    error.evaluation_path == error.schema_path
}

/// Whether no reference has been followed and none can be: none is left to
/// follow, or the registry has no schema that one could lead to.
pub open spec fn plain(reg: &Registry, tracker: Option<(Seq<Seg>, Seq<Seg>)>, depth: nat) -> bool {
    tracker is None && (depth == 0 || reg.targets@.len() == 0)
}

/// Whether each error names a value of `instance` and, where `direct`, was
/// reached without a reference.
pub open spec fn all_sound(errors: Seq<ErrorView>, instance: Json, path: Seq<Seg>, direct: bool) -> bool {
    forall|i: int|
        0 <= i < errors.len() ==> located(#[trigger] errors[i], instance, path) && (direct ==> unrouted(
            errors[i],
        ))
}

/// A path that starts with a step leads where the rest of the path leads
/// from the value that the step leads to.
pub proof fn lemma_json_at_first(root: Json, seg: Seg, rest: Seq<Seg>)
    ensures
        json_at(root, seq![seg] + rest) == match json_child(root, seg) {
            Some(child) => json_at(child, rest),
            None => None,
        },
    decreases rest.len(),
{
    let whole = seq![seg] + rest;
    if rest.len() == 0 {
        assert(whole.drop_last() =~= Seq::<Seg>::empty());
        assert(whole.last() == seg);
        assert(json_at(root, whole.drop_last()) == Some(root));
    } else {
        lemma_json_at_first(root, seg, rest.drop_last());
        assert(whole.drop_last() =~= seq![seg] + rest.drop_last());
        assert(whole.last() == rest.last());
    }
}

/// The errors of a child are sound for the parent too.
proof fn lemma_sound_under(
    errors: Seq<ErrorView>,
    instance: Json,
    path: Seq<Seg>,
    seg: Seg,
    child: Json,
    direct: bool,
)
    requires
        json_child(instance, seg) == Some(child),
        all_sound(errors, child, path.push(seg), direct),
    ensures
        all_sound(errors, instance, path, direct),
{
    assert forall|i: int| 0 <= i < errors.len() implies located(#[trigger] errors[i], instance, path)
        && (direct ==> unrouted(errors[i])) by {
        let e = errors[i];
        assert(located(e, child, path.push(seg)));
        let longer = path.push(seg);
        let rest = e.instance_path.skip(longer.len() as int);
        assert(longer =~= e.instance_path.subrange(0, longer.len() as int));
        assert(path =~= e.instance_path.subrange(0, path.len() as int)) by {
            assert forall|k: int| 0 <= k < path.len() implies path[k] == e.instance_path[k] by {
                assert(longer[k] == e.instance_path.subrange(0, longer.len() as int)[k]);
            }
        }
        assert(e.instance_path[path.len() as int] == seg) by {
            assert(longer[path.len() as int] == e.instance_path.subrange(0, longer.len() as int)[path.len() as int]);
        }
        assert(e.instance_path.skip(path.len() as int) =~= seq![seg] + rest);
        lemma_json_at_first(instance, seg, rest);
    }
}

/// Two sound lists, one after the other, are sound.
proof fn lemma_sound_concat(
    a: Seq<ErrorView>,
    b: Seq<ErrorView>,
    instance: Json,
    path: Seq<Seg>,
    direct: bool,
)
    requires
        all_sound(a, instance, path, direct),
        all_sound(b, instance, path, direct),
    ensures
        all_sound(a + b, instance, path, direct),
{
    assert forall|i: int| 0 <= i < (a + b).len() implies located(#[trigger] (a + b)[i], instance, path)
        && (direct ==> unrouted((a + b)[i])) by {
        if i < a.len() {
            assert((a + b)[i] == a[i]);
        } else {
            assert((a + b)[i] == b[i - a.len()]);
        }
    }
}

/// An error of a keyword on the value itself is sound.
proof fn lemma_sound_own(
    kind: crate::error::KindView,
    schema_path: Seq<Seg>,
    tracker: Option<(Seq<Seg>, Seq<Seg>)>,
    instance: Json,
    path: Seq<Seg>,
    depth: nat,
)
    ensures
        all_sound(
            seq![keyword_error(kind, schema_path, tracker, instance, path)],
            instance,
            path,
            tracker is None,
        ),
{
    let e = keyword_error(kind, schema_path, tracker, instance, path);
    assert(path =~= e.instance_path.subrange(0, path.len() as int));
    assert(e.instance_path.skip(path.len() as int) =~= Seq::<Seg>::empty());
}

proof fn lemma_missing_sound(
    names: Seq<Seq<char>>,
    n: nat,
    schema_path: Seq<Seg>,
    tracker: Option<(Seq<Seg>, Seq<Seg>)>,
    instance: Json,
    path: Seq<Seg>,
    depth: nat,
)
    ensures
        all_sound(
            missing_errors(names, n, schema_path, captured(tracker, schema_path), instance, path),
            instance,
            path,
            tracker is None,
        ),
    decreases n,
{
    if n > 0 && n <= names.len() {
        lemma_missing_sound(names, (n - 1) as nat, schema_path, tracker, instance, path, depth);
        let before = missing_errors(
            names,
            (n - 1) as nat,
            schema_path,
            captured(tracker, schema_path),
            instance,
            path,
        );
        if !crate::json::obj_has(instance->Object_0, names[n - 1]) {
            let e = crate::keywords::required::missing(
                schema_path,
                captured(tracker, schema_path),
                instance,
                path,
                names[n - 1],
            );
            assert(path =~= e.instance_path.subrange(0, path.len() as int));
            assert(e.instance_path.skip(path.len() as int) =~= Seq::<Seg>::empty());
            assert(all_sound(seq![e], instance, path, tracker is None));
            lemma_sound_concat(before, seq![e], instance, path, tracker is None);
            assert(before.push(e) =~= before + seq![e]);
        }
    }
}

proof fn lemma_required_sound(
    names: Seq<Seq<char>>,
    schema_path: Seq<Seg>,
    tracker: Option<(Seq<Seg>, Seq<Seg>)>,
    instance: Json,
    path: Seq<Seg>,
    depth: nat,
)
    ensures
        all_sound(
            crate::keywords::required::required_errors(names, schema_path, tracker, instance, path),
            instance,
            path,
            tracker is None,
        ),
{
    if instance is Object {
        lemma_missing_sound(names, names.len(), schema_path, tracker, instance, path, depth);
    }
}

proof fn lemma_item_types_sound(
    ty: JsonType,
    strict: bool,
    n: nat,
    schema_path: Seq<Seg>,
    tracker: Option<(Seq<Seg>, Seq<Seg>)>,
    instance: Json,
    path: Seq<Seg>,
    depth: nat,
)
    requires
        instance is Array,
    ensures
        all_sound(
            item_type_errors(
                ty,
                strict,
                instance->Array_0,
                n,
                schema_path,
                captured(tracker, schema_path),
                path,
            ),
            instance,
            path,
            tracker is None,
        ),
    decreases n,
{
    let items = instance->Array_0;
    if n > 0 && n <= items.len() {
        lemma_item_types_sound(ty, strict, (n - 1) as nat, schema_path, tracker, instance, path, depth);
        let before = item_type_errors(
            ty,
            strict,
            items,
            (n - 1) as nat,
            schema_path,
            captured(tracker, schema_path),
            path,
        );
        if !ty.admits(strict, items[n - 1]) {
            let e = crate::keywords::items::item_type_error(
                ty,
                schema_path,
                captured(tracker, schema_path),
                items[n - 1],
                path,
                (n - 1) as nat,
            );
            let seg = Seg::Index((n - 1) as nat);
            assert(path =~= e.instance_path.subrange(0, path.len() as int));
            assert(e.instance_path.skip(path.len() as int) =~= seq![seg] + Seq::<Seg>::empty());
            lemma_json_at_first(instance, seg, Seq::<Seg>::empty());
            assert(all_sound(seq![e], instance, path, tracker is None));
            lemma_sound_concat(before, seq![e], instance, path, tracker is None);
            assert(before.push(e) =~= before + seq![e]);
        }
    }
}

proof fn lemma_items_type_sound(
    ty: JsonType,
    strict: bool,
    schema_path: Seq<Seg>,
    tracker: Option<(Seq<Seg>, Seq<Seg>)>,
    instance: Json,
    path: Seq<Seg>,
    depth: nat,
)
    ensures
        all_sound(
            crate::keywords::items::items_type_errors(ty, strict, schema_path, tracker, instance, path),
            instance,
            path,
            tracker is None,
        ),
{
    if instance is Array {
        lemma_item_types_sound(
            ty,
            strict,
            instance->Array_0.len(),
            schema_path,
            tracker,
            instance,
            path,
            depth,
        );
    }
}

/// Every error of a schema names a value of the instance and leads to it:
/// following the error's instance path from the instance gives the value that
/// the error holds. And where no reference has been followed and none can be,
/// the evaluation path of every error is its schema location.
pub proof fn lemma_errors_sound(
    reg: &Registry,
    node: &SchemaNode,
    instance: Json,
    path: Seq<Seg>,
    tracker: Option<(Seq<Seg>, Seq<Seg>)>,
    depth: nat,
)
    requires
        json_wf(instance),
    ensures
        all_sound(
            node_errors(reg, node, instance, path, tracker, depth),
            instance,
            path,
            plain(reg, tracker, depth),
        ),
    decreases depth, node, node.validators@.len() + 1,
{
    lemma_keywords_sound(reg, node, node.validators@.len(), instance, path, tracker, depth);
}

proof fn lemma_keywords_sound(
    reg: &Registry,
    node: &SchemaNode,
    n: nat,
    instance: Json,
    path: Seq<Seg>,
    tracker: Option<(Seq<Seg>, Seq<Seg>)>,
    depth: nat,
)
    requires
        json_wf(instance),
        n <= node.validators@.len(),
    ensures
        all_sound(
            kws_errors(reg, node, n, instance, path, tracker, depth),
            instance,
            path,
            plain(reg, tracker, depth),
        ),
    decreases depth, node, n,
{
    if n > 0 {
        lemma_keywords_sound(reg, node, (n - 1) as nat, instance, path, tracker, depth);
        lemma_keyword_sound(reg, &node.validators@[n - 1], instance, path, tracker, depth);
        lemma_sound_concat(
            kws_errors(reg, node, (n - 1) as nat, instance, path, tracker, depth),
            kw_errors(reg, &node.validators@[n - 1], instance, path, tracker, depth),
            instance,
            path,
            plain(reg, tracker, depth),
        );
    }
}

proof fn lemma_keyword_sound(
    reg: &Registry,
    kw: &KeywordValidator,
    instance: Json,
    path: Seq<Seg>,
    tracker: Option<(Seq<Seg>, Seq<Seg>)>,
    depth: nat,
)
    requires
        json_wf(instance),
    ensures
        all_sound(
            kw_errors(reg, kw, instance, path, tracker, depth),
            instance,
            path,
            plain(reg, tracker, depth),
        ),
    decreases depth, kw, instance->Object_0.len() + 2,
{
    match kw {
        KeywordValidator::Required(v) => {
            lemma_required_sound(v.names(), v.location@, tracker, instance, path, depth);
        },
        KeywordValidator::SingleItemRequired(v) => {
            lemma_required_sound(v.names(), v.location@, tracker, instance, path, depth);
        },
        KeywordValidator::Required2(v) => {
            lemma_required_sound(v.names(), v.location@, tracker, instance, path, depth);
        },
        KeywordValidator::Required3(v) => {
            lemma_required_sound(v.names(), v.location@, tracker, instance, path, depth);
        },
        KeywordValidator::ItemsNumberType(v) => {
            lemma_items_type_sound(JsonType::Number, false, v.location@, tracker, instance, path, depth);
        },
        KeywordValidator::ItemsStringType(v) => {
            lemma_items_type_sound(JsonType::String, false, v.location@, tracker, instance, path, depth);
        },
        KeywordValidator::ItemsIntegerType(v) => {
            lemma_items_type_sound(JsonType::Integer, false, v.location@, tracker, instance, path, depth);
        },
        KeywordValidator::ItemsIntegerTypeDraft4(v) => {
            lemma_items_type_sound(JsonType::Integer, true, v.location@, tracker, instance, path, depth);
        },
        KeywordValidator::ItemsBooleanType(v) => {
            lemma_items_type_sound(JsonType::Boolean, false, v.location@, tracker, instance, path, depth);
        },
        KeywordValidator::ItemsArray(v) => {
            lemma_items_array_sound(reg, v, instance, path, tracker, depth);
        },
        KeywordValidator::PrefixItems(v) => {
            lemma_prefix_items_sound(reg, v, instance, path, tracker, depth);
        },
        KeywordValidator::ItemsObject(v) => {
            lemma_items_object_sound(reg, v, instance, path, tracker, depth);
        },
        KeywordValidator::ItemsObjectSkipPrefix(v) => {
            lemma_items_skip_sound(reg, v, instance, path, tracker, depth);
        },
        KeywordValidator::SmallProperties(v) => {
            lemma_small_sound(reg, v, instance, path, tracker, depth);
        },
        KeywordValidator::SmallPropertiesWithRequired2(v) => {
            lemma_fused_sound(reg, v, instance, path, tracker, depth);
        },
        KeywordValidator::BigProperties(v) => {
            lemma_big_properties_sound(reg, v, instance, path, tracker, depth);
        },
        KeywordValidator::AdditionalProperties(v) => {
            lemma_additional_properties_sound(reg, v, instance, path, tracker, depth);
        },
        KeywordValidator::UnevaluatedProperties(v) => {
            lemma_sound_own(
                crate::error::KindView::UnevaluatedProperties {
                    unexpected: v.unexpected(reg, instance, instance->Object_0.len(), depth),
                },
                v.location@,
                tracker,
                instance,
                path,
                depth,
            );
        },
        KeywordValidator::AllOf(v) => {
            lemma_all_sound(reg, v.schemas@, v.schemas@.len(), instance, path, tracker, depth);
        },
        KeywordValidator::AnyOf(v) => {
            lemma_sound_own(
                crate::error::KindView::AnyOf {
                    context: crate::keywords::combinators::branches(
                        reg,
                        v.schemas@,
                        v.schemas@.len(),
                        instance,
                        path,
                        tracker,
                        depth,
                    ),
                },
                v.location@,
                tracker,
                instance,
                path,
                depth,
            );
        },
        KeywordValidator::OneOf(v) => {
            let context = crate::keywords::combinators::branches(
                reg,
                v.schemas@,
                v.schemas@.len(),
                instance,
                path,
                tracker,
                depth,
            );
            lemma_sound_own(
                crate::error::KindView::OneOfNotValid { context },
                v.location@,
                tracker,
                instance,
                path,
                depth,
            );
            lemma_sound_own(
                crate::error::KindView::OneOfMultipleValid { context },
                v.location@,
                tracker,
                instance,
                path,
                depth,
            );
        },
        KeywordValidator::FalseSchema(v) => {
            lemma_sound_own(crate::error::KindView::FalseSchema, v.location@, tracker, instance, path, depth);
        },
        KeywordValidator::Type(v) => {
            lemma_sound_own(
                crate::error::KindView::Type { kind: crate::keywords::type_::asked(v.types@) },
                v.location@,
                tracker,
                instance,
                path,
                depth,
            );
        },
        KeywordValidator::MinLength(v) => {
            lemma_sound_own(
                crate::error::KindView::MinLength { limit: v.limit as nat },
                v.location@,
                tracker,
                instance,
                path,
                depth,
            );
        },
        KeywordValidator::Const(v) => {
            lemma_sound_own(
                crate::error::KindView::Constant { expected_value: v.value@ },
                v.location@,
                tracker,
                instance,
                path,
                depth,
            );
        },
        KeywordValidator::Limit(v) => {
            lemma_sound_own(v.rule.kind(v.limit as nat), v.location@, tracker, instance, path, depth);
        },
        KeywordValidator::UniqueItems(v) => {
            lemma_sound_own(crate::error::KindView::UniqueItems, v.location@, tracker, instance, path, depth);
        },
        KeywordValidator::If(v) => {
            match v.chosen(reg, instance, depth) {
                Some(node) => {
                    lemma_errors_sound(reg, &node, instance, path, tracker, depth);
                },
                None => {},
            }
        },
        KeywordValidator::DependentSchemas(v) => {
            if instance is Object {
                lemma_dependent_sound(
                    reg,
                    v.schemas@,
                    v.schemas@.len(),
                    instance,
                    path,
                    tracker,
                    depth,
                );
            }
        },
        KeywordValidator::Contains(v) => {
            lemma_sound_own(
                crate::error::KindView::Contains,
                v.location@,
                tracker,
                instance,
                path,
                depth,
            );
            if v.min is Some {
                lemma_sound_own(
                    crate::error::KindView::MinContains { limit: v.min->0 as nat },
                    v.min_location@,
                    tracker,
                    instance,
                    path,
                    depth,
                );
            }
            if v.max is Some {
                lemma_sound_own(
                    crate::error::KindView::MaxContains { limit: v.max->0 as nat },
                    v.max_location@,
                    tracker,
                    instance,
                    path,
                    depth,
                );
            }
        },
        KeywordValidator::PropertyNames(v) => {
            if instance is Object {
                lemma_names_sound(
                    reg,
                    &v.node,
                    v.location@,
                    instance->Object_0.len(),
                    instance,
                    path,
                    tracker,
                    depth,
                );
            }
        },
        KeywordValidator::DependentRequired(v) => {
            if instance is Object {
                lemma_rules_sound(reg, v.rules@, v.rules@.len(), instance, path, tracker, depth);
            }
        },
        KeywordValidator::Not(v) => {
            lemma_sound_own(
                crate::error::KindView::Not { schema: v.schema@ },
                v.location@,
                tracker,
                instance,
                path,
                depth,
            );
        },
        KeywordValidator::Enum(v) => {
            lemma_sound_own(
                crate::error::KindView::Enum { options: v.options@ },
                v.location@,
                tracker,
                instance,
                path,
                depth,
            );
        },
        KeywordValidator::Ref(v) => {
            if depth > 0 && reg.has(v.target@) {
                lemma_errors_sound(
                    reg,
                    &reg.targets@[reg.position(v.target@)].node,
                    instance,
                    path,
                    Some((v.target@, captured(tracker, v.location@))),
                    (depth - 1) as nat,
                );
            } else {
                lemma_sound_own(
                    crate::error::KindView::Referencing { message: "Unresolvable reference"@ },
                    v.location@,
                    tracker,
                    instance,
                    path,
                    depth,
                );
            }
        },
    }
}

proof fn lemma_positional_sound(
    reg: &Registry,
    nodes: Seq<SchemaNode>,
    n: nat,
    instance: Json,
    path: Seq<Seg>,
    tracker: Option<(Seq<Seg>, Seq<Seg>)>,
    depth: nat,
)
    requires
        json_wf(instance),
        instance is Array,
        n <= nodes.len(),
        n <= instance->Array_0.len(),
    ensures
        all_sound(
            positional_errors(reg, nodes, n, instance->Array_0, path, tracker, depth),
            instance,
            path,
            plain(reg, tracker, depth),
        ),
    decreases depth, nodes, n,
{
    let items = instance->Array_0;
    if n > 0 {
        lemma_positional_sound(reg, nodes, (n - 1) as nat, instance, path, tracker, depth);
        let seg = Seg::Index((n - 1) as nat);
        lemma_item_wf(instance, n - 1);
        lemma_errors_sound(reg, &nodes[n - 1], items[n - 1], path.push(seg), tracker, depth);
        let step = node_errors(reg, &nodes[n - 1], items[n - 1], path.push(seg), tracker, depth);
        lemma_sound_under(step, instance, path, seg, items[n - 1], plain(reg, tracker, depth));
        lemma_sound_concat(
            positional_errors(reg, nodes, (n - 1) as nat, items, path, tracker, depth),
            step,
            instance,
            path,
            plain(reg, tracker, depth),
        );
    }
}

proof fn lemma_each_sound(
    reg: &Registry,
    node: &SchemaNode,
    skip: nat,
    n: nat,
    instance: Json,
    path: Seq<Seg>,
    tracker: Option<(Seq<Seg>, Seq<Seg>)>,
    depth: nat,
)
    requires
        json_wf(instance),
        instance is Array,
        n <= instance->Array_0.len(),
    ensures
        all_sound(
            each_errors(reg, node, skip, n, instance->Array_0, path, tracker, depth),
            instance,
            path,
            plain(reg, tracker, depth),
        ),
    decreases depth, node, node.validators@.len() + 2 + n,
{
    let items = instance->Array_0;
    if n > skip {
        lemma_each_sound(reg, node, skip, (n - 1) as nat, instance, path, tracker, depth);
        let seg = Seg::Index((n - 1) as nat);
        lemma_item_wf(instance, n - 1);
        lemma_errors_sound(reg, node, items[n - 1], path.push(seg), tracker, depth);
        let step = node_errors(reg, node, items[n - 1], path.push(seg), tracker, depth);
        lemma_sound_under(step, instance, path, seg, items[n - 1], plain(reg, tracker, depth));
        lemma_sound_concat(
            each_errors(reg, node, skip, (n - 1) as nat, items, path, tracker, depth),
            step,
            instance,
            path,
            plain(reg, tracker, depth),
        );
    }
}

proof fn lemma_dependent_sound(
    reg: &Registry,
    schemas: Seq<(String, SchemaNode)>,
    n: nat,
    instance: Json,
    path: Seq<Seg>,
    tracker: Option<(Seq<Seg>, Seq<Seg>)>,
    depth: nat,
)
    requires
        json_wf(instance),
        n <= schemas.len(),
    ensures
        all_sound(
            crate::keywords::dependent::dependent_errors(
                reg,
                schemas,
                n,
                instance,
                path,
                tracker,
                depth,
            ),
            instance,
            path,
            plain(reg, tracker, depth),
        ),
    decreases depth, schemas, n,
{
    if n > 0 {
        lemma_dependent_sound(reg, schemas, (n - 1) as nat, instance, path, tracker, depth);
        lemma_errors_sound(reg, &schemas[n - 1].1, instance, path, tracker, depth);
        let step = if crate::json::obj_has(instance->Object_0, schemas[n - 1].0@) {
            node_errors(reg, &schemas[n - 1].1, instance, path, tracker, depth)
        } else {
            Seq::<ErrorView>::empty()
        };
        lemma_sound_concat(
            crate::keywords::dependent::dependent_errors(
                reg,
                schemas,
                (n - 1) as nat,
                instance,
                path,
                tracker,
                depth,
            ),
            step,
            instance,
            path,
            plain(reg, tracker, depth),
        );
    }
}

proof fn lemma_names_sound(
    reg: &Registry,
    node: &SchemaNode,
    location: Seq<Seg>,
    n: nat,
    instance: Json,
    path: Seq<Seg>,
    tracker: Option<(Seq<Seg>, Seq<Seg>)>,
    depth: nat,
)
    requires
        json_wf(instance),
        n <= instance->Object_0.len(),
    ensures
        all_sound(
            crate::keywords::property_names::name_errors(
                reg,
                node,
                location,
                n,
                instance,
                path,
                tracker,
                depth,
            ),
            instance,
            path,
            plain(reg, tracker, depth),
        ),
    decreases n,
{
    if n > 0 {
        lemma_names_sound(reg, node, location, (n - 1) as nat, instance, path, tracker, depth);
        let members = instance->Object_0;
        let name = members[n - 1].0;
        let step = if node_valid(reg, node, Json::String(name), depth) {
            Seq::<ErrorView>::empty()
        } else {
            seq![
                crate::keywords::property_names::name_error(
                    reg,
                    node,
                    location,
                    name,
                    instance,
                    path,
                    tracker,
                    depth,
                ),
            ]
        };
        lemma_sound_own(
            crate::error::KindView::PropertyNames {
                error: Box::new(node_errors(reg, node, Json::String(name), path, tracker, depth)[0]),
            },
            location,
            tracker,
            instance,
            path,
            depth,
        );
        lemma_sound_concat(
            crate::keywords::property_names::name_errors(
                reg,
                node,
                location,
                (n - 1) as nat,
                instance,
                path,
                tracker,
                depth,
            ),
            step,
            instance,
            path,
            plain(reg, tracker, depth),
        );
    }
}

proof fn lemma_rules_sound(
    reg: &Registry,
    rules: Seq<(String, KeywordValidator)>,
    n: nat,
    instance: Json,
    path: Seq<Seg>,
    tracker: Option<(Seq<Seg>, Seq<Seg>)>,
    depth: nat,
)
    requires
        json_wf(instance),
        n <= rules.len(),
    ensures
        all_sound(
            crate::keywords::dependent_required::rule_errors(rules, n, instance, path, tracker),
            instance,
            path,
            plain(reg, tracker, depth),
        ),
    decreases n,
{
    if n > 0 {
        lemma_rules_sound(reg, rules, (n - 1) as nat, instance, path, tracker, depth);
        let names = crate::keywords::required::required_names(rules[n - 1].1);
        let location = crate::keywords::required::required_location(rules[n - 1].1);
        lemma_required_sound(names, location, tracker, instance, path, depth);
        let step = if crate::json::obj_has(instance->Object_0, rules[n - 1].0@) {
            crate::keywords::required::required_errors(names, location, tracker, instance, path)
        } else {
            Seq::<ErrorView>::empty()
        };
        lemma_sound_concat(
            crate::keywords::dependent_required::rule_errors(
                rules,
                (n - 1) as nat,
                instance,
                path,
                tracker,
            ),
            step,
            instance,
            path,
            plain(reg, tracker, depth),
        );
    }
}

proof fn lemma_all_sound(
    reg: &Registry,
    nodes: Seq<SchemaNode>,
    n: nat,
    instance: Json,
    path: Seq<Seg>,
    tracker: Option<(Seq<Seg>, Seq<Seg>)>,
    depth: nat,
)
    requires
        json_wf(instance),
        n <= nodes.len(),
    ensures
        all_sound(
            all_errors(reg, nodes, n, instance, path, tracker, depth),
            instance,
            path,
            plain(reg, tracker, depth),
        ),
    decreases depth, nodes, n,
{
    if n > 0 {
        lemma_all_sound(reg, nodes, (n - 1) as nat, instance, path, tracker, depth);
        lemma_errors_sound(reg, &nodes[n - 1], instance, path, tracker, depth);
        lemma_sound_concat(
            all_errors(reg, nodes, (n - 1) as nat, instance, path, tracker, depth),
            node_errors(reg, &nodes[n - 1], instance, path, tracker, depth),
            instance,
            path,
            plain(reg, tracker, depth),
        );
    }
}

/// An item of a well-formed array is well formed.
proof fn lemma_item_wf(instance: Json, i: int)
    requires
        json_wf(instance),
        instance is Array,
        0 <= i < instance->Array_0.len(),
    ensures
        json_wf(instance->Array_0[i]),
{
    let items = instance->Array_0;
    assert(instance == Json::Array(items));
}

/// A member of a well-formed object has a well-formed value, and no other
/// member has its name.
proof fn lemma_member_wf(instance: Json, i: int)
    requires
        json_wf(instance),
        instance is Object,
        0 <= i < instance->Object_0.len(),
    ensures
        json_wf(instance->Object_0[i].1),
        crate::json::distinct_keys(instance->Object_0),
{
    let members = instance->Object_0;
    assert(instance == Json::Object(members));
}

/// The value that a lookup by name finds in a well-formed object is well
/// formed.
proof fn lemma_found_wf(instance: Json, name: Seq<char>)
    requires
        json_wf(instance),
        instance is Object,
        obj_get(instance->Object_0, name) is Some,
    ensures
        json_wf(obj_get(instance->Object_0, name)->0),
{
    lemma_obj_get_member(instance->Object_0, name);
    let members = instance->Object_0;
    let i = choose|i: int|
        0 <= i < members.len() && (#[trigger] members[i]).0 == name && members[i].1 == obj_get(
            members,
            name,
        )->0;
    lemma_member_wf(instance, i);
}

proof fn lemma_properties_sound(
    reg: &Registry,
    properties: Seq<(String, SchemaNode)>,
    n: nat,
    instance: Json,
    path: Seq<Seg>,
    tracker: Option<(Seq<Seg>, Seq<Seg>)>,
    depth: nat,
)
    requires
        json_wf(instance),
        instance is Object,
        n <= properties.len(),
    ensures
        all_sound(
            properties_errors(reg, properties, n, instance->Object_0, path, tracker, depth),
            instance,
            path,
            plain(reg, tracker, depth),
        ),
    decreases depth, properties, n,
{
    let members = instance->Object_0;
    if n > 0 {
        lemma_properties_sound(reg, properties, (n - 1) as nat, instance, path, tracker, depth);
        let property = &properties[n - 1];
        let step = property_errors(reg, property, members, path, tracker, depth);
        match obj_get(members, property.0@) {
            Some(value) => {
                let seg = Seg::Property(property.0@);
                lemma_found_wf(instance, property.0@);
                lemma_errors_sound(reg, &property.1, value, path.push(seg), tracker, depth);
                lemma_sound_under(step, instance, path, seg, value, plain(reg, tracker, depth));
            },
            None => {},
        }
        lemma_sound_concat(
            properties_errors(reg, properties, (n - 1) as nat, members, path, tracker, depth),
            step,
            instance,
            path,
            plain(reg, tracker, depth),
        );
    }
}

proof fn lemma_big_sound(
    reg: &Registry,
    v: &BigPropertiesValidator,
    n: nat,
    instance: Json,
    path: Seq<Seg>,
    tracker: Option<(Seq<Seg>, Seq<Seg>)>,
    depth: nat,
)
    requires
        json_wf(instance),
        instance is Object,
        n <= instance->Object_0.len(),
    ensures
        all_sound(
            v.members_errors(reg, n, instance->Object_0, path, tracker, depth),
            instance,
            path,
            plain(reg, tracker, depth),
        ),
    decreases depth, v, n,
{
    let members = instance->Object_0;
    if n > 0 {
        lemma_big_sound(reg, v, (n - 1) as nat, instance, path, tracker, depth);
        let member = members[n - 1];
        let step = v.member_errors(reg, member, path, tracker, depth);
        let index = crate::collections::index_contents(v.names);
        if index.contains_key(member.0) && index[member.0] < v.properties@.len() {
            let seg = Seg::Property(member.0);
            lemma_member_wf(instance, n - 1);
            lemma_obj_get_at(members, n - 1);
            lemma_errors_sound(
                reg,
                &v.properties@[index[member.0] as int].1,
                member.1,
                path.push(seg),
                tracker,
                depth,
            );
            lemma_sound_under(step, instance, path, seg, member.1, plain(reg, tracker, depth));
        }
        lemma_sound_concat(
            v.members_errors(reg, (n - 1) as nat, members, path, tracker, depth),
            step,
            instance,
            path,
            plain(reg, tracker, depth),
        );
    }
}

proof fn lemma_additional_sound(
    reg: &Registry,
    v: &AdditionalPropertiesValidator,
    n: nat,
    instance: Json,
    path: Seq<Seg>,
    tracker: Option<(Seq<Seg>, Seq<Seg>)>,
    depth: nat,
)
    requires
        json_wf(instance),
        instance is Object,
        n <= instance->Object_0.len(),
    ensures
        all_sound(
            v.members_errors(reg, n, instance->Object_0, path, tracker, depth),
            instance,
            path,
            plain(reg, tracker, depth),
        ),
    decreases depth, v, n,
{
    let members = instance->Object_0;
    if n > 0 {
        lemma_additional_sound(reg, v, (n - 1) as nat, instance, path, tracker, depth);
        let member = members[n - 1];
        let step = v.member_errors(reg, member, path, tracker, depth);
        let seg = Seg::Property(member.0);
        lemma_member_wf(instance, n - 1);
        lemma_obj_get_at(members, n - 1);
        let index = crate::keywords::additional_properties::schema_index(v.properties@, member.0);
        if crate::keywords::additional_properties::known(v.properties@, member.0) && 0 <= index
            < v.properties@.len() {
            lemma_errors_sound(reg, &v.properties@[index].1, member.1, path.push(seg), tracker, depth);
            lemma_sound_under(step, instance, path, seg, member.1, plain(reg, tracker, depth));
        } else {
            match v.additional {
                Some(node) => {
                    lemma_errors_sound(reg, &node, member.1, path.push(seg), tracker, depth);
                    lemma_sound_under(step, instance, path, seg, member.1, plain(reg, tracker, depth));
                },
                None => {},
            }
        }
        lemma_sound_concat(
            v.members_errors(reg, (n - 1) as nat, members, path, tracker, depth),
            step,
            instance,
            path,
            plain(reg, tracker, depth),
        );
    }
}

proof fn lemma_items_array_sound(
    reg: &Registry,
    v: &crate::keywords::items::ItemsArrayValidator,
    instance: Json,
    path: Seq<Seg>,
    tracker: Option<(Seq<Seg>, Seq<Seg>)>,
    depth: nat,
)
    requires
        json_wf(instance),
    ensures
        all_sound(v.errors(reg, instance, path, tracker, depth), instance, path, plain(reg, tracker, depth)),
    decreases depth, v, 0nat,
{
    if instance is Array {
        let n = paired(v.items@.len(), instance->Array_0.len());
        lemma_positional_sound(reg, v.items@, n, instance, path, tracker, depth);
    }
}

proof fn lemma_prefix_items_sound(
    reg: &Registry,
    v: &crate::keywords::prefix_items::PrefixItemsValidator,
    instance: Json,
    path: Seq<Seg>,
    tracker: Option<(Seq<Seg>, Seq<Seg>)>,
    depth: nat,
)
    requires
        json_wf(instance),
    ensures
        all_sound(v.errors(reg, instance, path, tracker, depth), instance, path, plain(reg, tracker, depth)),
    decreases depth, v, 0nat,
{
    if instance is Array {
        let n = paired(v.schemas@.len(), instance->Array_0.len());
        lemma_positional_sound(reg, v.schemas@, n, instance, path, tracker, depth);
    }
}

proof fn lemma_items_object_sound(
    reg: &Registry,
    v: &crate::keywords::items::ItemsObjectValidator,
    instance: Json,
    path: Seq<Seg>,
    tracker: Option<(Seq<Seg>, Seq<Seg>)>,
    depth: nat,
)
    requires
        json_wf(instance),
    ensures
        all_sound(v.errors(reg, instance, path, tracker, depth), instance, path, plain(reg, tracker, depth)),
    decreases depth, v, 0nat,
{
    if instance is Array {
        lemma_each_sound(reg, &v.node, 0, instance->Array_0.len(), instance, path, tracker, depth);
    }
}

proof fn lemma_items_skip_sound(
    reg: &Registry,
    v: &crate::keywords::items::ItemsObjectSkipPrefixValidator,
    instance: Json,
    path: Seq<Seg>,
    tracker: Option<(Seq<Seg>, Seq<Seg>)>,
    depth: nat,
)
    requires
        json_wf(instance),
    ensures
        all_sound(v.errors(reg, instance, path, tracker, depth), instance, path, plain(reg, tracker, depth)),
    decreases depth, v, 0nat,
{
    if instance is Array {
        lemma_each_sound(reg, &v.node, v.skip_prefix as nat, instance->Array_0.len(), instance, path, tracker, depth);
    }
}

proof fn lemma_small_sound(
    reg: &Registry,
    v: &crate::keywords::properties::SmallPropertiesValidator,
    instance: Json,
    path: Seq<Seg>,
    tracker: Option<(Seq<Seg>, Seq<Seg>)>,
    depth: nat,
)
    requires
        json_wf(instance),
    ensures
        all_sound(v.errors(reg, instance, path, tracker, depth), instance, path, plain(reg, tracker, depth)),
    decreases depth, v, 0nat,
{
    if instance is Object {
        lemma_properties_sound(reg, v.properties@, v.properties@.len(), instance, path, tracker, depth);
    }
}

proof fn lemma_fused_sound(
    reg: &Registry,
    v: &crate::keywords::properties::SmallPropertiesWithRequired2Validator,
    instance: Json,
    path: Seq<Seg>,
    tracker: Option<(Seq<Seg>, Seq<Seg>)>,
    depth: nat,
)
    requires
        json_wf(instance),
    ensures
        all_sound(v.errors(reg, instance, path, tracker, depth), instance, path, plain(reg, tracker, depth)),
    decreases depth, v, 0nat,
{
    if instance is Object {
        lemma_required_sound(v.names(), v.required_location@, tracker, instance, path, depth);
        lemma_properties_sound(reg, v.properties@, v.properties@.len(), instance, path, tracker, depth);
        lemma_sound_concat(
            crate::keywords::required::required_errors(
                v.names(),
                v.required_location@,
                tracker,
                instance,
                path,
            ),
            properties_errors(
                reg,
                v.properties@,
                v.properties@.len(),
                instance->Object_0,
                path,
                tracker,
                depth,
            ),
            instance,
            path,
            plain(reg, tracker, depth),
        );
    }
}

proof fn lemma_big_properties_sound(
    reg: &Registry,
    v: &BigPropertiesValidator,
    instance: Json,
    path: Seq<Seg>,
    tracker: Option<(Seq<Seg>, Seq<Seg>)>,
    depth: nat,
)
    requires
        json_wf(instance),
    ensures
        all_sound(v.errors(reg, instance, path, tracker, depth), instance, path, plain(reg, tracker, depth)),
    decreases depth, v, instance->Object_0.len() + 1,
{
    if instance is Object {
        lemma_big_sound(reg, v, instance->Object_0.len(), instance, path, tracker, depth);
    }
}

proof fn lemma_additional_properties_sound(
    reg: &Registry,
    v: &AdditionalPropertiesValidator,
    instance: Json,
    path: Seq<Seg>,
    tracker: Option<(Seq<Seg>, Seq<Seg>)>,
    depth: nat,
)
    requires
        json_wf(instance),
    ensures
        all_sound(v.errors(reg, instance, path, tracker, depth), instance, path, plain(reg, tracker, depth)),
    decreases depth, v, instance->Object_0.len() + 1,
{
    if instance is Object {
        let required = crate::keywords::required::required_errors(
            v.names(),
            v.required_location@,
            tracker,
            instance,
            path,
        );
        let members = v.members_errors(
            reg,
            instance->Object_0.len(),
            instance->Object_0,
            path,
            tracker,
            depth,
        );
        lemma_required_sound(v.names(), v.required_location@, tracker, instance, path, depth);
        lemma_additional_sound(reg, v, instance->Object_0.len(), instance, path, tracker, depth);
        lemma_sound_own(
            crate::error::KindView::AdditionalProperties {
                unexpected: v.unexpected(instance->Object_0.len(), instance->Object_0),
            },
            v.location@,
            tracker,
            instance,
            path,
            depth,
        );
        lemma_sound_concat(required, members, instance, path, plain(reg, tracker, depth));
        lemma_sound_concat(
            required + members,
            v.refusal(instance, path, tracker),
            instance,
            path,
            plain(reg, tracker, depth),
        );
    }
}

/// For every error of a validator on a well-formed
/// instance, following the error's instance path from the root of the
/// instance leads to the value that the error holds.
pub proof fn law_path_round_trip(validator: &Validator, instance: Json, i: int)
    requires
        json_wf(instance),
        0 <= i < validator.errors(instance).len(),
    ensures
        json_at(instance, validator.errors(instance)[i].instance_path) == Some(
            validator.errors(instance)[i].instance,
        ),
{
    lemma_errors_sound(
        &validator.registry(),
        &validator.root(),
        instance,
        Seq::empty(),
        None,
        crate::node::MAX_DEPTH as nat,
    );
    let e = validator.errors(instance)[i];
    assert(located(e, instance, Seq::empty()));
    assert(e.instance_path.skip(0) =~= e.instance_path);
}

/// For every error of a validator on a well-formed instance, the JSON
/// Pointer of the error's instance path, split at its slashes and followed
/// from the root of the instance, leads to the value that the error holds.
pub proof fn law_error_pointer_read_back(validator: &Validator, instance: Json, i: int)
    requires
        json_wf(instance),
        0 <= i < validator.errors(instance).len(),
    ensures
        crate::compiler::resolve_tokens(
            instance,
            crate::paths::pointer_tokens(
                crate::paths::pointer_text(validator.errors(instance)[i].instance_path),
            ),
        ) == Some(
            (validator.errors(instance)[i].instance_path, validator.errors(instance)[i].instance),
        ),
{
    law_path_round_trip(validator, instance, i);
    crate::round_trip::law_pointer_read_back(instance, validator.errors(instance)[i].instance_path);
}

/// Whether the keyword asks something of the instance by itself: it holds
/// no schema and follows no reference.
pub open spec fn self_contained(kw: &KeywordValidator) -> bool {
    match kw {
        KeywordValidator::Required(_)
        | KeywordValidator::SingleItemRequired(_)
        | KeywordValidator::Required2(_)
        | KeywordValidator::Required3(_)
        | KeywordValidator::ItemsNumberType(_)
        | KeywordValidator::ItemsStringType(_)
        | KeywordValidator::ItemsIntegerType(_)
        | KeywordValidator::ItemsIntegerTypeDraft4(_)
        | KeywordValidator::ItemsBooleanType(_)
        | KeywordValidator::FalseSchema(_)
        | KeywordValidator::Type(_)
        | KeywordValidator::MinLength(_)
        | KeywordValidator::Const(_)
        | KeywordValidator::Enum(_)
        | KeywordValidator::Limit(_)
        | KeywordValidator::UniqueItems(_) => true,
        _ => false,
    }
}

/// For every error of a keyword that asks something of the instance by
/// itself and that is reached without a reference, whatever the registry
/// holds and however many references may still be followed, the evaluation
/// path is the error's schema location.
pub proof fn law_paths_of_a_keyword_reached_directly(
    reg: &Registry,
    kw: &KeywordValidator,
    instance: Json,
    path: Seq<Seg>,
    depth: nat,
    i: int,
)
    requires
        self_contained(kw),
        0 <= i < kw_errors(reg, kw, instance, path, None, depth).len(),
    ensures
        kw_errors(reg, kw, instance, path, None, depth)[i].evaluation_path == kw_errors(
            reg,
            kw,
            instance,
            path,
            None,
            depth,
        )[i].schema_path,
{
    let tracker: Option<(Seq<Seg>, Seq<Seg>)> = None;
    match kw {
        KeywordValidator::Required(v) => {
            lemma_required_sound(v.names(), v.location@, tracker, instance, path, depth);
        },
        KeywordValidator::SingleItemRequired(v) => {
            lemma_required_sound(v.names(), v.location@, tracker, instance, path, depth);
        },
        KeywordValidator::Required2(v) => {
            lemma_required_sound(v.names(), v.location@, tracker, instance, path, depth);
        },
        KeywordValidator::Required3(v) => {
            lemma_required_sound(v.names(), v.location@, tracker, instance, path, depth);
        },
        KeywordValidator::ItemsNumberType(v) => {
            lemma_items_type_sound(JsonType::Number, false, v.location@, tracker, instance, path, depth);
        },
        KeywordValidator::ItemsStringType(v) => {
            lemma_items_type_sound(JsonType::String, false, v.location@, tracker, instance, path, depth);
        },
        KeywordValidator::ItemsIntegerType(v) => {
            lemma_items_type_sound(JsonType::Integer, false, v.location@, tracker, instance, path, depth);
        },
        KeywordValidator::ItemsIntegerTypeDraft4(v) => {
            lemma_items_type_sound(JsonType::Integer, true, v.location@, tracker, instance, path, depth);
        },
        KeywordValidator::ItemsBooleanType(v) => {
            lemma_items_type_sound(JsonType::Boolean, false, v.location@, tracker, instance, path, depth);
        },
        KeywordValidator::FalseSchema(v) => {
            lemma_sound_own(crate::error::KindView::FalseSchema, v.location@, tracker, instance, path, depth);
        },
        KeywordValidator::Type(v) => {
            lemma_sound_own(
                crate::error::KindView::Type { kind: crate::keywords::type_::asked(v.types@) },
                v.location@,
                tracker,
                instance,
                path,
                depth,
            );
        },
        KeywordValidator::MinLength(v) => {
            lemma_sound_own(
                crate::error::KindView::MinLength { limit: v.limit as nat },
                v.location@,
                tracker,
                instance,
                path,
                depth,
            );
        },
        KeywordValidator::Const(v) => {
            lemma_sound_own(
                crate::error::KindView::Constant { expected_value: v.value@ },
                v.location@,
                tracker,
                instance,
                path,
                depth,
            );
        },
        KeywordValidator::Enum(v) => {
            lemma_sound_own(
                crate::error::KindView::Enum { options: v.options@ },
                v.location@,
                tracker,
                instance,
                path,
                depth,
            );
        },
        KeywordValidator::Limit(v) => {
            lemma_sound_own(v.rule.kind(v.limit as nat), v.location@, tracker, instance, path, depth);
        },
        KeywordValidator::UniqueItems(v) => {
            lemma_sound_own(crate::error::KindView::UniqueItems, v.location@, tracker, instance, path, depth);
        },
        _ => {},
    }
    assert(unrouted(kw_errors(reg, kw, instance, path, None, depth)[i]));
}

/// For every error of a validator whose registry is empty, the evaluation
/// path is the error's schema location. The registry is empty where the
/// schema document has no reference that leads to another schema.
pub proof fn law_paths_of_a_validator_without_references(
    validator: &Validator,
    instance: Json,
    i: int,
)
    requires
        json_wf(instance),
        validator.registry().targets@.len() == 0,
        0 <= i < validator.errors(instance).len(),
    ensures
        validator.errors(instance)[i].evaluation_path == validator.errors(instance)[i].schema_path,
{
    lemma_errors_sound(
        &validator.registry(),
        &validator.root(),
        instance,
        Seq::empty(),
        None,
        crate::node::MAX_DEPTH as nat,
    );
    assert(unrouted(validator.errors(instance)[i]));
}

/// A validator that is built of a schema document without references
/// gives every error its schema location as its evaluation path.
pub proof fn law_paths_of_a_document_without_references(
    asked: Option<crate::types::Draft>,
    schema: Json,
    validator: Validator,
    instance: Json,
    i: int,
)
    requires
        crate::validator::built(asked, schema, Ok(validator)),
        crate::rules::reference_free(schema),
        json_wf(instance),
        0 <= i < validator.errors(instance).len(),
    ensures
        validator.errors(instance)[i].evaluation_path == validator.errors(instance)[i].schema_path,
{
    law_paths_of_a_validator_without_references(&validator, instance, i);
}

/// Where no reference is followed, the evaluation path of every error of a
/// schema is the error's schema location.
pub proof fn law_paths_without_references(
    reg: &Registry,
    node: &SchemaNode,
    instance: Json,
    path: Seq<Seg>,
    i: int,
)
    requires
        json_wf(instance),
        0 <= i < node_errors(reg, node, instance, path, None, 0).len(),
    ensures
        node_errors(reg, node, instance, path, None, 0)[i].evaluation_path == node_errors(
            reg,
            node,
            instance,
            path,
            None,
            0,
        )[i].schema_path,
{
    lemma_errors_sound(reg, node, instance, path, None, 0);
    assert(unrouted(node_errors(reg, node, instance, path, None, 0)[i]));
}

} // verus!
