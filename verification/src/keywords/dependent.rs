//! The `dependentSchemas` keyword: schemas that the value must satisfy
//! where it has the member that they depend on.
use vstd::prelude::*;
use crate::compiler::{Context, compile_members, json_size, schema_type_error};
use crate::error::{ErrorView, ValidationError, error_views, lemma_error_views_concat};
use crate::json::{Json, Value, obj_has};
use crate::keywords::properties::properties_wf;
use crate::node::{
    CompilationResult, KeywordValidator, Registry, SchemaNode, node_errors, node_valid, node_wf,
};
use crate::paths::{Location, RefTracker, Seg, tracker_view};
use crate::types::JsonType;

verus! {

/// The errors of those of the first `n` schemas whose member the object
/// has, one schema after the other.
pub open spec fn dependent_errors(
    reg: &Registry,
    schemas: Seq<(String, SchemaNode)>,
    n: nat,
    instance: Json,
    path: Seq<Seg>,
    tracker: Option<(Seq<Seg>, Seq<Seg>)>,
    depth: nat,
) -> Seq<ErrorView>
    decreases depth, schemas, n,
{
    if n == 0 || n > schemas.len() {
        Seq::empty()
    } else {
        dependent_errors(reg, schemas, (n - 1) as nat, instance, path, tracker, depth) + if obj_has(
            instance->Object_0,
            schemas[n - 1].0@,
        ) {
            node_errors(reg, &schemas[n - 1].1, instance, path, tracker, depth)
        } else {
            Seq::empty()
        }
    }
}

/// An object that has the member of a name must satisfy the schema under
/// that name.
#[derive(Debug)]
pub struct DependentSchemasValidator {
    pub schemas: Vec<(String, SchemaNode)>,
}

impl DependentSchemasValidator {
    pub open spec fn wf(&self) -> bool
        decreases self, 0nat,
    {
        properties_wf(self.schemas@)
    }

    /// An object passes where it satisfies the schema of each name whose
    /// member it has; any other value passes.
    pub open spec fn valid(&self, reg: &Registry, instance: Json, depth: nat) -> bool
        decreases depth, self, 0nat,
    {
        instance is Object ==> forall|j: int|
            0 <= j < self.schemas@.len() && obj_has(
                instance->Object_0,
                (#[trigger] self.schemas@[j]).0@,
            ) ==> node_valid(reg, &self.schemas@[j].1, instance, depth)
    }

    pub open spec fn errors(
        &self,
        reg: &Registry,
        instance: Json,
        path: Seq<Seg>,
        tracker: Option<(Seq<Seg>, Seq<Seg>)>,
        depth: nat,
    ) -> Seq<ErrorView>
        decreases depth, self, 0nat,
    {
        if instance is Object {
            dependent_errors(reg, self.schemas@, self.schemas@.len(), instance, path, tracker, depth)
        } else {
            Seq::empty()
        }
    }

    pub fn is_valid(&self, reg: &Registry, instance: &Value, depth: usize) -> (r: bool)
        requires
            reg.wf(),
            self.wf(),
        ensures
            r == self.valid(reg, instance@, depth as nat),
        decreases depth, self, 0nat,
    {
        if let Value::Object(members) = instance {
            let mut i: usize = 0;
            while i < self.schemas.len()
                invariant
                    i <= self.schemas.len(),
                    reg.wf(),
                    self.wf(),
                    instance@ == Json::Object(members@),
                    forall|j: int|
                        0 <= j < i && obj_has(members@, (#[trigger] self.schemas@[j]).0@)
                            ==> node_valid(reg, &self.schemas@[j].1, instance@, depth as nat),
                decreases self.schemas.len() - i,
            {
                proof {
                    assert(node_wf(&self.schemas@[i as int].1));
                }
                if members.contains_key(self.schemas[i].0.as_str()) && !self.schemas[i].1.is_valid(
                    reg,
                    instance,
                    depth,
                ) {
                    return false;
                }
                i += 1;
            }
            true
        } else {
            true
        }
    }

    pub fn iter_errors(
        &self,
        reg: &Registry,
        instance: &Value,
        location: &Location,
        tracker: Option<&RefTracker>,
        depth: usize,
    ) -> (r: Vec<ValidationError>)
        requires
            reg.wf(),
            self.wf(),
        ensures
            error_views(r@) == self.errors(
                reg,
                instance@,
                location@,
                tracker_view(tracker),
                depth as nat,
            ),
        decreases depth, self, 0nat,
    {
        let mut errors: Vec<ValidationError> = Vec::new();
        if let Value::Object(members) = instance {
            let mut i: usize = 0;
            while i < self.schemas.len()
                invariant
                    i <= self.schemas.len(),
                    reg.wf(),
                    self.wf(),
                    instance@ == Json::Object(members@),
                    error_views(errors@) == dependent_errors(
                        reg,
                        self.schemas@,
                        i as nat,
                        instance@,
                        location@,
                        tracker_view(tracker),
                        depth as nat,
                    ),
                decreases self.schemas.len() - i,
            {
                let ghost before = error_views(errors@);
                proof {
                    assert(node_wf(&self.schemas@[i as int].1));
                    assert(dependent_errors(
                        reg,
                        self.schemas@,
                        (i + 1) as nat,
                        instance@,
                        location@,
                        tracker_view(tracker),
                        depth as nat,
                    ) == before + if obj_has(instance@->Object_0, self.schemas@[i as int].0@) {
                        node_errors(
                            reg,
                            &self.schemas@[i as int].1,
                            instance@,
                            location@,
                            tracker_view(tracker),
                            depth as nat,
                        )
                    } else {
                        Seq::<ErrorView>::empty()
                    });
                }
                if members.contains_key(self.schemas[i].0.as_str()) {
                    let mut found = self.schemas[i].1.iter_errors(
                        reg,
                        instance,
                        location,
                        tracker,
                        depth,
                    );
                    proof {
                        lemma_error_views_concat(errors@, found@);
                    }
                    errors.append(&mut found);
                } else {
                    proof {
                        assert(before + Seq::<ErrorView>::empty() =~= before);
                    }
                }
                i += 1;
            }
        }
        errors
    }

    /// Compiles a `dependentSchemas` keyword: an object of schemas. Any
    /// other value is an error of the schema.
    pub fn compile(ctx: &Context, schema: &Value, refs: &mut Vec<Location>) -> (r: CompilationResult)
        ensures
            r is Ok ==> crate::found::places(final(refs)@) == crate::found::places(old(refs)@)
                + crate::found::members_found(
                ctx@.at("dependentSchemas"@),
                schema@->Object_0,
                schema@->Object_0.len(),
            ),
            crate::refusal::fault(r) == match schema@ {
                Json::Object(map) => crate::refusal::members_refusal(
                    ctx@.at("dependentSchemas"@),
                    map,
                ),
                _ => Some(
                    crate::keywords::required::wrong_type(
                        ctx@.location.push(Seg::Property("dependentSchemas"@)),
                        schema@,
                        JsonType::Object,
                    ),
                ),
            },
            crate::references::kept(old(refs)@, final(refs)@),
            r matches Ok(validator) ==> crate::references::kw_held(&validator, final(refs)@),
            crate::rules::reference_free(schema@) ==> final(refs)@ == old(refs)@,
            r is Ok <==> schema@ is Object && crate::rules::members_accepted(
                ctx@.at("dependentSchemas"@),
                schema@->Object_0,
            ),
            r matches Ok(validator) ==> {
                &&& validator matches KeywordValidator::DependentSchemas(v)
                &&& crate::node::kw_wf(&validator)
                &&& crate::shape::members_compiled(
                    ctx@.at("dependentSchemas"@),
                    schema@->Object_0,
                    v.schemas@,
                )
            },
        decreases json_size(schema@), 1nat,
    {
        let kctx = ctx.new_at_location("dependentSchemas");
        match schema {
            Value::Object(map) => {
                let schemas = compile_members(&kctx, map, refs)?;
                let validator = KeywordValidator::DependentSchemas(
                    DependentSchemasValidator { schemas },
                );
                proof {
                    crate::references::lemma_held_by_properties(
                        &validator,
                        validator->DependentSchemas_0.schemas@,
                        refs@,
                    );
                }
                Ok(validator)
            },
            _ => Err(schema_type_error(kctx.location(), schema, JsonType::Object)),
        }
    }
}

} // verus!
