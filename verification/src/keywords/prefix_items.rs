//! The `prefixItems` keyword: schemas for the first items of an array, by
//! position.
use vstd::prelude::*;
use crate::error::{ErrorView, ValidationError, error_views};
use crate::json::{Json, Value};
use crate::keywords::items::{
    nodes_wf, paired, positional_errors, positional_is_valid, positional_iter_errors,
    positional_valid,
};
use crate::node::{CompilationResult, KeywordValidator, Registry, SchemaNode};
use crate::types::JsonType;
use crate::paths::{Location, RefTracker, Seg, tracker_view};

verus! {

/// The item at each position satisfies the schema at that position.
#[derive(Debug)]
pub struct PrefixItemsValidator {
    pub schemas: Vec<SchemaNode>,
}

impl PrefixItemsValidator {
    pub open spec fn wf(&self) -> bool
        decreases self, 0nat,
    {
        nodes_wf(self.schemas@)
    }

    pub open spec fn valid(&self, reg: &Registry, instance: Json, depth: nat) -> bool
        decreases depth, self, 0nat,
    {
        instance is Array ==> positional_valid(reg, self.schemas@, instance->Array_0, depth)
    }

    pub open spec fn errors(
        &self,
        reg: &Registry,
        instance: Json,
        path: Seq<Seg>,
        tracker: Option<(Seq<Seg>, Seq<Seg>)>,
        depth: nat,
    ) -> Seq<ErrorView>
        decreases depth, self, 0nat,
    {
        if instance is Array {
            positional_errors(
                reg,
                self.schemas@,
                paired(self.schemas@.len(), instance->Array_0.len()),
                instance->Array_0,
                path,
                tracker,
                depth,
            )
        } else {
            Seq::empty()
        }
    }

    pub fn is_valid(&self, reg: &Registry, instance: &Value, depth: usize) -> (r: bool)
        requires
            reg.wf(),
            self.wf(),
        ensures
            r == self.valid(reg, instance@, depth as nat),
        decreases depth, self, 0nat,
    {
        positional_is_valid(&self.schemas, reg, instance, depth)
    }

    pub fn iter_errors(
        &self,
        reg: &Registry,
        instance: &Value,
        location: &Location,
        tracker: Option<&RefTracker>,
        depth: usize,
    ) -> (r: Vec<ValidationError>)
        requires
            reg.wf(),
            self.wf(),
        ensures
            error_views(r@) == self.errors(
                reg,
                instance@,
                location@,
                tracker_view(tracker),
                depth as nat,
            ),
        decreases depth, self, 0nat,
    {
        positional_iter_errors(&self.schemas, reg, instance, location, tracker, depth)
    }
}

impl PrefixItemsValidator {
    pub fn compile(
        ctx: &crate::compiler::Context,
        items: &Vec<Value>,
        refs: &mut Vec<Location>,
    ) -> (r: CompilationResult)
        ensures
            r is Ok ==> crate::found::places(final(refs)@) == crate::found::places(old(refs)@) + crate::found::all_found(ctx@.at("prefixItems"@), crate::json::views(items@), crate::json::views(items@).len()),
            crate::refusal::fault(r) == crate::refusal::all_refusal(ctx@.at("prefixItems"@), crate::json::views(items@)),
            crate::references::kept(old(refs)@, final(refs)@),
            r matches Ok(validator) ==> crate::references::kw_held(&validator, final(refs)@),
            crate::rules::reference_free(Json::Array(crate::json::views(items@))) ==> final(refs)@ == old(refs)@,
            r is Ok <==> crate::rules::all_accepted(
                ctx@.at("prefixItems"@),
                crate::json::views(items@),
            ),
            r matches Ok(validator) ==> {
                &&& validator matches KeywordValidator::PrefixItems(v)
                &&& crate::node::kw_wf(&validator)
                &&& crate::shape::nodes_compiled(
                    ctx@.at("prefixItems"@),
                    crate::json::views(items@),
                    v.schemas@,
                )
            },
        decreases crate::compiler::json_size(Json::Array(crate::json::views(items@))), 1nat,
    {
        let ctx = ctx.new_at_location("prefixItems");
        let schemas = crate::compiler::compile_each(&ctx, items, refs)?;
        let validator = KeywordValidator::PrefixItems(PrefixItemsValidator { schemas });
        proof {
            crate::references::lemma_held_by_nodes(
                &validator,
                validator->PrefixItems_0.schemas@,
                refs@,
            );
        }
        Ok(validator)
    }
}

/// Compiles a `prefixItems` keyword: a list of schemas. Any other value is an
/// error of the schema.
pub fn compile(
    ctx: &crate::compiler::Context,
    parent: &crate::json::ObjectMap,
    schema: &Value,
    refs: &mut Vec<Location>,
) -> (r: Option<CompilationResult>)
    requires
        crate::json::obj_get(parent@, "prefixItems"@) == Some(schema@),
    ensures
        !(r matches Some(Err(_))) ==> crate::found::places(final(refs)@) == crate::found::places(old(refs)@) + crate::found::keyword_found(ctx@, parent@, crate::compiler::Keyword::PrefixItems),
        r is None ==> final(refs)@ == old(refs)@,
        crate::refusal::keyword_fault(r) == crate::refusal::keyword_refusal(ctx@, parent@, crate::compiler::Keyword::PrefixItems),
        crate::references::kept(old(refs)@, final(refs)@),
        r matches Some(Ok(validator)) ==> crate::references::kw_held(&validator, final(refs)@),
        crate::rules::reference_free(Json::Object(parent@)) ==> final(refs)@ == old(refs)@,
        r is Some,
        r matches Some(Ok(validator)) ==> crate::node::kw_wf(&validator)
            && crate::shape::keyword_compiled(
            ctx@,
            parent@,
            crate::compiler::Keyword::PrefixItems,
            &validator,
        ),
        r matches Some(Err(e)) ==> (!(schema@ is Array) ==> e@
            == crate::keywords::required::wrong_type(
            ctx@.location.push(Seg::Property("prefixItems"@)),
            schema@,
            JsonType::Array,
        )),
        r matches Some(Err(_)) <==> !crate::rules::keyword_accepted(
            ctx@,
            parent@,
            crate::compiler::Keyword::PrefixItems,
        ),
    decreases crate::compiler::json_size(Json::Object(parent@)), 2nat,
{
    proof {
        crate::rules::lemma_members_reference_free(parent@);
    }
    proof {
        crate::compiler::lemma_found_smaller(parent@, "prefixItems"@);
    }
    if let Value::Array(items) = schema {
        Some(PrefixItemsValidator::compile(ctx, items, refs))
    } else {
        let location = ctx.location().join("prefixItems");
        Some(Err(crate::compiler::schema_type_error(&location, schema, JsonType::Array)))
    }
}

impl PrefixItemsValidator {
    pub fn evaluate(
        &self,
        reg: &Registry,
        instance: &Value,
        location: &Location,
        tracker: Option<&RefTracker>,
        depth: usize,
    ) -> (r: crate::evaluation::EvaluationResult)
        requires
            reg.wf(),
            self.wf(),
        ensures
            r.valid == self.valid(reg, instance@, depth as nat),
            crate::outcome::kw_outcome(
                reg,
                &KeywordValidator::PrefixItems(*self),
                instance@,
                location@,
                crate::paths::tracker_view(tracker),
                depth as nat,
                &r,
            ),
        decreases depth, self, 0nat,
    {
        if let Value::Array(items) = instance {
            if items.len() > 0 {
                let children = crate::keywords::items::positional_children(
                    &self.schemas,
                    items,
                    reg,
                    location,
                    tracker,
                    depth,
                );
                proof {
                    crate::json::lemma_views(items@);
                    assert(crate::evaluation::all_hold(children@) <==> positional_valid(
                        reg,
                        self.schemas@,
                        instance@->Array_0,
                        depth as nat,
                    )) by {
                        if crate::evaluation::all_hold(children@) {
                            assert forall|j: int|
                                0 <= j < self.schemas@.len() && j
                                    < instance@->Array_0.len() implies crate::node::node_valid(
                                reg,
                                #[trigger] &self.schemas@[j],
                                instance@->Array_0[j],
                                depth as nat,
                            ) by {
                                assert(children@[j].valid);
                            }
                        }
                    }
                }
                // What is noted: `true` where every item had a schema, and
                // else the position of the last item that had one.
                let annotation = if children.len() == items.len() {
                    Value::Bool(true)
                } else if children.len() > 0 {
                    Value::Number(crate::json::Number::PosInt((children.len() - 1) as u64))
                } else {
                    Value::Number(crate::json::Number::PosInt(0))
                };
                let mut r = crate::evaluation::EvaluationResult::from_children(children);
                r.annotate(annotation);
                proof {
                    assert(crate::evaluation::told(r.errors@) =~= Seq::<(Seq<char>, Seq<char>)>::empty());
                }
                return r;
            }
            proof {
                crate::json::lemma_views(items@);
            }
        }
        let r = crate::evaluation::EvaluationResult::valid_empty();
        proof {
            assert(crate::evaluation::told(r.errors@) =~= Seq::<(Seq<char>, Seq<char>)>::empty());
        }
        r
    }
}

impl PrefixItemsValidator {
    /// The first error of the keyword on `instance`, if there is one.
    pub fn validate(
        &self,
        reg: &Registry,
        instance: &Value,
        location: &Location,
        tracker: Option<&RefTracker>,
        depth: usize,
    ) -> (r: Result<(), ValidationError>)
        requires
            reg.wf(),
            self.wf(),
        ensures
            crate::node::first_error(
                r,
                self.errors(reg, instance@, location@, tracker_view(tracker), depth as nat),
            ),
    {
        crate::node::take_first(self.iter_errors(reg, instance, location, tracker, depth))
    }
}

} // verus!
