//! The keywords `if`, `then` and `else`: a schema that decides which of two
//! others the value must satisfy.
use vstd::prelude::*;
use crate::compiler::{Context, Keyword, compile, json_size, lemma_found_smaller};
use crate::error::{ErrorView, ValidationError, error_views};
use crate::json::{Json, ObjectMap, Value, obj_get};
use crate::keywords::unevaluated_properties::PropertiesFilter;
use crate::node::{
    CompilationResult, KeywordValidator, Registry, SchemaNode, node_errors, node_valid, node_wf,
};
use crate::paths::{Location, RefTracker, Seg, tracker_view};

verus! {

/// Where the value satisfies `condition` it must satisfy `then_`, and where
/// it does not it must satisfy `else_`, as far as there is one.
#[derive(Debug)]
pub struct IfValidator {
    pub condition: SchemaNode,
    pub then_: Option<SchemaNode>,
    pub else_: Option<SchemaNode>,
}

impl IfValidator {
    pub open spec fn wf(&self) -> bool
        decreases self, 0nat,
    {
        &&& node_wf(&self.condition)
        &&& self.then_ matches Some(node) ==> node_wf(&node)
        &&& self.else_ matches Some(node) ==> node_wf(&node)
    }

    /// The schema that the value must satisfy: that of `then` where it
    /// satisfies the condition, and else that of `else`.
    pub open spec fn chosen(&self, reg: &Registry, instance: Json, depth: nat) -> Option<SchemaNode>
        decreases depth, self, 0nat,
    {
        if node_valid(reg, &self.condition, instance, depth) {
            self.then_
        } else {
            self.else_
        }
    }

    pub open spec fn valid(&self, reg: &Registry, instance: Json, depth: nat) -> bool
        decreases depth, self, 1nat,
    {
        (node_valid(reg, &self.condition, instance, depth) ==> (self.then_ matches Some(node)
            ==> node_valid(reg, &node, instance, depth))) && (!node_valid(
            reg,
            &self.condition,
            instance,
            depth,
        ) ==> (self.else_ matches Some(node) ==> node_valid(reg, &node, instance, depth)))
    }

    /// The errors of the schema that the value must satisfy. The condition
    /// itself has no errors.
    pub open spec fn errors(
        &self,
        reg: &Registry,
        instance: Json,
        path: Seq<Seg>,
        tracker: Option<(Seq<Seg>, Seq<Seg>)>,
        depth: nat,
    ) -> Seq<ErrorView>
        decreases depth, self, 1nat,
    {
        if node_valid(reg, &self.condition, instance, depth) {
            match self.then_ {
                Some(node) => node_errors(reg, &node, instance, path, tracker, depth),
                None => Seq::empty(),
            }
        } else {
            match self.else_ {
                Some(node) => node_errors(reg, &node, instance, path, tracker, depth),
                None => Seq::empty(),
            }
        }
    }

    pub fn is_valid(&self, reg: &Registry, instance: &Value, depth: usize) -> (r: bool)
        requires
            reg.wf(),
            self.wf(),
        ensures
            r == self.valid(reg, instance@, depth as nat),
        decreases depth, self, 1nat,
    {
        if self.condition.is_valid(reg, instance, depth) {
            match &self.then_ {
                Some(node) => node.is_valid(reg, instance, depth),
                None => true,
            }
        } else {
            match &self.else_ {
                Some(node) => node.is_valid(reg, instance, depth),
                None => true,
            }
        }
    }

    pub fn iter_errors(
        &self,
        reg: &Registry,
        instance: &Value,
        location: &Location,
        tracker: Option<&RefTracker>,
        depth: usize,
    ) -> (r: Vec<ValidationError>)
        requires
            reg.wf(),
            self.wf(),
        ensures
            error_views(r@) == self.errors(
                reg,
                instance@,
                location@,
                tracker_view(tracker),
                depth as nat,
            ),
        decreases depth, self, 1nat,
    {
        let chosen = if self.condition.is_valid(reg, instance, depth) {
            &self.then_
        } else {
            &self.else_
        };
        match chosen {
            Some(node) => node.iter_errors(reg, instance, location, tracker, depth),
            None => {
                let none: Vec<ValidationError> = Vec::new();
                proof {
                    assert(error_views(none@) =~= Seq::<ErrorView>::empty());
                }
                none
            },
        }
    }

    /// Compiles `if` with the `then` and `else` beside it.
    pub fn compile(ctx: &Context, parent: &ObjectMap, schema: &Value, refs: &mut Vec<Location>) -> (r:
        CompilationResult)
        requires
            obj_get(parent@, "if"@) == Some(schema@),
        ensures
            r is Ok ==> crate::found::places(final(refs)@) == crate::found::places(old(refs)@)
                + crate::found::keyword_found(ctx@, parent@, Keyword::If),
            crate::refusal::fault(r) == crate::refusal::keyword_refusal(ctx@, parent@, Keyword::If),
            crate::references::kept(old(refs)@, final(refs)@),
            r matches Ok(validator) ==> crate::references::kw_held(&validator, final(refs)@),
            crate::rules::reference_free(Json::Object(parent@)) ==> final(refs)@ == old(refs)@,
            r is Ok <==> crate::rules::keyword_accepted(ctx@, parent@, Keyword::If),
            r matches Ok(validator) ==> crate::node::kw_wf(&validator)
                && crate::shape::keyword_compiled(ctx@, parent@, Keyword::If, &validator),
        decreases json_size(Json::Object(parent@)), 2nat,
    {
        proof {
            lemma_found_smaller(parent@, "if"@);
            crate::rules::lemma_members_reference_free(parent@);
            assert(Keyword::If.name() == "if"@);
        }
        let ghost met_0 = crate::found::places(refs@);
        let if_ctx = ctx.new_at_location("if");
        let condition = compile(&if_ctx, schema, refs)?;
        let ghost met_1 = crate::found::places(refs@);
        let then_ = PropertiesFilter::node_under(ctx, "then", parent, refs)?;
        let ghost met_2 = crate::found::places(refs@);
        let else_ = PropertiesFilter::node_under(ctx, "else", parent, refs)?;
        let validator = KeywordValidator::If(IfValidator { condition, then_, else_ });
        proof {
            assert(crate::found::places(refs@) =~= met_0 + (crate::found::found(
                ctx@.at("if"@),
                schema@,
            ) + crate::found::node_found(ctx@, parent@, "then"@) + crate::found::node_found(
                ctx@,
                parent@,
                "else"@,
            )));
            let v = validator->If_0;
            assert forall|t: Seq<Seg>| #[trigger]
                crate::references::kw_refers(
                    &validator,
                    t,
                ) implies crate::references::spots(refs@).contains(t) by {
                if crate::references::node_refers(&v.condition, t) {
                } else if v.then_ is Some && crate::references::node_refers(&v.then_->0, t) {
                } else {
                    assert(v.else_ is Some && crate::references::node_refers(&v.else_->0, t));
                }
            }
        }
        Ok(validator)
    }
}

} // verus!
