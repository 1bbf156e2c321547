//! The `not` keyword: a schema that the value must not satisfy.
use vstd::prelude::*;
use crate::error::{ErrorView, KindView, ValidationError, ValidationErrorKind, error_views};
use crate::json::{Json, Value};
use crate::keywords::boolean::{keyword_error, single_error};
use crate::node::{CompilationResult, KeywordValidator, Registry, SchemaNode, node_valid, node_wf};
use crate::paths::{Location, RefTracker, Seg, tracker_view};

verus! {

/// A value must not satisfy the schema.
#[derive(Debug)]
pub struct NotValidator {
    pub node: SchemaNode,
    /// The schema, as the document has it.
    pub schema: Value,
    pub location: Location,
}

impl NotValidator {
    pub open spec fn wf(&self) -> bool
        decreases self, 0nat,
    {
        node_wf(&self.node)
    }

    /// A value passes where it does not satisfy the schema.
    pub open spec fn valid(&self, reg: &Registry, instance: Json, depth: nat) -> bool
        decreases depth, self, 0nat,
    {
        !node_valid(reg, &self.node, instance, depth)
    }

    pub open spec fn errors(
        &self,
        reg: &Registry,
        instance: Json,
        path: Seq<Seg>,
        tracker: Option<(Seq<Seg>, Seq<Seg>)>,
        depth: nat,
    ) -> Seq<ErrorView>
        decreases depth, self, 1nat,
    {
        if self.valid(reg, instance, depth) {
            Seq::empty()
        } else {
            seq![
                keyword_error(
                    KindView::Not { schema: self.schema@ },
                    self.location@,
                    tracker,
                    instance,
                    path,
                ),
            ]
        }
    }

    pub fn is_valid(&self, reg: &Registry, instance: &Value, depth: usize) -> (r: bool)
        requires
            reg.wf(),
            self.wf(),
        ensures
            r == self.valid(reg, instance@, depth as nat),
        decreases depth, self, 0nat,
    {
        !self.node.is_valid(reg, instance, depth)
    }

    pub fn iter_errors(
        &self,
        reg: &Registry,
        instance: &Value,
        location: &Location,
        tracker: Option<&RefTracker>,
        depth: usize,
    ) -> (r: Vec<ValidationError>)
        requires
            reg.wf(),
            self.wf(),
        ensures
            error_views(r@) == self.errors(
                reg,
                instance@,
                location@,
                tracker_view(tracker),
                depth as nat,
            ),
        decreases depth, self, 1nat,
    {
        if self.is_valid(reg, instance, depth) {
            return Vec::new();
        }
        single_error(
            ValidationErrorKind::Not { schema: self.schema.clone() },
            &self.location,
            tracker,
            instance,
            location,
        )
    }

    /// Compiles a `not` keyword: a schema.
    pub fn compile(ctx: &crate::compiler::Context, schema: &Value, refs: &mut Vec<Location>) -> (r:
        CompilationResult)
        ensures
            r is Ok ==> crate::found::places(final(refs)@) == crate::found::places(old(refs)@)
                + crate::found::found(ctx@.at("not"@), schema@),
            crate::refusal::fault(r) == crate::refusal::refusal(ctx@.at("not"@), schema@),
            crate::references::kept(old(refs)@, final(refs)@),
            r matches Ok(validator) ==> crate::references::kw_held(&validator, final(refs)@),
            crate::rules::reference_free(schema@) ==> final(refs)@ == old(refs)@,
            r is Ok <==> crate::rules::accepted(ctx@.at("not"@), schema@),
            r matches Ok(validator) ==> {
                &&& validator matches KeywordValidator::Not(v)
                &&& crate::node::kw_wf(&validator)
                &&& crate::shape::compiled(ctx@.at("not"@), schema@, &v.node)
                &&& v.schema@ == schema@
                &&& v.location@ == ctx@.location.push(Seg::Property("not"@))
            },
        decreases crate::compiler::json_size(schema@), 7nat,
    {
        let location = ctx.location().join("not");
        let ctx = ctx.new_at_location("not");
        let node = crate::compiler::compile(&ctx, schema, refs)?;
        let validator = KeywordValidator::Not(NotValidator { node, schema: schema.clone(), location });
        proof {
            crate::references::lemma_held_by_node(&validator, &validator->Not_0.node, refs@);
        }
        Ok(validator)
    }
}

} // verus!
