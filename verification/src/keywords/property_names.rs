//! The `propertyNames` keyword: a schema that the name of each member of
//! an object must satisfy.
use vstd::prelude::*;
use crate::error::{
    ErrorView, KindView, ValidationError, ValidationErrorKind, error_views, lemma_error_views_concat,
};
use crate::json::{Json, Value};
use crate::keywords::boolean::{keyword_error, single_error};
use crate::node::{
    CompilationResult, KeywordValidator, Registry, SchemaNode, node_errors, node_valid, node_wf,
};
use crate::paths::{Location, RefTracker, Seg, tracker_view};

verus! {

/// The error of a name that does not satisfy the schema: it holds the first
/// error of the schema on the name.
pub open spec fn name_error(
    reg: &Registry,
    node: &SchemaNode,
    location: Seq<Seg>,
    name: Seq<char>,
    instance: Json,
    path: Seq<Seg>,
    tracker: Option<(Seq<Seg>, Seq<Seg>)>,
    depth: nat,
) -> ErrorView
    decreases depth, node, node.validators@.len() + 3,
{
    keyword_error(
        KindView::PropertyNames {
            error: Box::new(node_errors(reg, node, Json::String(name), path, tracker, depth)[0]),
        },
        location,
        tracker,
        instance,
        path,
    )
}

/// The errors of those of the first `n` members whose names do not satisfy
/// the schema, in the order of the members.
pub open spec fn name_errors(
    reg: &Registry,
    node: &SchemaNode,
    location: Seq<Seg>,
    n: nat,
    instance: Json,
    path: Seq<Seg>,
    tracker: Option<(Seq<Seg>, Seq<Seg>)>,
    depth: nat,
) -> Seq<ErrorView>
    decreases depth, node, node.validators@.len() + 4 + n,
{
    let members = instance->Object_0;
    if n == 0 || n > members.len() {
        Seq::empty()
    } else {
        name_errors(reg, node, location, (n - 1) as nat, instance, path, tracker, depth) + if node_valid(
            reg,
            node,
            Json::String(members[n - 1].0),
            depth,
        ) {
            Seq::empty()
        } else {
            seq![name_error(reg, node, location, members[n - 1].0, instance, path, tracker, depth)]
        }
    }
}

/// The name of each member of an object must satisfy the schema.
#[derive(Debug)]
pub struct PropertyNamesValidator {
    pub node: SchemaNode,
    pub location: Location,
}

impl PropertyNamesValidator {
    pub open spec fn wf(&self) -> bool
        decreases self, 0nat,
    {
        node_wf(&self.node)
    }

    /// An object passes where the name of each of its members, as a
    /// string, satisfies the schema; any other value passes.
    pub open spec fn valid(&self, reg: &Registry, instance: Json, depth: nat) -> bool
        decreases depth, self, 0nat,
    {
        instance is Object ==> forall|i: int|
            0 <= i < instance->Object_0.len() ==> node_valid(
                reg,
                &self.node,
                Json::String((#[trigger] instance->Object_0[i]).0),
                depth,
            )
    }

    pub open spec fn errors(
        &self,
        reg: &Registry,
        instance: Json,
        path: Seq<Seg>,
        tracker: Option<(Seq<Seg>, Seq<Seg>)>,
        depth: nat,
    ) -> Seq<ErrorView>
        decreases depth, self, 0nat,
    {
        if instance is Object {
            name_errors(
                reg,
                &self.node,
                self.location@,
                instance->Object_0.len(),
                instance,
                path,
                tracker,
                depth,
            )
        } else {
            Seq::empty()
        }
    }

    pub fn is_valid(&self, reg: &Registry, instance: &Value, depth: usize) -> (r: bool)
        requires
            reg.wf(),
            self.wf(),
        ensures
            r == self.valid(reg, instance@, depth as nat),
        decreases depth, self, 0nat,
    {
        if let Value::Object(members) = instance {
            let n = members.len();
            let mut i: usize = 0;
            while i < n
                invariant
                    i <= n,
                    n == members@.len(),
                    reg.wf(),
                    self.wf(),
                    instance@ == Json::Object(members@),
                    forall|j: int|
                        0 <= j < i ==> node_valid(
                            reg,
                            &self.node,
                            Json::String((#[trigger] members@[j]).0),
                            depth as nat,
                        ),
                decreases n - i,
            {
                let name = Value::String(members.key_at(i).clone());
                if !self.node.is_valid(reg, &name, depth) {
                    proof {
                        assert(!node_valid(
                            reg,
                            &self.node,
                            Json::String(members@[i as int].0),
                            depth as nat,
                        ));
                        assert(instance@->Object_0[i as int] == members@[i as int]);
                    }
                    return false;
                }
                i += 1;
            }
            true
        } else {
            true
        }
    }

    pub fn iter_errors(
        &self,
        reg: &Registry,
        instance: &Value,
        location: &Location,
        tracker: Option<&RefTracker>,
        depth: usize,
    ) -> (r: Vec<ValidationError>)
        requires
            reg.wf(),
            self.wf(),
        ensures
            error_views(r@) == self.errors(
                reg,
                instance@,
                location@,
                tracker_view(tracker),
                depth as nat,
            ),
        decreases depth, self, 0nat,
    {
        let mut errors: Vec<ValidationError> = Vec::new();
        if let Value::Object(members) = instance {
            let n = members.len();
            let mut i: usize = 0;
            while i < n
                invariant
                    i <= n,
                    n == members@.len(),
                    reg.wf(),
                    self.wf(),
                    instance@ == Json::Object(members@),
                    error_views(errors@) == name_errors(
                        reg,
                        &self.node,
                        self.location@,
                        i as nat,
                        instance@,
                        location@,
                        tracker_view(tracker),
                        depth as nat,
                    ),
                decreases n - i,
            {
                let ghost before = error_views(errors@);
                let name = Value::String(members.key_at(i).clone());
                proof {
                    crate::laws::lemma_verdict_consistent(
                        reg,
                        &self.node,
                        name@,
                        location@,
                        tracker_view(tracker),
                        depth as nat,
                    );
                    assert(name_errors(
                        reg,
                        &self.node,
                        self.location@,
                        (i + 1) as nat,
                        instance@,
                        location@,
                        tracker_view(tracker),
                        depth as nat,
                    ) == before + if node_valid(
                        reg,
                        &self.node,
                        Json::String(members@[i as int].0),
                        depth as nat,
                    ) {
                        Seq::<ErrorView>::empty()
                    } else {
                        seq![
                            name_error(
                                reg,
                                &self.node,
                                self.location@,
                                members@[i as int].0,
                                instance@,
                                location@,
                                tracker_view(tracker),
                                depth as nat,
                            ),
                        ]
                    });
                }
                let inner = self.node.iter_errors(reg, &name, location, tracker, depth);
                match crate::node::take_first(inner) {
                    Ok(()) => {
                        proof {
                            assert(before + Seq::<ErrorView>::empty() =~= before);
                        }
                    },
                    Err(error) => {
                        let mut found = single_error(
                            ValidationErrorKind::PropertyNames { error: Box::new(error) },
                            &self.location,
                            tracker,
                            instance,
                            location,
                        );
                        proof {
                            lemma_error_views_concat(errors@, found@);
                        }
                        errors.append(&mut found);
                    },
                }
                i += 1;
            }
        }
        errors
    }

    /// Compiles a `propertyNames` keyword: a schema.
    pub fn compile(ctx: &crate::compiler::Context, schema: &Value, refs: &mut Vec<Location>) -> (r:
        CompilationResult)
        ensures
            r is Ok ==> crate::found::places(final(refs)@) == crate::found::places(old(refs)@)
                + crate::found::found(ctx@.at("propertyNames"@), schema@),
            crate::refusal::fault(r) == crate::refusal::refusal(ctx@.at("propertyNames"@), schema@),
            crate::references::kept(old(refs)@, final(refs)@),
            r matches Ok(validator) ==> crate::references::kw_held(&validator, final(refs)@),
            crate::rules::reference_free(schema@) ==> final(refs)@ == old(refs)@,
            r is Ok <==> crate::rules::accepted(ctx@.at("propertyNames"@), schema@),
            r matches Ok(validator) ==> {
                &&& validator matches KeywordValidator::PropertyNames(v)
                &&& crate::node::kw_wf(&validator)
                &&& crate::shape::compiled(ctx@.at("propertyNames"@), schema@, &v.node)
                &&& v.location@ == ctx@.location.push(Seg::Property("propertyNames"@))
            },
        decreases crate::compiler::json_size(schema@), 7nat,
    {
        let location = ctx.location().join("propertyNames");
        let ctx = ctx.new_at_location("propertyNames");
        let node = crate::compiler::compile(&ctx, schema, refs)?;
        let validator = KeywordValidator::PropertyNames(PropertyNamesValidator { node, location });
        proof {
            crate::references::lemma_held_by_node(&validator, &validator->PropertyNames_0.node, refs@);
        }
        Ok(validator)
    }
}

} // verus!
