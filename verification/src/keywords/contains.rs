//! The `contains` keyword, with `minContains` and `maxContains`: how many
//! items of an array must satisfy a schema.
use vstd::prelude::*;
use crate::compiler::{Context, Keyword, compile, json_size, lemma_found_smaller, schema_type_error};
use crate::error::{ErrorView, KindView, ValidationError, ValidationErrorKind, error_views};
use crate::json::{Json, Num, Number, ObjectMap, Value, lemma_views, obj_get, views};
use crate::keywords::boolean::{keyword_error, single_error};
use crate::node::{CompilationResult, KeywordValidator, Registry, SchemaNode, node_valid, node_wf};
use crate::paths::{Location, RefTracker, Seg, tracker_view};
use crate::types::{Draft, JsonType};

verus! {

/// How many of the first `n` items satisfy the schema.
pub open spec fn matching(reg: &Registry, node: &SchemaNode, items: Seq<Json>, n: nat, depth: nat) -> nat
    decreases depth, node, node.validators@.len() + 2 + n,
{
    if n == 0 || n > items.len() {
        0
    } else {
        matching(reg, node, items, (n - 1) as nat, depth) + if node_valid(
            reg,
            node,
            items[n - 1],
            depth,
        ) {
            1nat
        } else {
            0nat
        }
    }
}

/// Whether the draft knows `minContains` and `maxContains`.
pub open spec fn counts_known(draft: Draft) -> bool {
    draft == Draft::Draft201909 || draft == Draft::Draft202012
}

/// The bound under the keyword, where the draft knows the keyword and the
/// schema `parent` has a whole number there that is not negative.
pub open spec fn bound_under(
    draft: Draft,
    parent: Seq<(Seq<char>, Json)>,
    keyword: Seq<char>,
) -> Option<u64> {
    if counts_known(draft) {
        match obj_get(parent, keyword) {
            Some(Json::Number(Num::PosInt(limit))) => Some(limit),
            _ => None,
        }
    } else {
        None
    }
}

/// Whether what stands under the keyword can be read as a bound: the draft
/// does not know the keyword, the schema `parent` does not have it, or it
/// is a whole number that is not negative.
pub open spec fn bound_accepted(
    draft: Draft,
    parent: Seq<(Seq<char>, Json)>,
    keyword: Seq<char>,
) -> bool {
    counts_known(draft) ==> (obj_get(parent, keyword) matches Some(value) ==> value is Number
        && value->Number_0 is PosInt)
}

/// At least `min` items of an array, or one where there is no `min`, and at
/// most `max` items must satisfy the schema.
#[derive(Debug)]
pub struct ContainsValidator {
    pub node: SchemaNode,
    pub min: Option<u64>,
    pub max: Option<u64>,
    /// Where `contains` lies.
    pub location: Location,
    /// Where `minContains` lies or would lie.
    pub min_location: Location,
    /// Where `maxContains` lies or would lie.
    pub max_location: Location,
}

impl ContainsValidator {
    pub open spec fn wf(&self) -> bool
        decreases self, 0nat,
    {
        node_wf(&self.node)
    }

    /// How many items must satisfy the schema at least.
    pub open spec fn lower(&self) -> nat {
        match self.min {
            Some(limit) => limit as nat,
            None => 1,
        }
    }

    /// Whether too few items of the array satisfy the schema.
    pub open spec fn too_few(&self, reg: &Registry, instance: Json, depth: nat) -> bool
        decreases depth, self, 0nat,
    {
        instance is Array && matching(
            reg,
            &self.node,
            instance->Array_0,
            instance->Array_0.len(),
            depth,
        ) < self.lower()
    }

    /// Whether too many items of the array satisfy the schema.
    pub open spec fn too_many(&self, reg: &Registry, instance: Json, depth: nat) -> bool
        decreases depth, self, 0nat,
    {
        instance is Array && (self.max matches Some(limit) && matching(
            reg,
            &self.node,
            instance->Array_0,
            instance->Array_0.len(),
            depth,
        ) > limit)
    }

    /// An array passes where neither too few nor too many of its items
    /// satisfy the schema; any other value passes.
    pub open spec fn valid(&self, reg: &Registry, instance: Json, depth: nat) -> bool
        decreases depth, self, 1nat,
    {
        !self.too_few(reg, instance, depth) && !self.too_many(reg, instance, depth)
    }

    /// The one error of an array that does not pass: that too few items
    /// satisfy the schema, which is the error of `minContains` where there
    /// is one and else of `contains`; or that too many do, which is the
    /// error of `maxContains`.
    pub open spec fn errors(
        &self,
        reg: &Registry,
        instance: Json,
        path: Seq<Seg>,
        tracker: Option<(Seq<Seg>, Seq<Seg>)>,
        depth: nat,
    ) -> Seq<ErrorView>
        decreases depth, self, 1nat,
    {
        if self.too_few(reg, instance, depth) {
            match self.min {
                Some(limit) => seq![
                    keyword_error(
                        KindView::MinContains { limit: limit as nat },
                        self.min_location@,
                        tracker,
                        instance,
                        path,
                    ),
                ],
                None => seq![
                    keyword_error(KindView::Contains, self.location@, tracker, instance, path),
                ],
            }
        } else if self.too_many(reg, instance, depth) {
            seq![
                keyword_error(
                    KindView::MaxContains { limit: self.max->0 as nat },
                    self.max_location@,
                    tracker,
                    instance,
                    path,
                ),
            ]
        } else {
            Seq::empty()
        }
    }

    /// How many items of the array satisfy the schema.
    fn count(&self, reg: &Registry, items: &Vec<Value>, depth: usize) -> (r: usize)
        requires
            reg.wf(),
            self.wf(),
        ensures
            r == matching(reg, &self.node, views(items@), views(items@).len(), depth as nat),
            r <= items@.len(),
        decreases depth, self, 0nat,
    {
        proof {
            lemma_views(items@);
        }
        let ghost all = views(items@);
        let mut found: usize = 0;
        let mut i: usize = 0;
        while i < items.len()
            invariant
                i <= items.len(),
                found <= i,
                reg.wf(),
                self.wf(),
                all == views(items@),
                all.len() == items@.len(),
                forall|j: int| 0 <= j < items@.len() ==> (#[trigger] all[j]) == items@[j]@,
                found == matching(reg, &self.node, all, i as nat, depth as nat),
            decreases items.len() - i,
        {
            proof {
                assert(matching(reg, &self.node, all, (i + 1) as nat, depth as nat) == matching(
                    reg,
                    &self.node,
                    all,
                    i as nat,
                    depth as nat,
                ) + if node_valid(reg, &self.node, all[i as int], depth as nat) {
                    1nat
                } else {
                    0nat
                });
            }
            if self.node.is_valid(reg, &items[i], depth) {
                found += 1;
            }
            i += 1;
        }
        found
    }

    pub fn is_valid(&self, reg: &Registry, instance: &Value, depth: usize) -> (r: bool)
        requires
            reg.wf(),
            self.wf(),
        ensures
            r == self.valid(reg, instance@, depth as nat),
        decreases depth, self, 1nat,
    {
        if let Value::Array(items) = instance {
            let found = self.count(reg, items, depth) as u64;
            let enough = match self.min {
                Some(limit) => found >= limit,
                None => found >= 1,
            };
            let few = match self.max {
                Some(limit) => found <= limit,
                None => true,
            };
            enough && few
        } else {
            true
        }
    }

    pub fn iter_errors(
        &self,
        reg: &Registry,
        instance: &Value,
        location: &Location,
        tracker: Option<&RefTracker>,
        depth: usize,
    ) -> (r: Vec<ValidationError>)
        requires
            reg.wf(),
            self.wf(),
        ensures
            error_views(r@) == self.errors(
                reg,
                instance@,
                location@,
                tracker_view(tracker),
                depth as nat,
            ),
        decreases depth, self, 1nat,
    {
        if let Value::Array(items) = instance {
            let found = self.count(reg, items, depth) as u64;
            match self.min {
                Some(limit) => {
                    if found < limit {
                        return single_error(
                            ValidationErrorKind::MinContains { limit },
                            &self.min_location,
                            tracker,
                            instance,
                            location,
                        );
                    }
                },
                None => {
                    if found < 1 {
                        return single_error(
                            ValidationErrorKind::Contains,
                            &self.location,
                            tracker,
                            instance,
                            location,
                        );
                    }
                },
            }
            if let Some(limit) = self.max {
                if found > limit {
                    return single_error(
                        ValidationErrorKind::MaxContains { limit },
                        &self.max_location,
                        tracker,
                        instance,
                        location,
                    );
                }
            }
        }
        let none: Vec<ValidationError> = Vec::new();
        proof {
            assert(error_views(none@) =~= Seq::<ErrorView>::empty());
        }
        none
    }

    /// Reads the bound under a keyword beside `contains`.
    fn bound(ctx: &Context, parent: &ObjectMap, keyword: &str) -> (r: Result<
        Option<u64>,
        ValidationError,
    >)
        ensures
            r is Ok <==> bound_accepted(ctx@.draft, parent@, keyword@),
            r matches Ok(limit) ==> limit == bound_under(ctx@.draft, parent@, keyword@),
            r matches Err(e) ==> e@ == crate::keywords::required::wrong_type(
                ctx@.location.push(Seg::Property(keyword@)),
                obj_get(parent@, keyword@)->0,
                JsonType::Integer,
            ),
    {
        if !(ctx.draft() == Draft::Draft201909 || ctx.draft() == Draft::Draft202012) {
            return Ok(None);
        }
        match parent.get(keyword) {
            Some(Value::Number(Number::PosInt(limit))) => Ok(Some(*limit)),
            Some(other) => Err(
                schema_type_error(&ctx.location().join(keyword), other, JsonType::Integer),
            ),
            None => Ok(None),
        }
    }

    /// Compiles `contains` with the `minContains` and `maxContains` beside
    /// it.
    pub fn compile(ctx: &Context, parent: &ObjectMap, schema: &Value, refs: &mut Vec<Location>) -> (r:
        CompilationResult)
        requires
            obj_get(parent@, "contains"@) == Some(schema@),
        ensures
            r is Ok ==> crate::found::places(final(refs)@) == crate::found::places(old(refs)@)
                + crate::found::keyword_found(ctx@, parent@, Keyword::Contains),
            crate::refusal::fault(r) == crate::refusal::keyword_refusal(
                ctx@,
                parent@,
                Keyword::Contains,
            ),
            crate::references::kept(old(refs)@, final(refs)@),
            r matches Ok(validator) ==> crate::references::kw_held(&validator, final(refs)@),
            crate::rules::reference_free(Json::Object(parent@)) ==> final(refs)@ == old(refs)@,
            r is Ok <==> crate::rules::keyword_accepted(ctx@, parent@, Keyword::Contains),
            r matches Ok(validator) ==> crate::node::kw_wf(&validator)
                && crate::shape::keyword_compiled(ctx@, parent@, Keyword::Contains, &validator),
        decreases json_size(Json::Object(parent@)), 2nat,
    {
        proof {
            lemma_found_smaller(parent@, "contains"@);
            crate::rules::lemma_members_reference_free(parent@);
            assert(Keyword::Contains.name() == "contains"@);
        }
        let kctx = ctx.new_at_location("contains");
        let node = compile(&kctx, schema, refs)?;
        let min = Self::bound(ctx, parent, "minContains")?;
        let max = Self::bound(ctx, parent, "maxContains")?;
        let validator = KeywordValidator::Contains(
            ContainsValidator {
                node,
                min,
                max,
                location: ctx.location().join("contains"),
                min_location: ctx.location().join("minContains"),
                max_location: ctx.location().join("maxContains"),
            },
        );
        proof {
            crate::references::lemma_held_by_node(&validator, &validator->Contains_0.node, refs@);
        }
        Ok(validator)
    }
}

} // verus!
