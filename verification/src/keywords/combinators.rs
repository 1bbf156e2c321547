//! The keywords `allOf`, `anyOf` and `oneOf`: several schemas for one value.
use vstd::prelude::*;
use crate::error::{
    ErrorView, KindView, ValidationError, ValidationErrorKind, branch_views, error_views,
    lemma_branch_views_push, lemma_error_views_concat,
};
use crate::json::{Json, Value};
use crate::keywords::boolean::{keyword_error, single_error};
use crate::keywords::items::nodes_wf;
use crate::node::{Registry, SchemaNode, node_errors, node_valid};
use crate::paths::{Location, RefTracker, Seg, tracker_view};

verus! {

/// Whether the value satisfies every schema.
pub open spec fn all_valid(reg: &Registry, nodes: Seq<SchemaNode>, instance: Json, depth: nat) -> bool
    decreases depth, nodes, 0nat,
{
    forall|i: int| 0 <= i < nodes.len() ==> node_valid(reg, #[trigger] &nodes[i], instance, depth)
}

/// Whether the value satisfies some schema.
pub open spec fn any_valid(reg: &Registry, nodes: Seq<SchemaNode>, instance: Json, depth: nat) -> bool
    decreases depth, nodes, 0nat,
{
    exists|i: int| 0 <= i < nodes.len() && node_valid(reg, #[trigger] &nodes[i], instance, depth)
}

/// How many of the first `n` schemas the value satisfies.
pub open spec fn valid_count(
    reg: &Registry,
    nodes: Seq<SchemaNode>,
    n: nat,
    instance: Json,
    depth: nat,
) -> nat
    decreases depth, nodes, n,
{
    if n == 0 || n > nodes.len() {
        0
    } else {
        valid_count(reg, nodes, (n - 1) as nat, instance, depth) + if node_valid(
            reg,
            &nodes[n - 1],
            instance,
            depth,
        ) {
            1nat
        } else {
            0nat
        }
    }
}

/// The errors of the first `n` schemas, one after the other.
pub open spec fn all_errors(
    reg: &Registry,
    nodes: Seq<SchemaNode>,
    n: nat,
    instance: Json,
    path: Seq<Seg>,
    tracker: Option<(Seq<Seg>, Seq<Seg>)>,
    depth: nat,
) -> Seq<ErrorView>
    decreases depth, nodes, n,
{
    if n == 0 || n > nodes.len() {
        Seq::empty()
    } else {
        all_errors(reg, nodes, (n - 1) as nat, instance, path, tracker, depth) + node_errors(
            reg,
            &nodes[n - 1],
            instance,
            path,
            tracker,
            depth,
        )
    }
}

/// The errors of the first `n` schemas, schema by schema.
pub open spec fn branches(
    reg: &Registry,
    nodes: Seq<SchemaNode>,
    n: nat,
    instance: Json,
    path: Seq<Seg>,
    tracker: Option<(Seq<Seg>, Seq<Seg>)>,
    depth: nat,
) -> Seq<Seq<ErrorView>>
    decreases depth, nodes, n,
{
    if n == 0 || n > nodes.len() {
        Seq::empty()
    } else {
        branches(reg, nodes, (n - 1) as nat, instance, path, tracker, depth).push(
            node_errors(reg, &nodes[n - 1], instance, path, tracker, depth),
        )
    }
}

/// The errors of every schema on the value, schema by schema.
fn collect_branches(
    nodes: &Vec<SchemaNode>,
    reg: &Registry,
    instance: &Value,
    location: &Location,
    tracker: Option<&RefTracker>,
    depth: usize,
) -> (r: Vec<Vec<ValidationError>>)
    requires
        reg.wf(),
        nodes_wf(nodes@),
    ensures
        branch_views(r@) == branches(
            reg,
            nodes@,
            nodes@.len(),
            instance@,
            location@,
            tracker_view(tracker),
            depth as nat,
        ),
    decreases depth, nodes, 0nat,
{
    let mut context: Vec<Vec<ValidationError>> = Vec::new();
    let mut i: usize = 0;
    while i < nodes.len()
        invariant
            i <= nodes.len(),
            reg.wf(),
            nodes_wf(nodes@),
            branch_views(context@) == branches(
                reg,
                nodes@,
                i as nat,
                instance@,
                location@,
                tracker_view(tracker),
                depth as nat,
            ),
        decreases nodes.len() - i,
    {
        let found = nodes[i].iter_errors(reg, instance, location, tracker, depth);
        proof {
            lemma_branch_views_push(context@, found);
            assert(branches(
                reg,
                nodes@,
                (i + 1) as nat,
                instance@,
                location@,
                tracker_view(tracker),
                depth as nat,
            ) == branches(
                reg,
                nodes@,
                i as nat,
                instance@,
                location@,
                tracker_view(tracker),
                depth as nat,
            ).push(
                node_errors(
                    reg,
                    &nodes@[i as int],
                    instance@,
                    location@,
                    tracker_view(tracker),
                    depth as nat,
                ),
            ));
        }
        context.push(found);
        i += 1;
    }
    context
}

/// How many of the schemas the value satisfies.
fn count_valid(nodes: &Vec<SchemaNode>, reg: &Registry, instance: &Value, depth: usize) -> (r: usize)
    requires
        reg.wf(),
        nodes_wf(nodes@),
    ensures
        r == valid_count(reg, nodes@, nodes@.len(), instance@, depth as nat),
    decreases depth, nodes, 0nat,
{
    let mut count: usize = 0;
    let mut i: usize = 0;
    while i < nodes.len()
        invariant
            i <= nodes.len(),
            count <= i,
            reg.wf(),
            nodes_wf(nodes@),
            count == valid_count(reg, nodes@, i as nat, instance@, depth as nat),
        decreases nodes.len() - i,
    {
        proof {
            assert(valid_count(reg, nodes@, (i + 1) as nat, instance@, depth as nat) == valid_count(
                reg,
                nodes@,
                i as nat,
                instance@,
                depth as nat,
            ) + if node_valid(reg, &nodes@[i as int], instance@, depth as nat) {
                1nat
            } else {
                0nat
            });
        }
        if nodes[i].is_valid(reg, instance, depth) {
            count += 1;
        }
        i += 1;
    }
    count
}

/// `allOf`: the value satisfies every schema.
#[derive(Debug)]
pub struct AllOfValidator {
    pub schemas: Vec<SchemaNode>,
}

/// `anyOf`: the value satisfies at least one schema.
#[derive(Debug)]
pub struct AnyOfValidator {
    pub schemas: Vec<SchemaNode>,
    pub location: Location,
}

/// `oneOf`: the value satisfies exactly one schema.
#[derive(Debug)]
pub struct OneOfValidator {
    pub schemas: Vec<SchemaNode>,
    pub location: Location,
}

impl AllOfValidator {
    pub open spec fn wf(&self) -> bool
        decreases self, 0nat,
    {
        nodes_wf(self.schemas@)
    }

    pub open spec fn valid(&self, reg: &Registry, instance: Json, depth: nat) -> bool
        decreases depth, self, 0nat,
    {
        all_valid(reg, self.schemas@, instance, depth)
    }

    /// The errors of each schema, in the order of the schemas.
    pub open spec fn errors(
        &self,
        reg: &Registry,
        instance: Json,
        path: Seq<Seg>,
        tracker: Option<(Seq<Seg>, Seq<Seg>)>,
        depth: nat,
    ) -> Seq<ErrorView>
        decreases depth, self, 0nat,
    {
        all_errors(reg, self.schemas@, self.schemas@.len(), instance, path, tracker, depth)
    }

    pub fn is_valid(&self, reg: &Registry, instance: &Value, depth: usize) -> (r: bool)
        requires
            reg.wf(),
            self.wf(),
        ensures
            r == self.valid(reg, instance@, depth as nat),
        decreases depth, self, 0nat,
    {
        let mut i: usize = 0;
        while i < self.schemas.len()
            invariant
                i <= self.schemas.len(),
                reg.wf(),
                self.wf(),
                forall|j: int|
                    0 <= j < i ==> node_valid(reg, #[trigger] &self.schemas@[j], instance@, depth as nat),
            decreases self.schemas.len() - i,
        {
            if !self.schemas[i].is_valid(reg, instance, depth) {
                return false;
            }
            i += 1;
        }
        true
    }

    pub fn iter_errors(
        &self,
        reg: &Registry,
        instance: &Value,
        location: &Location,
        tracker: Option<&RefTracker>,
        depth: usize,
    ) -> (r: Vec<ValidationError>)
        requires
            reg.wf(),
            self.wf(),
        ensures
            error_views(r@) == self.errors(
                reg,
                instance@,
                location@,
                tracker_view(tracker),
                depth as nat,
            ),
        decreases depth, self, 0nat,
    {
        let mut errors: Vec<ValidationError> = Vec::new();
        let mut i: usize = 0;
        while i < self.schemas.len()
            invariant
                i <= self.schemas.len(),
                reg.wf(),
                self.wf(),
                error_views(errors@) == all_errors(
                    reg,
                    self.schemas@,
                    i as nat,
                    instance@,
                    location@,
                    tracker_view(tracker),
                    depth as nat,
                ),
            decreases self.schemas.len() - i,
        {
            let mut found = self.schemas[i].iter_errors(reg, instance, location, tracker, depth);
            proof {
                lemma_error_views_concat(errors@, found@);
                assert(all_errors(
                    reg,
                    self.schemas@,
                    (i + 1) as nat,
                    instance@,
                    location@,
                    tracker_view(tracker),
                    depth as nat,
                ) == all_errors(
                    reg,
                    self.schemas@,
                    i as nat,
                    instance@,
                    location@,
                    tracker_view(tracker),
                    depth as nat,
                ) + node_errors(
                    reg,
                    &self.schemas@[i as int],
                    instance@,
                    location@,
                    tracker_view(tracker),
                    depth as nat,
                ));
            }
            errors.append(&mut found);
            i += 1;
        }
        errors
    }
}

impl AnyOfValidator {
    pub open spec fn wf(&self) -> bool
        decreases self, 0nat,
    {
        nodes_wf(self.schemas@)
    }

    pub open spec fn valid(&self, reg: &Registry, instance: Json, depth: nat) -> bool
        decreases depth, self, 0nat,
    {
        any_valid(reg, self.schemas@, instance, depth)
    }

    /// One error, which carries the errors of each schema, where the value
    /// satisfies none of them. The errors of the schemas do not come by
    /// themselves.
    pub open spec fn errors(
        &self,
        reg: &Registry,
        instance: Json,
        path: Seq<Seg>,
        tracker: Option<(Seq<Seg>, Seq<Seg>)>,
        depth: nat,
    ) -> Seq<ErrorView>
        decreases depth, self, 0nat,
    {
        if any_valid(reg, self.schemas@, instance, depth) {
            Seq::empty()
        } else {
            seq![
                keyword_error(
                    KindView::AnyOf {
                        context: branches(
                            reg,
                            self.schemas@,
                            self.schemas@.len(),
                            instance,
                            path,
                            tracker,
                            depth,
                        ),
                    },
                    self.location@,
                    tracker,
                    instance,
                    path,
                ),
            ]
        }
    }

    pub fn is_valid(&self, reg: &Registry, instance: &Value, depth: usize) -> (r: bool)
        requires
            reg.wf(),
            self.wf(),
        ensures
            r == self.valid(reg, instance@, depth as nat),
        decreases depth, self, 0nat,
    {
        let mut i: usize = 0;
        while i < self.schemas.len()
            invariant
                i <= self.schemas.len(),
                reg.wf(),
                self.wf(),
                forall|j: int|
                    0 <= j < i ==> !node_valid(reg, #[trigger] &self.schemas@[j], instance@, depth as nat),
            decreases self.schemas.len() - i,
        {
            if self.schemas[i].is_valid(reg, instance, depth) {
                return true;
            }
            i += 1;
        }
        false
    }

    pub fn iter_errors(
        &self,
        reg: &Registry,
        instance: &Value,
        location: &Location,
        tracker: Option<&RefTracker>,
        depth: usize,
    ) -> (r: Vec<ValidationError>)
        requires
            reg.wf(),
            self.wf(),
        ensures
            error_views(r@) == self.errors(
                reg,
                instance@,
                location@,
                tracker_view(tracker),
                depth as nat,
            ),
        decreases depth, self, 0nat,
    {
        if self.is_valid(reg, instance, depth) {
            return Vec::new();
        }
        let context = collect_branches(&self.schemas, reg, instance, location, tracker, depth);
        single_error(ValidationErrorKind::AnyOf { context }, &self.location, tracker, instance, location)
    }
}

impl OneOfValidator {
    pub open spec fn wf(&self) -> bool
        decreases self, 0nat,
    {
        nodes_wf(self.schemas@)
    }

    /// How many of the schemas the value satisfies.
    pub open spec fn count(&self, reg: &Registry, instance: Json, depth: nat) -> nat
        decreases depth, self, 0nat,
    {
        valid_count(reg, self.schemas@, self.schemas@.len(), instance, depth)
    }

    pub open spec fn valid(&self, reg: &Registry, instance: Json, depth: nat) -> bool
        decreases depth, self, 1nat,
    {
        self.count(reg, instance, depth) == 1
    }

    /// One error where the value satisfies no schema, another where it
    /// satisfies more than one; each carries the errors of every schema.
    pub open spec fn errors(
        &self,
        reg: &Registry,
        instance: Json,
        path: Seq<Seg>,
        tracker: Option<(Seq<Seg>, Seq<Seg>)>,
        depth: nat,
    ) -> Seq<ErrorView>
        decreases depth, self, 1nat,
    {
        let context = branches(
            reg,
            self.schemas@,
            self.schemas@.len(),
            instance,
            path,
            tracker,
            depth,
        );
        let count = self.count(reg, instance, depth);
        if count == 1 {
            Seq::empty()
        } else if count == 0 {
            seq![
                keyword_error(
                    KindView::OneOfNotValid { context },
                    self.location@,
                    tracker,
                    instance,
                    path,
                ),
            ]
        } else {
            seq![
                keyword_error(
                    KindView::OneOfMultipleValid { context },
                    self.location@,
                    tracker,
                    instance,
                    path,
                ),
            ]
        }
    }

    pub fn is_valid(&self, reg: &Registry, instance: &Value, depth: usize) -> (r: bool)
        requires
            reg.wf(),
            self.wf(),
        ensures
            r == self.valid(reg, instance@, depth as nat),
        decreases depth, self, 0nat,
    {
        count_valid(&self.schemas, reg, instance, depth) == 1
    }

    pub fn iter_errors(
        &self,
        reg: &Registry,
        instance: &Value,
        location: &Location,
        tracker: Option<&RefTracker>,
        depth: usize,
    ) -> (r: Vec<ValidationError>)
        requires
            reg.wf(),
            self.wf(),
        ensures
            error_views(r@) == self.errors(
                reg,
                instance@,
                location@,
                tracker_view(tracker),
                depth as nat,
            ),
        decreases depth, self, 0nat,
    {
        let count = count_valid(&self.schemas, reg, instance, depth);
        if count == 1 {
            return Vec::new();
        }
        let context = collect_branches(&self.schemas, reg, instance, location, tracker, depth);
        if count == 0 {
            single_error(
                ValidationErrorKind::OneOfNotValid { context },
                &self.location,
                tracker,
                instance,
                location,
            )
        } else {
            single_error(
                ValidationErrorKind::OneOfMultipleValid { context },
                &self.location,
                tracker,
                instance,
                location,
            )
        }
    }
}

/// The result of each of the schemas on the value, in the order of the
/// schemas.
pub fn branch_results(
    nodes: &Vec<SchemaNode>,
    reg: &Registry,
    instance: &Value,
    location: &Location,
    tracker: Option<&RefTracker>,
    depth: usize,
) -> (r: Vec<crate::evaluation::EvaluationNode>)
    requires
        reg.wf(),
        nodes_wf(nodes@),
    ensures
        crate::outcome::all_below(
            reg,
            nodes@,
            instance@,
            location@,
            tracker_view(tracker),
            depth as nat,
            r@,
        ),
    decreases depth, nodes, 0nat,
{
    let mut children: Vec<crate::evaluation::EvaluationNode> = Vec::new();
    let mut i: usize = 0;
    while i < nodes.len()
        invariant
            i <= nodes.len(),
            reg.wf(),
            nodes_wf(nodes@),
            children@.len() == i,
            forall|j: int|
                0 <= j < i ==> crate::outcome::node_result(
                    reg,
                    &nodes@[j],
                    instance@,
                    location@,
                    tracker_view(tracker),
                    depth as nat,
                    #[trigger] &children@[j],
                ),
        decreases nodes.len() - i,
    {
        let ghost before = children@;
        children.push(nodes[i].evaluate_instance(reg, instance, location, tracker, depth));
        proof {
            assert forall|j: int| 0 <= j < i + 1 implies crate::outcome::node_result(
                reg,
                &nodes@[j],
                instance@,
                location@,
                tracker_view(tracker),
                depth as nat,
                #[trigger] &children@[j],
            ) by {
                if j < i {
                    assert(children@[j] == before[j]);
                }
            }
        }
        i += 1;
    }
    children
}

impl AllOfValidator {
    /// The structured result of the keyword: the result of each branch
    /// stands below it, and the keyword holds where each of them does.
    pub fn evaluate(
        &self,
        reg: &Registry,
        instance: &Value,
        location: &Location,
        tracker: Option<&RefTracker>,
        depth: usize,
    ) -> (r: crate::evaluation::EvaluationResult)
        requires
            reg.wf(),
            self.wf(),
        ensures
            r.valid == self.valid(reg, instance@, depth as nat),
            crate::outcome::kw_outcome(
                reg,
                &crate::node::KeywordValidator::AllOf(*self),
                instance@,
                location@,
                tracker_view(tracker),
                depth as nat,
                &r,
            ),
        decreases depth, self, 2nat,
    {
        let children = branch_results(&self.schemas, reg, instance, location, tracker, depth);
        proof {
            assert(crate::evaluation::all_hold(children@) <==> all_valid(
                reg,
                self.schemas@,
                instance@,
                depth as nat,
            )) by {
                if crate::evaluation::all_hold(children@) {
                    assert forall|j: int| 0 <= j < self.schemas@.len() implies node_valid(
                        reg,
                        #[trigger] &self.schemas@[j],
                        instance@,
                        depth as nat,
                    ) by {
                        assert(children@[j].valid);
                    }
                } else {
                    let j = choose|j: int| 0 <= j < children@.len() && !(#[trigger] children@[j]).valid;
                    assert(!node_valid(reg, &self.schemas@[j], instance@, depth as nat));
                }
            }
        }
        let r = crate::evaluation::EvaluationResult::from_children(children);
        proof {
            assert(crate::evaluation::told(r.errors@) =~= Seq::<(Seq<char>, Seq<char>)>::empty());
        }
        r
    }
}

impl AnyOfValidator {
    /// The structured result of the keyword: the result of each branch
    /// stands below it, whether the branch holds or not, and where the
    /// keyword fails its result holds its error in words.
    pub fn evaluate(
        &self,
        reg: &Registry,
        instance: &Value,
        location: &Location,
        tracker: Option<&RefTracker>,
        depth: usize,
    ) -> (r: crate::evaluation::EvaluationResult)
        requires
            reg.wf(),
            self.wf(),
        ensures
            r.valid == self.valid(reg, instance@, depth as nat),
            crate::outcome::kw_outcome(
                reg,
                &crate::node::KeywordValidator::AnyOf(*self),
                instance@,
                location@,
                tracker_view(tracker),
                depth as nat,
                &r,
            ),
        decreases depth, self, 2nat,
    {
        let children = branch_results(&self.schemas, reg, instance, location, tracker, depth);
        let errors = self.iter_errors(reg, instance, location, tracker, depth);
        proof {
            crate::laws::lemma_keyword_consistent(
                reg,
                &crate::node::KeywordValidator::AnyOf(*self),
                instance@,
                location@,
                tracker_view(tracker),
                depth as nat,
            );
            crate::error::lemma_error_views(errors@);
        }
        let valid = errors.len() == 0;
        crate::evaluation::EvaluationResult {
            valid,
            annotations: None,
            errors: crate::evaluation::describe(&errors),
            children,
        }
    }
}

impl OneOfValidator {
    /// The structured result of the keyword: the result of each branch
    /// stands below it, whether the branch holds or not, and where the
    /// keyword fails its result holds its error in words.
    pub fn evaluate(
        &self,
        reg: &Registry,
        instance: &Value,
        location: &Location,
        tracker: Option<&RefTracker>,
        depth: usize,
    ) -> (r: crate::evaluation::EvaluationResult)
        requires
            reg.wf(),
            self.wf(),
        ensures
            r.valid == self.valid(reg, instance@, depth as nat),
            crate::outcome::kw_outcome(
                reg,
                &crate::node::KeywordValidator::OneOf(*self),
                instance@,
                location@,
                tracker_view(tracker),
                depth as nat,
                &r,
            ),
        decreases depth, self, 2nat,
    {
        let children = branch_results(&self.schemas, reg, instance, location, tracker, depth);
        let errors = self.iter_errors(reg, instance, location, tracker, depth);
        proof {
            crate::laws::lemma_keyword_consistent(
                reg,
                &crate::node::KeywordValidator::OneOf(*self),
                instance@,
                location@,
                tracker_view(tracker),
                depth as nat,
            );
            crate::error::lemma_error_views(errors@);
        }
        let valid = errors.len() == 0;
        crate::evaluation::EvaluationResult {
            valid,
            annotations: None,
            errors: crate::evaluation::describe(&errors),
            children,
        }
    }
}

} // verus!
