//! The `unevaluatedProperties` keyword: what holds of the members of an
//! object that no other keyword of the schema has assessed.
//!
//! Which members the other keywords assess is worked out by a
//! [`PropertiesFilter`], which is compiled beside the validators and mirrors
//! them.
use vstd::prelude::*;
use crate::collections::{NameSet, names_contains, names_held, names_insert, names_new};
use crate::error::{ErrorView, KindView, ValidationError, ValidationErrorKind, error_views, name_views};
use crate::json::{Json, ObjectMap, Value, obj_has};
use crate::keywords::boolean::{keyword_error, single_error};
use crate::keywords::properties::properties_wf;
use crate::compiler::{
    Context, compile_members, json_size, lemma_found_smaller, lemma_item_smaller,
    lemma_member_smaller,
};
use crate::node::{CompilationResult, KeywordValidator, Registry, SchemaNode, node_valid, node_wf};
use crate::types::Draft;
use crate::paths::{Location, RefTracker, Seg, tracker_view};
use crate::pattern::Pattern;
use crate::text::str_eq;

verus! {

/// What tells, for one schema, which members of an object its keywords
/// assess.
#[derive(Debug)]
pub struct PropertiesFilter {
    /// The schema of `unevaluatedProperties` itself.
    pub unevaluated: Option<SchemaNode>,
    /// The schema of `additionalProperties`.
    pub additional: Option<SchemaNode>,
    /// The schemas of `properties`, by name.
    pub properties: Vec<(String, SchemaNode)>,
    /// The filters of `dependentSchemas`, by the name they depend on.
    pub dependent: Vec<(String, PropertiesFilter)>,
    /// The schemas of `patternProperties`, by pattern.
    pub pattern_properties: Vec<(Pattern, SchemaNode)>,
    /// Where the schema lies that `$ref` names.
    pub ref_: Option<Location>,
    /// Where the schema lies that `$recursiveRef` or `$dynamicRef` names.
    pub second_ref: Option<Location>,
    /// `if`, `then` and `else`.
    pub conditional: Option<Box<ConditionalFilter>>,
    pub all_of: Option<CombinatorFilter>,
    pub any_of: Option<CombinatorFilter>,
    pub one_of: Option<CombinatorFilter>,
}

/// The branches of `allOf`, `anyOf` or `oneOf`: each as a schema and as a
/// filter.
#[derive(Debug)]
pub struct CombinatorFilter {
    pub subschemas: Vec<(SchemaNode, PropertiesFilter)>,
}

/// `if` as a schema and as a filter, and the filters of `then` and `else`.
#[derive(Debug)]
pub struct ConditionalFilter {
    pub condition: SchemaNode,
    pub if_: PropertiesFilter,
    pub then_: Option<PropertiesFilter>,
    pub else_: Option<PropertiesFilter>,
}

/// Whether compiling could have given the filter.
pub open spec fn filter_wf(f: &PropertiesFilter) -> bool
    decreases f, 1nat,
{
    &&& f.unevaluated matches Some(node) ==> node_wf(&node)
    &&& f.additional matches Some(node) ==> node_wf(&node)
    &&& properties_wf(f.properties@)
    &&& forall|i: int| 0 <= i < f.dependent@.len() ==> filter_wf(&(#[trigger] f.dependent@[i]).1)
    &&& forall|i: int|
        0 <= i < f.pattern_properties@.len() ==> node_wf(&(#[trigger] f.pattern_properties@[i]).1)
    &&& f.conditional matches Some(c) ==> {
        &&& node_wf(&c.condition)
        &&& filter_wf(&c.if_)
        &&& c.then_ matches Some(t) ==> filter_wf(&t)
        &&& c.else_ matches Some(e) ==> filter_wf(&e)
    }
    &&& f.all_of matches Some(c) ==> branches_wf(c.subschemas@)
    &&& f.any_of matches Some(c) ==> branches_wf(c.subschemas@)
    &&& f.one_of matches Some(c) ==> branches_wf(c.subschemas@)
}

/// Whether compiling could have given the branches.
pub open spec fn branches_wf(branches: Seq<(SchemaNode, PropertiesFilter)>) -> bool
    decreases branches, 0nat,
{
    forall|i: int|
        0 <= i < branches.len() ==> node_wf(&(#[trigger] branches[i]).0) && filter_wf(&branches[i].1)
}

/// Whether `properties` assesses the member: a schema has its name, and the
/// value satisfies that schema.
pub open spec fn named_mark(
    reg: &Registry,
    properties: Seq<(String, SchemaNode)>,
    name: Seq<char>,
    value: Json,
    depth: nat,
) -> bool
    decreases depth, properties, 0nat,
{
    exists|j: int|
        0 <= j < properties.len() && (#[trigger] properties[j]).0@ == name && node_valid(
            reg,
            &properties[j].1,
            value,
            depth,
        )
}

/// Whether `patternProperties` assesses the member: a pattern matches its
/// name, and the value satisfies the schema under that pattern.
pub open spec fn pattern_mark(
    reg: &Registry,
    patterns: Seq<(Pattern, SchemaNode)>,
    name: Seq<char>,
    value: Json,
    depth: nat,
) -> bool
    decreases depth, patterns, 0nat,
{
    exists|j: int|
        0 <= j < patterns.len() && (#[trigger] patterns[j]).0.matches(name) && node_valid(
            reg,
            &patterns[j].1,
            value,
            depth,
        )
}

/// Whether the keywords that look at single members assess this member:
/// `properties` by its name, `additionalProperties` or `unevaluatedProperties`
/// by its value, `patternProperties` by a pattern for its name; each only
/// where the value satisfies the schema that the keyword has for it.
pub open spec fn member_marked(
    reg: &Registry,
    f: &PropertiesFilter,
    name: Seq<char>,
    value: Json,
    depth: nat,
) -> bool
    decreases depth, f, 0nat,
{
    ||| named_mark(reg, f.properties@, name, value, depth)
    ||| (f.additional matches Some(node) && node_valid(reg, &node, value, depth))
    ||| (f.unevaluated matches Some(node) && node_valid(reg, &node, value, depth))
    ||| pattern_mark(reg, f.pattern_properties@, name, value, depth)
}

/// The names, among the first `n` members, that the keywords which look at
/// single members assess.
pub open spec fn own_marks(
    reg: &Registry,
    f: &PropertiesFilter,
    n: nat,
    members: Seq<(Seq<char>, Json)>,
    depth: nat,
) -> Set<Seq<char>>
    decreases depth, f, n + 1,
{
    if n == 0 || n > members.len() {
        Set::empty()
    } else {
        let before = own_marks(reg, f, (n - 1) as nat, members, depth);
        if member_marked(reg, f, members[n - 1].0, members[n - 1].1, depth) {
            before.insert(members[n - 1].0)
        } else {
            before
        }
    }
}

/// The names that the first `n` filters of `dependentSchemas` assess: those
/// of each filter whose name the object has.
pub open spec fn dependent_marks(
    reg: &Registry,
    dependent: Seq<(String, PropertiesFilter)>,
    n: nat,
    instance: Json,
    depth: nat,
) -> Set<Seq<char>>
    decreases depth, dependent, n,
{
    if n == 0 || n > dependent.len() {
        Set::empty()
    } else {
        let before = dependent_marks(reg, dependent, (n - 1) as nat, instance, depth);
        if obj_has(instance->Object_0, dependent[n - 1].0@) {
            before.union(marks(reg, &dependent[n - 1].1, instance, depth))
        } else {
            before
        }
    }
}

/// The names that the first `n` branches assess, taken together.
pub open spec fn branch_marks(
    reg: &Registry,
    branches: Seq<(SchemaNode, PropertiesFilter)>,
    n: nat,
    instance: Json,
    depth: nat,
) -> Set<Seq<char>>
    decreases depth, branches, n,
{
    if n == 0 || n > branches.len() {
        Set::empty()
    } else {
        branch_marks(reg, branches, (n - 1) as nat, instance, depth).union(
            marks(reg, &branches[n - 1].1, instance, depth),
        )
    }
}

/// The names that those of the first `n` branches assess which the value
/// satisfies, taken together.
pub open spec fn held_marks(
    reg: &Registry,
    branches: Seq<(SchemaNode, PropertiesFilter)>,
    n: nat,
    instance: Json,
    depth: nat,
) -> Set<Seq<char>>
    decreases depth, branches, n,
{
    if n == 0 || n > branches.len() {
        Set::empty()
    } else {
        let before = held_marks(reg, branches, (n - 1) as nat, instance, depth);
        if node_valid(reg, &branches[n - 1].0, instance, depth) {
            before.union(marks(reg, &branches[n - 1].1, instance, depth))
        } else {
            before
        }
    }
}

/// How many of the first `n` branches the value satisfies.
pub open spec fn branch_count(
    reg: &Registry,
    branches: Seq<(SchemaNode, PropertiesFilter)>,
    n: nat,
    instance: Json,
    depth: nat,
) -> nat
    decreases depth, branches, n,
{
    if n == 0 || n > branches.len() {
        0
    } else {
        branch_count(reg, branches, (n - 1) as nat, instance, depth) + if node_valid(
            reg,
            &branches[n - 1].0,
            instance,
            depth,
        ) {
            1nat
        } else {
            0nat
        }
    }
}

/// The names that the first branch which the value satisfies, among the
/// first `n`, assesses.
pub open spec fn first_branch_marks(
    reg: &Registry,
    branches: Seq<(SchemaNode, PropertiesFilter)>,
    n: nat,
    instance: Json,
    depth: nat,
) -> Set<Seq<char>>
    decreases depth, branches, n,
{
    if n == 0 || n > branches.len() {
        Set::empty()
    } else if branch_count(reg, branches, (n - 1) as nat, instance, depth) > 0 {
        first_branch_marks(reg, branches, (n - 1) as nat, instance, depth)
    } else if node_valid(reg, &branches[n - 1].0, instance, depth) {
        marks(reg, &branches[n - 1].1, instance, depth)
    } else {
        Set::empty()
    }
}

/// The names that the schema assesses which a reference of `f` names: those
/// of its filter, with one reference fewer left to follow. `second` picks
/// `$recursiveRef` or `$dynamicRef` in place of `$ref`.
pub open spec fn ref_marks(
    reg: &Registry,
    f: &PropertiesFilter,
    second: bool,
    instance: Json,
    depth: nat,
) -> Set<Seq<char>>
    decreases depth, f, 0nat,
{
    match referenced(f, second) {
        Some(pointer) => if depth > 0 && reg.has(pointer@) && reg.targets@[reg.position(
            pointer@,
        )].filter is Some {
            marks(
                reg,
                &reg.targets@[reg.position(pointer@)].filter->0,
                instance,
                (depth - 1) as nat,
            )
        } else {
            Set::empty()
        },
        None => Set::empty(),
    }
}

/// The target of one of the two references of a filter.
pub open spec fn referenced(f: &PropertiesFilter, second: bool) -> Option<Location> {
    if second {
        f.second_ref
    } else {
        f.ref_
    }
}

/// The names that `if`, `then` and `else` assess: those of `if` and `then`
/// where the value satisfies `if`, and else those of `else`.
pub open spec fn conditional_marks(
    reg: &Registry,
    c: &ConditionalFilter,
    instance: Json,
    depth: nat,
) -> Set<Seq<char>>
    decreases depth, c, 0nat,
{
    if node_valid(reg, &c.condition, instance, depth) {
        marks(reg, &c.if_, instance, depth).union(
            match c.then_ {
                Some(t) => marks(reg, &t, instance, depth),
                None => Set::empty(),
            },
        )
    } else {
        match c.else_ {
            Some(e) => marks(reg, &e, instance, depth),
            None => Set::empty(),
        }
    }
}

/// The names of the members of `instance` that the keywords of the schema
/// assess:
/// - what a schema assesses that `$ref`, `$recursiveRef` or `$dynamicRef`
///   names;
/// - the members that `properties`, `additionalProperties`,
///   `unevaluatedProperties` or `patternProperties` assess;
/// - what each schema of `dependentSchemas` assesses whose name the object
///   has;
/// - what `if` with `then`, or `else`, assesses;
/// - what the branches of `allOf` assess, where the value satisfies them
///   all; what those branches of `anyOf` assess that the value satisfies;
///   the one branch of `oneOf` that it satisfies, where it satisfies no
///   other.
pub open spec fn marks(reg: &Registry, f: &PropertiesFilter, instance: Json, depth: nat) -> Set<
    Seq<char>,
>
    decreases depth, f, instance->Object_0.len() + 3,
{
    ref_marks(reg, f, false, instance, depth).union(
        ref_marks(reg, f, true, instance, depth),
    ).union(members_part(reg, f, instance, depth)).union(
        conditional_part(reg, f, instance, depth),
    ).union(all_part(reg, f, instance, depth)).union(any_part(reg, f, instance, depth)).union(
        one_part(reg, f, instance, depth),
    )
}

/// What the keywords assess that look at the members of an object one by
/// one, and `dependentSchemas`.
pub open spec fn members_part(reg: &Registry, f: &PropertiesFilter, instance: Json, depth: nat) -> Set<
    Seq<char>,
>
    decreases depth, f, instance->Object_0.len() + 2,
{
    if instance is Object {
        own_marks(reg, f, instance->Object_0.len(), instance->Object_0, depth).union(
            dependent_marks(reg, f.dependent@, f.dependent@.len(), instance, depth),
        )
    } else {
        Set::empty()
    }
}

/// What `if`, `then` and `else` assess.
pub open spec fn conditional_part(
    reg: &Registry,
    f: &PropertiesFilter,
    instance: Json,
    depth: nat,
) -> Set<Seq<char>>
    decreases depth, f, 0nat,
{
    match f.conditional {
        Some(c) => conditional_marks(reg, &*c, instance, depth),
        None => Set::empty(),
    }
}

/// What `allOf` assesses: every branch, where the value satisfies them all.
pub open spec fn all_part(reg: &Registry, f: &PropertiesFilter, instance: Json, depth: nat) -> Set<
    Seq<char>,
>
    decreases depth, f, 0nat,
{
    match f.all_of {
        Some(c) => if branch_count(reg, c.subschemas@, c.subschemas@.len(), instance, depth)
            == c.subschemas@.len() {
            branch_marks(reg, c.subschemas@, c.subschemas@.len(), instance, depth)
        } else {
            Set::empty()
        },
        None => Set::empty(),
    }
}

/// What `anyOf` assesses: each branch that the value satisfies, and no
/// branch that it does not.
pub open spec fn any_part(reg: &Registry, f: &PropertiesFilter, instance: Json, depth: nat) -> Set<
    Seq<char>,
>
    decreases depth, f, 0nat,
{
    match f.any_of {
        Some(c) => held_marks(reg, c.subschemas@, c.subschemas@.len(), instance, depth),
        None => Set::empty(),
    }
}

/// What `oneOf` assesses: the branch that the value satisfies, where it
/// satisfies no other.
pub open spec fn one_part(reg: &Registry, f: &PropertiesFilter, instance: Json, depth: nat) -> Set<
    Seq<char>,
>
    decreases depth, f, 0nat,
{
    match f.one_of {
        Some(c) => if branch_count(reg, c.subschemas@, c.subschemas@.len(), instance, depth) == 1 {
            first_branch_marks(reg, c.subschemas@, c.subschemas@.len(), instance, depth)
        } else {
            Set::empty()
        },
        None => Set::empty(),
    }
}

/// How many of the branches the value satisfies.
fn count_branches(
    branches: &Vec<(SchemaNode, PropertiesFilter)>,
    reg: &Registry,
    instance: &Value,
    depth: usize,
) -> (r: usize)
    requires
        reg.wf(),
        branches_wf(branches@),
    ensures
        r == branch_count(reg, branches@, branches@.len(), instance@, depth as nat),
        r <= branches@.len(),
    decreases depth, branches, 0nat,
{
    let mut count: usize = 0;
    let mut i: usize = 0;
    while i < branches.len()
        invariant
            i <= branches.len(),
            count <= i,
            reg.wf(),
            branches_wf(branches@),
            count == branch_count(reg, branches@, i as nat, instance@, depth as nat),
        decreases branches.len() - i,
    {
        proof {
            assert(branch_count(reg, branches@, (i + 1) as nat, instance@, depth as nat)
                == branch_count(reg, branches@, i as nat, instance@, depth as nat) + if node_valid(
                reg,
                &branches@[i as int].0,
                instance@,
                depth as nat,
            ) {
                1nat
            } else {
                0nat
            });
        }
        if branches[i].0.is_valid(reg, instance, depth) {
            count += 1;
        }
        i += 1;
    }
    count
}

impl CombinatorFilter {
    /// Adds to `properties` the names that the branches assess, taken
    /// together.
    pub fn mark_evaluated_properties(
        &self,
        reg: &Registry,
        instance: &Value,
        properties: &mut NameSet,
        depth: usize,
    )
        requires
            reg.wf(),
            branches_wf(self.subschemas@),
        ensures
            names_held(*final(properties)) == names_held(*old(properties)).union(
                branch_marks(
                    reg,
                    self.subschemas@,
                    self.subschemas@.len(),
                    instance@,
                    depth as nat,
                ),
            ),
        decreases depth, self, 0nat,
    {
        let ghost start = names_held(*properties);
        let mut i: usize = 0;
        proof {
            assert(start.union(Set::<Seq<char>>::empty()) =~= start);
        }
        while i < self.subschemas.len()
            invariant
                i <= self.subschemas.len(),
                reg.wf(),
                branches_wf(self.subschemas@),
                names_held(*properties) == start.union(
                    branch_marks(reg, self.subschemas@, i as nat, instance@, depth as nat),
                ),
            decreases self.subschemas.len() - i,
        {
            let ghost before = branch_marks(reg, self.subschemas@, i as nat, instance@, depth as nat);
            let ghost step = marks(reg, &self.subschemas@[i as int].1, instance@, depth as nat);
            proof {
                assert(branch_marks(reg, self.subschemas@, (i + 1) as nat, instance@, depth as nat)
                    == before.union(step));
                assert(start.union(before).union(step) =~= start.union(before.union(step)));
            }
            self.subschemas[i].1.mark_evaluated_properties(reg, instance, properties, depth);
            i += 1;
        }
    }

    /// Adds to `properties` the names that those branches assess which the
    /// value satisfies.
    pub fn mark_valid_branches(
        &self,
        reg: &Registry,
        instance: &Value,
        properties: &mut NameSet,
        depth: usize,
    )
        requires
            reg.wf(),
            branches_wf(self.subschemas@),
        ensures
            names_held(*final(properties)) == names_held(*old(properties)).union(
                held_marks(reg, self.subschemas@, self.subschemas@.len(), instance@, depth as nat),
            ),
        decreases depth, self, 0nat,
    {
        let ghost start = names_held(*properties);
        let mut i: usize = 0;
        proof {
            assert(start.union(Set::<Seq<char>>::empty()) =~= start);
        }
        while i < self.subschemas.len()
            invariant
                i <= self.subschemas.len(),
                reg.wf(),
                branches_wf(self.subschemas@),
                names_held(*properties) == start.union(
                    held_marks(reg, self.subschemas@, i as nat, instance@, depth as nat),
                ),
            decreases self.subschemas.len() - i,
        {
            let ghost before = held_marks(reg, self.subschemas@, i as nat, instance@, depth as nat);
            let ghost step = marks(reg, &self.subschemas@[i as int].1, instance@, depth as nat);
            proof {
                assert(held_marks(reg, self.subschemas@, (i + 1) as nat, instance@, depth as nat)
                    == if node_valid(reg, &self.subschemas@[i as int].0, instance@, depth as nat) {
                    before.union(step)
                } else {
                    before
                });
                assert(start.union(before).union(step) =~= start.union(before.union(step)));
            }
            if self.subschemas[i].0.is_valid(reg, instance, depth) {
                self.subschemas[i].1.mark_evaluated_properties(reg, instance, properties, depth);
            }
            i += 1;
        }
    }

    /// Adds to `properties` the names that the first branch assesses which
    /// the value satisfies.
    fn mark_first_valid(
        &self,
        reg: &Registry,
        instance: &Value,
        properties: &mut NameSet,
        depth: usize,
    )
        requires
            reg.wf(),
            branches_wf(self.subschemas@),
        ensures
            names_held(*final(properties)) == names_held(*old(properties)).union(
                first_branch_marks(
                    reg,
                    self.subschemas@,
                    self.subschemas@.len(),
                    instance@,
                    depth as nat,
                ),
            ),
        decreases depth, self, 0nat,
    {
        let ghost start = names_held(*properties);
        let ghost whole = first_branch_marks(
            reg,
            self.subschemas@,
            self.subschemas@.len(),
            instance@,
            depth as nat,
        );
        let mut i: usize = 0;
        let mut found = false;
        while i < self.subschemas.len() && !found
            invariant
                i <= self.subschemas.len(),
                reg.wf(),
                branches_wf(self.subschemas@),
                whole == first_branch_marks(
                    reg,
                    self.subschemas@,
                    self.subschemas@.len(),
                    instance@,
                    depth as nat,
                ),
                found ==> names_held(*properties) == start.union(whole),
                !found ==> names_held(*properties) == start,
                !found ==> branch_count(reg, self.subschemas@, i as nat, instance@, depth as nat) == 0,
                !found ==> first_branch_marks(reg, self.subschemas@, i as nat, instance@, depth as nat)
                    == Set::<Seq<char>>::empty(),
            decreases self.subschemas.len() - i + if found { 0nat } else { 1nat },
        {
            proof {
                assert(branch_count(reg, self.subschemas@, (i + 1) as nat, instance@, depth as nat)
                    == branch_count(reg, self.subschemas@, i as nat, instance@, depth as nat)
                    + if node_valid(reg, &self.subschemas@[i as int].0, instance@, depth as nat) {
                    1nat
                } else {
                    0nat
                });
            }
            if self.subschemas[i].0.is_valid(reg, instance, depth) {
                self.subschemas[i].1.mark_evaluated_properties(reg, instance, properties, depth);
                proof {
                    assert(first_branch_marks(
                        reg,
                        self.subschemas@,
                        (i + 1) as nat,
                        instance@,
                        depth as nat,
                    ) == marks(reg, &self.subschemas@[i as int].1, instance@, depth as nat));
                    lemma_first_branch_settled(
                        reg,
                        self.subschemas@,
                        (i + 1) as nat,
                        self.subschemas@.len(),
                        instance@,
                        depth as nat,
                    );
                }
                found = true;
            } else {
                i += 1;
            }
        }
        proof {
            if !found {
                assert(start.union(whole) =~= start);
            }
        }
    }
}

/// How many of the first `n` branches hold never falls as `n` grows.
pub proof fn lemma_branch_count_grows(
    reg: &Registry,
    branches: Seq<(SchemaNode, PropertiesFilter)>,
    n: nat,
    m: nat,
    instance: Json,
    depth: nat,
)
    requires
        n <= m <= branches.len(),
    ensures
        branch_count(reg, branches, n, instance, depth) <= branch_count(
            reg,
            branches,
            m,
            instance,
            depth,
        ),
    decreases m - n,
{
    if n < m {
        lemma_branch_count_grows(reg, branches, n, (m - 1) as nat, instance, depth);
    }
}

/// Once one of the first `n` branches holds, the first branch that holds is
/// settled: looking at more branches does not change it.
pub proof fn lemma_first_branch_settled(
    reg: &Registry,
    branches: Seq<(SchemaNode, PropertiesFilter)>,
    n: nat,
    m: nat,
    instance: Json,
    depth: nat,
)
    requires
        n <= m <= branches.len(),
        branch_count(reg, branches, n, instance, depth) > 0,
    ensures
        first_branch_marks(reg, branches, m, instance, depth) == first_branch_marks(
            reg,
            branches,
            n,
            instance,
            depth,
        ),
    decreases m - n,
{
    if n < m {
        lemma_first_branch_settled(reg, branches, n, (m - 1) as nat, instance, depth);
        lemma_branch_count_grows(reg, branches, n, (m - 1) as nat, instance, depth);
    }
}

impl PropertiesFilter {
    /// The schema that is applied to the members that nothing else has
    /// assessed.
    pub fn unevaluated(&self) -> (r: Option<&SchemaNode>)
        ensures
            r is Some <==> self.unevaluated is Some,
            r matches Some(node) ==> *node == self.unevaluated->0,
    {
        self.unevaluated.as_ref()
    }

    /// Whether `value` passes as a member that nothing else has assessed:
    /// there is a schema for such members, and the value satisfies it.
    pub open spec fn admits(&self, reg: &Registry, value: Json, depth: nat) -> bool
        decreases depth, self, 0nat,
    {
        self.unevaluated matches Some(node) && node_valid(reg, &node, value, depth)
    }

    /// Whether `value` passes as a member that nothing else has assessed.
    pub fn is_valid(&self, reg: &Registry, value: &Value, depth: usize) -> (r: bool)
        requires
            reg.wf(),
            filter_wf(self),
        ensures
            r == self.admits(reg, value@, depth as nat),
        decreases depth, self, 0nat,
    {
        match &self.unevaluated {
            Some(node) => node.is_valid(reg, value, depth),
            None => false,
        }
    }

    /// Whether the keywords that look at single members assess the member.
    fn member_is_marked(&self, reg: &Registry, name: &str, value: &Value, depth: usize) -> (r: bool)
        requires
            reg.wf(),
            filter_wf(self),
        ensures
            r == member_marked(reg, self, name@, value@, depth as nat),
        decreases depth, self, 0nat,
    {
        let mut i: usize = 0;
        while i < self.properties.len()
            invariant
                i <= self.properties.len(),
                reg.wf(),
                filter_wf(self),
                forall|j: int|
                    0 <= j < i ==> !((#[trigger] self.properties@[j]).0@ == name@ && node_valid(
                        reg,
                        &self.properties@[j].1,
                        value@,
                        depth as nat,
                    )),
            decreases self.properties.len() - i,
        {
            proof {
                assert(properties_wf(self.properties@));
                assert(node_wf(&self.properties@[i as int].1));
            }
            if str_eq(self.properties[i].0.as_str(), name) && self.properties[i].1.is_valid(
                reg,
                value,
                depth,
            ) {
                proof {
                    assert(self.properties@[i as int].0@ == name@ && node_valid(
                        reg,
                        &self.properties@[i as int].1,
                        value@,
                        depth as nat,
                    ));
                }
                return true;
            }
            i += 1;
        }
        assert(!named_mark(reg, self.properties@, name@, value@, depth as nat));
        if let Some(additional) = &self.additional {
            if additional.is_valid(reg, value, depth) {
                return true;
            }
        }
        if let Some(unevaluated) = &self.unevaluated {
            if unevaluated.is_valid(reg, value, depth) {
                return true;
            }
        }
        let mut k: usize = 0;
        while k < self.pattern_properties.len()
            invariant
                k <= self.pattern_properties.len(),
                reg.wf(),
                filter_wf(self),
                forall|j: int|
                    0 <= j < k ==> !((#[trigger] self.pattern_properties@[j]).0.matches(name@)
                        && node_valid(reg, &self.pattern_properties@[j].1, value@, depth as nat)),
            decreases self.pattern_properties.len() - k,
        {
            proof {
                assert(node_wf(&self.pattern_properties@[k as int].1));
            }
            if self.pattern_properties[k].0.is_match(name) && self.pattern_properties[k].1.is_valid(
                reg,
                value,
                depth,
            ) {
                proof {
                    assert(self.pattern_properties@[k as int].0.matches(name@) && node_valid(
                        reg,
                        &self.pattern_properties@[k as int].1,
                        value@,
                        depth as nat,
                    ));
                }
                return true;
            }
            k += 1;
        }
        false
    }

    /// Adds to `properties` the names that a referenced schema assesses.
    fn mark_referenced(
        &self,
        second: bool,
        reg: &Registry,
        instance: &Value,
        properties: &mut NameSet,
        depth: usize,
    )
        requires
            reg.wf(),
        ensures
            names_held(*final(properties)) == names_held(*old(properties)).union(
                ref_marks(reg, self, second, instance@, depth as nat),
            ),
        decreases depth, self, 0nat,
    {
        let ghost start = names_held(*properties);
        proof {
            assert(start.union(Set::<Seq<char>>::empty()) =~= start);
        }
        let target = if second {
            &self.second_ref
        } else {
            &self.ref_
        };
        if let Some(pointer) = target {
            if depth > 0 {
                if let Some(index) = reg.find(pointer) {
                    if let Some(filter) = &reg.targets[index].filter {
                        filter.mark_evaluated_properties(reg, instance, properties, depth - 1);
                    }
                }
            }
        }
    }

    /// Adds to `properties` the names of the members of `instance` that the
    /// keywords of the schema assess.
    pub fn mark_evaluated_properties(
        &self,
        reg: &Registry,
        instance: &Value,
        properties: &mut NameSet,
        depth: usize,
    )
        requires
            reg.wf(),
            filter_wf(self),
        ensures
            names_held(*final(properties)) == names_held(*old(properties)).union(
                marks(reg, self, instance@, depth as nat),
            ),
        decreases depth, self, 1nat,
    {
        let ghost start = names_held(*properties);
        let ghost d = depth as nat;
        let ghost m_ref = ref_marks(reg, self, false, instance@, d);
        let ghost m_second = ref_marks(reg, self, true, instance@, d);

        self.mark_referenced(false, reg, instance, properties, depth);
        self.mark_referenced(true, reg, instance, properties, depth);

        let ghost after_refs = names_held(*properties);
        let ghost m_members = members_part(reg, self, instance@, d);
        if let Value::Object(obj) = instance {
            let n = obj.len();
            let mut i: usize = 0;
            proof {
                assert(after_refs.union(Set::<Seq<char>>::empty()) =~= after_refs);
            }
            while i < n
                invariant
                    i <= n,
                    n == obj@.len(),
                    reg.wf(),
                    filter_wf(self),
                    instance@ is Object,
                    instance@->Object_0 == obj@,
                    d == depth as nat,
                    names_held(*properties) == after_refs.union(own_marks(reg, self, i as nat, obj@, d)),
                decreases n - i,
            {
                let property = obj.key_at(i);
                let value = obj.value_at(i);
                let ghost before = own_marks(reg, self, i as nat, obj@, d);
                proof {
                    assert(own_marks(reg, self, (i + 1) as nat, obj@, d) == if member_marked(
                        reg,
                        self,
                        obj@[i as int].0,
                        obj@[i as int].1,
                        d,
                    ) {
                        before.insert(obj@[i as int].0)
                    } else {
                        before
                    });
                }
                if self.member_is_marked(reg, property.as_str(), value, depth) {
                    names_insert(properties, property.clone());
                    proof {
                        assert(after_refs.union(before).insert(property@) =~= after_refs.union(
                            before.insert(property@),
                        ));
                    }
                }
                i += 1;
            }
            let ghost own = own_marks(reg, self, n as nat, obj@, d);
            let mut k: usize = 0;
            proof {
                assert(after_refs.union(own).union(Set::<Seq<char>>::empty()) =~= after_refs.union(own));
            }
            while k < self.dependent.len()
                invariant
                    k <= self.dependent.len(),
                    reg.wf(),
                    filter_wf(self),
                    instance@ is Object,
                    instance@->Object_0 == obj@,
                    d == depth as nat,
                    names_held(*properties) == after_refs.union(own).union(
                        dependent_marks(reg, self.dependent@, k as nat, instance@, d),
                    ),
                decreases self.dependent.len() - k,
            {
                let ghost before = dependent_marks(reg, self.dependent@, k as nat, instance@, d);
                let ghost step = marks(reg, &self.dependent@[k as int].1, instance@, d);
                proof {
                    assert(dependent_marks(reg, self.dependent@, (k + 1) as nat, instance@, d)
                        == if obj_has(obj@, self.dependent@[k as int].0@) {
                        before.union(step)
                    } else {
                        before
                    });
                    assert(after_refs.union(own).union(before).union(step) =~= after_refs.union(
                        own,
                    ).union(before.union(step)));
                }
                if obj.contains_key(self.dependent[k].0.as_str()) {
                    self.dependent[k].1.mark_evaluated_properties(reg, instance, properties, depth);
                }
                k += 1;
            }
            proof {
                assert(after_refs.union(own).union(
                    dependent_marks(reg, self.dependent@, self.dependent@.len(), instance@, d),
                ) =~= after_refs.union(m_members));
            }
        } else {
            proof {
                assert(after_refs.union(m_members) =~= after_refs);
            }
        }

        let ghost after_members = names_held(*properties);
        let ghost m_conditional = conditional_part(reg, self, instance@, d);
        if let Some(conditional) = &self.conditional {
            if conditional.condition.is_valid(reg, instance, depth) {
                conditional.if_.mark_evaluated_properties(reg, instance, properties, depth);
                if let Some(then_) = &conditional.then_ {
                    then_.mark_evaluated_properties(reg, instance, properties, depth);
                    proof {
                        assert(names_held(*properties) =~= after_members.union(m_conditional));
                    }
                } else {
                    proof {
                        assert(names_held(*properties) =~= after_members.union(m_conditional));
                    }
                }
            } else if let Some(else_) = &conditional.else_ {
                else_.mark_evaluated_properties(reg, instance, properties, depth);
            } else {
                proof {
                    assert(after_members.union(m_conditional) =~= after_members);
                }
            }
        } else {
            proof {
                assert(after_members.union(m_conditional) =~= after_members);
            }
        }

        let ghost after_conditional = names_held(*properties);
        let ghost m_all = all_part(reg, self, instance@, d);
        proof {
            assert(after_conditional.union(Set::<Seq<char>>::empty()) =~= after_conditional);
        }
        if let Some(combinator) = &self.all_of {
            if count_branches(&combinator.subschemas, reg, instance, depth)
                == combinator.subschemas.len() {
                combinator.mark_evaluated_properties(reg, instance, properties, depth);
            }
        }

        let ghost after_all = names_held(*properties);
        let ghost m_any = any_part(reg, self, instance@, d);
        proof {
            assert(after_all.union(Set::<Seq<char>>::empty()) =~= after_all);
        }
        if let Some(combinator) = &self.any_of {
            combinator.mark_valid_branches(reg, instance, properties, depth);
        }

        let ghost after_any = names_held(*properties);
        let ghost m_one = one_part(reg, self, instance@, d);
        proof {
            assert(after_any.union(Set::<Seq<char>>::empty()) =~= after_any);
        }
        if let Some(combinator) = &self.one_of {
            if count_branches(&combinator.subschemas, reg, instance, depth) == 1 {
                combinator.mark_first_valid(reg, instance, properties, depth);
            }
        }
        proof {
            assert(after_refs == start.union(m_ref).union(m_second));
            assert(after_members == after_refs.union(m_members));
            assert(after_conditional == after_members.union(m_conditional));
            assert(after_all == after_conditional.union(m_all));
            assert(after_any == after_all.union(m_any));
            assert(names_held(*properties) == after_any.union(m_one));
            assert(marks(reg, self, instance@, d) == m_ref.union(m_second).union(m_members).union(
                m_conditional,
            ).union(m_all).union(m_any).union(m_one));
            assert(names_held(*properties) =~= start.union(marks(reg, self, instance@, d)));
        }
    }
}

/// Applies the schema of `unevaluatedProperties` to the members that no
/// other keyword has assessed.
#[derive(Debug)]
pub struct UnevaluatedPropertiesValidator {
    pub location: Location,
    pub filter: PropertiesFilter,
}

impl UnevaluatedPropertiesValidator {
    pub open spec fn wf(&self) -> bool
        decreases self, 0nat,
    {
        filter_wf(&self.filter)
    }

    /// Whether the member passes: a keyword assesses it, or it satisfies the
    /// schema of `unevaluatedProperties`.
    pub open spec fn member_passes(
        &self,
        reg: &Registry,
        instance: Json,
        member: (Seq<char>, Json),
        depth: nat,
    ) -> bool
        decreases depth, self, instance->Object_0.len() + 4,
    {
        marks(reg, &self.filter, instance, depth).contains(member.0) || self.filter.admits(
            reg,
            member.1,
            depth,
        )
    }

    /// The names, among the first `n` members, of those that do not pass.
    pub open spec fn unexpected(
        &self,
        reg: &Registry,
        instance: Json,
        n: nat,
        depth: nat,
    ) -> Seq<Seq<char>>
        decreases depth, self, instance->Object_0.len() + 5 + n,
    {
        if n == 0 || n > instance->Object_0.len() {
            Seq::empty()
        } else if self.member_passes(reg, instance, instance->Object_0[n - 1], depth) {
            self.unexpected(reg, instance, (n - 1) as nat, depth)
        } else {
            self.unexpected(reg, instance, (n - 1) as nat, depth).push(instance->Object_0[n - 1].0)
        }
    }

    /// What `unevaluatedProperties` asks of an object: every member passes.
    pub open spec fn valid(&self, reg: &Registry, instance: Json, depth: nat) -> bool
        decreases depth, self, instance->Object_0.len() + 5,
    {
        instance is Object ==> forall|i: int|
            0 <= i < instance->Object_0.len() ==> self.member_passes(
                reg,
                instance,
                #[trigger] instance->Object_0[i],
                depth,
            )
    }

    /// One error, which lists the members that do not pass in their order, if
    /// there is any.
    pub open spec fn errors(
        &self,
        reg: &Registry,
        instance: Json,
        path: Seq<Seg>,
        tracker: Option<(Seq<Seg>, Seq<Seg>)>,
        depth: nat,
    ) -> Seq<ErrorView>
        decreases depth, self, 2 * instance->Object_0.len() + 6,
    {
        let names = self.unexpected(reg, instance, instance->Object_0.len(), depth);
        if instance is Object && names.len() > 0 {
            seq![
                keyword_error(
                    KindView::UnevaluatedProperties { unexpected: names },
                    self.location@,
                    tracker,
                    instance,
                    path,
                ),
            ]
        } else {
            Seq::empty()
        }
    }

    /// The names of the members that do not pass, in their order.
    fn collect_unexpected(
        &self,
        reg: &Registry,
        instance: &Value,
        properties: &ObjectMap,
        depth: usize,
    ) -> (r: Vec<String>)
        requires
            reg.wf(),
            self.wf(),
            instance@ is Object,
            instance@->Object_0 == properties@,
        ensures
            name_views(r@) == self.unexpected(reg, instance@, properties@.len(), depth as nat),
        decreases depth, self, 0nat,
    {
        let mut evaluated = names_new();
        self.filter.mark_evaluated_properties(reg, instance, &mut evaluated, depth);
        proof {
            assert(names_held(evaluated) =~= marks(reg, &self.filter, instance@, depth as nat));
        }
        let mut unevaluated: Vec<String> = Vec::new();
        let n = properties.len();
        let mut i: usize = 0;
        proof {
            assert(name_views(unevaluated@) =~= self.unexpected(reg, instance@, 0, depth as nat));
        }
        while i < n
            invariant
                i <= n,
                n == properties@.len(),
                reg.wf(),
                self.wf(),
                instance@ is Object,
                instance@->Object_0 == properties@,
                names_held(evaluated) == marks(reg, &self.filter, instance@, depth as nat),
                name_views(unevaluated@) == self.unexpected(reg, instance@, i as nat, depth as nat),
            decreases n - i,
        {
            let property = properties.key_at(i);
            let value = properties.value_at(i);
            let ghost before = name_views(unevaluated@);
            proof {
                assert(self.unexpected(reg, instance@, (i + 1) as nat, depth as nat)
                    == if self.member_passes(reg, instance@, properties@[i as int], depth as nat) {
                    self.unexpected(reg, instance@, i as nat, depth as nat)
                } else {
                    self.unexpected(reg, instance@, i as nat, depth as nat).push(
                        properties@[i as int].0,
                    )
                });
            }
            if !names_contains(&evaluated, property.as_str()) && !self.filter.is_valid(
                reg,
                value,
                depth,
            ) {
                unevaluated.push(property.clone());
                proof {
                    assert(name_views(unevaluated@) =~= before.push(property@));
                }
            }
            i += 1;
        }
        unevaluated
    }

    pub fn is_valid(&self, reg: &Registry, instance: &Value, depth: usize) -> (r: bool)
        requires
            reg.wf(),
            self.wf(),
        ensures
            r == self.valid(reg, instance@, depth as nat),
        decreases depth, self, 0nat,
    {
        if let Value::Object(properties) = instance {
            let mut evaluated = names_new();
            self.filter.mark_evaluated_properties(reg, instance, &mut evaluated, depth);
            proof {
                assert(names_held(evaluated) =~= marks(reg, &self.filter, instance@, depth as nat));
            }
            let n = properties.len();
            let mut i: usize = 0;
            while i < n
                invariant
                    i <= n,
                    n == properties@.len(),
                    reg.wf(),
                    self.wf(),
                    instance@ is Object,
                    instance@->Object_0 == properties@,
                    names_held(evaluated) == marks(reg, &self.filter, instance@, depth as nat),
                    forall|j: int|
                        0 <= j < i ==> self.member_passes(
                            reg,
                            instance@,
                            #[trigger] properties@[j],
                            depth as nat,
                        ),
                decreases n - i,
            {
                let property = properties.key_at(i);
                let value = properties.value_at(i);
                if !names_contains(&evaluated, property.as_str()) && !self.filter.is_valid(
                    reg,
                    value,
                    depth,
                ) {
                    proof {
                        assert(!self.member_passes(reg, instance@, properties@[i as int], depth as nat));
                    }
                    return false;
                }
                i += 1;
            }
        }
        true
    }

    pub fn iter_errors(
        &self,
        reg: &Registry,
        instance: &Value,
        location: &Location,
        tracker: Option<&RefTracker>,
        depth: usize,
    ) -> (r: Vec<ValidationError>)
        requires
            reg.wf(),
            self.wf(),
        ensures
            error_views(r@) == self.errors(
                reg,
                instance@,
                location@,
                tracker_view(tracker),
                depth as nat,
            ),
        decreases depth, self, 1nat,
    {
        if let Value::Object(properties) = instance {
            let unevaluated = self.collect_unexpected(reg, instance, properties, depth);
            if unevaluated.len() > 0 {
                return single_error(
                    ValidationErrorKind::UnevaluatedProperties { unexpected: unevaluated },
                    &self.location,
                    tracker,
                    instance,
                    location,
                );
            }
        }
        Vec::new()
    }
}

impl CombinatorFilter {
    /// Compiles the branches of `allOf`, `anyOf` or `oneOf`: each branch that
    /// is an object, as a schema and as a filter.
    pub fn new(ctx: &Context, subschemas: &Vec<Value>, refs: &mut Vec<Location>) -> (r: Result<
        CombinatorFilter,
        ValidationError,
    >)
        ensures
            r is Ok ==> crate::found::places(final(refs)@) == crate::found::places(old(refs)@) + crate::found::branches_found(ctx@, crate::json::views(subschemas@), crate::json::views(subschemas@).len()),
            crate::refusal::fault(r) == crate::refusal::branches_refusal(ctx@, crate::json::views(subschemas@)),
            crate::references::kept(old(refs)@, final(refs)@),
            r matches Ok(c) ==> crate::references::branches_held(c.subschemas@, final(refs)@),
            crate::rules::reference_free(Json::Array(crate::json::views(subschemas@))) ==> final(refs)@ == old(refs)@,
            r is Ok <==> crate::rules::branches_accepted(ctx@, crate::json::views(subschemas@)),
            r matches Ok(c) ==> branches_wf(c.subschemas@) && crate::shape::branches_compiled(
                ctx@,
                crate::json::views(subschemas@),
                c.subschemas@,
            ),
        decreases json_size(Json::Array(crate::json::views(subschemas@))), 0nat,
    {
        let mut buffer: Vec<(SchemaNode, PropertiesFilter)> = Vec::with_capacity(subschemas.len());
        let mut idx: usize = 0;
        let ghost items = crate::json::views(subschemas@);
        proof {
            crate::json::lemma_views(subschemas@);
        }
        while idx < subschemas.len()
            invariant
                idx <= subschemas.len(),
                branches_wf(buffer@),
                items == crate::json::views(subschemas@),
                items.len() == subschemas@.len(),
                forall|j: int| 0 <= j < subschemas@.len() ==> (#[trigger] items[j]) == subschemas@[j]@,
                buffer@.len() == crate::shape::objects_among(items, idx as nat),
                crate::rules::reference_free(Json::Array(items)) ==> refs@ == old(refs)@,
                crate::refusal::first_refused_branch(ctx@, items, 0)
                    == crate::refusal::first_refused_branch(ctx@, items, idx as nat),
                crate::found::places(refs@) == crate::found::places(old(refs)@)
                    + crate::found::branches_found(ctx@, items, idx as nat),
                crate::references::kept(old(refs)@, refs@),
                forall|j: int|
                    0 <= j < buffer@.len() ==> crate::references::node_held(
                        &(#[trigger] buffer@[j]).0,
                        refs@,
                    ) && crate::references::filter_held(&buffer@[j].1, refs@),
                forall|i: int|
                    0 <= i < idx && (#[trigger] items[i]) is Object ==> crate::rules::accepted(
                        ctx@.at_index(i as nat),
                        items[i],
                    ) && crate::rules::filter_accepted(ctx@.at_index(i as nat), items[i]->Object_0),
                forall|i: int|
                    0 <= i < idx && (#[trigger] items[i]) is Object ==> crate::shape::objects_among(
                        items,
                        i as nat,
                    ) < buffer@.len() && crate::shape::compiled(
                        ctx@.at_index(i as nat),
                        items[i],
                        &buffer@[crate::shape::objects_among(items, i as nat) as int].0,
                    ) && crate::shape::filter_compiled(
                        ctx@.at_index(i as nat),
                        items[i]->Object_0,
                        &buffer@[crate::shape::objects_among(items, i as nat) as int].1,
                    ),
            decreases subschemas.len() - idx,
        {
            let subschema = &subschemas[idx];
            let ghost before = buffer@;
            let ghost met = crate::found::places(refs@);
            proof {
                assert(crate::found::branches_found(ctx@, items, (idx + 1) as nat)
                    == crate::found::branches_found(ctx@, items, idx as nat) + if items[idx as int] is Object {
                    crate::found::found(ctx@.at_index(idx as nat), items[idx as int])
                        + crate::found::filter_found(
                        ctx@.at_index(idx as nat),
                        items[idx as int]->Object_0,
                    )
                } else {
                    Seq::<Seq<Seg>>::empty()
                });
                assert(crate::refusal::first_refused_branch(ctx@, items, idx as nat)
                    == if !crate::refusal::branch_accepted(ctx@.at_index(idx as nat), items[idx as int]) {
                    idx as nat
                } else {
                    crate::refusal::first_refused_branch(ctx@, items, (idx + 1) as nat)
                });
                assert(crate::shape::objects_among(items, (idx + 1) as nat)
                    == crate::shape::objects_among(items, idx as nat) + if items[idx as int] is Object {
                    1nat
                } else {
                    0nat
                });
                lemma_objects_among_grows(items, 0, idx as nat);
            }
            if let Value::Object(parent) = subschema {
                let subschema_ctx = ctx.new_at_index(idx);
                proof {
                    lemma_item_smaller(items, idx as int);
                }
                let node = match crate::compiler::compile(&subschema_ctx, subschema, refs) {
                    Ok(node) => node,
                    Err(e) => {
                        proof {
                            assert(items[idx as int] is Object);
                            assert(!crate::rules::accepted(ctx@.at_index(idx as nat), items[idx as int]));
                        }
                        return Err(e);
                    },
                };
                let filter = match PropertiesFilter::new(&subschema_ctx, parent, refs) {
                    Ok(filter) => filter,
                    Err(e) => {
                        proof {
                            assert(items[idx as int] is Object);
                            assert(!crate::rules::filter_accepted(
                                ctx@.at_index(idx as nat),
                                items[idx as int]->Object_0,
                            ));
                        }
                        return Err(e);
                    },
                };
                buffer.push((node, filter));
                proof {
                    assert forall|j: int| 0 <= j < buffer@.len() implies node_wf(
                        &(#[trigger] buffer@[j]).0,
                    ) && filter_wf(&buffer@[j].1) by {
                        if j < before.len() {
                            assert(buffer@[j] == before[j]);
                        }
                    }
                }
            }
            proof {
                if items[idx as int] is Object {
                    assert(crate::found::places(refs@) =~= met + (crate::found::found(
                        ctx@.at_index(idx as nat),
                        items[idx as int],
                    ) + crate::found::filter_found(
                        ctx@.at_index(idx as nat),
                        items[idx as int]->Object_0,
                    )));
                } else {
                    assert(crate::found::places(refs@) =~= met + Seq::<Seq<Seg>>::empty());
                }
                assert(crate::found::places(refs@) =~= crate::found::places(old(refs)@)
                    + crate::found::branches_found(ctx@, items, (idx + 1) as nat));
                assert forall|i: int|
                    0 <= i < idx + 1 && (#[trigger] items[i]) is Object implies crate::shape::objects_among(
                    items,
                    i as nat,
                ) < buffer@.len() && crate::shape::compiled(
                    ctx@.at_index(i as nat),
                    items[i],
                    &buffer@[crate::shape::objects_among(items, i as nat) as int].0,
                ) && crate::shape::filter_compiled(
                    ctx@.at_index(i as nat),
                    items[i]->Object_0,
                    &buffer@[crate::shape::objects_among(items, i as nat) as int].1,
                ) by {
                    if i < idx {
                        assert(buffer@[crate::shape::objects_among(items, i as nat) as int]
                            == before[crate::shape::objects_among(items, i as nat) as int]);
                    }
                }
            }
            idx += 1;
        }
        proof {
            crate::references::lemma_branches_held(buffer@, refs@);
        }
        Ok(CombinatorFilter { subschemas: buffer })
    }
}

/// How many of the first values are objects never falls as more values are
/// counted.
pub proof fn lemma_objects_among_grows(values: Seq<Json>, n: nat, m: nat)
    requires
        n <= m <= values.len(),
    ensures
        crate::shape::objects_among(values, n) <= crate::shape::objects_among(values, m),
    decreases m - n,
{
    if n < m {
        lemma_objects_among_grows(values, n, (m - 1) as nat);
    }
}

impl PropertiesFilter {
    /// Compiles one schema of `then` or `else`: a filter where the schema is
    /// an object.
    fn optional(ctx: &Context, keyword: &str, parent: &ObjectMap, refs: &mut Vec<Location>) -> (r:
        Result<Option<PropertiesFilter>, ValidationError>)
        ensures
            r is Ok ==> crate::found::places(final(refs)@) == crate::found::places(old(refs)@) + crate::found::sub_filter_found(ctx@, parent@, keyword@),
            crate::refusal::fault(r) == crate::refusal::sub_filter_refusal(ctx@, parent@, keyword@),
            crate::references::kept(old(refs)@, final(refs)@),
            r matches Ok(Some(f)) ==> crate::references::filter_held(&f, final(refs)@),
            crate::rules::reference_free(Json::Object(parent@)) ==> final(refs)@ == old(refs)@,
            r is Ok <==> (crate::json::obj_get(parent@, keyword@) matches Some(Json::Object(sub))
                ==> crate::rules::filter_accepted(ctx@.at(keyword@), sub)),
            r matches Ok(filter) ==> crate::shape::filter_under(ctx@, parent@, keyword@, filter) && (
            filter matches Some(f) ==> filter_wf(&f)),
        decreases json_size(Json::Object(parent@)), 0nat,
    {
        proof {
            crate::rules::lemma_members_reference_free(parent@);
        }
        if let Some(Value::Object(subschema)) = parent.get(keyword) {
            let sub_ctx = ctx.new_at_location(keyword);
            proof {
                lemma_found_smaller(parent@, keyword@);
            }
            let filter = Self::new(&sub_ctx, subschema, refs)?;
            Ok(Some(filter))
        } else {
            Ok(None)
        }
    }

    /// Compiles the schema under a keyword, where the schema has it.
    pub fn node_under(ctx: &Context, keyword: &str, parent: &ObjectMap, refs: &mut Vec<Location>) -> (r:
        Result<Option<SchemaNode>, ValidationError>)
        ensures
            r is Ok ==> crate::found::places(final(refs)@) == crate::found::places(old(refs)@) + crate::found::node_found(ctx@, parent@, keyword@),
            crate::refusal::fault(r) == crate::refusal::node_refusal(ctx@, parent@, keyword@),
            crate::references::kept(old(refs)@, final(refs)@),
            r matches Ok(Some(node)) ==> crate::references::node_held(&node, final(refs)@),
            crate::rules::reference_free(Json::Object(parent@)) ==> final(refs)@ == old(refs)@,
            r is Ok <==> (crate::json::obj_get(parent@, keyword@) matches Some(value)
                ==> crate::rules::accepted(ctx@.at(keyword@), value)),
            r matches Ok(node) ==> crate::shape::node_under(ctx@, parent@, keyword@, node) && (
            node matches Some(n) ==> node_wf(&n)),
        decreases json_size(Json::Object(parent@)), 0nat,
    {
        proof {
            crate::rules::lemma_members_reference_free(parent@);
        }
        if let Some(subschema) = parent.get(keyword) {
            let sub_ctx = ctx.new_at_location(keyword);
            proof {
                lemma_found_smaller(parent@, keyword@);
            }
            let node = crate::compiler::compile(&sub_ctx, subschema, refs)?;
            Ok(Some(node))
        } else {
            Ok(None)
        }
    }

    /// Compiles the branches under `allOf`, `anyOf` or `oneOf`, where the
    /// schema has a list there.
    fn branches_under(ctx: &Context, keyword: &str, parent: &ObjectMap, refs: &mut Vec<Location>) -> (r:
        Result<Option<CombinatorFilter>, ValidationError>)
        ensures
            r is Ok ==> crate::found::places(final(refs)@) == crate::found::places(old(refs)@) + crate::found::sub_branches_found(ctx@, parent@, keyword@),
            crate::refusal::fault(r) == crate::refusal::sub_branches_refusal(ctx@, parent@, keyword@),
            crate::references::kept(old(refs)@, final(refs)@),
            r matches Ok(Some(c)) ==> crate::references::branches_held(c.subschemas@, final(refs)@),
            crate::rules::reference_free(Json::Object(parent@)) ==> final(refs)@ == old(refs)@,
            r is Ok <==> (crate::json::obj_get(parent@, keyword@) matches Some(Json::Array(items))
                ==> crate::rules::branches_accepted(ctx@.at(keyword@), items)),
            r matches Ok(combinator) ==> crate::shape::branches_under(
                ctx@,
                parent@,
                keyword@,
                combinator,
            ) && (combinator matches Some(c) ==> branches_wf(c.subschemas@)),
        decreases json_size(Json::Object(parent@)), 0nat,
    {
        proof {
            crate::rules::lemma_members_reference_free(parent@);
        }
        if let Some(Value::Array(subschemas)) = parent.get(keyword) {
            let sub_ctx = ctx.new_at_location(keyword);
            proof {
                lemma_found_smaller(parent@, keyword@);
            }
            let combinator = CombinatorFilter::new(&sub_ctx, subschemas, refs)?;
            Ok(Some(combinator))
        } else {
            Ok(None)
        }
    }

    /// Follows the reference under a keyword, where the schema has a string
    /// there and an object lies at its target.
    fn target_under(ctx: &Context, keyword: &str, parent: &ObjectMap, refs: &mut Vec<Location>) -> (r:
        Result<Option<Location>, ValidationError>)
        ensures
            r is Ok ==> crate::found::places(final(refs)@) == crate::found::places(old(refs)@) + crate::found::target_found(ctx@, parent@, keyword@),
            crate::refusal::fault(r) == crate::refusal::reference_refusal(ctx@, parent@, keyword@),
            crate::references::kept(old(refs)@, final(refs)@),
            r matches Ok(Some(target)) ==> crate::references::spots(final(refs)@).contains(target@),
            crate::json::obj_get(parent@, keyword@) is None ==> final(refs)@ == old(refs)@,
            r is Ok <==> crate::rules::reference_accepted(ctx@, parent@, keyword@),
            r matches Ok(target) ==> crate::shape::location_view(target)
                == crate::shape::target_under(ctx@, parent@, keyword@),
    {
        if let Some(Value::String(reference)) = parent.get(keyword) {
            let (target, contents) = ctx.lookup(reference.as_str())?;
            if let Value::Object(_) = contents {
                let copy = target.clone();
                let ghost before = refs@;
                let ghost pushed = copy;
                refs.push(copy);
                proof {
                    crate::references::lemma_spots_push(before, pushed);
                    assert(crate::found::places(refs@) =~= crate::found::places(before).push(pushed@));
                }
                return Ok(Some(target));
            }
        }
        Ok(None)
    }

    /// Compiles the filters of `dependentSchemas`: one for each member that
    /// is an object.
    fn dependent_under(ctx: &Context, parent: &ObjectMap, refs: &mut Vec<Location>) -> (r: Result<
        Vec<(String, PropertiesFilter)>,
        ValidationError,
    >)
        ensures
            r is Ok ==> crate::found::places(final(refs)@) == crate::found::places(old(refs)@) + crate::found::sub_dependent_found(ctx@, parent@),
            crate::refusal::fault(r) == crate::refusal::dependent_under(ctx@, parent@),
            crate::references::kept(old(refs)@, final(refs)@),
            r matches Ok(dependent) ==> crate::references::dependent_held(dependent@, final(refs)@),
            crate::rules::reference_free(Json::Object(parent@)) ==> final(refs)@ == old(refs)@,
            r is Ok <==> (crate::json::obj_get(parent@, "dependentSchemas"@) matches Some(
                Json::Object(map),
            ) ==> crate::rules::dependent_accepted(ctx@.at("dependentSchemas"@), map)),
            r matches Ok(dependent) ==> {
                &&& forall|j: int| 0 <= j < dependent@.len() ==> filter_wf(&(#[trigger] dependent@[j]).1)
                &&& match crate::json::obj_get(parent@, "dependentSchemas"@) {
                    Some(Json::Object(map)) => crate::shape::dependent_compiled(
                        ctx@.at("dependentSchemas"@),
                        map,
                        dependent@,
                    ),
                    _ => dependent@.len() == 0,
                }
            },
        decreases json_size(Json::Object(parent@)), 0nat,
    {
        proof {
            crate::rules::lemma_members_reference_free(parent@);
        }
        let mut dependent: Vec<(String, PropertiesFilter)> = Vec::new();
        if let Some(Value::Object(map)) = parent.get("dependentSchemas") {
            let dependent_ctx = ctx.new_at_location("dependentSchemas");
            proof {
                lemma_found_smaller(parent@, "dependentSchemas"@);
            }
            let ghost values = crate::shape::member_values(map@);
            let n = map.len();
            let mut i: usize = 0;
            while i < n
                invariant
                    i <= n,
                    n == map@.len(),
                    values == crate::shape::member_values(map@),
                    dependent_ctx@ == ctx@.at("dependentSchemas"@),
                    crate::refusal::first_refused_dependent(dependent_ctx@, map@, 0)
                        == crate::refusal::first_refused_dependent(dependent_ctx@, map@, i as nat),
                    crate::found::places(refs@) == crate::found::places(old(refs)@)
                        + crate::found::dependent_found(dependent_ctx@, map@, i as nat),
                    crate::references::kept(old(refs)@, refs@),
                    forall|j: int|
                        0 <= j < dependent@.len() ==> crate::references::filter_held(
                            &(#[trigger] dependent@[j]).1,
                            refs@,
                        ),
                    crate::rules::reference_free(Json::Object(parent@)) ==> refs@ == old(refs)@
                        && crate::rules::reference_free(Json::Object(map@)),
                    crate::json::obj_get(parent@, "dependentSchemas"@) == Some(Json::Object(map@)),
                    json_size(Json::Object(map@)) < json_size(Json::Object(parent@)),
                    forall|j: int| 0 <= j < dependent@.len() ==> filter_wf(&(#[trigger] dependent@[j]).1),
                    dependent@.len() == crate::shape::objects_among(values, i as nat),
                    forall|k: int|
                        0 <= k < i && (#[trigger] map@[k]).1 is Object ==> crate::rules::filter_accepted(
                            dependent_ctx@.at(map@[k].0),
                            map@[k].1->Object_0,
                        ),
                    forall|k: int|
                        0 <= k < i && (#[trigger] map@[k]).1 is Object ==> crate::shape::objects_among(
                            values,
                            k as nat,
                        ) < dependent@.len() && dependent@[crate::shape::objects_among(
                            values,
                            k as nat,
                        ) as int].0@ == map@[k].0 && crate::shape::filter_compiled(
                            dependent_ctx@.at(map@[k].0),
                            map@[k].1->Object_0,
                            &dependent@[crate::shape::objects_among(values, k as nat) as int].1,
                        ),
                decreases n - i,
            {
                let property = map.key_at(i);
                let subschema = map.value_at(i);
                let ghost before = dependent@;
                let ghost met = crate::found::places(refs@);
                proof {
                    assert(crate::found::dependent_found(dependent_ctx@, map@, (i + 1) as nat)
                        == crate::found::dependent_found(dependent_ctx@, map@, i as nat)
                        + if map@[i as int].1 is Object {
                        crate::found::filter_found(
                            dependent_ctx@.at(map@[i as int].0),
                            map@[i as int].1->Object_0,
                        )
                    } else {
                        Seq::<Seq<Seg>>::empty()
                    });
                    assert(crate::refusal::first_refused_dependent(dependent_ctx@, map@, i as nat)
                        == if !crate::refusal::dependent_member_accepted(
                        dependent_ctx@,
                        map@[i as int],
                    ) {
                        i as nat
                    } else {
                        crate::refusal::first_refused_dependent(dependent_ctx@, map@, (i + 1) as nat)
                    });
                    assert(values[i as int] == map@[i as int].1);
                    assert(crate::shape::objects_among(values, (i + 1) as nat)
                        == crate::shape::objects_among(values, i as nat) + if values[i as int] is Object {
                        1nat
                    } else {
                        0nat
                    });
                    lemma_objects_among_grows(values, 0, i as nat);
                }
                if let Value::Object(subschema) = subschema {
                    let property_ctx = dependent_ctx.new_at_location(property.as_str());
                    proof {
                        lemma_member_smaller(map@, i as int);
                    }
                    let filter = match Self::new(&property_ctx, subschema, refs) {
                        Ok(filter) => filter,
                        Err(e) => {
                            proof {
                                assert(map@[i as int].1 is Object);
                                assert(!crate::rules::filter_accepted(
                                    dependent_ctx@.at(map@[i as int].0),
                                    map@[i as int].1->Object_0,
                                ));
                            }
                            return Err(e);
                        },
                    };
                    dependent.push((property.clone(), filter));
                    proof {
                        assert forall|j: int| 0 <= j < dependent@.len() implies filter_wf(
                            &(#[trigger] dependent@[j]).1,
                        ) by {
                            if j < before.len() {
                                assert(dependent@[j] == before[j]);
                            }
                        }
                    }
                }
                proof {
                    if !(map@[i as int].1 is Object) {
                        assert(crate::found::places(refs@) =~= met + Seq::<Seq<Seg>>::empty());
                    }
                    assert(crate::found::places(refs@) =~= crate::found::places(old(refs)@)
                        + crate::found::dependent_found(dependent_ctx@, map@, (i + 1) as nat));
                    assert forall|k: int|
                        0 <= k < i + 1 && (#[trigger] map@[k]).1 is Object implies crate::shape::objects_among(
                        values,
                        k as nat,
                    ) < dependent@.len() && dependent@[crate::shape::objects_among(
                        values,
                        k as nat,
                    ) as int].0@ == map@[k].0 && crate::shape::filter_compiled(
                        dependent_ctx@.at(map@[k].0),
                        map@[k].1->Object_0,
                        &dependent@[crate::shape::objects_among(values, k as nat) as int].1,
                    ) by {
                        if k < i {
                            assert(dependent@[crate::shape::objects_among(values, k as nat) as int]
                                == before[crate::shape::objects_among(values, k as nat) as int]);
                        }
                    }
                }
                i += 1;
            }
        }
        proof {
            crate::references::lemma_dependent_held(dependent@, refs@);
            if !(crate::json::obj_get(parent@, "dependentSchemas"@) matches Some(Json::Object(_))) {
                assert(crate::found::places(refs@) =~= crate::found::places(old(refs)@)
                    + Seq::<Seq<Seg>>::empty());
            }
        }
        Ok(dependent)
    }

    /// Compiles the patterns of `patternProperties` and the schemas that
    /// stand under them. A pattern that the engine refuses is an error of
    /// the schema.
    fn patterns_under(ctx: &Context, parent: &ObjectMap, refs: &mut Vec<Location>) -> (r: Result<
        Vec<(Pattern, SchemaNode)>,
        ValidationError,
    >)
        ensures
            r is Ok ==> crate::found::places(final(refs)@) == crate::found::places(old(refs)@) + crate::found::sub_members_found(ctx@, parent@, "patternProperties"@),
            crate::refusal::fault(r) == crate::refusal::patterns_under(ctx@, parent@),
            crate::references::kept(old(refs)@, final(refs)@),
            r matches Ok(patterns) ==> crate::references::patterns_held(patterns@, final(refs)@),
            crate::rules::reference_free(Json::Object(parent@)) ==> final(refs)@ == old(refs)@,
            r is Ok <==> (crate::json::obj_get(parent@, "patternProperties"@) matches Some(
                Json::Object(map),
            ) ==> crate::rules::patterns_accepted(ctx@.at("patternProperties"@), map)),
            r matches Ok(patterns) ==> {
                &&& forall|j: int| 0 <= j < patterns@.len() ==> node_wf(&(#[trigger] patterns@[j]).1)
                &&& match crate::json::obj_get(parent@, "patternProperties"@) {
                    Some(Json::Object(map)) => crate::shape::patterns_compiled(
                        ctx@.at("patternProperties"@),
                        map,
                        patterns@,
                    ),
                    _ => patterns@.len() == 0,
                }
            },
        decreases json_size(Json::Object(parent@)), 0nat,
    {
        proof {
            crate::rules::lemma_members_reference_free(parent@);
        }
        let mut pattern_properties: Vec<(Pattern, SchemaNode)> = Vec::new();
        if let Some(Value::Object(patterns)) = parent.get("patternProperties") {
            let pat_ctx = ctx.new_at_location("patternProperties");
            proof {
                lemma_found_smaller(parent@, "patternProperties"@);
            }
            let n = patterns.len();
            let mut i: usize = 0;
            while i < n
                invariant
                    i <= n,
                    n == patterns@.len(),
                    pat_ctx@ == ctx@.at("patternProperties"@),
                    crate::refusal::first_refused_pattern(pat_ctx@, patterns@, 0)
                        == crate::refusal::first_refused_pattern(pat_ctx@, patterns@, i as nat),
                    crate::found::places(refs@) == crate::found::places(old(refs)@)
                        + crate::found::members_found(pat_ctx@, patterns@, i as nat),
                    crate::references::kept(old(refs)@, refs@),
                    forall|j: int|
                        0 <= j < i ==> crate::references::node_held(
                            &(#[trigger] pattern_properties@[j]).1,
                            refs@,
                        ),
                    crate::rules::reference_free(Json::Object(parent@)) ==> refs@ == old(refs)@
                        && crate::rules::reference_free(Json::Object(patterns@)),
                    crate::json::obj_get(parent@, "patternProperties"@) == Some(
                        Json::Object(patterns@),
                    ),
                    json_size(Json::Object(patterns@)) < json_size(Json::Object(parent@)),
                    pattern_properties@.len() == i,
                    forall|j: int|
                        0 <= j < i ==> crate::pattern::regex_compiles((#[trigger] patterns@[j]).0)
                            && crate::rules::accepted(pat_ctx@.at(patterns@[j].0), patterns@[j].1),
                    forall|j: int|
                        0 <= j < i ==> node_wf(&(#[trigger] pattern_properties@[j]).1)
                            && pattern_properties@[j].0.source() == patterns@[j].0
                            && crate::shape::compiled(
                            pat_ctx@.at(patterns@[j].0),
                            patterns@[j].1,
                            &pattern_properties@[j].1,
                        ),
                decreases n - i,
            {
                let pattern = patterns.key_at(i);
                let schema = patterns.value_at(i);
                let schema_ctx = pat_ctx.new_at_location(pattern.as_str());
                proof {
                    assert(crate::found::members_found(pat_ctx@, patterns@, (i + 1) as nat)
                        == crate::found::members_found(pat_ctx@, patterns@, i as nat)
                        + crate::found::found(
                        pat_ctx@.at(patterns@[i as int].0),
                        patterns@[i as int].1,
                    ));
                    assert(crate::refusal::first_refused_pattern(pat_ctx@, patterns@, i as nat)
                        == if !crate::refusal::pattern_member_accepted(pat_ctx@, patterns@[i as int]) {
                        i as nat
                    } else {
                        crate::refusal::first_refused_pattern(pat_ctx@, patterns@, (i + 1) as nat)
                    });
                }
                let regex = match Pattern::new(pattern.as_str()) {
                    Some(regex) => regex,
                    None => {
                        proof {
                            assert(!crate::pattern::regex_compiles(patterns@[i as int].0));
                        }
                        return Err(
                            ValidationError::format(
                                ctx.location().clone(),
                                ctx.location().clone(),
                                Location::new(),
                                schema,
                                "regex",
                            ),
                        );
                    },
                };
                proof {
                    lemma_member_smaller(patterns@, i as int);
                }
                let node = match crate::compiler::compile(&schema_ctx, schema, refs) {
                    Ok(node) => node,
                    Err(e) => {
                        proof {
                            assert(!crate::rules::accepted(
                                pat_ctx@.at(patterns@[i as int].0),
                                patterns@[i as int].1,
                            ));
                        }
                        return Err(e);
                    },
                };
                let ghost before = pattern_properties@;
                pattern_properties.push((regex, node));
                proof {
                    assert forall|j: int| 0 <= j < i + 1 implies node_wf(
                        &(#[trigger] pattern_properties@[j]).1,
                    ) && pattern_properties@[j].0.source() == patterns@[j].0 && crate::shape::compiled(
                        pat_ctx@.at(patterns@[j].0),
                        patterns@[j].1,
                        &pattern_properties@[j].1,
                    ) by {
                        if j < i {
                            assert(pattern_properties@[j] == before[j]);
                        }
                    }
                }
                i += 1;
            }
        }
        proof {
            crate::references::lemma_patterns_held(pattern_properties@, refs@);
            if !(crate::json::obj_get(parent@, "patternProperties"@) matches Some(Json::Object(_))) {
                assert(crate::found::places(refs@) =~= crate::found::places(old(refs)@)
                    + Seq::<Seq<Seg>>::empty());
            }
        }
        Ok(pattern_properties)
    }

    /// Compiles `if`, `then` and `else`, where `if` is an object.
    #[verifier::rlimit(60)]
    fn conditional_under(ctx: &Context, parent: &ObjectMap, refs: &mut Vec<Location>) -> (r: Result<
        Option<Box<ConditionalFilter>>,
        ValidationError,
    >)
        ensures
            r is Ok ==> crate::found::places(final(refs)@) == crate::found::places(old(refs)@) + crate::found::conditional_found(ctx@, parent@),
            crate::refusal::fault(r) == crate::refusal::conditional_refusal(ctx@, parent@),
            crate::references::kept(old(refs)@, final(refs)@),
            r matches Ok(Some(c)) ==> crate::references::conditional_held(&c, final(refs)@),
            crate::rules::reference_free(Json::Object(parent@)) ==> final(refs)@ == old(refs)@,
            r is Ok <==> (crate::json::obj_get(parent@, "if"@) matches Some(Json::Object(condition))
                ==> {
                &&& crate::rules::accepted(ctx@.at("if"@), Json::Object(condition))
                &&& crate::rules::filter_accepted(ctx@.at("if"@), condition)
                &&& crate::json::obj_get(parent@, "then"@) matches Some(Json::Object(sub))
                    ==> crate::rules::filter_accepted(ctx@.at("then"@), sub)
                &&& crate::json::obj_get(parent@, "else"@) matches Some(Json::Object(sub))
                    ==> crate::rules::filter_accepted(ctx@.at("else"@), sub)
            }),
            r matches Ok(conditional) ==> {
                &&& crate::shape::conditional_compiled(ctx@, parent@, conditional)
                &&& conditional matches Some(c) ==> {
                    &&& node_wf(&c.condition)
                    &&& filter_wf(&c.if_)
                    &&& c.then_ matches Some(t) ==> filter_wf(&t)
                    &&& c.else_ matches Some(e) ==> filter_wf(&e)
                }
            },
        decreases json_size(Json::Object(parent@)), 1nat,
    {
        proof {
            crate::rules::lemma_members_reference_free(parent@);
        }
        if let Some(subschema) = parent.get("if") {
            if let Value::Object(if_parent) = subschema {
                let if_ctx = ctx.new_at_location("if");
                proof {
                    lemma_found_smaller(parent@, "if"@);
                }
                let then_ = Self::optional(ctx, "then", parent, refs)?;
                let else_ = Self::optional(ctx, "else", parent, refs)?;
                let condition = crate::compiler::compile(&if_ctx, subschema, refs)?;
                let if_ = Self::new(&if_ctx, if_parent, refs)?;
                return Ok(Some(Box::new(ConditionalFilter { condition, if_, then_, else_ })));
            }
        }
        Ok(None)
    }

    /// Compiles the schemas of `properties`, where the schema has an object
    /// there.
    fn properties_under(ctx: &Context, parent: &ObjectMap, refs: &mut Vec<Location>) -> (r: Result<
        Vec<(String, SchemaNode)>,
        ValidationError,
    >)
        ensures
            r is Ok ==> crate::found::places(final(refs)@) == crate::found::places(old(refs)@) + crate::found::sub_members_found(ctx@, parent@, "properties"@),
            crate::refusal::fault(r) == crate::refusal::properties_refusal(ctx@, parent@),
            crate::references::kept(old(refs)@, final(refs)@),
            r matches Ok(properties) ==> crate::references::properties_held(properties@, final(refs)@),
            crate::rules::reference_free(Json::Object(parent@)) ==> final(refs)@ == old(refs)@,
            r is Ok <==> (crate::json::obj_get(parent@, "properties"@) matches Some(Json::Object(map))
                ==> crate::rules::members_accepted(ctx@.at("properties"@), map)),
            r matches Ok(properties) ==> properties_wf(properties@)
                && crate::shape::properties_under(ctx@, parent@, properties@),
        decreases json_size(Json::Object(parent@)), 0nat,
    {
        proof {
            crate::rules::lemma_members_reference_free(parent@);
        }
        if let Some(Value::Object(map)) = parent.get("properties") {
            let properties_ctx = ctx.new_at_location("properties");
            proof {
                lemma_found_smaller(parent@, "properties"@);
            }
            let properties = compile_members(&properties_ctx, map, refs)?;
            Ok(properties)
        } else {
            let none: Vec<(String, SchemaNode)> = Vec::new();
            proof {
                assert(properties_wf(none@));
            }
            Ok(none)
        }
    }

    /// Compiles the filter of the schema `parent`, which lies at `ctx`. The
    /// filter mirrors the keywords of the schema that assess members:
    /// `$ref`, and `$recursiveRef` or `$dynamicRef` as the draft has it;
    /// `if` with `then` and `else`; `properties`; `dependentSchemas`;
    /// `additionalProperties`; `patternProperties`; `unevaluatedProperties`;
    /// `allOf`, `anyOf` and `oneOf`. A reference that leads nowhere, a
    /// pattern that the engine refuses and a schema that does not compile
    /// are errors.
    #[verifier::rlimit(60)]
    pub fn new(ctx: &Context, parent: &ObjectMap, refs: &mut Vec<Location>) -> (r: Result<
        PropertiesFilter,
        ValidationError,
    >)
        ensures
            r is Ok ==> crate::found::places(final(refs)@) == crate::found::places(old(refs)@) + crate::found::filter_found(ctx@, parent@),
            crate::refusal::fault(r) == crate::refusal::filter_refusal(ctx@, parent@),
            crate::references::kept(old(refs)@, final(refs)@),
            r matches Ok(f) ==> crate::references::filter_held(&f, final(refs)@),
            crate::rules::reference_free(Json::Object(parent@)) ==> final(refs)@ == old(refs)@,
            r is Ok <==> crate::rules::filter_accepted(ctx@, parent@),
            r matches Ok(f) ==> filter_wf(&f) && crate::shape::filter_compiled(ctx@, parent@, &f),
        decreases json_size(Json::Object(parent@)), 2nat,
    {
        let ghost met_0 = crate::found::places(refs@);
        let ref_ = Self::target_under(ctx, "$ref", parent, refs)?;
        let ghost met_1 = crate::found::places(refs@);
        let second_ref = if ctx.draft() == Draft::Draft201909 {
            Self::target_under(ctx, "$recursiveRef", parent, refs)?
        } else {
            Self::target_under(ctx, "$dynamicRef", parent, refs)?
        };
        let ghost met_2 = crate::found::places(refs@);
        let conditional = Self::conditional_under(ctx, parent, refs)?;
        let ghost met_3 = crate::found::places(refs@);
        let properties = Self::properties_under(ctx, parent, refs)?;
        let ghost met_4 = crate::found::places(refs@);
        let dependent = Self::dependent_under(ctx, parent, refs)?;
        let ghost met_5 = crate::found::places(refs@);
        let additional = Self::node_under(ctx, "additionalProperties", parent, refs)?;
        let ghost met_6 = crate::found::places(refs@);
        let pattern_properties = Self::patterns_under(ctx, parent, refs)?;
        let ghost met_7 = crate::found::places(refs@);
        let unevaluated = Self::node_under(ctx, "unevaluatedProperties", parent, refs)?;
        let ghost met_8 = crate::found::places(refs@);
        let all_of = Self::branches_under(ctx, "allOf", parent, refs)?;
        let ghost met_9 = crate::found::places(refs@);
        let any_of = Self::branches_under(ctx, "anyOf", parent, refs)?;
        let ghost met_10 = crate::found::places(refs@);
        let one_of = Self::branches_under(ctx, "oneOf", parent, refs)?;
        let ghost met_11 = crate::found::places(refs@);
        proof {
            crate::found::lemma_filter_found(
                ctx@,
                parent@,
                met_0,
                met_1,
                met_2,
                met_3,
                met_4,
                met_5,
                met_6,
                met_7,
                met_8,
                met_9,
                met_10,
                met_11,
            );
        }

        let filter = PropertiesFilter {
            unevaluated,
            additional,
            properties,
            dependent,
            pattern_properties,
            ref_,
            second_ref,
            conditional,
            all_of,
            any_of,
            one_of,
        };
        proof {
            assert forall|t: Seq<Seg>| #[trigger]
                crate::references::filter_refers(
                    &filter,
                    t,
                ) implies crate::references::spots(refs@).contains(t) by {
                let held = crate::references::spots(refs@);
                if crate::shape::location_view(filter.ref_) == Some(t) {
                    assert(held.contains(t));
                } else if crate::shape::location_view(filter.second_ref) == Some(t) {
                    assert(held.contains(t));
                } else if filter.unevaluated is Some && crate::references::node_refers(
                    &filter.unevaluated->0,
                    t,
                ) {
                    assert(held.contains(t));
                } else if filter.additional is Some && crate::references::node_refers(
                    &filter.additional->0,
                    t,
                ) {
                    assert(held.contains(t));
                } else if crate::references::properties_refer(filter.properties@, t) {
                    assert(held.contains(t));
                } else if crate::references::dependent_refer(filter.dependent@, t) {
                    assert(held.contains(t));
                } else if crate::references::patterns_refer(filter.pattern_properties@, t) {
                    assert(held.contains(t));
                } else if filter.all_of is Some && crate::references::branches_refer(
                    filter.all_of->0.subschemas@,
                    t,
                ) {
                    assert(held.contains(t));
                } else if filter.any_of is Some && crate::references::branches_refer(
                    filter.any_of->0.subschemas@,
                    t,
                ) {
                    assert(held.contains(t));
                } else if filter.one_of is Some && crate::references::branches_refer(
                    filter.one_of->0.subschemas@,
                    t,
                ) {
                    assert(held.contains(t));
                } else {
                    assert(filter.conditional is Some);
                    let c = filter.conditional->0;
                    assert(crate::references::conditional_held(&c, refs@));
                    if crate::references::node_refers(&c.condition, t) {
                        assert(held.contains(t));
                    } else if crate::references::filter_refers(&c.if_, t) {
                        assert(held.contains(t));
                    } else if c.then_ is Some && crate::references::filter_refers(&c.then_->0, t) {
                        assert(held.contains(t));
                    } else {
                        assert(c.else_ is Some && crate::references::filter_refers(&c.else_->0, t));
                        assert(held.contains(t));
                    }
                }
            }
        }
        Ok(filter)
    }
}

impl UnevaluatedPropertiesValidator {
    pub fn compile(ctx: &Context, parent: &ObjectMap, refs: &mut Vec<Location>) -> (r:
        CompilationResult)
        ensures
            r is Ok ==> crate::found::places(final(refs)@) == crate::found::places(old(refs)@) + crate::found::filter_found(ctx@, parent@),
            crate::refusal::fault(r) == crate::refusal::filter_refusal(ctx@, parent@),
            crate::references::kept(old(refs)@, final(refs)@),
            r matches Ok(validator) ==> crate::references::kw_held(&validator, final(refs)@),
            crate::rules::reference_free(Json::Object(parent@)) ==> final(refs)@ == old(refs)@,
            r is Ok <==> crate::rules::filter_accepted(ctx@, parent@),
            r matches Ok(validator) ==> {
                &&& validator matches KeywordValidator::UnevaluatedProperties(v)
                &&& crate::node::kw_wf(&validator)
                &&& v.location@ == ctx@.location.push(Seg::Property("unevaluatedProperties"@))
                &&& crate::shape::filter_compiled(ctx@, parent@, &v.filter)
            },
        decreases json_size(Json::Object(parent@)), 3nat,
    {
        let filter = PropertiesFilter::new(ctx, parent, refs)?;
        let location = ctx.location().join("unevaluatedProperties");
        let validator = KeywordValidator::UnevaluatedProperties(
            UnevaluatedPropertiesValidator { location, filter },
        );
        proof {
            crate::references::lemma_held_by_filter(&validator, refs@);
        }
        Ok(validator)
    }
}

/// Compiles an `unevaluatedProperties` keyword of the schema `parent`. The
/// value `true` asks nothing, and gives no validator.
pub fn compile(ctx: &Context, parent: &ObjectMap, schema: &Value, refs: &mut Vec<Location>) -> (r:
    Option<CompilationResult>)
    requires
        crate::json::obj_get(parent@, "unevaluatedProperties"@) == Some(schema@),
    ensures
        !(r matches Some(Err(_))) ==> crate::found::places(final(refs)@) == crate::found::places(old(refs)@) + crate::found::keyword_found(ctx@, parent@, crate::compiler::Keyword::UnevaluatedProperties),
        r is None ==> final(refs)@ == old(refs)@,
        crate::refusal::keyword_fault(r) == crate::refusal::keyword_refusal(ctx@, parent@, crate::compiler::Keyword::UnevaluatedProperties),
        crate::references::kept(old(refs)@, final(refs)@),
        r matches Some(Ok(validator)) ==> crate::references::kw_held(&validator, final(refs)@),
        crate::rules::reference_free(Json::Object(parent@)) ==> final(refs)@ == old(refs)@,
        r is None <==> schema@ == Json::Bool(true),
        r matches Some(Err(_)) <==> !crate::rules::keyword_accepted(
            ctx@,
            parent@,
            crate::compiler::Keyword::UnevaluatedProperties,
        ),
        r matches Some(Ok(validator)) ==> crate::node::kw_wf(&validator)
            && crate::shape::keyword_compiled(
            ctx@,
            parent@,
            crate::compiler::Keyword::UnevaluatedProperties,
            &validator,
        ),
    decreases json_size(Json::Object(parent@)), 4nat,
{
    match schema.as_bool() {
        Some(true) => None,
        _ => Some(UnevaluatedPropertiesValidator::compile(ctx, parent, refs)),
    }
}

impl UnevaluatedPropertiesValidator {
    /// The first error of the keyword on `instance`, if there is one.
    pub fn validate(
        &self,
        reg: &Registry,
        instance: &Value,
        location: &Location,
        tracker: Option<&RefTracker>,
        depth: usize,
    ) -> (r: Result<(), ValidationError>)
        requires
            reg.wf(),
            self.wf(),
        ensures
            crate::node::first_error(
                r,
                self.errors(reg, instance@, location@, tracker_view(tracker), depth as nat),
            ),
    {
        crate::node::take_first(self.iter_errors(reg, instance, location, tracker, depth))
    }
}

} // verus!
