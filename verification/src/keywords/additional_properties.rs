//! The `additionalProperties` keyword: what holds of the members that
//! `properties` does not name. The validator takes over `properties` too, so
//! that each member is looked at once.
use vstd::prelude::*;
use crate::error::{
    ErrorView, KindView, ValidationError, ValidationErrorKind, error_views, lemma_error_views_concat,
    lemma_error_views_push, name_views,
};
use crate::json::{Json, Value, obj_has};
use crate::keywords::boolean::{keyword_error, single_error};
use crate::keywords::properties::properties_wf;
use crate::keywords::required::{lemma_unroll, required_errors};
use crate::node::{Registry, SchemaNode, node_errors, node_valid, node_wf};
use crate::paths::{Location, RefTracker, Seg, capture_evaluation_path, captured, tracker_view};
use crate::text::str_eq;

verus! {

/// Whether `index` is the first schema that is named `name`.
pub open spec fn named_at(properties: Seq<(String, SchemaNode)>, name: Seq<char>, index: int) -> bool {
    &&& 0 <= index < properties.len()
    &&& properties[index].0@ == name
    &&& forall|j: int| 0 <= j < index ==> (#[trigger] properties[j]).0@ != name
}

/// Whether some schema is named `name`.
pub open spec fn known(properties: Seq<(String, SchemaNode)>, name: Seq<char>) -> bool {
    exists|index: int| named_at(properties, name, index)
}

/// The position of the first schema that is named `name`.
pub open spec fn schema_index(properties: Seq<(String, SchemaNode)>, name: Seq<char>) -> int {
    choose|index: int| named_at(properties, name, index)
}

/// The first schema that is named `name`.
pub fn find_schema(properties: &Vec<(String, SchemaNode)>, name: &str) -> (r: Option<usize>)
    ensures
        r is Some <==> known(properties@, name@),
        r is Some ==> r->0 == schema_index(properties@, name@) && r->0 < properties@.len(),
{
    let mut i: usize = 0;
    while i < properties.len()
        invariant
            i <= properties.len(),
            forall|j: int| 0 <= j < i ==> (#[trigger] properties@[j]).0@ != name@,
        decreases properties.len() - i,
    {
        if str_eq(properties[i].0.as_str(), name) {
            proof {
                assert(named_at(properties@, name@, i as int));
                let chosen = schema_index(properties@, name@);
                assert(named_at(properties@, name@, chosen));
                if chosen < i {
                    assert(properties@[chosen].0@ != name@);
                }
                if i < chosen {
                    assert(properties@[i as int].0@ != name@);
                }
            }
            return Some(i);
        }
        i += 1;
    }
    proof {
        assert forall|index: int| !named_at(properties@, name@, index) by {
            if 0 <= index < properties@.len() {
                assert(properties@[index].0@ != name@);
            }
        }
    }
    None
}

/// `additionalProperties`, with the `properties` beside it and, where the
/// schema requires exactly one member, that requirement.
#[derive(Debug)]
pub struct AdditionalPropertiesValidator {
    pub properties: Vec<(String, SchemaNode)>,
    /// The schema for the other members; `None` where none is admitted.
    pub additional: Option<SchemaNode>,
    /// The one member that the object must have, where this validator checks
    /// it.
    pub required: Option<String>,
    pub location: Location,
    pub required_location: Location,
}

impl AdditionalPropertiesValidator {
    pub open spec fn wf(&self) -> bool
        decreases self, 0nat,
    {
        &&& properties_wf(self.properties@)
        &&& self.additional matches Some(node) ==> node_wf(&node)
    }

    /// The required names: one or none.
    pub open spec fn names(&self) -> Seq<Seq<char>> {
        match self.required {
            Some(name) => seq![name@],
            None => Seq::empty(),
        }
    }

    /// Whether the member satisfies the schema of its name or, where no
    /// schema has its name, the schema for the other members.
    pub open spec fn member_valid(&self, reg: &Registry, member: (Seq<char>, Json), depth: nat) -> bool
        decreases depth, self, 0nat,
    {
        let index = schema_index(self.properties@, member.0);
        if known(self.properties@, member.0) && 0 <= index < self.properties@.len() {
            node_valid(reg, &self.properties@[index].1, member.1, depth)
        } else {
            match self.additional {
                Some(node) => node_valid(reg, &node, member.1, depth),
                None => false,
            }
        }
    }

    /// The errors of the member under the schema that applies to it.
    pub open spec fn member_errors(
        &self,
        reg: &Registry,
        member: (Seq<char>, Json),
        path: Seq<Seg>,
        tracker: Option<(Seq<Seg>, Seq<Seg>)>,
        depth: nat,
    ) -> Seq<ErrorView>
        decreases depth, self, 0nat,
    {
        let index = schema_index(self.properties@, member.0);
        if known(self.properties@, member.0) && 0 <= index < self.properties@.len() {
            node_errors(
                reg,
                &self.properties@[index].1,
                member.1,
                path.push(Seg::Property(member.0)),
                tracker,
                depth,
            )
        } else {
            match self.additional {
                Some(node) => node_errors(
                    reg,
                    &node,
                    member.1,
                    path.push(Seg::Property(member.0)),
                    tracker,
                    depth,
                ),
                None => Seq::empty(),
            }
        }
    }

    /// The errors of the first `n` members, in the order of the members.
    pub open spec fn members_errors(
        &self,
        reg: &Registry,
        n: nat,
        members: Seq<(Seq<char>, Json)>,
        path: Seq<Seg>,
        tracker: Option<(Seq<Seg>, Seq<Seg>)>,
        depth: nat,
    ) -> Seq<ErrorView>
        decreases depth, self, n + 1,
    {
        if n == 0 || n > members.len() {
            Seq::empty()
        } else {
            self.members_errors(reg, (n - 1) as nat, members, path, tracker, depth)
                + self.member_errors(reg, members[n - 1], path, tracker, depth)
        }
    }

    /// The names, among the first `n` members, that no schema has where no
    /// other member is admitted.
    pub open spec fn unexpected(&self, n: nat, members: Seq<(Seq<char>, Json)>) -> Seq<Seq<char>>
        decreases n,
    {
        if n == 0 || n > members.len() {
            Seq::empty()
        } else if self.additional is None && !known(self.properties@, members[n - 1].0) {
            self.unexpected((n - 1) as nat, members).push(members[n - 1].0)
        } else {
            self.unexpected((n - 1) as nat, members)
        }
    }

    /// The one error that lists the members that are not admitted, if there
    /// are any.
    pub open spec fn refusal(
        &self,
        instance: Json,
        path: Seq<Seg>,
        tracker: Option<(Seq<Seg>, Seq<Seg>)>,
    ) -> Seq<ErrorView> {
        let names = self.unexpected(instance->Object_0.len(), instance->Object_0);
        if names.len() > 0 {
            seq![
                keyword_error(
                    KindView::AdditionalProperties { unexpected: names },
                    self.location@,
                    tracker,
                    instance,
                    path,
                ),
            ]
        } else {
            Seq::empty()
        }
    }

    /// What the keywords ask of an object: it has the required member, and
    /// every member satisfies the schema that applies to it.
    pub open spec fn valid(&self, reg: &Registry, instance: Json, depth: nat) -> bool
        decreases depth, self, 1nat,
    {
        instance is Object ==> {
            &&& self.required matches Some(name) ==> obj_has(instance->Object_0, name@)
            &&& forall|i: int|
                0 <= i < instance->Object_0.len() ==> self.member_valid(
                    reg,
                    #[trigger] instance->Object_0[i],
                    depth,
                )
        }
    }

    /// The error of the required member, then the errors of the members in
    /// their order, then the one error that lists the members that are not
    /// admitted.
    pub open spec fn errors(
        &self,
        reg: &Registry,
        instance: Json,
        path: Seq<Seg>,
        tracker: Option<(Seq<Seg>, Seq<Seg>)>,
        depth: nat,
    ) -> Seq<ErrorView>
        decreases depth, self, instance->Object_0.len() + 2,
    {
        if instance is Object {
            required_errors(self.names(), self.required_location@, tracker, instance, path)
                + self.members_errors(
                reg,
                instance->Object_0.len(),
                instance->Object_0,
                path,
                tracker,
                depth,
            ) + self.refusal(instance, path, tracker)
        } else {
            Seq::empty()
        }
    }

    pub fn is_valid(&self, reg: &Registry, instance: &Value, depth: usize) -> (r: bool)
        requires
            reg.wf(),
            self.wf(),
        ensures
            r == self.valid(reg, instance@, depth as nat),
        decreases depth, self, 0nat,
    {
        if let Value::Object(item) = instance {
            if let Some(name) = &self.required {
                if !item.contains_key(name.as_str()) {
                    return false;
                }
            }
            let n = item.len();
            let mut i: usize = 0;
            while i < n
                invariant
                    i <= n,
                    n == item@.len(),
                    reg.wf(),
                    self.wf(),
                    instance@ is Object,
                    instance@->Object_0 == item@,
                    forall|j: int|
                        0 <= j < i ==> self.member_valid(reg, #[trigger] item@[j], depth as nat),
                decreases n - i,
            {
                let name = item.key_at(i);
                let value = item.value_at(i);
                let passes = match find_schema(&self.properties, name.as_str()) {
                    Some(position) => self.properties[position].1.is_valid(reg, value, depth),
                    None => match &self.additional {
                        Some(node) => node.is_valid(reg, value, depth),
                        None => false,
                    },
                };
                if !passes {
                    proof {
                        assert(!self.member_valid(reg, item@[i as int], depth as nat));
                    }
                    return false;
                }
                i += 1;
            }
            true
        } else {
            true
        }
    }

    pub fn iter_errors(
        &self,
        reg: &Registry,
        instance: &Value,
        location: &Location,
        tracker: Option<&RefTracker>,
        depth: usize,
    ) -> (r: Vec<ValidationError>)
        requires
            reg.wf(),
            self.wf(),
        ensures
            error_views(r@) == self.errors(
                reg,
                instance@,
                location@,
                tracker_view(tracker),
                depth as nat,
            ),
        decreases depth, self, 0nat,
    {
        let mut errors: Vec<ValidationError> = Vec::new();
        if let Value::Object(item) = instance {
            let ghost head = required_errors(
                self.names(),
                self.required_location@,
                tracker_view(tracker),
                instance@,
                location@,
            );
            if let Some(name) = &self.required {
                proof {
                    assert(self.names()[0] == name@);
                    lemma_unroll(
                        self.names(),
                        1,
                        self.required_location@,
                        captured(tracker_view(tracker), self.required_location@),
                        instance@,
                        location@,
                    );
                }
                if !item.contains_key(name.as_str()) {
                    let error = ValidationError::required(
                        self.required_location.clone(),
                        capture_evaluation_path(tracker, &self.required_location),
                        location.clone(),
                        instance,
                        Value::String(name.clone()),
                    );
                    proof {
                        lemma_error_views_push(errors@, error);
                    }
                    errors.push(error);
                }
            }
            proof {
                assert(error_views(errors@) == head);
                assert(head + Seq::<ErrorView>::empty() =~= head);
            }
            let mut unexpected: Vec<String> = Vec::new();
            let n = item.len();
            let mut i: usize = 0;
            proof {
                assert(name_views(unexpected@) =~= self.unexpected(0, item@));
            }
            while i < n
                invariant
                    i <= n,
                    n == item@.len(),
                    reg.wf(),
                    self.wf(),
                    instance@ is Object,
                    instance@->Object_0 == item@,
                    name_views(unexpected@) == self.unexpected(i as nat, item@),
                    error_views(errors@) == head + self.members_errors(
                        reg,
                        i as nat,
                        item@,
                        location@,
                        tracker_view(tracker),
                        depth as nat,
                    ),
                decreases n - i,
            {
                let name = item.key_at(i);
                let value = item.value_at(i);
                let ghost before = self.members_errors(
                    reg,
                    i as nat,
                    item@,
                    location@,
                    tracker_view(tracker),
                    depth as nat,
                );
                let ghost step = self.member_errors(
                    reg,
                    item@[i as int],
                    location@,
                    tracker_view(tracker),
                    depth as nat,
                );
                let ghost names_before = name_views(unexpected@);
                proof {
                    assert(self.members_errors(
                        reg,
                        (i + 1) as nat,
                        item@,
                        location@,
                        tracker_view(tracker),
                        depth as nat,
                    ) == before + step);
                    assert(head + (before + step) =~= (head + before) + step);
                    assert((head + before) + Seq::<ErrorView>::empty() =~= head + before);
                }
                match find_schema(&self.properties, name.as_str()) {
                    Some(position) => {
                        let mut found = self.properties[position].1.iter_errors(
                            reg,
                            value,
                            &location.join(name.as_str()),
                            tracker,
                            depth,
                        );
                        proof {
                            lemma_error_views_concat(errors@, found@);
                        }
                        errors.append(&mut found);
                    },
                    None => match &self.additional {
                        Some(node) => {
                            let mut found = node.iter_errors(
                                reg,
                                value,
                                &location.join(name.as_str()),
                                tracker,
                                depth,
                            );
                            proof {
                                lemma_error_views_concat(errors@, found@);
                            }
                            errors.append(&mut found);
                        },
                        None => {
                            unexpected.push(name.clone());
                            proof {
                                assert(name_views(unexpected@) =~= names_before.push(name@));
                            }
                        },
                    },
                }
                i += 1;
            }
            let ghost body = error_views(errors@);
            if unexpected.len() > 0 {
                let mut last = single_error(
                    ValidationErrorKind::AdditionalProperties { unexpected },
                    &self.location,
                    tracker,
                    instance,
                    location,
                );
                proof {
                    lemma_error_views_concat(errors@, last@);
                }
                errors.append(&mut last);
            } else {
                proof {
                    assert(body + Seq::<ErrorView>::empty() =~= body);
                }
            }
        }
        errors
    }
}

} // verus!
