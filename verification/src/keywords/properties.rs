//! The `properties` keyword: schemas for the members of an object, by name.
use vstd::prelude::*;
use crate::error::{
    ErrorView, ValidationError, error_views, lemma_error_views_concat, lemma_error_views_push,
};
use crate::json::{Json, Value, obj_get, obj_has};
use crate::node::{Registry, SchemaNode, node_errors, node_valid, node_wf};
use crate::collections::{NameIndex, index_contents, index_get, index_insert, index_with_capacity};
use crate::node::{CompilationResult, KeywordValidator};
use crate::types::JsonType;
use crate::keywords::required::{
    distinct, lemma_enough_members, lemma_unroll, required_errors, required_valid,
};
use crate::paths::{Location, RefTracker, Seg, capture_evaluation_path, tracker_view};

verus! {

/// Whether the member that the schema names, if the object has it, satisfies
/// the schema.
pub open spec fn property_valid(
    reg: &Registry,
    property: &(String, SchemaNode),
    members: Seq<(Seq<char>, Json)>,
    depth: nat,
) -> bool
    decreases depth, property, 2nat,
{
    match obj_get(members, property.0@) {
        Some(value) => node_valid(reg, &property.1, value, depth),
        None => true,
    }
}

/// The errors of the member that the schema names, if the object has it.
pub open spec fn property_errors(
    reg: &Registry,
    property: &(String, SchemaNode),
    members: Seq<(Seq<char>, Json)>,
    path: Seq<Seg>,
    tracker: Option<(Seq<Seg>, Seq<Seg>)>,
    depth: nat,
) -> Seq<ErrorView>
    decreases depth, property, property.1.validators@.len() + 3,
{
    match obj_get(members, property.0@) {
        Some(value) => node_errors(
            reg,
            &property.1,
            value,
            path.push(Seg::Property(property.0@)),
            tracker,
            depth,
        ),
        None => Seq::empty(),
    }
}

/// The errors of the first `n` schemas, in the order of the schemas.
pub open spec fn properties_errors(
    reg: &Registry,
    properties: Seq<(String, SchemaNode)>,
    n: nat,
    members: Seq<(Seq<char>, Json)>,
    path: Seq<Seg>,
    tracker: Option<(Seq<Seg>, Seq<Seg>)>,
    depth: nat,
) -> Seq<ErrorView>
    decreases depth, properties, n,
{
    if n == 0 || n > properties.len() {
        Seq::empty()
    } else {
        properties_errors(reg, properties, (n - 1) as nat, members, path, tracker, depth)
            + property_errors(reg, &properties[n - 1], members, path, tracker, depth)
    }
}

/// Whether each of the schemas is well formed.
pub open spec fn properties_wf(properties: Seq<(String, SchemaNode)>) -> bool
    decreases properties, 0nat,
{
    forall|i: int| 0 <= i < properties.len() ==> node_wf(&(#[trigger] properties[i]).1)
}

/// Whether each member that a schema names satisfies that schema.
pub open spec fn properties_valid(
    reg: &Registry,
    properties: Seq<(String, SchemaNode)>,
    members: Seq<(Seq<char>, Json)>,
    depth: nat,
) -> bool
    decreases depth, properties, 0nat,
{
    forall|i: int|
        0 <= i < properties.len() ==> property_valid(reg, #[trigger] &properties[i], members, depth)
}

/// A few properties, looked up one after the other.
#[derive(Debug)]
pub struct SmallPropertiesValidator {
    pub properties: Vec<(String, SchemaNode)>,
}

impl SmallPropertiesValidator {
    pub open spec fn wf(&self) -> bool
        decreases self, 0nat,
    {
        properties_wf(self.properties@)
    }

    /// What `properties` asks of an object: each member that a schema names
    /// satisfies that schema. Any other value passes.
    pub open spec fn valid(&self, reg: &Registry, instance: Json, depth: nat) -> bool
        decreases depth, self, 0nat,
    {
        instance is Object ==> properties_valid(reg, self.properties@, instance->Object_0, depth)
    }

    /// The errors of the members that the schemas name, in the order of the
    /// schemas.
    pub open spec fn errors(
        &self,
        reg: &Registry,
        instance: Json,
        path: Seq<Seg>,
        tracker: Option<(Seq<Seg>, Seq<Seg>)>,
        depth: nat,
    ) -> Seq<ErrorView>
        decreases depth, self, 0nat,
    {
        if instance is Object {
            properties_errors(
                reg,
                self.properties@,
                self.properties@.len(),
                instance->Object_0,
                path,
                tracker,
                depth,
            )
        } else {
            Seq::empty()
        }
    }

    pub fn is_valid(&self, reg: &Registry, instance: &Value, depth: usize) -> (r: bool)
        requires
            reg.wf(),
            self.wf(),
        ensures
            r == self.valid(reg, instance@, depth as nat),
        decreases depth, self, 0nat,
    {
        if let Value::Object(item) = instance {
            let mut i: usize = 0;
            while i < self.properties.len()
                invariant
                    i <= self.properties.len(),
                    reg.wf(),
                    self.wf(),
                    instance@ is Object,
                    instance@->Object_0 == item@,
                    forall|j: int|
                        0 <= j < i ==> property_valid(
                            reg,
                            #[trigger] &self.properties@[j],
                            item@,
                            depth as nat,
                        ),
                decreases self.properties.len() - i,
            {
                let name = &self.properties[i].0;
                let node = &self.properties[i].1;
                if let Some(prop) = item.get(name.as_str()) {
                    if !node.is_valid(reg, prop, depth) {
                        proof {
                            assert(!property_valid(reg, &self.properties@[i as int], item@, depth as nat));
                        }
                        return false;
                    }
                }
                i += 1;
            }
            true
        } else {
            true
        }
    }

    pub fn iter_errors(
        &self,
        reg: &Registry,
        instance: &Value,
        location: &Location,
        tracker: Option<&RefTracker>,
        depth: usize,
    ) -> (r: Vec<ValidationError>)
        requires
            reg.wf(),
            self.wf(),
        ensures
            error_views(r@) == self.errors(
                reg,
                instance@,
                location@,
                tracker_view(tracker),
                depth as nat,
            ),
        decreases depth, self, 0nat,
    {
        let mut errors: Vec<ValidationError> = Vec::new();
        if let Value::Object(item) = instance {
            let mut i: usize = 0;
            while i < self.properties.len()
                invariant
                    i <= self.properties.len(),
                    reg.wf(),
                    self.wf(),
                    instance@ is Object,
                    instance@->Object_0 == item@,
                    error_views(errors@) == properties_errors(
                        reg,
                        self.properties@,
                        i as nat,
                        item@,
                        location@,
                        tracker_view(tracker),
                        depth as nat,
                    ),
                decreases self.properties.len() - i,
            {
                let name = &self.properties[i].0;
                let node = &self.properties[i].1;
                proof {
                    let before = properties_errors(
                        reg,
                        self.properties@,
                        i as nat,
                        item@,
                        location@,
                        tracker_view(tracker),
                        depth as nat,
                    );
                    assert(properties_errors(
                        reg,
                        self.properties@,
                        (i + 1) as nat,
                        item@,
                        location@,
                        tracker_view(tracker),
                        depth as nat,
                    ) == before + property_errors(
                        reg,
                        &self.properties@[i as int],
                        item@,
                        location@,
                        tracker_view(tracker),
                        depth as nat,
                    ));
                }
                if let Some(prop) = item.get(name.as_str()) {
                    let instance_path = location.join(name.as_str());
                    let mut found = node.iter_errors(reg, prop, &instance_path, tracker, depth);
                    proof {
                        lemma_error_views_concat(errors@, found@);
                    }
                    errors.append(&mut found);
                } else {
                    proof {
                        assert(error_views(errors@) + Seq::<ErrorView>::empty() =~= error_views(errors@));
                    }
                }
                i += 1;
            }
        }
        errors
    }
}

/// Many properties, found through a hashed index of their names.
#[derive(Debug)]
pub struct BigPropertiesValidator {
    /// For each name, the position of its schema in `properties`.
    pub names: NameIndex,
    pub properties: Vec<(String, SchemaNode)>,
}

impl BigPropertiesValidator {
    /// The schemas are well formed, and every name of the index leads to one
    /// of them.
    pub open spec fn wf(&self) -> bool
        decreases self, 0nat,
    {
        &&& properties_wf(self.properties@)
        &&& forall|name: Seq<char>| #[trigger]
            index_contents(self.names).contains_key(name) ==> index_contents(self.names)[name]
                < self.properties@.len()
    }

    /// Whether the member, if the index knows its name, satisfies the schema
    /// that the name leads to.
    pub open spec fn member_valid(
        &self,
        reg: &Registry,
        member: (Seq<char>, Json),
        depth: nat,
    ) -> bool
        decreases depth, self, 0nat,
    {
        let index = index_contents(self.names);
        if index.contains_key(member.0) && index[member.0] < self.properties@.len() {
            node_valid(reg, &self.properties@[index[member.0] as int].1, member.1, depth)
        } else {
            true
        }
    }

    /// The errors of the member, if the index knows its name.
    pub open spec fn member_errors(
        &self,
        reg: &Registry,
        member: (Seq<char>, Json),
        path: Seq<Seg>,
        tracker: Option<(Seq<Seg>, Seq<Seg>)>,
        depth: nat,
    ) -> Seq<ErrorView>
        decreases depth, self, 0nat,
    {
        let index = index_contents(self.names);
        if index.contains_key(member.0) && index[member.0] < self.properties@.len() {
            node_errors(
                reg,
                &self.properties@[index[member.0] as int].1,
                member.1,
                path.push(Seg::Property(member.0)),
                tracker,
                depth,
            )
        } else {
            Seq::empty()
        }
    }

    /// The errors of the first `n` members, in the order of the members.
    pub open spec fn members_errors(
        &self,
        reg: &Registry,
        n: nat,
        members: Seq<(Seq<char>, Json)>,
        path: Seq<Seg>,
        tracker: Option<(Seq<Seg>, Seq<Seg>)>,
        depth: nat,
    ) -> Seq<ErrorView>
        decreases depth, self, n + 1,
    {
        if n == 0 || n > members.len() {
            Seq::empty()
        } else {
            self.members_errors(reg, (n - 1) as nat, members, path, tracker, depth)
                + self.member_errors(reg, members[n - 1], path, tracker, depth)
        }
    }

    /// What `properties` asks of an object: each member whose name has a
    /// schema satisfies that schema. Any other value passes.
    pub open spec fn valid(&self, reg: &Registry, instance: Json, depth: nat) -> bool
        decreases depth, self, 1nat,
    {
        instance is Object ==> forall|i: int|
            0 <= i < instance->Object_0.len() ==> self.member_valid(
                reg,
                #[trigger] instance->Object_0[i],
                depth,
            )
    }

    /// The errors of the members whose names have a schema, in the order of
    /// the members.
    pub open spec fn errors(
        &self,
        reg: &Registry,
        instance: Json,
        path: Seq<Seg>,
        tracker: Option<(Seq<Seg>, Seq<Seg>)>,
        depth: nat,
    ) -> Seq<ErrorView>
        decreases depth, self, instance->Object_0.len() + 2,
    {
        if instance is Object {
            self.members_errors(reg, instance->Object_0.len(), instance->Object_0, path, tracker, depth)
        } else {
            Seq::empty()
        }
    }

    pub fn is_valid(&self, reg: &Registry, instance: &Value, depth: usize) -> (r: bool)
        requires
            reg.wf(),
            self.wf(),
        ensures
            r == self.valid(reg, instance@, depth as nat),
        decreases depth, self, 0nat,
    {
        if let Value::Object(item) = instance {
            let n = item.len();
            let mut i: usize = 0;
            while i < n
                invariant
                    i <= n,
                    n == item@.len(),
                    reg.wf(),
                    self.wf(),
                    instance@ is Object,
                    instance@->Object_0 == item@,
                    forall|j: int|
                        0 <= j < i ==> self.member_valid(reg, #[trigger] item@[j], depth as nat),
                decreases n - i,
            {
                let name = item.key_at(i);
                let prop = item.value_at(i);
                if let Some(position) = index_get(&self.names, name.as_str()) {
                    assert(index_contents(self.names).contains_key(name@));
                    if !self.properties[position].1.is_valid(reg, prop, depth) {
                        proof {
                            assert(!self.member_valid(reg, item@[i as int], depth as nat));
                        }
                        return false;
                    }
                }
                i += 1;
            }
            true
        } else {
            true
        }
    }

    pub fn iter_errors(
        &self,
        reg: &Registry,
        instance: &Value,
        location: &Location,
        tracker: Option<&RefTracker>,
        depth: usize,
    ) -> (r: Vec<ValidationError>)
        requires
            reg.wf(),
            self.wf(),
        ensures
            error_views(r@) == self.errors(
                reg,
                instance@,
                location@,
                tracker_view(tracker),
                depth as nat,
            ),
        decreases depth, self, 0nat,
    {
        let mut errors: Vec<ValidationError> = Vec::new();
        if let Value::Object(item) = instance {
            let n = item.len();
            let mut i: usize = 0;
            while i < n
                invariant
                    i <= n,
                    n == item@.len(),
                    reg.wf(),
                    self.wf(),
                    instance@ is Object,
                    instance@->Object_0 == item@,
                    error_views(errors@) == self.members_errors(
                        reg,
                        i as nat,
                        item@,
                        location@,
                        tracker_view(tracker),
                        depth as nat,
                    ),
                decreases n - i,
            {
                let name = item.key_at(i);
                let prop = item.value_at(i);
                proof {
                    assert(self.members_errors(
                        reg,
                        (i + 1) as nat,
                        item@,
                        location@,
                        tracker_view(tracker),
                        depth as nat,
                    ) == self.members_errors(
                        reg,
                        i as nat,
                        item@,
                        location@,
                        tracker_view(tracker),
                        depth as nat,
                    ) + self.member_errors(
                        reg,
                        item@[i as int],
                        location@,
                        tracker_view(tracker),
                        depth as nat,
                    ));
                }
                if let Some(position) = index_get(&self.names, name.as_str()) {
                    assert(index_contents(self.names).contains_key(name@));
                    let instance_path = location.join(name.as_str());
                    let mut found = self.properties[position].1.iter_errors(
                        reg,
                        prop,
                        &instance_path,
                        tracker,
                        depth,
                    );
                    proof {
                        lemma_error_views_concat(errors@, found@);
                    }
                    errors.append(&mut found);
                } else {
                    proof {
                        assert(error_views(errors@) + Seq::<ErrorView>::empty() =~= error_views(errors@));
                    }
                }
                i += 1;
            }
        }
        errors
    }
}

/// `properties` together with two required names: both keywords in one
/// pass over the object.
#[derive(Debug)]
pub struct SmallPropertiesWithRequired2Validator {
    pub properties: Vec<(String, SchemaNode)>,
    pub first: String,
    pub second: String,
    pub required_location: Location,
}

impl SmallPropertiesWithRequired2Validator {
    /// The two required names.
    pub open spec fn names(&self) -> Seq<Seq<char>> {
        seq![self.first@, self.second@]
    }

    /// The schemas are well formed and the two names differ.
    pub open spec fn wf(&self) -> bool
        decreases self, 0nat,
    {
        properties_wf(self.properties@) && self.first@ != self.second@
    }

    /// What the two keywords ask of an object: it has both members, and each
    /// member that a schema names satisfies that schema.
    pub open spec fn valid(&self, reg: &Registry, instance: Json, depth: nat) -> bool
        decreases depth, self, 0nat,
    {
        instance is Object ==> required_valid(self.names(), instance) && properties_valid(
            reg,
            self.properties@,
            instance->Object_0,
            depth,
        )
    }

    /// The errors of `required`, then those of `properties`.
    pub open spec fn errors(
        &self,
        reg: &Registry,
        instance: Json,
        path: Seq<Seg>,
        tracker: Option<(Seq<Seg>, Seq<Seg>)>,
        depth: nat,
    ) -> Seq<ErrorView>
        decreases depth, self, 0nat,
    {
        if instance is Object {
            required_errors(self.names(), self.required_location@, tracker, instance, path)
                + properties_errors(
                reg,
                self.properties@,
                self.properties@.len(),
                instance->Object_0,
                path,
                tracker,
                depth,
            )
        } else {
            Seq::empty()
        }
    }

    pub fn is_valid(&self, reg: &Registry, instance: &Value, depth: usize) -> (r: bool)
        requires
            reg.wf(),
            self.wf(),
        ensures
            r == self.valid(reg, instance@, depth as nat),
        decreases depth, self, 0nat,
    {
        if let Value::Object(item) = instance {
            proof {
                let names = self.names();
                assert(names[0] == self.first@ && names[1] == self.second@);
                if obj_has(item@, self.first@) && obj_has(item@, self.second@) {
                    assert(distinct(names));
                    lemma_enough_members(names, item@);
                }
            }
            // The required names first: they fail fast.
            if item.len() < 2 || !item.contains_key(self.first.as_str()) || !item.contains_key(
                self.second.as_str(),
            ) {
                return false;
            }
            let mut i: usize = 0;
            while i < self.properties.len()
                invariant
                    i <= self.properties.len(),
                    reg.wf(),
                    self.wf(),
                    instance@ is Object,
                    instance@->Object_0 == item@,
                    required_valid(self.names(), instance@),
                    forall|j: int|
                        0 <= j < i ==> property_valid(
                            reg,
                            #[trigger] &self.properties@[j],
                            item@,
                            depth as nat,
                        ),
                decreases self.properties.len() - i,
            {
                let name = &self.properties[i].0;
                let node = &self.properties[i].1;
                if let Some(prop) = item.get(name.as_str()) {
                    if !node.is_valid(reg, prop, depth) {
                        proof {
                            assert(!property_valid(reg, &self.properties@[i as int], item@, depth as nat));
                        }
                        return false;
                    }
                }
                i += 1;
            }
            true
        } else {
            true
        }
    }

    pub fn iter_errors(
        &self,
        reg: &Registry,
        instance: &Value,
        location: &Location,
        tracker: Option<&RefTracker>,
        depth: usize,
    ) -> (r: Vec<ValidationError>)
        requires
            reg.wf(),
            self.wf(),
        ensures
            error_views(r@) == self.errors(
                reg,
                instance@,
                location@,
                tracker_view(tracker),
                depth as nat,
            ),
        decreases depth, self, 0nat,
    {
        let mut errors: Vec<ValidationError> = Vec::new();
        if let Value::Object(item) = instance {
            let eval_path = capture_evaluation_path(tracker, &self.required_location);
            let ghost names = self.names();
            proof {
                assert(names[0] == self.first@ && names[1] == self.second@);
                lemma_unroll(names, 1, self.required_location@, eval_path@, instance@, location@);
                lemma_unroll(names, 2, self.required_location@, eval_path@, instance@, location@);
            }
            if !item.contains_key(self.first.as_str()) {
                let error = ValidationError::required(
                    self.required_location.clone(),
                    eval_path.clone(),
                    location.clone(),
                    instance,
                    Value::String(self.first.clone()),
                );
                proof {
                    lemma_error_views_push(errors@, error);
                }
                errors.push(error);
            }
            if !item.contains_key(self.second.as_str()) {
                let error = ValidationError::required(
                    self.required_location.clone(),
                    eval_path,
                    location.clone(),
                    instance,
                    Value::String(self.second.clone()),
                );
                proof {
                    lemma_error_views_push(errors@, error);
                }
                errors.push(error);
            }
            let ghost head = error_views(errors@);
            proof {
                assert(head == required_errors(
                    names,
                    self.required_location@,
                    tracker_view(tracker),
                    instance@,
                    location@,
                ));
                assert(head + Seq::<ErrorView>::empty() =~= head);
            }
            let mut i: usize = 0;
            while i < self.properties.len()
                invariant
                    i <= self.properties.len(),
                    reg.wf(),
                    self.wf(),
                    instance@ is Object,
                    instance@->Object_0 == item@,
                    error_views(errors@) == head + properties_errors(
                        reg,
                        self.properties@,
                        i as nat,
                        item@,
                        location@,
                        tracker_view(tracker),
                        depth as nat,
                    ),
                decreases self.properties.len() - i,
            {
                let name = &self.properties[i].0;
                let node = &self.properties[i].1;
                let ghost before = properties_errors(
                    reg,
                    self.properties@,
                    i as nat,
                    item@,
                    location@,
                    tracker_view(tracker),
                    depth as nat,
                );
                let ghost step = property_errors(
                    reg,
                    &self.properties@[i as int],
                    item@,
                    location@,
                    tracker_view(tracker),
                    depth as nat,
                );
                proof {
                    assert(properties_errors(
                        reg,
                        self.properties@,
                        (i + 1) as nat,
                        item@,
                        location@,
                        tracker_view(tracker),
                        depth as nat,
                    ) == before + step);
                    assert(head + (before + step) =~= (head + before) + step);
                }
                if let Some(prop) = item.get(name.as_str()) {
                    let instance_path = location.join(name.as_str());
                    let mut found = node.iter_errors(reg, prop, &instance_path, tracker, depth);
                    proof {
                        lemma_error_views_concat(errors@, found@);
                    }
                    errors.append(&mut found);
                } else {
                    proof {
                        assert((head + before) + Seq::<ErrorView>::empty() =~= head + before);
                    }
                }
                i += 1;
            }
        }
        errors
    }
}

/// From how many properties on their names are hashed.
pub const HASHMAP_THRESHOLD: usize = 40;

impl SmallPropertiesValidator {
    pub fn compile(
        ctx: &crate::compiler::Context,
        map: &crate::json::ObjectMap,
        refs: &mut Vec<Location>,
    ) -> (r: CompilationResult)
        ensures
            r is Ok ==> crate::found::places(final(refs)@) == crate::found::places(old(refs)@) + crate::found::members_found(ctx@.at("properties"@), map@, map@.len()),
            crate::refusal::fault(r) == crate::refusal::members_refusal(ctx@.at("properties"@), map@),
            crate::references::kept(old(refs)@, final(refs)@),
            r matches Ok(validator) ==> crate::references::kw_held(&validator, final(refs)@),
            crate::rules::reference_free(Json::Object(map@)) ==> final(refs)@ == old(refs)@,
            r is Ok <==> crate::rules::members_accepted(ctx@.at("properties"@), map@),
            r matches Ok(validator) ==> {
                &&& validator matches KeywordValidator::SmallProperties(v)
                &&& crate::node::kw_wf(&validator)
                &&& crate::shape::members_compiled(ctx@.at("properties"@), map@, v.properties@)
            },
        decreases crate::compiler::json_size(Json::Object(map@)), 1nat,
    {
        let ctx = ctx.new_at_location("properties");
        let properties = crate::compiler::compile_members(&ctx, map, refs)?;
        let validator = KeywordValidator::SmallProperties(SmallPropertiesValidator { properties });
        proof {
            crate::references::lemma_held_by_properties(
                &validator,
                validator->SmallProperties_0.properties@,
                refs@,
            );
        }
        Ok(validator)
    }
}

impl BigPropertiesValidator {
    pub fn compile(
        ctx: &crate::compiler::Context,
        map: &crate::json::ObjectMap,
        refs: &mut Vec<Location>,
    ) -> (r: CompilationResult)
        ensures
            r is Ok ==> crate::found::places(final(refs)@) == crate::found::places(old(refs)@) + crate::found::members_found(ctx@.at("properties"@), map@, map@.len()),
            crate::refusal::fault(r) == crate::refusal::members_refusal(ctx@.at("properties"@), map@),
            crate::references::kept(old(refs)@, final(refs)@),
            r matches Ok(validator) ==> crate::references::kw_held(&validator, final(refs)@),
            crate::rules::reference_free(Json::Object(map@)) ==> final(refs)@ == old(refs)@,
            r is Ok <==> crate::rules::members_accepted(ctx@.at("properties"@), map@),
            r matches Ok(validator) ==> {
                &&& validator matches KeywordValidator::BigProperties(v)
                &&& crate::node::kw_wf(&validator)
                &&& crate::shape::members_compiled(ctx@.at("properties"@), map@, v.properties@)
                &&& forall|name: Seq<char>| #[trigger]
                    index_contents(v.names).contains_key(name) <==> obj_has(map@, name)
                &&& forall|name: Seq<char>| #[trigger]
                    index_contents(v.names).contains_key(name) ==> map@[index_contents(
                        v.names,
                    )[name] as int].0 == name
            },
        decreases crate::compiler::json_size(Json::Object(map@)), 1nat,
    {
        let ctx = ctx.new_at_location("properties");
        let properties = crate::compiler::compile_members(&ctx, map, refs)?;
        let mut names = index_with_capacity(properties.len());
        let mut i: usize = 0;
        while i < properties.len()
            invariant
                i <= properties.len(),
                properties@.len() == map@.len(),
                forall|j: int| 0 <= j < properties@.len() ==> (#[trigger] properties@[j]).0@ == map@[j].0,
                forall|name: Seq<char>| #[trigger]
                    index_contents(names).contains_key(name) ==> index_contents(names)[name] < i
                        && map@[index_contents(names)[name] as int].0 == name,
                forall|j: int| 0 <= j < i ==> index_contents(names).contains_key(#[trigger] map@[j].0),
            decreases properties.len() - i,
        {
            let ghost before = index_contents(names);
            index_insert(&mut names, properties[i].0.clone(), i);
            proof {
                assert forall|j: int| 0 <= j < i + 1 implies index_contents(names).contains_key(
                    #[trigger] map@[j].0,
                ) by {
                    if j < i {
                        assert(before.contains_key(map@[j].0));
                    }
                }
            }
            i += 1;
        }
        proof {
            assert forall|name: Seq<char>| #[trigger]
                index_contents(names).contains_key(name) <==> obj_has(map@, name) by {
                crate::json::lemma_obj_has(map@, name);
                if obj_has(map@, name) {
                    let j = choose|j: int| 0 <= j < map@.len() && (#[trigger] map@[j]).0 == name;
                    assert(index_contents(names).contains_key(map@[j].0));
                }
            }
        }
        let validator = KeywordValidator::BigProperties(BigPropertiesValidator { names, properties });
        proof {
            crate::references::lemma_held_by_properties(
                &validator,
                validator->BigProperties_0.properties@,
                refs@,
            );
        }
        Ok(validator)
    }
}

impl SmallPropertiesWithRequired2Validator {
    pub fn compile(
        ctx: &crate::compiler::Context,
        map: &crate::json::ObjectMap,
        first: String,
        second: String,
        refs: &mut Vec<Location>,
    ) -> (r: CompilationResult)
        requires
            first@ != second@,
        ensures
            r is Ok ==> crate::found::places(final(refs)@) == crate::found::places(old(refs)@) + crate::found::members_found(ctx@.at("properties"@), map@, map@.len()),
            crate::refusal::fault(r) == crate::refusal::members_refusal(ctx@.at("properties"@), map@),
            crate::references::kept(old(refs)@, final(refs)@),
            r matches Ok(validator) ==> crate::references::kw_held(&validator, final(refs)@),
            crate::rules::reference_free(Json::Object(map@)) ==> final(refs)@ == old(refs)@,
            r is Ok <==> crate::rules::members_accepted(ctx@.at("properties"@), map@),
            r matches Ok(validator) ==> {
                &&& validator matches KeywordValidator::SmallPropertiesWithRequired2(v)
                &&& crate::node::kw_wf(&validator)
                &&& crate::shape::members_compiled(ctx@.at("properties"@), map@, v.properties@)
                &&& v.first@ == first@
                &&& v.second@ == second@
                &&& v.required_location@ == ctx@.location.push(Seg::Property("required"@))
            },
        decreases crate::compiler::json_size(Json::Object(map@)), 1nat,
    {
        let pctx = ctx.new_at_location("properties");
        let properties = crate::compiler::compile_members(&pctx, map, refs)?;
        let required_location = ctx.location().join("required");
        let validator = KeywordValidator::SmallPropertiesWithRequired2(
            SmallPropertiesWithRequired2Validator { properties, first, second, required_location },
        );
        proof {
            crate::references::lemma_held_by_properties(
                &validator,
                validator->SmallPropertiesWithRequired2_0.properties@,
                refs@,
            );
        }
        Ok(validator)
    }
}

/// The two names of a `required` keyword that is checked together with
/// `properties`: the schema has no `patternProperties`, and `required` lists
/// two strings, which differ.
pub open spec fn required_pair(parent: Seq<(Seq<char>, Json)>) -> Option<(Seq<char>, Seq<char>)> {
    if obj_has(parent, "patternProperties"@) {
        None
    } else {
        match obj_get(parent, "required"@) {
            Some(Json::Array(items)) => if items.len() == 2 && items[0] is String && items[1] is String
                && items[0]->String_0 != items[1]->String_0 {
                Some((items[0]->String_0, items[1]->String_0))
            } else {
                None
            },
            _ => None,
        }
    }
}

/// Check if we can use fused properties+required validator.
/// Conditions: properties < threshold, required: [2 strings], no patternProperties.
fn extract_required2(parent: &crate::json::ObjectMap) -> (r: Option<(String, String)>)
    ensures
        r is Some <==> required_pair(parent@) is Some,
        r matches Some((first, second)) ==> required_pair(parent@) == Some((first@, second@)),
{
    // No patternProperties (uses separate validator paths)
    if parent.contains_key("patternProperties") {
        return None;
    }
    if let Some(Value::Array(items)) = parent.get("required") {
        proof {
            crate::json::lemma_views(items@);
        }
        if items.len() == 2 {
            if let (Value::String(first), Value::String(second)) = (&items[0], &items[1]) {
                if !crate::text::str_eq(first.as_str(), second.as_str()) {
                    return Some((first.clone(), second.clone()));
                }
            }
        }
    }
    None
}

/// Whether the validator of `additionalProperties` takes over `properties`:
/// `additionalProperties` is `false` or a schema.
pub open spec fn taken_over(parent: Seq<(Seq<char>, Json)>) -> bool {
    match obj_get(parent, "additionalProperties"@) {
        Some(Json::Bool(false)) => true,
        Some(Json::Object(_)) => true,
        _ => false,
    }
}

/// Whether the validator of `properties` checks `required` too: it is the
/// validator of few properties, and `required` lists two names that differ.
pub open spec fn takes_required(parent: Seq<(Seq<char>, Json)>) -> bool {
    &&& !taken_over(parent)
    &&& obj_get(parent, "properties"@) matches Some(Json::Object(map)) && map.len()
        < HASHMAP_THRESHOLD
    &&& required_pair(parent) is Some
}

/// Whether the validator of `properties` checks `required` too.
pub fn has_taken_required(parent: &crate::json::ObjectMap) -> (r: bool)
    ensures
        r == takes_required(parent@),
{
    let taken = match parent.get("additionalProperties") {
        Some(Value::Bool(false)) => true,
        Some(Value::Object(_)) => true,
        _ => false,
    };
    if taken {
        return false;
    }
    let few = match parent.get("properties") {
        Some(Value::Object(map)) => map.len() < HASHMAP_THRESHOLD,
        _ => false,
    };
    few && extract_required2(parent).is_some()
}

/// Compiles a `properties` keyword of the schema `parent`:
/// - no validator where the validator of `additionalProperties` takes the
///   properties over;
/// - few properties beside two required names: both keywords together;
/// - few properties: a list that is gone through;
/// - many properties: a hashed index of the names.
pub fn compile(
    ctx: &crate::compiler::Context,
    parent: &crate::json::ObjectMap,
    schema: &Value,
    refs: &mut Vec<Location>,
) -> (r: Option<CompilationResult>)
    requires
        obj_get(parent@, "properties"@) == Some(schema@),
    ensures
        !(r matches Some(Err(_))) ==> crate::found::places(final(refs)@) == crate::found::places(old(refs)@) + crate::found::keyword_found(ctx@, parent@, crate::compiler::Keyword::Properties),
        r is None ==> final(refs)@ == old(refs)@,
        crate::refusal::keyword_fault(r) == crate::refusal::keyword_refusal(ctx@, parent@, crate::compiler::Keyword::Properties),
        crate::references::kept(old(refs)@, final(refs)@),
        r matches Some(Ok(validator)) ==> crate::references::kw_held(&validator, final(refs)@),
        crate::rules::reference_free(Json::Object(parent@)) ==> final(refs)@ == old(refs)@,
        r is None <==> taken_over(parent@),
        r matches Some(Ok(validator)) ==> crate::node::kw_wf(&validator)
            && crate::shape::keyword_compiled(
            ctx@,
            parent@,
            crate::compiler::Keyword::Properties,
            &validator,
        ),
        r matches Some(Err(e)) ==> (!(schema@ is Object) ==> e@
            == crate::keywords::required::wrong_type(
            ctx@.location.push(Seg::Property("properties"@)),
            schema@,
            JsonType::Object,
        )),
        r matches Some(Err(_)) <==> !crate::rules::keyword_accepted(
            ctx@,
            parent@,
            crate::compiler::Keyword::Properties,
        ),
    decreases crate::compiler::json_size(Json::Object(parent@)), 2nat,
{
    proof {
        crate::rules::lemma_members_reference_free(parent@);
    }
    proof {
        crate::compiler::lemma_found_smaller(parent@, "properties"@);
    }
    match parent.get("additionalProperties") {
        // This type of `additionalProperties` validator handles `properties` logic
        Some(Value::Bool(false)) => None,
        Some(Value::Object(_)) => None,
        _ => {
            if let Value::Object(map) = schema {
                if map.len() < HASHMAP_THRESHOLD {
                    // Try fused validator for properties + required: [2 items]
                    if let Some((first, second)) = extract_required2(parent) {
                        Some(SmallPropertiesWithRequired2Validator::compile(ctx, map, first, second, refs))
                    } else {
                        Some(SmallPropertiesValidator::compile(ctx, map, refs))
                    }
                } else {
                    Some(BigPropertiesValidator::compile(ctx, map, refs))
                }
            } else {
                let location = ctx.location().join("properties");
                Some(Err(crate::compiler::schema_type_error(&location, schema, JsonType::Object)))
            }
        },
    }
}

/// The names as an array of strings.
fn names_value(names: Vec<String>) -> (r: Value)
    ensures
        r@ == crate::outcome::names_json(crate::paths::string_views(names@)),
{
    let mut items: Vec<Value> = Vec::new();
    let mut i: usize = 0;
    while i < names.len()
        invariant
            i <= names.len(),
            items@.len() == i,
            forall|j: int| 0 <= j < i ==> (#[trigger] items@[j])@ == Json::String(names@[j]@),
        decreases names.len() - i,
    {
        items.push(Value::String(names[i].clone()));
        i += 1;
    }
    proof {
        crate::json::lemma_views(items@);
        assert(crate::json::views(items@) =~= crate::outcome::names_json(
            crate::paths::string_views(names@),
        )->Array_0);
    }
    Value::Array(items)
}

/// The results of the members that the schemas name, and the names of those
/// members, in the order of the schemas.
fn properties_children(
    properties: &Vec<(String, SchemaNode)>,
    props: &crate::json::ObjectMap,
    reg: &Registry,
    location: &Location,
    tracker: Option<&RefTracker>,
    depth: usize,
) -> (r: (Vec<String>, Vec<crate::evaluation::EvaluationNode>))
    requires
        reg.wf(),
        properties_wf(properties@),
    ensures
        crate::evaluation::all_hold(r.1@) == properties_valid(reg, properties@, props@, depth as nat),
        crate::paths::string_views(r.0@) == crate::outcome::matched_names(
            properties@,
            props@,
            properties@.len(),
        ),
        crate::outcome::named_below(
            reg,
            properties@,
            props@,
            location@,
            tracker_view(tracker),
            depth as nat,
            r.1@,
        ),
    decreases depth, properties, 0nat,
{
    let mut matched_props: Vec<String> = Vec::with_capacity(props.len());
    let mut children: Vec<crate::evaluation::EvaluationNode> = Vec::new();
    let mut i: usize = 0;
    while i < properties.len()
        invariant
            i <= properties.len(),
            reg.wf(),
            properties_wf(properties@),
            crate::evaluation::all_hold(children@) == (forall|j: int|
                0 <= j < i ==> property_valid(reg, #[trigger] &properties@[j], props@, depth as nat)),
            crate::paths::string_views(matched_props@) == crate::outcome::matched_names(
                properties@,
                props@,
                i as nat,
            ),
            children@.len() == matched_props@.len(),
            forall|j: int|
                0 <= j < i && obj_has(props@, (#[trigger] properties@[j]).0@) ==> {
                    let k = crate::outcome::matched_names(properties@, props@, j as nat).len() as int;
                    k < children@.len() && crate::outcome::node_result(
                        reg,
                        &properties@[j].1,
                        obj_get(props@, properties@[j].0@)->0,
                        location@.push(Seg::Property(properties@[j].0@)),
                        tracker_view(tracker),
                        depth as nat,
                        &children@[k],
                    )
                },
        decreases properties.len() - i,
    {
        let prop_name = &properties[i].0;
        let node = &properties[i].1;
        let ghost before = children@;
        let ghost names_before = matched_props@;
        proof {
            assert(crate::outcome::matched_names(properties@, props@, (i + 1) as nat)
                == crate::outcome::matched_names(properties@, props@, i as nat) + if obj_has(
                props@,
                properties@[i as int].0@,
            ) {
                seq![properties@[i as int].0@]
            } else {
                Seq::<Seq<char>>::empty()
            });
        }
        if let Some(prop) = props.get(prop_name.as_str()) {
            let path = location.join(prop_name.as_str());
            matched_props.push(prop_name.clone());
            let child = node.evaluate_instance(reg, prop, &path, tracker, depth);
            children.push(child);
            proof {
                assert(matched_props@.drop_last() =~= names_before);
                assert(crate::paths::string_views(matched_props@) =~= crate::paths::string_views(
                    names_before,
                ).push(properties@[i as int].0@));
                assert forall|j: int|
                    0 <= j < i + 1 && obj_has(props@, (#[trigger] properties@[j]).0@) implies {
                    let k = crate::outcome::matched_names(properties@, props@, j as nat).len() as int;
                    k < children@.len() && crate::outcome::node_result(
                        reg,
                        &properties@[j].1,
                        obj_get(props@, properties@[j].0@)->0,
                        location@.push(Seg::Property(properties@[j].0@)),
                        tracker_view(tracker),
                        depth as nat,
                        &children@[k],
                    )
                } by {
                    let k = crate::outcome::matched_names(properties@, props@, j as nat).len() as int;
                    if j < i {
                        assert(k < before.len());
                        assert(children@[k] == before[k]);
                    } else {
                        assert(k == before.len());
                    }
                }
            }
            proof {
                let this = property_valid(reg, &properties@[i as int], props@, depth as nat);
                assert(children@.last().valid == this);
                if crate::evaluation::all_hold(children@) {
                    assert forall|j: int| 0 <= j < before.len() implies (#[trigger] before[j]).valid by {
                        assert(children@[j] == before[j]);
                    }
                    assert(children@[before.len() as int].valid);
                }
                if crate::evaluation::all_hold(before) && this {
                    assert forall|j: int| 0 <= j < children@.len() implies (#[trigger] children@[j]).valid by {
                        if j < before.len() {
                            assert(children@[j] == before[j]);
                        }
                    }
                }
                if !this {
                    assert(!(forall|j: int|
                        0 <= j < i + 1 ==> property_valid(
                            reg,
                            #[trigger] &properties@[j],
                            props@,
                            depth as nat,
                        )));
                }
            }
        } else {
            proof {
                assert(property_valid(reg, &properties@[i as int], props@, depth as nat));
                assert(crate::paths::string_views(matched_props@) =~= crate::paths::string_views(
                    names_before,
                ) + Seq::<Seq<char>>::empty());
            }
        }
        i += 1;
    }
    (matched_props, children)
}

impl SmallPropertiesValidator {
    pub fn evaluate(
        &self,
        reg: &Registry,
        instance: &Value,
        location: &Location,
        tracker: Option<&RefTracker>,
        depth: usize,
    ) -> (r: crate::evaluation::EvaluationResult)
        requires
            reg.wf(),
            self.wf(),
        ensures
            r.valid == self.valid(reg, instance@, depth as nat),
            crate::outcome::kw_outcome(
                reg,
                &KeywordValidator::SmallProperties(*self),
                instance@,
                location@,
                tracker_view(tracker),
                depth as nat,
                &r,
            ),
        decreases depth, self, 0nat,
    {
        if let Value::Object(props) = instance {
            let (matched_props, children) = properties_children(
                &self.properties,
                props,
                reg,
                location,
                tracker,
                depth,
            );
            let mut r = crate::evaluation::EvaluationResult::from_children(children);
            r.annotate(names_value(matched_props));
            proof {
                assert(crate::evaluation::told(r.errors@) =~= Seq::<(Seq<char>, Seq<char>)>::empty());
            }
            r
        } else {
            let r = crate::evaluation::EvaluationResult::valid_empty();
            proof {
                assert(crate::evaluation::told(r.errors@) =~= Seq::<(Seq<char>, Seq<char>)>::empty());
            }
            r
        }
    }
}

impl SmallPropertiesWithRequired2Validator {
    pub fn evaluate(
        &self,
        reg: &Registry,
        instance: &Value,
        location: &Location,
        tracker: Option<&RefTracker>,
        depth: usize,
    ) -> (r: crate::evaluation::EvaluationResult)
        requires
            reg.wf(),
            self.wf(),
        ensures
            r.valid == self.valid(reg, instance@, depth as nat),
            crate::outcome::kw_outcome(
                reg,
                &KeywordValidator::SmallPropertiesWithRequired2(*self),
                instance@,
                location@,
                tracker_view(tracker),
                depth as nat,
                &r,
            ),
        decreases depth, self, 0nat,
    {
        if let Value::Object(props) = instance {
            proof {
                let names = self.names();
                assert(names[0] == self.first@ && names[1] == self.second@);
            }
            // Check required first
            if !props.contains_key(self.first.as_str()) || !props.contains_key(self.second.as_str()) {
                let r = crate::evaluation::EvaluationResult::invalid_empty(Vec::new());
                proof {
                    assert(crate::evaluation::told(r.errors@) =~= Seq::<(Seq<char>, Seq<char>)>::empty());
                }
                return r;
            }
            let (matched_props, children) = properties_children(
                &self.properties,
                props,
                reg,
                location,
                tracker,
                depth,
            );
            let mut r = crate::evaluation::EvaluationResult::from_children(children);
            r.annotate(names_value(matched_props));
            proof {
                assert(crate::evaluation::told(r.errors@) =~= Seq::<(Seq<char>, Seq<char>)>::empty());
            }
            r
        } else {
            let r = crate::evaluation::EvaluationResult::valid_empty();
            proof {
                assert(crate::evaluation::told(r.errors@) =~= Seq::<(Seq<char>, Seq<char>)>::empty());
            }
            r
        }
    }
}

impl BigPropertiesValidator {
    pub fn evaluate(
        &self,
        reg: &Registry,
        instance: &Value,
        location: &Location,
        tracker: Option<&RefTracker>,
        depth: usize,
    ) -> (r: crate::evaluation::EvaluationResult)
        requires
            reg.wf(),
            self.wf(),
        ensures
            r.valid == self.valid(reg, instance@, depth as nat),
            crate::outcome::kw_outcome(
                reg,
                &KeywordValidator::BigProperties(*self),
                instance@,
                location@,
                tracker_view(tracker),
                depth as nat,
                &r,
            ),
        decreases depth, self, 0nat,
    {
        if let Value::Object(props) = instance {
            let n = props.len();
            let mut matched_props: Vec<String> = Vec::with_capacity(n);
            let mut children: Vec<crate::evaluation::EvaluationNode> = Vec::new();
            let mut i: usize = 0;
            while i < n
                invariant
                    i <= n,
                    n == props@.len(),
                    reg.wf(),
                    self.wf(),
                    instance@ is Object,
                    instance@->Object_0 == props@,
                    crate::evaluation::all_hold(children@) == (forall|j: int|
                        0 <= j < i ==> self.member_valid(reg, #[trigger] props@[j], depth as nat)),
                    crate::paths::string_views(matched_props@) == crate::outcome::found_names(
                        index_contents(self.names),
                        props@,
                        i as nat,
                    ),
                    children@.len() == matched_props@.len(),
                    forall|j: int|
                        0 <= j < i && index_contents(self.names).contains_key(
                            (#[trigger] props@[j]).0,
                        ) ==> {
                            let k = crate::outcome::found_names(
                                index_contents(self.names),
                                props@,
                                j as nat,
                            ).len() as int;
                            k < children@.len() && crate::outcome::node_result(
                                reg,
                                &self.properties@[index_contents(self.names)[props@[j].0] as int].1,
                                props@[j].1,
                                location@.push(Seg::Property(props@[j].0)),
                                tracker_view(tracker),
                                depth as nat,
                                &children@[k],
                            )
                        },
                decreases n - i,
            {
                let prop_name = props.key_at(i);
                let prop = props.value_at(i);
                let ghost before = children@;
                let ghost names_before = matched_props@;
                let ghost index = index_contents(self.names);
                proof {
                    assert(crate::outcome::found_names(index, props@, (i + 1) as nat)
                        == crate::outcome::found_names(index, props@, i as nat) + if index.contains_key(
                        props@[i as int].0,
                    ) {
                        seq![props@[i as int].0]
                    } else {
                        Seq::<Seq<char>>::empty()
                    });
                }
                if let Some(position) = index_get(&self.names, prop_name.as_str()) {
                    assert(index_contents(self.names).contains_key(prop_name@));
                    let path = location.join(prop_name.as_str());
                    matched_props.push(prop_name.clone());
                    let child = self.properties[position].1.evaluate_instance(
                        reg,
                        prop,
                        &path,
                        tracker,
                        depth,
                    );
                    children.push(child);
                    proof {
                        assert(matched_props@.drop_last() =~= names_before);
                        assert(crate::paths::string_views(matched_props@)
                            =~= crate::paths::string_views(names_before).push(props@[i as int].0));
                        assert forall|j: int|
                            0 <= j < i + 1 && index.contains_key((#[trigger] props@[j]).0) implies {
                            let k = crate::outcome::found_names(index, props@, j as nat).len() as int;
                            k < children@.len() && crate::outcome::node_result(
                                reg,
                                &self.properties@[index[props@[j].0] as int].1,
                                props@[j].1,
                                location@.push(Seg::Property(props@[j].0)),
                                tracker_view(tracker),
                                depth as nat,
                                &children@[k],
                            )
                        } by {
                            let k = crate::outcome::found_names(index, props@, j as nat).len() as int;
                            if j < i {
                                assert(k < before.len());
                                assert(children@[k] == before[k]);
                            } else {
                                assert(k == before.len());
                            }
                        }
                    }
                    proof {
                        let this = self.member_valid(reg, props@[i as int], depth as nat);
                        assert(children@.last().valid == this);
                        if crate::evaluation::all_hold(children@) {
                            assert forall|j: int| 0 <= j < before.len() implies (#[trigger] before[j]).valid by {
                                assert(children@[j] == before[j]);
                            }
                            assert(children@[before.len() as int].valid);
                        }
                        if crate::evaluation::all_hold(before) && this {
                            assert forall|j: int| 0 <= j < children@.len() implies (
                            #[trigger] children@[j]).valid by {
                                if j < before.len() {
                                    assert(children@[j] == before[j]);
                                }
                            }
                        }
                        if !this {
                            assert(!(forall|j: int|
                                0 <= j < i + 1 ==> self.member_valid(
                                    reg,
                                    #[trigger] props@[j],
                                    depth as nat,
                                )));
                        }
                    }
                } else {
                    proof {
                        assert(self.member_valid(reg, props@[i as int], depth as nat));
                        assert(crate::paths::string_views(matched_props@)
                            =~= crate::paths::string_views(names_before) + Seq::<Seq<char>>::empty());
                    }
                }
                i += 1;
            }
            let mut r = crate::evaluation::EvaluationResult::from_children(children);
            r.annotate(names_value(matched_props));
            proof {
                assert(crate::evaluation::told(r.errors@) =~= Seq::<(Seq<char>, Seq<char>)>::empty());
            }
            r
        } else {
            let r = crate::evaluation::EvaluationResult::valid_empty();
            proof {
                assert(crate::evaluation::told(r.errors@) =~= Seq::<(Seq<char>, Seq<char>)>::empty());
            }
            r
        }
    }
}

impl SmallPropertiesValidator {
    /// The first error of the keyword on `instance`, if there is one.
    pub fn validate(
        &self,
        reg: &Registry,
        instance: &Value,
        location: &Location,
        tracker: Option<&RefTracker>,
        depth: usize,
    ) -> (r: Result<(), ValidationError>)
        requires
            reg.wf(),
            self.wf(),
        ensures
            crate::node::first_error(
                r,
                self.errors(reg, instance@, location@, tracker_view(tracker), depth as nat),
            ),
    {
        crate::node::take_first(self.iter_errors(reg, instance, location, tracker, depth))
    }
}

impl BigPropertiesValidator {
    /// The first error of the keyword on `instance`, if there is one.
    pub fn validate(
        &self,
        reg: &Registry,
        instance: &Value,
        location: &Location,
        tracker: Option<&RefTracker>,
        depth: usize,
    ) -> (r: Result<(), ValidationError>)
        requires
            reg.wf(),
            self.wf(),
        ensures
            crate::node::first_error(
                r,
                self.errors(reg, instance@, location@, tracker_view(tracker), depth as nat),
            ),
    {
        crate::node::take_first(self.iter_errors(reg, instance, location, tracker, depth))
    }
}

impl SmallPropertiesWithRequired2Validator {
    /// The first error of the keyword on `instance`, if there is one.
    pub fn validate(
        &self,
        reg: &Registry,
        instance: &Value,
        location: &Location,
        tracker: Option<&RefTracker>,
        depth: usize,
    ) -> (r: Result<(), ValidationError>)
        requires
            reg.wf(),
            self.wf(),
        ensures
            crate::node::first_error(
                r,
                self.errors(reg, instance@, location@, tracker_view(tracker), depth as nat),
            ),
    {
        crate::node::take_first(self.iter_errors(reg, instance, location, tracker, depth))
    }
}

} // verus!
