//! The `dependentRequired` keyword: members that an object must have where
//! it has the member that they depend on.
use vstd::prelude::*;
use crate::compiler::{Context, schema_type_error};
use crate::error::{ErrorView, ValidationError, error_views, lemma_error_views_concat};
use crate::json::{Json, Value, obj_has};
use crate::keywords::required::{
    compile_with_path, required_errors, required_form, required_location, required_names,
    required_outcome, required_valid, wrong_type,
};
use crate::node::{CompilationResult, KeywordValidator, Registry, kw_wf};
use crate::paths::{Location, RefTracker, Seg, tracker_view};
use crate::types::JsonType;

verus! {

/// The errors of those of the first `n` rules whose member the object has,
/// one rule after the other: for each, the names that the object lacks.
pub open spec fn rule_errors(
    rules: Seq<(String, KeywordValidator)>,
    n: nat,
    instance: Json,
    path: Seq<Seg>,
    tracker: Option<(Seq<Seg>, Seq<Seg>)>,
) -> Seq<ErrorView>
    decreases n,
{
    if n == 0 || n > rules.len() {
        Seq::empty()
    } else {
        rule_errors(rules, (n - 1) as nat, instance, path, tracker) + if obj_has(
            instance->Object_0,
            rules[n - 1].0@,
        ) {
            required_errors(
                required_names(rules[n - 1].1),
                required_location(rules[n - 1].1),
                tracker,
                instance,
                path,
            )
        } else {
            Seq::empty()
        }
    }
}

/// What the names under the member at `i` are compiled to, or the error
/// that they give.
pub open spec fn rule_outcome(map: Seq<(Seq<char>, Json)>, here: Seq<Seg>, i: int) -> Result<
    Seq<Seq<char>>,
    ErrorView,
> {
    required_outcome(map[i].1, here.push(Seg::Property(map[i].0)))
}

/// Whether the value of each member is a list of distinct names.
pub open spec fn rules_accepted(map: Seq<(Seq<char>, Json)>, here: Seq<Seg>) -> bool {
    forall|i: int| 0 <= i < map.len() ==> #[trigger] rule_outcome(map, here, i) is Ok
}

/// The position of the first member, from `from` on, whose value is no list
/// of distinct names; the number of the members where there is none.
pub open spec fn first_bad_rule(map: Seq<(Seq<char>, Json)>, here: Seq<Seg>, from: nat) -> nat
    decreases map.len() - from,
{
    if from >= map.len() {
        map.len()
    } else if rule_outcome(map, here, from as int) is Err {
        from
    } else {
        first_bad_rule(map, here, from + 1)
    }
}

/// The error of a `dependentRequired` keyword: that its value is no object,
/// or the error of the first member whose value is no list of distinct
/// names.
pub open spec fn rules_refusal(value: Json, here: Seq<Seg>) -> Option<ErrorView> {
    match value {
        Json::Object(map) => if first_bad_rule(map, here, 0) < map.len() {
            Some(rule_outcome(map, here, first_bad_rule(map, here, 0) as int)->Err_0)
        } else {
            None
        },
        _ => Some(wrong_type(here, value, JsonType::Object)),
    }
}

/// Whether `rules` holds, for each member in its order, its name and the
/// validator of the names under it.
pub open spec fn rules_compiled(
    map: Seq<(Seq<char>, Json)>,
    here: Seq<Seg>,
    rules: Seq<(String, KeywordValidator)>,
) -> bool {
    &&& rules.len() == map.len()
    &&& forall|i: int|
        0 <= i < rules.len() ==> {
            &&& (#[trigger] rules[i]).0@ == map[i].0
            &&& rule_outcome(map, here, i) == Ok::<Seq<Seq<char>>, ErrorView>(
                required_names(rules[i].1),
            )
            &&& required_location(rules[i].1) == here.push(Seg::Property(map[i].0))
        }
}

/// An object that has the member of a name must have the members that are
/// listed under that name.
#[derive(Debug)]
pub struct DependentRequiredValidator {
    pub rules: Vec<(String, KeywordValidator)>,
}

impl DependentRequiredValidator {
    /// Each rule is a well-formed validator of required names.
    pub open spec fn wf(&self) -> bool
        decreases self, 0nat,
    {
        forall|j: int|
            0 <= j < self.rules@.len() ==> kw_wf(&(#[trigger] self.rules@[j]).1) && required_form(
                self.rules@[j].1,
                required_names(self.rules@[j].1).len(),
            )
    }

    /// An object passes where it has each member that is listed under the
    /// name of a member that it has; any other value passes.
    pub open spec fn valid(&self, instance: Json) -> bool {
        instance is Object ==> forall|j: int|
            0 <= j < self.rules@.len() && obj_has(instance->Object_0, (#[trigger] self.rules@[j]).0@)
                ==> required_valid(required_names(self.rules@[j].1), instance)
    }

    pub open spec fn errors(
        &self,
        instance: Json,
        path: Seq<Seg>,
        tracker: Option<(Seq<Seg>, Seq<Seg>)>,
    ) -> Seq<ErrorView> {
        if instance is Object {
            rule_errors(self.rules@, self.rules@.len(), instance, path, tracker)
        } else {
            Seq::empty()
        }
    }

    pub fn is_valid(&self, reg: &Registry, instance: &Value, depth: usize) -> (r: bool)
        requires
            reg.wf(),
            self.wf(),
        ensures
            r == self.valid(instance@),
        decreases depth, self, 0nat,
    {
        if let Value::Object(members) = instance {
            let mut i: usize = 0;
            while i < self.rules.len()
                invariant
                    i <= self.rules.len(),
                    reg.wf(),
                    self.wf(),
                    instance@ == Json::Object(members@),
                    forall|j: int|
                        0 <= j < i && obj_has(members@, (#[trigger] self.rules@[j]).0@)
                            ==> required_valid(required_names(self.rules@[j].1), instance@),
                decreases self.rules.len() - i,
            {
                proof {
                    assert(kw_wf(&self.rules@[i as int].1));
                }
                if members.contains_key(self.rules[i].0.as_str()) && !self.rules[i].1.is_valid(
                    reg,
                    instance,
                    depth,
                ) {
                    return false;
                }
                i += 1;
            }
            true
        } else {
            true
        }
    }

    pub fn iter_errors(
        &self,
        reg: &Registry,
        instance: &Value,
        location: &Location,
        tracker: Option<&RefTracker>,
        depth: usize,
    ) -> (r: Vec<ValidationError>)
        requires
            reg.wf(),
            self.wf(),
        ensures
            error_views(r@) == self.errors(instance@, location@, tracker_view(tracker)),
        decreases depth, self, 0nat,
    {
        let mut errors: Vec<ValidationError> = Vec::new();
        if let Value::Object(members) = instance {
            let mut i: usize = 0;
            while i < self.rules.len()
                invariant
                    i <= self.rules.len(),
                    reg.wf(),
                    self.wf(),
                    instance@ == Json::Object(members@),
                    error_views(errors@) == rule_errors(
                        self.rules@,
                        i as nat,
                        instance@,
                        location@,
                        tracker_view(tracker),
                    ),
                decreases self.rules.len() - i,
            {
                let ghost before = error_views(errors@);
                proof {
                    assert(kw_wf(&self.rules@[i as int].1));
                    assert(rule_errors(
                        self.rules@,
                        (i + 1) as nat,
                        instance@,
                        location@,
                        tracker_view(tracker),
                    ) == before + if obj_has(instance@->Object_0, self.rules@[i as int].0@) {
                        required_errors(
                            required_names(self.rules@[i as int].1),
                            required_location(self.rules@[i as int].1),
                            tracker_view(tracker),
                            instance@,
                            location@,
                        )
                    } else {
                        Seq::<ErrorView>::empty()
                    });
                }
                if members.contains_key(self.rules[i].0.as_str()) {
                    let mut found = self.rules[i].1.iter_errors(reg, instance, location, tracker, depth);
                    proof {
                        lemma_error_views_concat(errors@, found@);
                    }
                    errors.append(&mut found);
                } else {
                    proof {
                        assert(before + Seq::<ErrorView>::empty() =~= before);
                    }
                }
                i += 1;
            }
        }
        errors
    }

    /// Compiles a `dependentRequired` keyword: an object whose members are
    /// lists of distinct names. Any other value is an error of the schema.
    pub fn compile(ctx: &Context, schema: &Value) -> (r: CompilationResult)
        ensures
            crate::refusal::fault(r) == rules_refusal(
                schema@,
                ctx@.location.push(Seg::Property("dependentRequired"@)),
            ),
            r is Ok <==> schema@ is Object && rules_accepted(
                schema@->Object_0,
                ctx@.location.push(Seg::Property("dependentRequired"@)),
            ),
            r matches Ok(validator) ==> {
                &&& validator matches KeywordValidator::DependentRequired(v)
                &&& kw_wf(&validator)
                &&& rules_compiled(
                    schema@->Object_0,
                    ctx@.location.push(Seg::Property("dependentRequired"@)),
                    v.rules@,
                )
            },
    {
        let location = ctx.location().join("dependentRequired");
        let ghost here = location@;
        match schema {
            Value::Object(map) => {
                let n = map.len();
                let mut rules: Vec<(String, KeywordValidator)> = Vec::new();
                let mut i: usize = 0;
                while i < n
                    invariant
                        i <= n,
                        n == map@.len(),
                        here == location@,
                        here == ctx@.location.push(Seg::Property("dependentRequired"@)),
                        schema@ == Json::Object(map@),
                        rules@.len() == i,
                        first_bad_rule(map@, here, 0) == first_bad_rule(map@, here, i as nat),
                        forall|j: int| 0 <= j < i ==> #[trigger] rule_outcome(map@, here, j) is Ok,
                        forall|j: int|
                            0 <= j < i ==> {
                                &&& (#[trigger] rules@[j]).0@ == map@[j].0
                                &&& rule_outcome(map@, here, j) == Ok::<Seq<Seq<char>>, ErrorView>(
                                    required_names(rules@[j].1),
                                )
                                &&& required_location(rules@[j].1) == here.push(
                                    Seg::Property(map@[j].0),
                                )
                                &&& kw_wf(&rules@[j].1)
                                &&& required_form(rules@[j].1, required_names(rules@[j].1).len())
                            },
                    decreases n - i,
                {
                    proof {
                        assert(first_bad_rule(map@, here, i as nat) == if rule_outcome(
                            map@,
                            here,
                            i as int,
                        ) is Err {
                            i as nat
                        } else {
                            first_bad_rule(map@, here, (i + 1) as nat)
                        });
                    }
                    let name = map.key_at(i);
                    let rule = match compile_with_path(
                        map.value_at(i),
                        location.join(name.as_str()),
                    ) {
                        Some(Ok(rule)) => rule,
                        Some(Err(e)) => {
                            proof {
                                assert(rule_outcome(map@, here, i as int) is Err);
                                assert(rule_outcome(map@, here, i as int)->Err_0 == e@);
                            }
                            return Err(e);
                        },
                        None => {
                            return Err(schema_type_error(&location, schema, JsonType::Object));
                        },
                    };
                    let ghost before = rules@;
                    rules.push((name.clone(), rule));
                    proof {
                        assert forall|j: int| 0 <= j < i + 1 implies {
                            &&& (#[trigger] rules@[j]).0@ == map@[j].0
                            &&& rule_outcome(map@, here, j) == Ok::<Seq<Seq<char>>, ErrorView>(
                                required_names(rules@[j].1),
                            )
                            &&& required_location(rules@[j].1) == here.push(Seg::Property(map@[j].0))
                            &&& kw_wf(&rules@[j].1)
                            &&& required_form(rules@[j].1, required_names(rules@[j].1).len())
                        } by {
                            if j < i {
                                assert(rules@[j] == before[j]);
                            }
                        }
                    }
                    i += 1;
                }
                Ok(KeywordValidator::DependentRequired(DependentRequiredValidator { rules }))
            },
            _ => Err(schema_type_error(&location, schema, JsonType::Object)),
        }
    }
}

} // verus!
