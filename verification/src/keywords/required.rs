//! The `required` keyword: names of members that an object must have.
use vstd::prelude::*;
use crate::error::{ErrorView, KindView, ValidationError, ValidationErrorKind, error_views, lemma_error_views_push};
use crate::json::{Json, ObjectMap, Value, obj_has};
use crate::node::{CompilationResult, KeywordValidator, first_error};
use crate::paths::{Location, RefTracker, Seg, capture_evaluation_path, captured, tracker_view};
use crate::types::JsonType;

verus! {

/// The error for one missing member.
pub open spec fn missing(
    schema_path: Seq<Seg>,
    evaluation_path: Seq<Seg>,
    instance: Json,
    instance_path: Seq<Seg>,
    name: Seq<char>,
) -> ErrorView {
    ErrorView {
        kind: KindView::Required { property: Json::String(name) },
        instance,
        instance_path,
        schema_path,
        evaluation_path,
    }
}

/// The errors for those of the first `n` names that the object lacks, in the
/// order of the names.
pub open spec fn missing_errors(
    names: Seq<Seq<char>>,
    n: nat,
    schema_path: Seq<Seg>,
    evaluation_path: Seq<Seg>,
    instance: Json,
    instance_path: Seq<Seg>,
) -> Seq<ErrorView>
    decreases n,
{
    if n == 0 || n > names.len() {
        Seq::empty()
    } else {
        let before = missing_errors(
            names,
            (n - 1) as nat,
            schema_path,
            evaluation_path,
            instance,
            instance_path,
        );
        if obj_has(instance->Object_0, names[n - 1]) {
            before
        } else {
            before.push(missing(schema_path, evaluation_path, instance, instance_path, names[n - 1]))
        }
    }
}

/// What `required` asks: a value that is an object has a member of each name.
pub open spec fn required_valid(names: Seq<Seq<char>>, instance: Json) -> bool {
    instance is Object ==> forall|i: int|
        0 <= i < names.len() ==> obj_has(instance->Object_0, #[trigger] names[i])
}

/// The errors of `required`: one for each name that the object lacks, in the
/// order of the names; none for a value that is no object.
pub open spec fn required_errors(
    names: Seq<Seq<char>>,
    schema_path: Seq<Seg>,
    tracker: Option<(Seq<Seg>, Seq<Seg>)>,
    instance: Json,
    instance_path: Seq<Seg>,
) -> Seq<ErrorView> {
    if instance is Object {
        missing_errors(
            names,
            names.len(),
            schema_path,
            captured(tracker, schema_path),
            instance,
            instance_path,
        )
    } else {
        Seq::empty()
    }
}

/// There are no errors exactly when each of the first `n` names is present.
pub proof fn lemma_missing_none(
    names: Seq<Seq<char>>,
    n: nat,
    schema_path: Seq<Seg>,
    evaluation_path: Seq<Seg>,
    instance: Json,
    instance_path: Seq<Seg>,
)
    requires
        n <= names.len(),
    ensures
        missing_errors(names, n, schema_path, evaluation_path, instance, instance_path).len() == 0
            <==> forall|i: int| 0 <= i < n ==> obj_has(instance->Object_0, #[trigger] names[i]),
    decreases n,
{
    if n > 0 {
        lemma_missing_none(
            names,
            (n - 1) as nat,
            schema_path,
            evaluation_path,
            instance,
            instance_path,
        );
        if !obj_has(instance->Object_0, names[n - 1]) {
            assert(!(forall|i: int| 0 <= i < n ==> obj_has(instance->Object_0, #[trigger] names[i])));
        }
    }
}

/// The verdict and the errors of `required` agree.
pub proof fn lemma_required_consistent(
    names: Seq<Seq<char>>,
    schema_path: Seq<Seg>,
    tracker: Option<(Seq<Seg>, Seq<Seg>)>,
    instance: Json,
    instance_path: Seq<Seg>,
)
    ensures
        required_valid(names, instance) <==> required_errors(
            names,
            schema_path,
            tracker,
            instance,
            instance_path,
        ).len() == 0,
{
    if instance is Object {
        lemma_missing_none(
            names,
            names.len(),
            schema_path,
            captured(tracker, schema_path),
            instance,
            instance_path,
        );
    }
}

/// Adds to `errors` the error for `name`, if the object lacks a member of
/// that name.
fn note_missing(
    errors: &mut Vec<ValidationError>,
    item: &ObjectMap,
    name: &String,
    schema_path: &Location,
    evaluation_path: &Location,
    instance: &Value,
    instance_path: &Location,
)
    requires
        instance@ is Object,
        instance@->Object_0 == item@,
    ensures
        error_views(final(errors)@) == if obj_has(item@, name@) {
            error_views(old(errors)@)
        } else {
            error_views(old(errors)@).push(
                missing(schema_path@, evaluation_path@, instance@, instance_path@, name@),
            )
        },
{
    if !item.contains_key(name.as_str()) {
        let error = ValidationError::required(
            schema_path.clone(),
            evaluation_path.clone(),
            instance_path.clone(),
            instance,
            Value::String(name.clone()),
        );
        proof {
            lemma_error_views_push(errors@, error);
        }
        errors.push(error);
    }
}

/// The error for `name`, if the object lacks a member of that name.
fn check_present(
    item: &ObjectMap,
    name: &String,
    schema_path: &Location,
    tracker: Option<&RefTracker>,
    instance: &Value,
    instance_path: &Location,
) -> (r: Result<(), ValidationError>)
    requires
        instance@ is Object,
        instance@->Object_0 == item@,
    ensures
        r is Ok <==> obj_has(item@, name@),
        r is Err ==> r->Err_0@ == missing(
            schema_path@,
            captured(tracker_view(tracker), schema_path@),
            instance@,
            instance_path@,
            name@,
        ),
{
    if !item.contains_key(name.as_str()) {
        return Err(
            ValidationError::required(
                schema_path.clone(),
                capture_evaluation_path(tracker, schema_path),
                instance_path.clone(),
                instance,
                Value::String(name.clone()),
            ),
        );
    }
    Ok(())
}

/// The views of the names.
pub open spec fn names_of(required: Seq<String>) -> Seq<Seq<char>> {
    Seq::new(required.len(), |i: int| required[i]@)
}

/// Any number of required names.
#[derive(Debug)]
pub struct RequiredValidator {
    pub required: Vec<String>,
    pub location: Location,
}

impl RequiredValidator {
    pub open spec fn names(&self) -> Seq<Seq<char>> {
        names_of(self.required@)
    }

    /// The validator for the names that `items` lists. An item that is no
    /// string is refused.
    pub fn compile(items: &Vec<Value>, location: Location) -> (r: CompilationResult)
        ensures
            match r {
                Ok(KeywordValidator::Required(v)) => {
                    &&& strings_only(crate::json::views(items@))
                    &&& v.names() == string_items(crate::json::views(items@))
                    &&& v.location@ == location@
                },
                Ok(_) => false,
                Err(e) => {
                    &&& !strings_only(crate::json::views(items@))
                    &&& e@ == not_a_string(location@, first_non_string(crate::json::views(items@)))
                },
            },
    {
        let mut required: Vec<String> = Vec::with_capacity(items.len());
        let ghost all = crate::json::views(items@);
        proof {
            crate::json::lemma_views(items@);
            assert(all.take(0) =~= Seq::<Json>::empty());
        }
        let mut i: usize = 0;
        while i < items.len()
            invariant
                i <= items.len(),
                all == crate::json::views(items@),
                all.len() == items@.len(),
                forall|j: int| 0 <= j < items@.len() ==> (#[trigger] all[j]) == items@[j]@,
                forall|j: int| 0 <= j < i ==> (#[trigger] all[j]) is String,
                required@.len() == i,
                forall|j: int| 0 <= j < i ==> (#[trigger] required@[j])@ == all[j]->String_0,
            decreases items.len() - i,
        {
            match &items[i] {
                Value::String(string) => required.push(string.clone()),
                item => {
                    proof {
                        assert(!(all[i as int] is String));
                        lemma_first_non_string(all, i as int);
                    }
                    return Err(
                        ValidationError::single_type_error(
                            location.clone(),
                            location,
                            Location::new(),
                            item,
                            JsonType::String,
                        ),
                    );
                },
            }
            i += 1;
        }
        let v = RequiredValidator { required, location };
        proof {
            assert(v.names() =~= string_items(all));
        }
        Ok(KeywordValidator::Required(v))
    }

    /// No name is listed twice.
    pub open spec fn wf(&self) -> bool {
        distinct(self.names())
    }

    pub fn is_valid(&self, instance: &Value) -> (r: bool)
        requires
            self.wf(),
        ensures
            r == required_valid(self.names(), instance@),
    {
        if let Value::Object(item) = instance {
            if item.len() < self.required.len() {
                proof {
                    if required_valid(self.names(), instance@) {
                        lemma_enough_members(self.names(), item@);
                    }
                }
                return false;
            }
            let mut i: usize = 0;
            while i < self.required.len()
                invariant
                    i <= self.required.len(),
                    instance@ is Object,
                    instance@->Object_0 == item@,
                    forall|j: int| 0 <= j < i ==> obj_has(item@, #[trigger] self.names()[j]),
                decreases self.required.len() - i,
            {
                if !item.contains_key(self.required[i].as_str()) {
                    proof {
                        assert(!obj_has(item@, self.names()[i as int]));
                    }
                    return false;
                }
                i += 1;
            }
            true
        } else {
            true
        }
    }

    pub fn validate(
        &self,
        instance: &Value,
        location: &Location,
        tracker: Option<&RefTracker>,
    ) -> (r: Result<(), ValidationError>)
        ensures
            first_error(
                r,
                required_errors(
                    self.names(),
                    self.location@,
                    tracker_view(tracker),
                    instance@,
                    location@,
                ),
            ),
    {
        if let Value::Object(item) = instance {
            let ghost path = captured(tracker_view(tracker), self.location@);
            let mut i: usize = 0;
            while i < self.required.len()
                invariant
                    i <= self.required.len(),
                    instance@ is Object,
                    instance@->Object_0 == item@,
                    path == captured(tracker_view(tracker), self.location@),
                    missing_errors(
                        self.names(),
                        i as nat,
                        self.location@,
                        path,
                        instance@,
                        location@,
                    ).len() == 0,
                decreases self.required.len() - i,
            {
                let ghost before = missing_errors(
                    self.names(),
                    i as nat,
                    self.location@,
                    path,
                    instance@,
                    location@,
                );
                match check_present(item, &self.required[i], &self.location, tracker, instance, location) {
                    Err(error) => {
                        proof {
                            lemma_missing_first(
                                self.names(),
                                i as nat,
                                self.location@,
                                path,
                                instance@,
                                location@,
                            );
                        }
                        return Err(error);
                    },
                    Ok(()) => {},
                }
                proof {
                    assert(missing_errors(
                        self.names(),
                        (i + 1) as nat,
                        self.location@,
                        path,
                        instance@,
                        location@,
                    ) == before);
                }
                i += 1;
            }
        }
        Ok(())
    }

    pub fn iter_errors(
        &self,
        instance: &Value,
        location: &Location,
        tracker: Option<&RefTracker>,
    ) -> (r: Vec<ValidationError>)
        ensures
            error_views(r@) == required_errors(
                self.names(),
                self.location@,
                tracker_view(tracker),
                instance@,
                location@,
            ),
    {
        let mut errors: Vec<ValidationError> = Vec::new();
        if let Value::Object(item) = instance {
            let eval_path = capture_evaluation_path(tracker, &self.location);
            let mut i: usize = 0;
            while i < self.required.len()
                invariant
                    i <= self.required.len(),
                    instance@ is Object,
                    instance@->Object_0 == item@,
                    error_views(errors@) == missing_errors(
                        self.names(),
                        i as nat,
                        self.location@,
                        eval_path@,
                        instance@,
                        location@,
                    ),
                decreases self.required.len() - i,
            {
                note_missing(
                    &mut errors,
                    item,
                    &self.required[i],
                    &self.location,
                    &eval_path,
                    instance,
                    location,
                );
                i += 1;
            }
        }
        errors
    }
}

/// Where the first `n` names give no error and the next name is missing, the
/// first error of all is the one for that name.
pub proof fn lemma_missing_first(
    names: Seq<Seq<char>>,
    n: nat,
    schema_path: Seq<Seg>,
    evaluation_path: Seq<Seg>,
    instance: Json,
    instance_path: Seq<Seg>,
)
    requires
        n < names.len(),
        missing_errors(names, n, schema_path, evaluation_path, instance, instance_path).len() == 0,
        !obj_has(instance->Object_0, names[n as int]),
    ensures
        missing_errors(
            names,
            names.len(),
            schema_path,
            evaluation_path,
            instance,
            instance_path,
        ).len() > 0,
        missing_errors(names, names.len(), schema_path, evaluation_path, instance, instance_path)[0]
            == missing(schema_path, evaluation_path, instance, instance_path, names[n as int]),
{
    lemma_missing_prefix(
        names,
        n + 1,
        names.len(),
        schema_path,
        evaluation_path,
        instance,
        instance_path,
    );
    let upto = missing_errors(names, n + 1, schema_path, evaluation_path, instance, instance_path);
    let before = missing_errors(names, n, schema_path, evaluation_path, instance, instance_path);
    assert(upto == before.push(
        missing(schema_path, evaluation_path, instance, instance_path, names[n as int]),
    ));
    let all = missing_errors(
        names,
        names.len(),
        schema_path,
        evaluation_path,
        instance,
        instance_path,
    );
    assert(upto.len() == 1);
    assert(all.subrange(0, 1)[0] == all[0]);
}

/// The errors for the first `n` names open the errors for the first `m`.
pub proof fn lemma_missing_prefix(
    names: Seq<Seq<char>>,
    n: nat,
    m: nat,
    schema_path: Seq<Seg>,
    evaluation_path: Seq<Seg>,
    instance: Json,
    instance_path: Seq<Seg>,
)
    requires
        n <= m <= names.len(),
    ensures
        missing_errors(names, n, schema_path, evaluation_path, instance, instance_path).is_prefix_of(
            missing_errors(names, m, schema_path, evaluation_path, instance, instance_path),
        ),
    decreases m - n,
{
    if n < m {
        lemma_missing_prefix(
            names,
            n,
            (m - 1) as nat,
            schema_path,
            evaluation_path,
            instance,
            instance_path,
        );
    }
}

/// Whether every item is a string.
pub open spec fn strings_only(items: Seq<Json>) -> bool {
    forall|i: int| 0 <= i < items.len() ==> (#[trigger] items[i]) is String
}

/// The texts of the items.
pub open spec fn string_items(items: Seq<Json>) -> Seq<Seq<char>> {
    Seq::new(items.len(), |i: int| items[i]->String_0)
}

/// The first item that is no string.
pub open spec fn first_non_string(items: Seq<Json>) -> Json
    decreases items.len(),
{
    if items.len() == 0 {
        Json::Null
    } else if !(items[0] is String) {
        items[0]
    } else {
        first_non_string(items.drop_first())
    }
}

/// The item at `i` is the first that is no string, where all before it are.
pub proof fn lemma_first_non_string(items: Seq<Json>, i: int)
    requires
        0 <= i < items.len(),
        !(items[i] is String),
        forall|j: int| 0 <= j < i ==> (#[trigger] items[j]) is String,
    ensures
        first_non_string(items) == items[i],
        !strings_only(items),
    decreases i,
{
    if i > 0 {
        let rest = items.drop_first();
        assert(items[0] is String);
        assert forall|j: int| 0 <= j < i - 1 implies (#[trigger] rest[j]) is String by {
            assert(rest[j] == items[j + 1]);
        }
        assert(rest[i - 1] == items[i]);
        lemma_first_non_string(rest, i - 1);
    }
}

/// The error of a schema in which `found` stands where a string must.
pub open spec fn not_a_string(location: Seq<Seg>, found: Json) -> ErrorView {
    wrong_type(location, found, JsonType::String)
}

/// The error of a schema in which `found` stands where a value of the type
/// `expected` must.
pub open spec fn wrong_type(location: Seq<Seg>, found: Json, expected: JsonType) -> ErrorView {
    ErrorView {
        kind: KindView::Type { kind: crate::error::TypeKindView::Single(expected) },
        instance: found,
        instance_path: Seq::empty(),
        schema_path: location,
        evaluation_path: location,
    }
}

/// No name occurs twice.
pub open spec fn distinct(names: Seq<Seq<char>>) -> bool {
    forall|i: int, j: int| 0 <= i < j < names.len() ==> names[i] != names[j]
}

/// The error of a schema whose list holds an item twice.
pub open spec fn repeated(location: Seq<Seg>, found: Json) -> ErrorView {
    ErrorView {
        kind: KindView::UniqueItems,
        instance: found,
        instance_path: Seq::empty(),
        schema_path: location,
        evaluation_path: location,
    }
}

/// What the value of a `required` keyword stands for: the names it lists, or
/// the error that the schema has there. The value must be an array of
/// strings, no two of them equal.
pub open spec fn required_outcome(schema: Json, location: Seq<Seg>) -> Result<
    Seq<Seq<char>>,
    ErrorView,
> {
    match schema {
        Json::Array(items) => if !strings_only(items) {
            Err(not_a_string(location, first_non_string(items)))
        } else if !distinct(string_items(items)) {
            Err(repeated(location, schema))
        } else {
            Ok(string_items(items))
        },
        _ => Err(wrong_type(location, schema, JsonType::Array)),
    }
}

/// An object with a member for each of `n` distinct names has at least `n`
/// members.
pub proof fn lemma_enough_members(names: Seq<Seq<char>>, entries: Seq<(Seq<char>, Json)>)
    requires
        distinct(names),
        forall|i: int| 0 <= i < names.len() ==> obj_has(entries, #[trigger] names[i]),
    ensures
        entries.len() >= names.len(),
    decreases names.len(),
{
    if names.len() > 0 {
        let last = names.last();
        let rest = names.drop_last();
        assert(obj_has(entries, names[names.len() - 1]));
        crate::json::lemma_obj_has(entries, last);
        let at = choose|i: int| 0 <= i < entries.len() && (#[trigger] entries[i]).0 == last;
        let fewer = entries.remove(at);
        assert forall|i: int| 0 <= i < rest.len() implies obj_has(fewer, #[trigger] rest[i]) by {
            assert(rest[i] == names[i]);
            assert(obj_has(entries, names[i]));
            assert(names[i] != names[names.len() - 1]);
            crate::json::lemma_obj_has(entries, rest[i]);
            let k = choose|k: int| 0 <= k < entries.len() && (#[trigger] entries[k]).0 == rest[i];
            assert(k != at);
            if k < at {
                assert(fewer[k] == entries[k]);
            } else {
                assert(fewer[k - 1] == entries[k]);
            }
            crate::json::lemma_obj_has(fewer, rest[i]);
        }
        assert forall|i: int, j: int| 0 <= i < j < rest.len() implies rest[i] != rest[j] by {
            assert(rest[i] == names[i] && rest[j] == names[j]);
        }
        lemma_enough_members(rest, fewer);
    }
}

/// Whether no string of the list occurs twice.
fn all_distinct(names: &Vec<String>) -> (r: bool)
    ensures
        r == distinct(names_of(names@)),
{
    let mut j: usize = 0;
    while j < names.len()
        invariant
            j <= names.len(),
            forall|a: int, b: int| 0 <= a < b < j ==> names@[a]@ != names@[b]@,
        decreases names.len() - j,
    {
        let mut i: usize = 0;
        while i < j
            invariant
                i <= j < names.len(),
                forall|a: int| 0 <= a < i ==> names@[a]@ != names@[j as int]@,
            decreases j - i,
        {
            if crate::text::str_eq(names[i].as_str(), names[j].as_str()) {
                proof {
                    assert(names_of(names@)[i as int] == names_of(names@)[j as int]);
                }
                return false;
            }
            i += 1;
        }
        j += 1;
    }
    proof {
        assert forall|a: int, b: int| 0 <= a < b < names_of(names@).len() implies names_of(names@)[a]
            != names_of(names@)[b] by {
            assert(names@[a]@ != names@[b]@);
        }
    }
    true
}

/// One required name.
#[derive(Debug)]
pub struct SingleItemRequiredValidator {
    pub value: String,
    pub location: Location,
}

impl SingleItemRequiredValidator {
    pub open spec fn names(&self) -> Seq<Seq<char>> {
        seq![self.value@]
    }

    pub fn compile(value: &str, location: Location) -> (r: CompilationResult)
        ensures
            r matches Ok(KeywordValidator::SingleItemRequired(v)) && v.value@ == value@ && v.location@
                == location@,
    {
        Ok(
            KeywordValidator::SingleItemRequired(
                SingleItemRequiredValidator { value: String::from_str(value), location },
            ),
        )
    }

    pub fn is_valid(&self, instance: &Value) -> (r: bool)
        ensures
            r == required_valid(self.names(), instance@),
    {
        if let Value::Object(item) = instance {
            if item.is_empty() {
                proof {
                    assert(!obj_has(item@, self.names()[0]));
                }
                return false;
            }
            let found = item.contains_key(self.value.as_str());
            proof {
                assert(self.names()[0] == self.value@);
            }
            found
        } else {
            true
        }
    }

    pub fn validate(
        &self,
        instance: &Value,
        location: &Location,
        tracker: Option<&RefTracker>,
    ) -> (r: Result<(), ValidationError>)
        ensures
            first_error(
                r,
                required_errors(
                    self.names(),
                    self.location@,
                    tracker_view(tracker),
                    instance@,
                    location@,
                ),
            ),
    {
        proof {
            lemma_unroll(
                self.names(),
                1,
                self.location@,
                captured(tracker_view(tracker), self.location@),
                instance@,
                location@,
            );
            assert(self.names()[0] == self.value@);
        }
        if !self.is_valid(instance) {
            return Err(
                ValidationError::required(
                    self.location.clone(),
                    capture_evaluation_path(tracker, &self.location),
                    location.clone(),
                    instance,
                    Value::String(self.value.clone()),
                ),
            );
        }
        Ok(())
    }
}

/// One step of `missing_errors`, written out.
pub proof fn lemma_unroll(
    names: Seq<Seq<char>>,
    n: nat,
    schema_path: Seq<Seg>,
    evaluation_path: Seq<Seg>,
    instance: Json,
    instance_path: Seq<Seg>,
)
    requires
        0 < n <= names.len(),
    ensures
        missing_errors(names, n, schema_path, evaluation_path, instance, instance_path) == if obj_has(
            instance->Object_0,
            names[n - 1],
        ) {
            missing_errors(
                names,
                (n - 1) as nat,
                schema_path,
                evaluation_path,
                instance,
                instance_path,
            )
        } else {
            missing_errors(
                names,
                (n - 1) as nat,
                schema_path,
                evaluation_path,
                instance,
                instance_path,
            ).push(missing(schema_path, evaluation_path, instance, instance_path, names[n - 1]))
        },
        missing_errors(names, 0, schema_path, evaluation_path, instance, instance_path)
            == Seq::<ErrorView>::empty(),
{
}

/// Two required names, checked without a loop.
#[derive(Debug)]
pub struct Required2Validator {
    pub first: String,
    pub second: String,
    pub location: Location,
}

impl Required2Validator {
    pub open spec fn names(&self) -> Seq<Seq<char>> {
        seq![self.first@, self.second@]
    }

    /// The two names differ.
    pub open spec fn wf(&self) -> bool {
        self.first@ != self.second@
    }

    pub fn compile(first: String, second: String, location: Location) -> (r: CompilationResult)
        ensures
            r matches Ok(KeywordValidator::Required2(v)) && v.first@ == first@ && v.second@
                == second@ && v.location@ == location@,
    {
        Ok(KeywordValidator::Required2(Required2Validator { first, second, location }))
    }

    pub fn is_valid(&self, instance: &Value) -> (r: bool)
        requires
            self.wf(),
        ensures
            r == required_valid(self.names(), instance@),
    {
        if let Value::Object(item) = instance {
            let r = item.len() >= 2 && item.contains_key(self.first.as_str()) && item.contains_key(
                self.second.as_str(),
            );
            proof {
                let names = self.names();
                assert(names[0] == self.first@ && names[1] == self.second@);
                if obj_has(item@, self.first@) && obj_has(item@, self.second@) {
                    assert(distinct(names));
                    lemma_enough_members(names, item@);
                }
            }
            r
        } else {
            true
        }
    }

    pub fn validate(
        &self,
        instance: &Value,
        location: &Location,
        tracker: Option<&RefTracker>,
    ) -> (r: Result<(), ValidationError>)
        ensures
            first_error(
                r,
                required_errors(
                    self.names(),
                    self.location@,
                    tracker_view(tracker),
                    instance@,
                    location@,
                ),
            ),
    {
        if let Value::Object(item) = instance {
            let ghost path = captured(tracker_view(tracker), self.location@);
            proof {
                let names = self.names();
                assert(names[0] == self.first@ && names[1] == self.second@);
                lemma_unroll(names, 1, self.location@, path, instance@, location@);
                lemma_unroll(names, 2, self.location@, path, instance@, location@);
            }
            check_present(item, &self.first, &self.location, tracker, instance, location)?;
            check_present(item, &self.second, &self.location, tracker, instance, location)?;
        }
        Ok(())
    }

    pub fn iter_errors(
        &self,
        instance: &Value,
        location: &Location,
        tracker: Option<&RefTracker>,
    ) -> (r: Vec<ValidationError>)
        ensures
            error_views(r@) == required_errors(
                self.names(),
                self.location@,
                tracker_view(tracker),
                instance@,
                location@,
            ),
    {
        let mut errors: Vec<ValidationError> = Vec::new();
        if let Value::Object(item) = instance {
            let eval_path = capture_evaluation_path(tracker, &self.location);
            proof {
                let names = self.names();
                assert(names[0] == self.first@ && names[1] == self.second@);
                lemma_unroll(names, 1, self.location@, eval_path@, instance@, location@);
                lemma_unroll(names, 2, self.location@, eval_path@, instance@, location@);
            }
            note_missing(&mut errors, item, &self.first, &self.location, &eval_path, instance, location);
            note_missing(
                &mut errors,
                item,
                &self.second,
                &self.location,
                &eval_path,
                instance,
                location,
            );
        }
        errors
    }
}

/// Three required names, checked without a loop.
#[derive(Debug)]
pub struct Required3Validator {
    pub first: String,
    pub second: String,
    pub third: String,
    pub location: Location,
}

impl Required3Validator {
    pub open spec fn names(&self) -> Seq<Seq<char>> {
        seq![self.first@, self.second@, self.third@]
    }

    /// The three names differ from one another.
    pub open spec fn wf(&self) -> bool {
        self.first@ != self.second@ && self.first@ != self.third@ && self.second@ != self.third@
    }

    pub fn compile(first: String, second: String, third: String, location: Location) -> (r:
        CompilationResult)
        ensures
            r matches Ok(KeywordValidator::Required3(v)) && v.first@ == first@ && v.second@
                == second@ && v.third@ == third@ && v.location@ == location@,
    {
        Ok(KeywordValidator::Required3(Required3Validator { first, second, third, location }))
    }

    pub fn is_valid(&self, instance: &Value) -> (r: bool)
        requires
            self.wf(),
        ensures
            r == required_valid(self.names(), instance@),
    {
        if let Value::Object(item) = instance {
            let r = item.len() >= 3 && item.contains_key(self.first.as_str()) && item.contains_key(
                self.second.as_str(),
            ) && item.contains_key(self.third.as_str());
            proof {
                let names = self.names();
                assert(names[0] == self.first@ && names[1] == self.second@ && names[2]
                    == self.third@);
                if obj_has(item@, self.first@) && obj_has(item@, self.second@) && obj_has(
                    item@,
                    self.third@,
                ) {
                    assert(distinct(names));
                    lemma_enough_members(names, item@);
                }
            }
            r
        } else {
            true
        }
    }

    pub fn validate(
        &self,
        instance: &Value,
        location: &Location,
        tracker: Option<&RefTracker>,
    ) -> (r: Result<(), ValidationError>)
        ensures
            first_error(
                r,
                required_errors(
                    self.names(),
                    self.location@,
                    tracker_view(tracker),
                    instance@,
                    location@,
                ),
            ),
    {
        if let Value::Object(item) = instance {
            let ghost path = captured(tracker_view(tracker), self.location@);
            proof {
                let names = self.names();
                assert(names[0] == self.first@ && names[1] == self.second@ && names[2]
                    == self.third@);
                lemma_unroll(names, 1, self.location@, path, instance@, location@);
                lemma_unroll(names, 2, self.location@, path, instance@, location@);
                lemma_unroll(names, 3, self.location@, path, instance@, location@);
            }
            check_present(item, &self.first, &self.location, tracker, instance, location)?;
            check_present(item, &self.second, &self.location, tracker, instance, location)?;
            check_present(item, &self.third, &self.location, tracker, instance, location)?;
        }
        Ok(())
    }

    pub fn iter_errors(
        &self,
        instance: &Value,
        location: &Location,
        tracker: Option<&RefTracker>,
    ) -> (r: Vec<ValidationError>)
        ensures
            error_views(r@) == required_errors(
                self.names(),
                self.location@,
                tracker_view(tracker),
                instance@,
                location@,
            ),
    {
        let mut errors: Vec<ValidationError> = Vec::new();
        if let Value::Object(item) = instance {
            let eval_path = capture_evaluation_path(tracker, &self.location);
            proof {
                let names = self.names();
                assert(names[0] == self.first@ && names[1] == self.second@ && names[2]
                    == self.third@);
                lemma_unroll(names, 1, self.location@, eval_path@, instance@, location@);
                lemma_unroll(names, 2, self.location@, eval_path@, instance@, location@);
                lemma_unroll(names, 3, self.location@, eval_path@, instance@, location@);
            }
            note_missing(&mut errors, item, &self.first, &self.location, &eval_path, instance, location);
            note_missing(
                &mut errors,
                item,
                &self.second,
                &self.location,
                &eval_path,
                instance,
                location,
            );
            note_missing(&mut errors, item, &self.third, &self.location, &eval_path, instance, location);
        }
        errors
    }
}

/// The names that a compiled `required` keyword checks.
pub open spec fn required_names(validator: KeywordValidator) -> Seq<Seq<char>> {
    match validator {
        KeywordValidator::Required(v) => v.names(),
        KeywordValidator::SingleItemRequired(v) => v.names(),
        KeywordValidator::Required2(v) => v.names(),
        KeywordValidator::Required3(v) => v.names(),
        _ => Seq::empty(),
    }
}

/// The schema location that a compiled `required` keyword reports.
pub open spec fn required_location(validator: KeywordValidator) -> Seq<Seg> {
    match validator {
        KeywordValidator::Required(v) => v.location@,
        KeywordValidator::SingleItemRequired(v) => v.location@,
        KeywordValidator::Required2(v) => v.location@,
        KeywordValidator::Required3(v) => v.location@,
        _ => Seq::empty(),
    }
}

/// Whether `validator` is the form that is chosen for `count` names.
pub open spec fn required_form(validator: KeywordValidator, count: nat) -> bool {
    match validator {
        KeywordValidator::SingleItemRequired(_) => count == 1,
        KeywordValidator::Required2(_) => count == 2,
        KeywordValidator::Required3(_) => count == 3,
        KeywordValidator::Required(_) => count != 1 && count != 2 && count != 3,
        _ => false,
    }
}

/// Compiles the value of a `required` keyword that stands at `location`. One,
/// two and three names get a validator of their own; the names, and so the
/// verdicts and errors, are the same whichever form is chosen.
pub fn compile_with_path(schema: &Value, location: Location) -> (r: Option<CompilationResult>)
    ensures
        r is Some,
        match (r->0, required_outcome(schema@, location@)) {
            (Ok(validator), Ok(names)) => {
                &&& required_names(validator) == names
                &&& required_location(validator) == location@
                &&& required_form(validator, names.len())
                &&& crate::node::kw_wf(&validator)
            },
            (Err(e), Err(expected)) => e@ == expected,
            _ => false,
        },
{
    match schema {
        Value::Array(items) => {
            let ghost all = crate::json::views(items@);
            proof {
                crate::json::lemma_views(items@);
            }
            let compiled = RequiredValidator::compile(items, location.clone());
            match compiled {
                Err(e) => Some(Err(e)),
                Ok(KeywordValidator::Required(general)) => {
                    if !all_distinct(&general.required) {
                        return Some(
                            Err(
                                ValidationError::new(
                                    ValidationErrorKind::UniqueItems,
                                    location.clone(),
                                    location,
                                    Location::new(),
                                    schema,
                                ),
                            ),
                        );
                    }
                    proof {
                        assert(general.names().len() == items@.len());
                    }
                    if general.required.len() == 1 {
                        let r = SingleItemRequiredValidator::compile(
                            general.required[0].as_str(),
                            location,
                        );
                        proof {
                            assert(required_names(r->Ok_0) =~= general.names());
                        }
                        Some(r)
                    } else if general.required.len() == 2 {
                        let r = Required2Validator::compile(
                            general.required[0].clone(),
                            general.required[1].clone(),
                            location,
                        );
                        proof {
                            assert(required_names(r->Ok_0) =~= general.names());
                            assert(general.names()[0] != general.names()[1]);
                        }
                        Some(r)
                    } else if general.required.len() == 3 {
                        let r = Required3Validator::compile(
                            general.required[0].clone(),
                            general.required[1].clone(),
                            general.required[2].clone(),
                            location,
                        );
                        proof {
                            assert(required_names(r->Ok_0) =~= general.names());
                            assert(general.names()[0] != general.names()[1]);
                            assert(general.names()[0] != general.names()[2]);
                            assert(general.names()[1] != general.names()[2]);
                        }
                        Some(r)
                    } else {
                        Some(Ok(KeywordValidator::Required(general)))
                    }
                },
                Ok(_) => Some(compiled),
            }
        },
        _ => Some(
            Err(
                ValidationError::single_type_error(
                    location.clone(),
                    location,
                    Location::new(),
                    schema,
                    JsonType::Array,
                ),
            ),
        ),
    }
}

/// Compiles a `required` keyword of the schema `parent`. Another validator
/// may check the requirement together with its own keyword, and `required`
/// then gives no validator of its own:
/// - where the schema admits no other member than those of `properties` and
///   requires exactly one, the validator of `additionalProperties`;
/// - where the schema has few `properties` and requires two members, the
///   validator of `properties`.
pub fn compile(ctx: &crate::compiler::Context, parent: &ObjectMap, schema: &Value) -> (r: Option<
    CompilationResult,
>)
    requires
        crate::json::obj_get(parent@, "required"@) == Some(schema@),
    ensures
        r is None <==> crate::compiler::fused_required(parent@)
            || crate::keywords::properties::takes_required(parent@),
        r matches Some(result) ==> match (
            result,
            required_outcome(schema@, ctx@.location.push(Seg::Property("required"@))),
        ) {
            (Ok(validator), Ok(names)) => {
                &&& required_names(validator) == names
                &&& required_location(validator) == ctx@.location.push(Seg::Property("required"@))
                &&& required_form(validator, names.len())
                &&& crate::node::kw_wf(&validator)
            },
            (Err(e), Err(expected)) => e@ == expected,
            _ => false,
        },
{
    if crate::compiler::has_fused_required(parent) {
        return None;
    }
    if crate::keywords::properties::has_taken_required(parent) {
        return None;
    }
    let location = ctx.location().join("required");
    compile_with_path(schema, location)
}

} // verus!
