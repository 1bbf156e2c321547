//! The compiled form of a schema, and how it is applied to an instance.
use vstd::prelude::*;
use crate::error::{
    ErrorView, KindView, ValidationError, ValidationErrorKind, error_views, lemma_error_views,
    lemma_error_views_concat, lemma_error_views_push,
};
use crate::json::{Json, Value};
use crate::keywords::additional_properties::AdditionalPropertiesValidator;
use crate::keywords::boolean::FalseValidator;
use crate::keywords::combinators::{AllOfValidator, AnyOfValidator, OneOfValidator};
use crate::keywords::const_::ConstValidator;
use crate::keywords::enum_::EnumValidator;
use crate::keywords::conditional::IfValidator;
use crate::keywords::contains::ContainsValidator;
use crate::keywords::dependent::DependentSchemasValidator;
use crate::keywords::dependent_required::DependentRequiredValidator;
use crate::keywords::limits::LimitValidator;
use crate::keywords::not_::NotValidator;
use crate::keywords::property_names::PropertyNamesValidator;
use crate::keywords::unique_items::UniqueItemsValidator;
use crate::keywords::min_length::MinLengthValidator;
use crate::keywords::type_::TypeValidator;
use crate::keywords::unevaluated_properties::{
    PropertiesFilter, UnevaluatedPropertiesValidator, filter_wf,
};
use crate::keywords::items::{
    ItemsBooleanTypeValidator, ItemsIntegerTypeValidator, ItemsIntegerTypeValidatorDraft4,
    ItemsArrayValidator, ItemsNumberTypeValidator, ItemsObjectSkipPrefixValidator,
    ItemsObjectValidator, ItemsStringTypeValidator, items_type_errors, items_type_valid,
};
use crate::keywords::prefix_items::PrefixItemsValidator;
use crate::keywords::properties::{
    BigPropertiesValidator, SmallPropertiesValidator, SmallPropertiesWithRequired2Validator,
};
use crate::keywords::required::{
    Required2Validator, Required3Validator, RequiredValidator, SingleItemRequiredValidator,
    required_errors, required_valid,
};
use crate::paths::{Location, RefTracker, Seg, capture_evaluation_path, captured, tracker_view};
use crate::types::JsonType;

verus! {

/// One keyword of a schema, compiled.
#[derive(Debug)]
pub enum KeywordValidator {
    Required(RequiredValidator),
    SingleItemRequired(SingleItemRequiredValidator),
    Required2(Required2Validator),
    Required3(Required3Validator),
    ItemsNumberType(ItemsNumberTypeValidator),
    ItemsStringType(ItemsStringTypeValidator),
    ItemsIntegerType(ItemsIntegerTypeValidator),
    ItemsIntegerTypeDraft4(ItemsIntegerTypeValidatorDraft4),
    ItemsBooleanType(ItemsBooleanTypeValidator),
    ItemsArray(ItemsArrayValidator),
    ItemsObject(ItemsObjectValidator),
    ItemsObjectSkipPrefix(ItemsObjectSkipPrefixValidator),
    PrefixItems(PrefixItemsValidator),
    SmallProperties(SmallPropertiesValidator),
    BigProperties(BigPropertiesValidator),
    SmallPropertiesWithRequired2(SmallPropertiesWithRequired2Validator),
    Ref(RefValidator),
    FalseSchema(FalseValidator),
    Type(TypeValidator),
    MinLength(MinLengthValidator),
    Const(ConstValidator),
    Enum(EnumValidator),
    Limit(LimitValidator),
    UniqueItems(UniqueItemsValidator),
    Not(NotValidator),
    If(IfValidator),
    DependentRequired(DependentRequiredValidator),
    PropertyNames(PropertyNamesValidator),
    Contains(ContainsValidator),
    DependentSchemas(DependentSchemasValidator),
    AllOf(AllOfValidator),
    AnyOf(AnyOfValidator),
    OneOf(OneOfValidator),
    AdditionalProperties(AdditionalPropertiesValidator),
    UnevaluatedProperties(UnevaluatedPropertiesValidator),
}

/// The compiled form of one schema: its keywords in the order in which they
/// are applied, and where the schema lies in its document.
#[derive(Debug)]
pub struct SchemaNode {
    pub validators: Vec<KeywordValidator>,
    pub location: Location,
}

/// A schema that a reference leads to, compiled.
#[derive(Debug)]
pub struct Target {
    /// Where the schema lies in the document.
    pub pointer: Location,
    pub node: SchemaNode,
    /// Which members of an object the schema assesses; `None` where the
    /// schema is no object.
    pub filter: Option<PropertiesFilter>,
}

/// The schemas that the references of a document lead to.
#[derive(Debug)]
pub struct Registry {
    pub targets: Vec<Target>,
}

/// A `$ref`: the schema at `target` must hold too.
#[derive(Debug)]
pub struct RefValidator {
    /// Where the referenced schema lies in the document.
    pub target: Location,
    /// Where the keyword lies in the document.
    pub location: Location,
}

/// What compiling one keyword gives: its validator, or the error that the
/// schema has at this keyword.
pub type CompilationResult = Result<KeywordValidator, ValidationError>;

/// How many references may be followed, one inside the other, while one
/// instance is assessed.
pub const MAX_DEPTH: usize = 64;

/// Whether `result` is the outcome that stops at the first of `errors`: `Ok`
/// where there is none, and else the first one.
pub open spec fn first_error(result: Result<(), ValidationError>, errors: Seq<ErrorView>) -> bool {
    &&& result is Ok <==> errors.len() == 0
    &&& result is Err ==> result->Err_0@ == errors[0]
}

/// The first of the errors, if there is one.
pub fn take_first(errors: Vec<ValidationError>) -> (r: Result<(), ValidationError>)
    ensures
        first_error(r, error_views(errors@)),
{
    let mut errors = errors;
    proof {
        lemma_error_views(errors@);
    }
    if errors.len() == 0 {
        Ok(())
    } else {
        let first = errors.swap_remove(0);
        Err(first)
    }
}

impl Registry {
    /// Whether `index` is the first target that lies at `pointer`.
    pub open spec fn first_at(&self, pointer: Seq<Seg>, index: int) -> bool {
        &&& 0 <= index < self.targets@.len()
        &&& self.targets@[index].pointer@ == pointer
        &&& forall|j: int| 0 <= j < index ==> (#[trigger] self.targets@[j]).pointer@ != pointer
    }

    /// Whether some target lies at `pointer`.
    pub open spec fn has(&self, pointer: Seq<Seg>) -> bool {
        exists|index: int| self.first_at(pointer, index)
    }

    /// The position of the first target that lies at `pointer`.
    pub open spec fn position(&self, pointer: Seq<Seg>) -> int {
        choose|index: int| self.first_at(pointer, index)
    }

    /// Every target is well formed.
    pub open spec fn wf(&self) -> bool {
        forall|i: int|
            0 <= i < self.targets@.len() ==> node_wf(&(#[trigger] self.targets@[i]).node) && (
            self.targets@[i].filter matches Some(f) ==> filter_wf(&f))
    }

    /// Where a target lies, some target is the first that lies there.
    pub proof fn lemma_has(&self, pointer: Seq<Seg>, i: int)
        requires
            0 <= i < self.targets@.len(),
            self.targets@[i].pointer@ == pointer,
        ensures
            self.has(pointer),
        decreases i,
    {
        if forall|j: int| 0 <= j < i ==> (#[trigger] self.targets@[j]).pointer@ != pointer {
            assert(self.first_at(pointer, i));
        } else {
            let j = choose|j: int| 0 <= j < i && (#[trigger] self.targets@[j]).pointer@ == pointer;
            self.lemma_has(pointer, j);
        }
    }

    /// The first target that lies at `pointer`.
    pub fn find(&self, pointer: &Location) -> (r: Option<usize>)
        ensures
            r is Some <==> self.has(pointer@),
            r is Some ==> r->0 == self.position(pointer@) && r->0 < self.targets@.len(),
    {
        let mut i: usize = 0;
        while i < self.targets.len()
            invariant
                i <= self.targets.len(),
                forall|j: int| 0 <= j < i ==> (#[trigger] self.targets@[j]).pointer@ != pointer@,
            decreases self.targets.len() - i,
        {
            if same_location(&self.targets[i].pointer, pointer) {
                proof {
                    assert(self.first_at(pointer@, i as int));
                    let chosen = self.position(pointer@);
                    assert(self.first_at(pointer@, chosen));
                    if chosen < i {
                        assert(self.targets@[chosen].pointer@ != pointer@);
                    }
                    if i < chosen {
                        assert(self.targets@[i as int].pointer@ != pointer@);
                    }
                }
                return Some(i);
            }
            i += 1;
        }
        proof {
            assert forall|index: int| !self.first_at(pointer@, index) by {
                if 0 <= index < self.targets@.len() {
                    assert(self.targets@[index].pointer@ != pointer@);
                }
            }
        }
        None
    }
}

/// Whether two locations are the same.
pub fn same_location(a: &Location, b: &Location) -> (r: bool)
    ensures
        r == (a@ == b@),
{
    let r = a.len() == b.len() && a.starts_with(b);
    proof {
        if r {
            assert(b@ =~= a@.subrange(0, b@.len() as int));
            assert(a@.subrange(0, a@.len() as int) =~= a@);
        } else if a@ == b@ {
            assert(b@ =~= a@.subrange(0, b@.len() as int));
        }
    }
    r
}

/// The error of a reference that cannot be followed: no schema is known at
/// its target, or too many references were followed already.
pub open spec fn unresolved(
    schema_path: Seq<Seg>,
    tracker: Option<(Seq<Seg>, Seq<Seg>)>,
    instance: Json,
    instance_path: Seq<Seg>,
) -> ErrorView {
    ErrorView {
        kind: KindView::Referencing { message: "Unresolvable reference"@ },
        instance,
        instance_path,
        schema_path,
        evaluation_path: captured(tracker, schema_path),
    }
}

/// Whether compiling could have given the validator: what applying it relies
/// on holds of it and of every schema below it.
pub open spec fn kw_wf(kw: &KeywordValidator) -> bool
    decreases kw, 0nat,
{
    match kw {
        KeywordValidator::Required(v) => v.wf(),
        KeywordValidator::Enum(v) => v.wf(),
        KeywordValidator::Required2(v) => v.wf(),
        KeywordValidator::Required3(v) => v.wf(),
        KeywordValidator::ItemsArray(v) => v.wf(),
        KeywordValidator::ItemsObject(v) => v.wf(),
        KeywordValidator::Not(v) => v.wf(),
        KeywordValidator::If(v) => v.wf(),
        KeywordValidator::DependentRequired(v) => v.wf(),
        KeywordValidator::PropertyNames(v) => v.wf(),
        KeywordValidator::Contains(v) => v.wf(),
        KeywordValidator::DependentSchemas(v) => v.wf(),
        KeywordValidator::ItemsObjectSkipPrefix(v) => v.wf(),
        KeywordValidator::PrefixItems(v) => v.wf(),
        KeywordValidator::AdditionalProperties(v) => v.wf(),
        KeywordValidator::UnevaluatedProperties(v) => v.wf(),
        KeywordValidator::AllOf(v) => v.wf(),
        KeywordValidator::AnyOf(v) => v.wf(),
        KeywordValidator::OneOf(v) => v.wf(),
        KeywordValidator::SmallProperties(v) => v.wf(),
        KeywordValidator::BigProperties(v) => v.wf(),
        KeywordValidator::SmallPropertiesWithRequired2(v) => v.wf(),
        _ => true,
    }
}

/// Whether compiling could have given the node.
pub open spec fn node_wf(node: &SchemaNode) -> bool
    decreases node, 1nat,
{
    forall|i: int| 0 <= i < node.validators@.len() ==> kw_wf(#[trigger] &node.validators@[i])
}

/// Whether `instance` satisfies the keyword. At most `depth` references are
/// followed, one inside the other; a reference beyond that fails.
pub open spec fn kw_valid(reg: &Registry, kw: &KeywordValidator, instance: Json, depth: nat) -> bool
    decreases depth, kw, 0nat,
{
    match kw {
        KeywordValidator::Required(v) => required_valid(v.names(), instance),
        KeywordValidator::SingleItemRequired(v) => required_valid(v.names(), instance),
        KeywordValidator::Required2(v) => required_valid(v.names(), instance),
        KeywordValidator::Required3(v) => required_valid(v.names(), instance),
        KeywordValidator::ItemsNumberType(_) => items_type_valid(JsonType::Number, false, instance),
        KeywordValidator::ItemsStringType(_) => items_type_valid(JsonType::String, false, instance),
        KeywordValidator::ItemsIntegerType(_) => items_type_valid(JsonType::Integer, false, instance),
        KeywordValidator::ItemsIntegerTypeDraft4(_) => items_type_valid(
            JsonType::Integer,
            true,
            instance,
        ),
        KeywordValidator::ItemsBooleanType(_) => items_type_valid(JsonType::Boolean, false, instance),
        KeywordValidator::ItemsArray(v) => v.valid(reg, instance, depth),
        KeywordValidator::ItemsObject(v) => v.valid(reg, instance, depth),
        KeywordValidator::Not(v) => v.valid(reg, instance, depth),
        KeywordValidator::If(v) => v.valid(reg, instance, depth),
        KeywordValidator::DependentRequired(v) => v.valid(instance),
        KeywordValidator::PropertyNames(v) => v.valid(reg, instance, depth),
        KeywordValidator::Contains(v) => v.valid(reg, instance, depth),
        KeywordValidator::DependentSchemas(v) => v.valid(reg, instance, depth),
        KeywordValidator::ItemsObjectSkipPrefix(v) => v.valid(reg, instance, depth),
        KeywordValidator::PrefixItems(v) => v.valid(reg, instance, depth),
        KeywordValidator::SmallProperties(v) => v.valid(reg, instance, depth),
        KeywordValidator::BigProperties(v) => v.valid(reg, instance, depth),
        KeywordValidator::SmallPropertiesWithRequired2(v) => v.valid(reg, instance, depth),
        KeywordValidator::AdditionalProperties(v) => v.valid(reg, instance, depth),
        KeywordValidator::UnevaluatedProperties(v) => v.valid(reg, instance, depth),
        KeywordValidator::AllOf(v) => v.valid(reg, instance, depth),
        KeywordValidator::AnyOf(v) => v.valid(reg, instance, depth),
        KeywordValidator::OneOf(v) => v.valid(reg, instance, depth),
        KeywordValidator::FalseSchema(_) => false,
        KeywordValidator::Type(v) => v.valid(instance),
        KeywordValidator::MinLength(v) => v.valid(instance),
        KeywordValidator::Const(v) => v.valid(instance),
        KeywordValidator::Enum(v) => v.valid(instance),
        KeywordValidator::Limit(v) => v.valid(instance),
        KeywordValidator::UniqueItems(v) => v.valid(instance),
        KeywordValidator::Ref(v) => depth > 0 && reg.has(v.target@) && node_valid(
            reg,
            &reg.targets@[reg.position(v.target@)].node,
            instance,
            (depth - 1) as nat,
        ),
    }
}

/// Whether `instance` satisfies the schema: it satisfies each keyword.
pub open spec fn node_valid(reg: &Registry, node: &SchemaNode, instance: Json, depth: nat) -> bool
    decreases depth, node, 1nat,
{
    forall|i: int|
        0 <= i < node.validators@.len() ==> kw_valid(reg, #[trigger] &node.validators@[i], instance, depth)
}

/// The errors of the keyword on `instance`, which lies at `path` in its
/// document. `tracker` is the reference that was followed last.
pub open spec fn kw_errors(
    reg: &Registry,
    kw: &KeywordValidator,
    instance: Json,
    path: Seq<Seg>,
    tracker: Option<(Seq<Seg>, Seq<Seg>)>,
    depth: nat,
) -> Seq<ErrorView>
    decreases depth, kw, 0nat,
{
    match kw {
        KeywordValidator::Required(v) => required_errors(v.names(), v.location@, tracker, instance, path),
        KeywordValidator::SingleItemRequired(v) => required_errors(
            v.names(),
            v.location@,
            tracker,
            instance,
            path,
        ),
        KeywordValidator::Required2(v) => required_errors(v.names(), v.location@, tracker, instance, path),
        KeywordValidator::Required3(v) => required_errors(v.names(), v.location@, tracker, instance, path),
        KeywordValidator::ItemsNumberType(v) => items_type_errors(
            JsonType::Number,
            false,
            v.location@,
            tracker,
            instance,
            path,
        ),
        KeywordValidator::ItemsStringType(v) => items_type_errors(
            JsonType::String,
            false,
            v.location@,
            tracker,
            instance,
            path,
        ),
        KeywordValidator::ItemsIntegerType(v) => items_type_errors(
            JsonType::Integer,
            false,
            v.location@,
            tracker,
            instance,
            path,
        ),
        KeywordValidator::ItemsIntegerTypeDraft4(v) => items_type_errors(
            JsonType::Integer,
            true,
            v.location@,
            tracker,
            instance,
            path,
        ),
        KeywordValidator::ItemsBooleanType(v) => items_type_errors(
            JsonType::Boolean,
            false,
            v.location@,
            tracker,
            instance,
            path,
        ),
        KeywordValidator::ItemsArray(v) => v.errors(reg, instance, path, tracker, depth),
        KeywordValidator::ItemsObject(v) => v.errors(reg, instance, path, tracker, depth),
        KeywordValidator::Not(v) => v.errors(reg, instance, path, tracker, depth),
        KeywordValidator::If(v) => v.errors(reg, instance, path, tracker, depth),
        KeywordValidator::DependentRequired(v) => v.errors(instance, path, tracker),
        KeywordValidator::PropertyNames(v) => v.errors(reg, instance, path, tracker, depth),
        KeywordValidator::Contains(v) => v.errors(reg, instance, path, tracker, depth),
        KeywordValidator::DependentSchemas(v) => v.errors(reg, instance, path, tracker, depth),
        KeywordValidator::ItemsObjectSkipPrefix(v) => v.errors(reg, instance, path, tracker, depth),
        KeywordValidator::PrefixItems(v) => v.errors(reg, instance, path, tracker, depth),
        KeywordValidator::SmallProperties(v) => v.errors(reg, instance, path, tracker, depth),
        KeywordValidator::BigProperties(v) => v.errors(reg, instance, path, tracker, depth),
        KeywordValidator::SmallPropertiesWithRequired2(v) => v.errors(
            reg,
            instance,
            path,
            tracker,
            depth,
        ),
        KeywordValidator::AdditionalProperties(v) => v.errors(reg, instance, path, tracker, depth),
        KeywordValidator::UnevaluatedProperties(v) => v.errors(reg, instance, path, tracker, depth),
        KeywordValidator::AllOf(v) => v.errors(reg, instance, path, tracker, depth),
        KeywordValidator::AnyOf(v) => v.errors(reg, instance, path, tracker, depth),
        KeywordValidator::OneOf(v) => v.errors(reg, instance, path, tracker, depth),
        KeywordValidator::FalseSchema(v) => v.errors(instance, path, tracker),
        KeywordValidator::Type(v) => v.errors(instance, path, tracker),
        KeywordValidator::MinLength(v) => v.errors(instance, path, tracker),
        KeywordValidator::Const(v) => v.errors(instance, path, tracker),
        KeywordValidator::Enum(v) => v.errors(instance, path, tracker),
        KeywordValidator::Limit(v) => v.errors(instance, path, tracker),
        KeywordValidator::UniqueItems(v) => v.errors(instance, path, tracker),
        KeywordValidator::Ref(v) => if depth > 0 && reg.has(v.target@) {
            node_errors(
                reg,
                &reg.targets@[reg.position(v.target@)].node,
                instance,
                path,
                Some((v.target@, captured(tracker, v.location@))),
                (depth - 1) as nat,
            )
        } else {
            seq![unresolved(v.location@, tracker, instance, path)]
        },
    }
}

/// The errors of the first `n` keywords, in the order of the keywords.
pub open spec fn kws_errors(
    reg: &Registry,
    node: &SchemaNode,
    n: nat,
    instance: Json,
    path: Seq<Seg>,
    tracker: Option<(Seq<Seg>, Seq<Seg>)>,
    depth: nat,
) -> Seq<ErrorView>
    decreases depth, node, n + 1,
{
    if n == 0 || n > node.validators@.len() {
        Seq::empty()
    } else {
        kws_errors(reg, node, (n - 1) as nat, instance, path, tracker, depth) + kw_errors(
            reg,
            &node.validators@[n - 1],
            instance,
            path,
            tracker,
            depth,
        )
    }
}

/// The errors of the schema on `instance`: those of its keywords, in the
/// order of the keywords.
pub open spec fn node_errors(
    reg: &Registry,
    node: &SchemaNode,
    instance: Json,
    path: Seq<Seg>,
    tracker: Option<(Seq<Seg>, Seq<Seg>)>,
    depth: nat,
) -> Seq<ErrorView>
    decreases depth, node, node.validators@.len() + 2,
{
    kws_errors(reg, node, node.validators@.len(), instance, path, tracker, depth)
}

impl KeywordValidator {
    /// Whether `instance` satisfies the keyword.
    pub fn is_valid(&self, reg: &Registry, instance: &Value, depth: usize) -> (r: bool)
        requires
            reg.wf(),
            kw_wf(self),
        ensures
            r == kw_valid(reg, self, instance@, depth as nat),
        decreases depth, self, 0nat,
    {
        match self {
            KeywordValidator::Required(v) => v.is_valid(instance),
            KeywordValidator::SingleItemRequired(v) => v.is_valid(instance),
            KeywordValidator::Required2(v) => v.is_valid(instance),
            KeywordValidator::Required3(v) => v.is_valid(instance),
            KeywordValidator::ItemsNumberType(v) => v.is_valid(instance),
            KeywordValidator::ItemsStringType(v) => v.is_valid(instance),
            KeywordValidator::ItemsIntegerType(v) => v.is_valid(instance),
            KeywordValidator::ItemsIntegerTypeDraft4(v) => v.is_valid(instance),
            KeywordValidator::ItemsBooleanType(v) => v.is_valid(instance),
            KeywordValidator::ItemsArray(v) => v.is_valid(reg, instance, depth),
            KeywordValidator::ItemsObject(v) => v.is_valid(reg, instance, depth),
            KeywordValidator::Not(v) => v.is_valid(reg, instance, depth),
            KeywordValidator::If(v) => v.is_valid(reg, instance, depth),
            KeywordValidator::DependentRequired(v) => v.is_valid(reg, instance, depth),
            KeywordValidator::PropertyNames(v) => v.is_valid(reg, instance, depth),
            KeywordValidator::Contains(v) => v.is_valid(reg, instance, depth),
            KeywordValidator::DependentSchemas(v) => v.is_valid(reg, instance, depth),
            KeywordValidator::ItemsObjectSkipPrefix(v) => v.is_valid(reg, instance, depth),
            KeywordValidator::PrefixItems(v) => v.is_valid(reg, instance, depth),
            KeywordValidator::SmallProperties(v) => v.is_valid(reg, instance, depth),
            KeywordValidator::BigProperties(v) => v.is_valid(reg, instance, depth),
            KeywordValidator::SmallPropertiesWithRequired2(v) => v.is_valid(reg, instance, depth),
            KeywordValidator::AdditionalProperties(v) => v.is_valid(reg, instance, depth),
            KeywordValidator::UnevaluatedProperties(v) => v.is_valid(reg, instance, depth),
            KeywordValidator::AllOf(v) => v.is_valid(reg, instance, depth),
            KeywordValidator::AnyOf(v) => v.is_valid(reg, instance, depth),
            KeywordValidator::OneOf(v) => v.is_valid(reg, instance, depth),
            KeywordValidator::FalseSchema(_) => false,
            KeywordValidator::Type(v) => v.is_valid(instance),
            KeywordValidator::MinLength(v) => v.is_valid(instance),
            KeywordValidator::Const(v) => v.is_valid(instance),
            KeywordValidator::Enum(v) => v.is_valid(instance),
            KeywordValidator::Limit(v) => v.is_valid(instance),
            KeywordValidator::UniqueItems(v) => v.is_valid(instance),
            KeywordValidator::Ref(v) => {
                if depth == 0 {
                    return false;
                }
                match reg.find(&v.target) {
                    Some(index) => reg.targets[index].node.is_valid(reg, instance, depth - 1),
                    None => false,
                }
            },
        }
    }

    /// Every error of the keyword on `instance`.
    pub fn iter_errors(
        &self,
        reg: &Registry,
        instance: &Value,
        location: &Location,
        tracker: Option<&RefTracker>,
        depth: usize,
    ) -> (r: Vec<ValidationError>)
        requires
            reg.wf(),
            kw_wf(self),
        ensures
            error_views(r@) == kw_errors(
                reg,
                self,
                instance@,
                location@,
                tracker_view(tracker),
                depth as nat,
            ),
        decreases depth, self, 0nat,
    {
        match self {
            KeywordValidator::Required(v) => v.iter_errors(instance, location, tracker),
            KeywordValidator::SingleItemRequired(v) => {
                let mut errors: Vec<ValidationError> = Vec::new();
                match v.validate(instance, location, tracker) {
                    Ok(()) => {},
                    Err(error) => {
                        proof {
                            lemma_error_views_push(errors@, error);
                        }
                        errors.push(error);
                    },
                }
                proof {
                    let expected = required_errors(
                        v.names(),
                        v.location@,
                        tracker_view(tracker),
                        instance@,
                        location@,
                    );
                    crate::keywords::required::lemma_unroll(
                        v.names(),
                        1,
                        v.location@,
                        captured(tracker_view(tracker), v.location@),
                        instance@,
                        location@,
                    );
                    assert(error_views(errors@) =~= expected);
                }
                errors
            },
            KeywordValidator::Required2(v) => v.iter_errors(instance, location, tracker),
            KeywordValidator::Required3(v) => v.iter_errors(instance, location, tracker),
            KeywordValidator::ItemsNumberType(v) => v.iter_errors(instance, location, tracker),
            KeywordValidator::ItemsStringType(v) => v.iter_errors(instance, location, tracker),
            KeywordValidator::ItemsIntegerType(v) => v.iter_errors(instance, location, tracker),
            KeywordValidator::ItemsIntegerTypeDraft4(v) => v.iter_errors(instance, location, tracker),
            KeywordValidator::ItemsBooleanType(v) => v.iter_errors(instance, location, tracker),
            KeywordValidator::ItemsArray(v) => v.iter_errors(reg, instance, location, tracker, depth),
            KeywordValidator::ItemsObject(v) => v.iter_errors(reg, instance, location, tracker, depth),
            KeywordValidator::Not(v) => v.iter_errors(reg, instance, location, tracker, depth),
            KeywordValidator::If(v) => v.iter_errors(reg, instance, location, tracker, depth),
            KeywordValidator::DependentRequired(v) => v.iter_errors(
                reg,
                instance,
                location,
                tracker,
                depth,
            ),
            KeywordValidator::PropertyNames(v) => v.iter_errors(reg, instance, location, tracker, depth),
            KeywordValidator::Contains(v) => v.iter_errors(reg, instance, location, tracker, depth),
            KeywordValidator::DependentSchemas(v) => v.iter_errors(
                reg,
                instance,
                location,
                tracker,
                depth,
            ),
            KeywordValidator::ItemsObjectSkipPrefix(v) => v.iter_errors(
                reg,
                instance,
                location,
                tracker,
                depth,
            ),
            KeywordValidator::PrefixItems(v) => v.iter_errors(reg, instance, location, tracker, depth),
            KeywordValidator::SmallProperties(v) => v.iter_errors(reg, instance, location, tracker, depth),
            KeywordValidator::BigProperties(v) => v.iter_errors(reg, instance, location, tracker, depth),
            KeywordValidator::SmallPropertiesWithRequired2(v) => v.iter_errors(
                reg,
                instance,
                location,
                tracker,
                depth,
            ),
            KeywordValidator::AdditionalProperties(v) => v.iter_errors(
                reg,
                instance,
                location,
                tracker,
                depth,
            ),
            KeywordValidator::UnevaluatedProperties(v) => v.iter_errors(
                reg,
                instance,
                location,
                tracker,
                depth,
            ),
            KeywordValidator::AllOf(v) => v.iter_errors(reg, instance, location, tracker, depth),
            KeywordValidator::AnyOf(v) => v.iter_errors(reg, instance, location, tracker, depth),
            KeywordValidator::OneOf(v) => v.iter_errors(reg, instance, location, tracker, depth),
            KeywordValidator::FalseSchema(v) => v.iter_errors(instance, location, tracker),
            KeywordValidator::Type(v) => v.iter_errors(instance, location, tracker),
            KeywordValidator::MinLength(v) => v.iter_errors(instance, location, tracker),
            KeywordValidator::Const(v) => v.iter_errors(instance, location, tracker),
            KeywordValidator::Enum(v) => v.iter_errors(instance, location, tracker),
            KeywordValidator::Limit(v) => v.iter_errors(instance, location, tracker),
            KeywordValidator::UniqueItems(v) => v.iter_errors(instance, location, tracker),
            KeywordValidator::Ref(v) => {
                if depth > 0 {
                    if let Some(index) = reg.find(&v.target) {
                        let followed = RefTracker {
                            schema_location: v.target.clone(),
                            evaluation_path: capture_evaluation_path(tracker, &v.location),
                        };
                        return reg.targets[index].node.iter_errors(
                            reg,
                            instance,
                            location,
                            Some(&followed),
                            depth - 1,
                        );
                    }
                }
                let error = ValidationError::new(
                    ValidationErrorKind::Referencing {
                        message: String::from_str("Unresolvable reference"),
                    },
                    v.location.clone(),
                    capture_evaluation_path(tracker, &v.location),
                    location.clone(),
                    instance,
                );
                let mut errors: Vec<ValidationError> = Vec::new();
                proof {
                    lemma_error_views_push(errors@, error);
                }
                errors.push(error);
                proof {
                    assert(error_views(errors@) =~= seq![error@]);
                }
                errors
            },
        }
    }
}

impl SchemaNode {
    /// Whether `instance` satisfies the schema.
    pub fn is_valid(&self, reg: &Registry, instance: &Value, depth: usize) -> (r: bool)
        requires
            reg.wf(),
            node_wf(self),
        ensures
            r == node_valid(reg, self, instance@, depth as nat),
        decreases depth, self, 1nat,
    {
        let mut i: usize = 0;
        while i < self.validators.len()
            invariant
                i <= self.validators.len(),
                reg.wf(),
                node_wf(self),
                forall|j: int|
                    0 <= j < i ==> kw_valid(reg, #[trigger] &self.validators@[j], instance@, depth as nat),
            decreases self.validators.len() - i,
        {
            if !self.validators[i].is_valid(reg, instance, depth) {
                return false;
            }
            i += 1;
        }
        true
    }

    /// Every error of the schema on `instance`, which lies at `location`.
    pub fn iter_errors(
        &self,
        reg: &Registry,
        instance: &Value,
        location: &Location,
        tracker: Option<&RefTracker>,
        depth: usize,
    ) -> (r: Vec<ValidationError>)
        requires
            reg.wf(),
            node_wf(self),
        ensures
            error_views(r@) == node_errors(
                reg,
                self,
                instance@,
                location@,
                tracker_view(tracker),
                depth as nat,
            ),
        decreases depth, self, 1nat,
    {
        let mut errors: Vec<ValidationError> = Vec::new();
        let mut i: usize = 0;
        while i < self.validators.len()
            invariant
                i <= self.validators.len(),
                reg.wf(),
                node_wf(self),
                error_views(errors@) == kws_errors(
                    reg,
                    self,
                    i as nat,
                    instance@,
                    location@,
                    tracker_view(tracker),
                    depth as nat,
                ),
            decreases self.validators.len() - i,
        {
            let mut found = self.validators[i].iter_errors(reg, instance, location, tracker, depth);
            proof {
                lemma_error_views_concat(errors@, found@);
            }
            errors.append(&mut found);
            i += 1;
        }
        errors
    }

    /// The first error of the schema on `instance`, if there is one. The
    /// keywords are applied in their order, and the first that fails ends
    /// the work.
    pub fn validate(
        &self,
        reg: &Registry,
        instance: &Value,
        location: &Location,
        tracker: Option<&RefTracker>,
        depth: usize,
    ) -> (r: Result<(), ValidationError>)
        requires
            reg.wf(),
            node_wf(self),
        ensures
            first_error(
                r,
                node_errors(reg, self, instance@, location@, tracker_view(tracker), depth as nat),
            ),
    {
        let mut i: usize = 0;
        while i < self.validators.len()
            invariant
                i <= self.validators.len(),
                reg.wf(),
                node_wf(self),
                kws_errors(
                    reg,
                    self,
                    i as nat,
                    instance@,
                    location@,
                    tracker_view(tracker),
                    depth as nat,
                ).len() == 0,
            decreases self.validators.len() - i,
        {
            let ghost before = kws_errors(
                reg,
                self,
                i as nat,
                instance@,
                location@,
                tracker_view(tracker),
                depth as nat,
            );
            let ghost step = kw_errors(
                reg,
                &self.validators@[i as int],
                instance@,
                location@,
                tracker_view(tracker),
                depth as nat,
            );
            proof {
                assert(kws_errors(
                    reg,
                    self,
                    (i + 1) as nat,
                    instance@,
                    location@,
                    tracker_view(tracker),
                    depth as nat,
                ) == before + step);
                assert(before + step =~= step);
            }
            match self.validators[i].validate(reg, instance, location, tracker, depth) {
                Ok(()) => {},
                Err(error) => {
                    proof {
                        lemma_keywords_prefix(
                            reg,
                            self,
                            (i + 1) as nat,
                            self.validators@.len(),
                            instance@,
                            location@,
                            tracker_view(tracker),
                            depth as nat,
                        );
                        let all = node_errors(
                            reg,
                            self,
                            instance@,
                            location@,
                            tracker_view(tracker),
                            depth as nat,
                        );
                        assert(all.subrange(0, step.len() as int)[0] == all[0]);
                    }
                    return Err(error);
                },
            }
            i += 1;
        }
        Ok(())
    }
}

/// The errors of the first `n` keywords open the errors of the first `m`.
pub proof fn lemma_keywords_prefix(
    reg: &Registry,
    node: &SchemaNode,
    n: nat,
    m: nat,
    instance: Json,
    path: Seq<Seg>,
    tracker: Option<(Seq<Seg>, Seq<Seg>)>,
    depth: nat,
)
    requires
        n <= m <= node.validators@.len(),
    ensures
        kws_errors(reg, node, n, instance, path, tracker, depth).is_prefix_of(
            kws_errors(reg, node, m, instance, path, tracker, depth),
        ),
    decreases m - n,
{
    if n < m {
        lemma_keywords_prefix(reg, node, n, (m - 1) as nat, instance, path, tracker, depth);
        let shorter = kws_errors(reg, node, (m - 1) as nat, instance, path, tracker, depth);
        let longer = kws_errors(reg, node, m, instance, path, tracker, depth);
        assert(longer == shorter + kw_errors(
            reg,
            &node.validators@[m - 1],
            instance,
            path,
            tracker,
            depth,
        ));
        assert(shorter =~= longer.subrange(0, shorter.len() as int));
        let first = kws_errors(reg, node, n, instance, path, tracker, depth);
        assert(first =~= longer.subrange(0, first.len() as int)) by {
            assert(first =~= shorter.subrange(0, first.len() as int));
        }
    }
}

impl KeywordValidator {
    /// The first error of the keyword on `instance`, if there is one.
    pub fn validate(
        &self,
        reg: &Registry,
        instance: &Value,
        location: &Location,
        tracker: Option<&RefTracker>,
        depth: usize,
    ) -> (r: Result<(), ValidationError>)
        requires
            reg.wf(),
            kw_wf(self),
        ensures
            first_error(
                r,
                kw_errors(reg, self, instance@, location@, tracker_view(tracker), depth as nat),
            ),
    {
        match self {
            KeywordValidator::Required(v) => v.validate(instance, location, tracker),
            KeywordValidator::SingleItemRequired(v) => v.validate(instance, location, tracker),
            KeywordValidator::Required2(v) => v.validate(instance, location, tracker),
            KeywordValidator::Required3(v) => v.validate(instance, location, tracker),
            KeywordValidator::ItemsNumberType(v) => v.validate(instance, location, tracker),
            KeywordValidator::ItemsStringType(v) => v.validate(instance, location, tracker),
            KeywordValidator::ItemsIntegerType(v) => v.validate(instance, location, tracker),
            KeywordValidator::ItemsIntegerTypeDraft4(v) => v.validate(instance, location, tracker),
            KeywordValidator::ItemsBooleanType(v) => v.validate(instance, location, tracker),
            KeywordValidator::ItemsArray(v) => v.validate(reg, instance, location, tracker, depth),
            KeywordValidator::ItemsObject(v) => v.validate(reg, instance, location, tracker, depth),
            KeywordValidator::ItemsObjectSkipPrefix(v) => v.validate(reg, instance, location, tracker, depth),
            KeywordValidator::PrefixItems(v) => v.validate(reg, instance, location, tracker, depth),
            KeywordValidator::SmallProperties(v) => v.validate(reg, instance, location, tracker, depth),
            KeywordValidator::BigProperties(v) => v.validate(reg, instance, location, tracker, depth),
            KeywordValidator::SmallPropertiesWithRequired2(v) => v.validate(
                reg,
                instance,
                location,
                tracker,
                depth,
            ),
            KeywordValidator::UnevaluatedProperties(v) => v.validate(
                reg,
                instance,
                location,
                tracker,
                depth,
            ),
            _ => take_first(self.iter_errors(reg, instance, location, tracker, depth)),
        }
    }

    /// The name of the keyword that the validator stands for. The schema
    /// `false` stands under no keyword.
    pub open spec fn keyword_name(&self) -> Seq<char> {
        match self {
            KeywordValidator::Required(_) => "required"@,
            KeywordValidator::SingleItemRequired(_) => "required"@,
            KeywordValidator::Required2(_) => "required"@,
            KeywordValidator::Required3(_) => "required"@,
            KeywordValidator::ItemsNumberType(_) => "items"@,
            KeywordValidator::ItemsStringType(_) => "items"@,
            KeywordValidator::ItemsIntegerType(_) => "items"@,
            KeywordValidator::ItemsIntegerTypeDraft4(_) => "items"@,
            KeywordValidator::ItemsBooleanType(_) => "items"@,
            KeywordValidator::ItemsArray(_) => "items"@,
            KeywordValidator::ItemsObject(_) => "items"@,
            KeywordValidator::ItemsObjectSkipPrefix(_) => "items"@,
            KeywordValidator::PrefixItems(_) => "prefixItems"@,
            KeywordValidator::SmallProperties(_) => "properties"@,
            KeywordValidator::BigProperties(_) => "properties"@,
            KeywordValidator::SmallPropertiesWithRequired2(_) => "properties"@,
            KeywordValidator::Ref(_) => "$ref"@,
            KeywordValidator::FalseSchema(_) => ""@,
            KeywordValidator::Type(_) => "type"@,
            KeywordValidator::MinLength(_) => "minLength"@,
            KeywordValidator::Const(_) => "const"@,
            KeywordValidator::Enum(_) => "enum"@,
            KeywordValidator::Not(_) => "not"@,
            KeywordValidator::If(_) => "if"@,
            KeywordValidator::DependentRequired(_) => "dependentRequired"@,
            KeywordValidator::PropertyNames(_) => "propertyNames"@,
            KeywordValidator::Contains(_) => "contains"@,
            KeywordValidator::DependentSchemas(_) => "dependentSchemas"@,
            KeywordValidator::Limit(v) => v.rule.name(),
            KeywordValidator::UniqueItems(_) => "uniqueItems"@,
            KeywordValidator::AllOf(_) => "allOf"@,
            KeywordValidator::AnyOf(_) => "anyOf"@,
            KeywordValidator::OneOf(_) => "oneOf"@,
            KeywordValidator::AdditionalProperties(_) => "additionalProperties"@,
            KeywordValidator::UnevaluatedProperties(_) => "unevaluatedProperties"@,
        }
    }

    /// Where the keyword lies in a schema that lies at `base`.
    pub open spec fn place(&self, base: Seq<Seg>) -> Seq<Seg> {
        if self.keyword_name() == ""@ {
            base
        } else {
            base.push(Seg::Property(self.keyword_name()))
        }
    }

    /// Whether the keyword has errors of its own, which its result holds in
    /// words: its errors are not those of the schemas that it applies.
    pub open spec fn speaks(&self) -> bool {
        match self {
            KeywordValidator::Required(_) => true,
            KeywordValidator::SingleItemRequired(_) => true,
            KeywordValidator::Required2(_) => true,
            KeywordValidator::Required3(_) => true,
            KeywordValidator::FalseSchema(_) => true,
            KeywordValidator::Type(_) => true,
            KeywordValidator::MinLength(_) => true,
            KeywordValidator::Const(_) => true,
            KeywordValidator::Enum(_) => true,
            KeywordValidator::Not(_) => true,
            KeywordValidator::If(_) => true,
            KeywordValidator::DependentRequired(_) => true,
            KeywordValidator::PropertyNames(_) => true,
            KeywordValidator::Contains(_) => true,
            KeywordValidator::DependentSchemas(_) => true,
            KeywordValidator::Limit(_) => true,
            KeywordValidator::UniqueItems(_) => true,
            KeywordValidator::AnyOf(_) => true,
            KeywordValidator::OneOf(_) => true,
            KeywordValidator::AdditionalProperties(_) => true,
            KeywordValidator::UnevaluatedProperties(_) => true,
            _ => false,
        }
    }

    /// The name of the keyword that the validator stands for.
    pub fn keyword(&self) -> (r: &'static str)
        ensures
            r@ == self.keyword_name(),
    {
        match self {
            KeywordValidator::Required(_) => "required",
            KeywordValidator::SingleItemRequired(_) => "required",
            KeywordValidator::Required2(_) => "required",
            KeywordValidator::Required3(_) => "required",
            KeywordValidator::ItemsNumberType(_) => "items",
            KeywordValidator::ItemsStringType(_) => "items",
            KeywordValidator::ItemsIntegerType(_) => "items",
            KeywordValidator::ItemsIntegerTypeDraft4(_) => "items",
            KeywordValidator::ItemsBooleanType(_) => "items",
            KeywordValidator::ItemsArray(_) => "items",
            KeywordValidator::ItemsObject(_) => "items",
            KeywordValidator::ItemsObjectSkipPrefix(_) => "items",
            KeywordValidator::PrefixItems(_) => "prefixItems",
            KeywordValidator::SmallProperties(_) => "properties",
            KeywordValidator::BigProperties(_) => "properties",
            KeywordValidator::SmallPropertiesWithRequired2(_) => "properties",
            KeywordValidator::Ref(_) => "$ref",
            KeywordValidator::FalseSchema(_) => "",
            KeywordValidator::Type(_) => "type",
            KeywordValidator::MinLength(_) => "minLength",
            KeywordValidator::Const(_) => "const",
            KeywordValidator::Enum(_) => "enum",
            KeywordValidator::Not(_) => "not",
            KeywordValidator::If(_) => "if",
            KeywordValidator::DependentRequired(_) => "dependentRequired",
            KeywordValidator::PropertyNames(_) => "propertyNames",
            KeywordValidator::Contains(_) => "contains",
            KeywordValidator::DependentSchemas(_) => "dependentSchemas",
            KeywordValidator::Limit(v) => v.rule.as_str(),
            KeywordValidator::UniqueItems(_) => "uniqueItems",
            KeywordValidator::AllOf(_) => "allOf",
            KeywordValidator::AnyOf(_) => "anyOf",
            KeywordValidator::OneOf(_) => "oneOf",
            KeywordValidator::AdditionalProperties(_) => "additionalProperties",
            KeywordValidator::UnevaluatedProperties(_) => "unevaluatedProperties",
        }
    }

    /// The structured result of the keyword on `instance`. A keyword that
    /// applies schemas to the items or members of the instance holds their
    /// results; any other keyword holds its errors in words.
    pub fn evaluate(
        &self,
        reg: &Registry,
        instance: &Value,
        location: &Location,
        tracker: Option<&RefTracker>,
        depth: usize,
    ) -> (r: crate::evaluation::EvaluationResult)
        requires
            reg.wf(),
            kw_wf(self),
        ensures
            r.valid == kw_valid(reg, self, instance@, depth as nat),
            crate::outcome::kw_outcome(
                reg,
                self,
                instance@,
                location@,
                tracker_view(tracker),
                depth as nat,
                &r,
            ),
        decreases depth, self, 0nat,
    {
        match self {
            KeywordValidator::ItemsNumberType(v) => v.evaluate(instance),
            KeywordValidator::ItemsStringType(v) => v.evaluate(instance),
            KeywordValidator::ItemsIntegerType(v) => v.evaluate(instance),
            KeywordValidator::ItemsIntegerTypeDraft4(v) => v.evaluate(instance),
            KeywordValidator::ItemsBooleanType(v) => v.evaluate(instance),
            KeywordValidator::ItemsArray(v) => v.evaluate(reg, instance, location, tracker, depth),
            KeywordValidator::ItemsObject(v) => v.evaluate(reg, instance, location, tracker, depth),
            KeywordValidator::ItemsObjectSkipPrefix(v) => v.evaluate(reg, instance, location, tracker, depth),
            KeywordValidator::PrefixItems(v) => v.evaluate(reg, instance, location, tracker, depth),
            KeywordValidator::SmallProperties(v) => v.evaluate(reg, instance, location, tracker, depth),
            KeywordValidator::BigProperties(v) => v.evaluate(reg, instance, location, tracker, depth),
            KeywordValidator::SmallPropertiesWithRequired2(v) => v.evaluate(
                reg,
                instance,
                location,
                tracker,
                depth,
            ),
            KeywordValidator::AllOf(v) => v.evaluate(reg, instance, location, tracker, depth),
            KeywordValidator::AnyOf(v) => v.evaluate(reg, instance, location, tracker, depth),
            KeywordValidator::OneOf(v) => v.evaluate(reg, instance, location, tracker, depth),
            KeywordValidator::Ref(v) => {
                if depth > 0 {
                    if let Some(index) = reg.find(&v.target) {
                        let followed = RefTracker {
                            schema_location: v.target.clone(),
                            evaluation_path: capture_evaluation_path(tracker, &v.location),
                        };
                        let child = reg.targets[index].node.evaluate_instance(
                            reg,
                            instance,
                            location,
                            Some(&followed),
                            depth - 1,
                        );
                        let mut children: Vec<crate::evaluation::EvaluationNode> = Vec::new();
                        children.push(child);
                        let r = crate::evaluation::EvaluationResult::from_children(children);
                        proof {
                            assert(r.children@[0].valid == r.valid);
                            assert(crate::evaluation::told(r.errors@) =~= Seq::<
                                (Seq<char>, Seq<char>),
                            >::empty());
                        }
                        return r;
                    }
                }
                let errors = self.iter_errors(reg, instance, location, tracker, depth);
                proof {
                    lemma_error_views(errors@);
                }
                crate::evaluation::EvaluationResult::invalid_empty(crate::evaluation::describe(&errors))
            },
            _ => {
                let errors = self.iter_errors(reg, instance, location, tracker, depth);
                proof {
                    crate::laws::lemma_keyword_consistent(
                        reg,
                        self,
                        instance@,
                        location@,
                        tracker_view(tracker),
                        depth as nat,
                    );
                    lemma_error_views(errors@);
                }
                if errors.len() == 0 {
                    proof {
                        assert(crate::evaluation::described(error_views(errors@))
                            =~= Seq::<(Seq<char>, Seq<char>)>::empty());
                    }
                    let r = crate::evaluation::EvaluationResult::valid_empty();
                    proof {
                        assert(crate::evaluation::told(r.errors@) =~= Seq::<
                            (Seq<char>, Seq<char>),
                        >::empty());
                    }
                    r
                } else {
                    crate::evaluation::EvaluationResult::invalid_empty(crate::evaluation::describe(&errors))
                }
            },
        }
    }
}

impl SchemaNode {
    /// The structured result of the schema on `instance`: it holds where
    /// each of its keywords holds, and the results of the keywords stand
    /// below it in their order.
    pub fn evaluate_instance(
        &self,
        reg: &Registry,
        instance: &Value,
        location: &Location,
        tracker: Option<&RefTracker>,
        depth: usize,
    ) -> (r: crate::evaluation::EvaluationNode)
        requires
            reg.wf(),
            node_wf(self),
        ensures
            crate::outcome::node_result(
                reg,
                self,
                instance@,
                location@,
                tracker_view(tracker),
                depth as nat,
                &r,
            ),
        decreases depth, self, 1nat,
    {
        let mut children: Vec<crate::evaluation::EvaluationNode> = Vec::new();
        let mut i: usize = 0;
        while i < self.validators.len()
            invariant
                i <= self.validators.len(),
                reg.wf(),
                node_wf(self),
                children@.len() == i,
                forall|j: int|
                    0 <= j < i ==> crate::outcome::child_of(
                        reg,
                        &self.validators@[j],
                        self.location@,
                        instance@,
                        location@,
                        tracker_view(tracker),
                        depth as nat,
                        #[trigger] &children@[j],
                    ),
            decreases self.validators.len() - i,
        {
            let validator = &self.validators[i];
            let result = validator.evaluate(reg, instance, location, tracker, depth);
            let keyword = validator.keyword();
            let schema_location = if crate::text::str_eq(keyword, "") {
                self.location.clone()
            } else {
                self.location.join(keyword)
            };
            let evaluation_path = capture_evaluation_path(tracker, &schema_location);
            let ghost before = children@;
            children.push(result.into_node(evaluation_path, schema_location, location.clone()));
            proof {
                assert forall|j: int| 0 <= j < i + 1 implies crate::outcome::child_of(
                    reg,
                    &self.validators@[j],
                    self.location@,
                    instance@,
                    location@,
                    tracker_view(tracker),
                    depth as nat,
                    #[trigger] &children@[j],
                ) by {
                    if j < i {
                        assert(children@[j] == before[j]);
                    }
                }
            }
            i += 1;
        }
        proof {
            assert(crate::evaluation::all_hold(children@) <==> node_valid(
                reg,
                self,
                instance@,
                depth as nat,
            )) by {
                if crate::evaluation::all_hold(children@) {
                    assert forall|j: int| 0 <= j < self.validators@.len() implies kw_valid(
                        reg,
                        #[trigger] &self.validators@[j],
                        instance@,
                        depth as nat,
                    ) by {
                        assert(children@[j].valid);
                    }
                } else {
                    let j = choose|j: int| 0 <= j < children@.len() && !(#[trigger] children@[j]).valid;
                    assert(!kw_valid(reg, &self.validators@[j], instance@, depth as nat));
                }
            }
        }
        let result = crate::evaluation::EvaluationResult::from_children(children);
        result.into_node(
            capture_evaluation_path(tracker, &self.location),
            self.location.clone(),
            location.clone(),
        )
    }
}

} // verus!
