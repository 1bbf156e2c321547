//! The structured result of applying a schema: for every schema and keyword
//! that was applied, whether it held, where it lies, and what it noted.
use vstd::prelude::*;
use crate::arrange::{Entry, EntryView, arrange, arranged, entry_views, law_arranged};
use crate::error::{
    ErrorView, ValidationError, error_views, keyword_of, lemma_error_views, message_text,
};
use crate::json::{
    Json, ObjectMap, Value, lemma_member_views, lemma_views, member_views, obj_get, stored, views,
};
use crate::paths::{Location, Seg, pointer_text};
use crate::render::json_text;
use crate::text::str_chars;

verus! {

/// One error, in words.
#[derive(Debug)]
pub struct ErrorDescription {
    /// The keyword that failed.
    pub keyword: String,
    pub message: String,
}

/// What one keyword gives when it is applied: whether it held, what it
/// notes of the value, its errors, and the results of the schemas that it
/// applied in turn.
#[derive(Debug)]
pub struct EvaluationResult {
    pub valid: bool,
    pub annotations: Option<Value>,
    pub errors: Vec<ErrorDescription>,
    pub children: Vec<EvaluationNode>,
}

/// The result of one schema or keyword on one value.
#[derive(Debug)]
pub struct EvaluationNode {
    pub valid: bool,
    /// The keywords passed on the way, references included.
    pub evaluation_path: Location,
    /// Where the schema or keyword lies in the schema document.
    pub schema_location: Location,
    /// Where the value lies in the instance document.
    pub instance_location: Location,
    /// What the keyword notes of the value, where it held.
    pub annotations: Option<Value>,
    /// What the keyword would have noted, had it held.
    pub dropped_annotations: Option<Value>,
    pub errors: Vec<ErrorDescription>,
    pub children: Vec<EvaluationNode>,
}

/// Whether every one of the results holds.
pub open spec fn all_hold(children: Seq<EvaluationNode>) -> bool {
    forall|i: int| 0 <= i < children.len() ==> (#[trigger] children[i]).valid
}

impl ErrorDescription {
    pub fn new(keyword: &str, message: String) -> (r: ErrorDescription)
        ensures
            r.keyword@ == keyword@,
            r.message@ == message@,
    {
        ErrorDescription { keyword: String::from_str(keyword), message }
    }

    /// The description of a validation error: the keyword of its kind, and
    /// its message.
    pub fn from_error(error: &ValidationError) -> (r: ErrorDescription)
        ensures
            r.keyword@ == keyword_of(error@.kind),
            r.message@ == message_text(error@.kind, json_text(error@.instance)),
    {
        ErrorDescription { keyword: error.kind.keyword(), message: error.message() }
    }
}

impl EvaluationResult {
    /// The result of a keyword that held and applied nothing.
    pub fn valid_empty() -> (r: EvaluationResult)
        ensures
            r.valid,
            r.annotations is None,
            r.errors@.len() == 0,
            r.children@.len() == 0,
    {
        EvaluationResult { valid: true, annotations: None, errors: Vec::new(), children: Vec::new() }
    }

    /// The result of a keyword that failed with the given errors.
    pub fn invalid_empty(errors: Vec<ErrorDescription>) -> (r: EvaluationResult)
        ensures
            !r.valid,
            r.annotations is None,
            r.errors == errors,
            r.children@.len() == 0,
    {
        EvaluationResult { valid: false, annotations: None, errors, children: Vec::new() }
    }

    /// The result of a keyword that applied schemas: it holds exactly when
    /// each of their results holds.
    pub fn from_children(children: Vec<EvaluationNode>) -> (r: EvaluationResult)
        ensures
            r.valid == all_hold(children@),
            r.annotations is None,
            r.errors@.len() == 0,
            r.children == children,
    {
        let mut valid = true;
        let mut i: usize = 0;
        while i < children.len()
            invariant
                i <= children.len(),
                valid == all_hold(children@.take(i as int)),
            decreases children.len() - i,
        {
            proof {
                let next = children@.take(i as int + 1);
                let done = children@.take(i as int);
                assert(next.drop_last() =~= done);
                if all_hold(next) {
                    assert forall|j: int| 0 <= j < done.len() implies (#[trigger] done[j]).valid by {
                        assert(next[j] == done[j]);
                    }
                    assert(next[i as int].valid);
                }
                if all_hold(done) && children@[i as int].valid {
                    assert forall|j: int| 0 <= j < next.len() implies (#[trigger] next[j]).valid by {
                        if j < i {
                            assert(next[j] == done[j]);
                        }
                    }
                }
            }
            if !children[i].valid {
                valid = false;
            }
            i += 1;
        }
        proof {
            assert(children@.take(children@.len() as int) =~= children@);
        }
        EvaluationResult { valid, annotations: None, errors: Vec::new(), children }
    }

    /// Notes something of the value.
    pub fn annotate(&mut self, annotation: Value)
        ensures
            final(self).annotations == Some(annotation),
            final(self).valid == old(self).valid,
            final(self).errors == old(self).errors,
            final(self).children == old(self).children,
    {
        self.annotations = Some(annotation);
    }

    /// The result as the node of a keyword that lies at `schema_location`.
    /// What a keyword notes counts where it held, and is set aside where it
    /// failed.
    pub fn into_node(
        self,
        evaluation_path: Location,
        schema_location: Location,
        instance_location: Location,
    ) -> (r: EvaluationNode)
        ensures
            r.valid == self.valid,
            r.evaluation_path == evaluation_path,
            r.schema_location == schema_location,
            r.instance_location == instance_location,
            r.errors == self.errors,
            r.children == self.children,
            r.annotations == if self.valid {
                self.annotations
            } else {
                None
            },
            r.dropped_annotations == if self.valid {
                None
            } else {
                self.annotations
            },
    {
        let valid = self.valid;
        let (annotations, dropped_annotations) = if valid {
            (self.annotations, None)
        } else {
            (None, self.annotations)
        };
        EvaluationNode {
            valid,
            evaluation_path,
            schema_location,
            instance_location,
            annotations,
            dropped_annotations,
            errors: self.errors,
            children: self.children,
        }
    }
}

/// What a list of descriptions says: for each, its keyword and its
/// message.
pub open spec fn told(errors: Seq<ErrorDescription>) -> Seq<(Seq<char>, Seq<char>)> {
    Seq::new(errors.len(), |i: int| (errors[i].keyword@, errors[i].message@))
}

/// The descriptions of a list of errors: for each, the keyword of its kind
/// and its message.
pub open spec fn described(errors: Seq<ErrorView>) -> Seq<(Seq<char>, Seq<char>)> {
    Seq::new(
        errors.len(),
        |i: int|
            (keyword_of(errors[i].kind), message_text(errors[i].kind, json_text(errors[i].instance))),
    )
}

/// The descriptions of a list of validation errors.
pub fn describe(errors: &Vec<ValidationError>) -> (r: Vec<ErrorDescription>)
    ensures
        told(r@) == described(error_views(errors@)),
        r@.len() == errors@.len(),
        forall|i: int|
            0 <= i < r@.len() ==> (#[trigger] r@[i]).keyword@ == keyword_of(errors@[i]@.kind) && r@[i].message@
                == message_text(errors@[i]@.kind, json_text(errors@[i]@.instance)),
{
    let mut out: Vec<ErrorDescription> = Vec::new();
    let mut i: usize = 0;
    while i < errors.len()
        invariant
            i <= errors.len(),
            out@.len() == i,
            forall|j: int|
                0 <= j < i ==> (#[trigger] out@[j]).keyword@ == keyword_of(errors@[j]@.kind)
                    && out@[j].message@ == message_text(
                    errors@[j]@.kind,
                    json_text(errors@[j]@.instance),
                ),
        decreases errors.len() - i,
    {
        out.push(ErrorDescription::from_error(&errors[i]));
        i += 1;
    }
    proof {
        lemma_error_views(errors@);
        assert(told(out@) =~= described(error_views(errors@)));
    }
    out
}

/// What the output holds for one result: that it is an object with the
/// members `valid`, `evaluationPath`, `schemaLocation` and
/// `instanceLocation` of the right types, and that each entry of its
/// `details`, where it has that member, is such an object in turn.
pub open spec fn output_unit(unit: Json) -> bool
    decreases unit,
{
    &&& unit is Object
    &&& obj_get(unit->Object_0, "valid"@) matches Some(Json::Bool(_))
    &&& obj_get(unit->Object_0, "evaluationPath"@) matches Some(Json::String(_))
    &&& obj_get(unit->Object_0, "schemaLocation"@) matches Some(Json::String(_))
    &&& obj_get(unit->Object_0, "instanceLocation"@) matches Some(Json::String(_))
    &&& unit->Object_0.len() >= 4
    &&& unit->Object_0.len() > 4 && unit->Object_0.last().0 == "details"@ ==> {
        &&& unit->Object_0.last().1 is Array
        &&& forall|i: int|
            0 <= i < unit->Object_0.last().1->Array_0.len() ==> output_unit(
                #[trigger] unit->Object_0.last().1->Array_0[i],
            )
    }
}

/// The members of the object that shows the errors of a result: for each
/// keyword its message, a later message of a keyword in the place of an
/// earlier one.
pub open spec fn errors_members(errors: Seq<ErrorDescription>) -> Seq<(Seq<char>, Json)>
    decreases errors.len(),
{
    if errors.len() == 0 {
        Seq::empty()
    } else {
        stored(
            errors_members(errors.drop_last()),
            errors.last().keyword@,
            Json::String(errors.last().message@),
        )
    }
}

/// The members that the output shows of a result itself: `valid`,
/// `evaluationPath`, `schemaLocation` and `instanceLocation`, and those
/// among `annotations`, `droppedAnnotations` and `errors` that the result
/// has something for.
pub open spec fn own_members(node: &EvaluationNode) -> Seq<(Seq<char>, Json)> {
    seq![
        ("valid"@, Json::Bool(node.valid)),
        ("evaluationPath"@, Json::String(pointer_text(node.evaluation_path@))),
        ("schemaLocation"@, Json::String(pointer_text(node.schema_location@))),
        ("instanceLocation"@, Json::String(pointer_text(node.instance_location@))),
    ] + match node.annotations {
        Some(noted) => seq![("annotations"@, noted@)],
        None => Seq::empty(),
    } + match node.dropped_annotations {
        Some(noted) => seq![("droppedAnnotations"@, noted@)],
        None => Seq::empty(),
    } + if node.errors@.len() > 0 {
        seq![("errors"@, Json::Object(errors_members(node.errors@)))]
    } else {
        Seq::empty()
    }
}

/// The trees of a list of results, in their order.
pub open spec fn units(children: Seq<EvaluationNode>) -> Seq<Json>
    decreases children, 0nat,
{
    if children.len() == 0 {
        Seq::empty()
    } else {
        units(children.drop_last()).push(unit_of(&children.last()))
    }
}

/// A result and those below it as one tree: the members of the result, and
/// as `details` the trees of the results below it, where there are any.
pub open spec fn unit_of(node: &EvaluationNode) -> Json
    decreases node, 1nat,
{
    Json::Object(
        own_members(node) + if node.children@.len() > 0 {
            seq![("details"@, Json::Array(units(node.children@)))]
        } else {
            Seq::empty()
        },
    )
}

/// Whether a result shows in the list output: it has results below it, or
/// it noted something, or it has an error.
pub open spec fn applied(node: &EvaluationNode) -> bool {
    ||| node.children@.len() > 0
    ||| node.annotations is Some
    ||| node.dropped_annotations is Some
    ||| node.errors@.len() > 0
}

/// The entry of a result in the list output: its members, and the three
/// texts by which the entries are ordered.
pub open spec fn entry_of(node: &EvaluationNode) -> EntryView {
    EntryView {
        evaluation_path: pointer_text(node.evaluation_path@),
        schema_location: pointer_text(node.schema_location@),
        instance_location: pointer_text(node.instance_location@),
        unit: Json::Object(own_members(node)),
    }
}

/// The entries of a list of results and of those below them, as they are
/// met.
pub open spec fn flats(children: Seq<EvaluationNode>) -> Seq<EntryView>
    decreases children, 0nat,
{
    if children.len() == 0 {
        Seq::empty()
    } else {
        flats(children.drop_last()) + flat(&children.last())
    }
}

/// The entries of a result and of those below it, as they are met: that of
/// the result, where it shows, then those of the results below it.
pub open spec fn flat(node: &EvaluationNode) -> Seq<EntryView>
    decreases node, 1nat,
{
    (if applied(node) {
        seq![entry_of(node)]
    } else {
        Seq::empty()
    }) + flats(node.children@)
}

/// What the output shows of each entry.
pub open spec fn shown(entries: Seq<EntryView>) -> Seq<Json> {
    Seq::new(entries.len(), |i: int| entries[i].unit)
}

/// The list output of a result: whether it holds, and as `details` the
/// entries of the result and of those below it, in their order.
pub open spec fn list_of(root: &EvaluationNode) -> Json {
    Json::Object(
        seq![
            ("valid"@, Json::Bool(root.valid)),
            ("details"@, Json::Array(shown(arranged(flat(root))))),
        ],
    )
}

/// Whether each entry shows what every entry of an output has.
pub open spec fn all_units(entries: Seq<EntryView>) -> bool {
    forall|i: int| 0 <= i < entries.len() ==> output_unit((#[trigger] entries[i]).unit)
}

/// The errors of a result as the output shows them: an object from each
/// keyword to its message.
fn errors_value(errors: &Vec<ErrorDescription>) -> (r: Value)
    ensures
        r@ == Json::Object(errors_members(errors@)),
{
    let mut map = ObjectMap::new();
    let mut i: usize = 0;
    proof {
        assert(map@ =~= errors_members(errors@.take(0)));
    }
    while i < errors.len()
        invariant
            i <= errors.len(),
            map@ == errors_members(errors@.take(i as int)),
        decreases errors.len() - i,
    {
        proof {
            assert(errors@.take(i + 1).drop_last() =~= errors@.take(i as int));
            assert(errors@.take(i + 1).last() == errors@[i as int]);
        }
        map.insert(errors[i].keyword.clone(), Value::String(errors[i].message.clone()));
        i += 1;
    }
    proof {
        assert(errors@.take(errors@.len() as int) =~= errors@);
    }
    Value::Object(map)
}

impl EvaluationNode {
    /// The members that every entry of the output has, and those among
    /// `annotations`, `droppedAnnotations` and `errors` that the result has
    /// something for.
    fn unit_members(&self) -> (r: Vec<(String, Value)>)
        ensures
            member_views(r@) == own_members(self),
            r@.len() >= 4,
            r@[0].0@ == "valid"@ && r@[0].1@ == Json::Bool(self.valid),
            r@[1].0@ == "evaluationPath"@ && r@[1].1@ == Json::String(
                pointer_text(self.evaluation_path@),
            ),
            r@[2].0@ == "schemaLocation"@ && r@[2].1@ == Json::String(
                pointer_text(self.schema_location@),
            ),
            r@[3].0@ == "instanceLocation"@ && r@[3].1@ == Json::String(
                pointer_text(self.instance_location@),
            ),
            forall|i: int| 4 <= i < r@.len() ==> (#[trigger] r@[i]).0@ != "details"@,
    {
        let mut entries: Vec<(String, Value)> = Vec::new();
        entries.push((String::from_str("valid"), Value::Bool(self.valid)));
        entries.push(
            (String::from_str("evaluationPath"), Value::String(self.evaluation_path.pointer())),
        );
        entries.push(
            (String::from_str("schemaLocation"), Value::String(self.schema_location.pointer())),
        );
        entries.push(
            (String::from_str("instanceLocation"), Value::String(self.instance_location.pointer())),
        );
        proof {
            reveal_strlit("details");
            reveal_strlit("annotations");
            reveal_strlit("droppedAnnotations");
            reveal_strlit("errors");
            assert("details"@.len() == 7);
            assert("annotations"@.len() == 11);
            assert("droppedAnnotations"@.len() == 18);
            assert("errors"@.len() == 6);
        }
        if let Some(annotations) = &self.annotations {
            entries.push((String::from_str("annotations"), annotations.clone()));
        }
        if let Some(dropped) = &self.dropped_annotations {
            entries.push((String::from_str("droppedAnnotations"), dropped.clone()));
        }
        if self.errors.len() > 0 {
            entries.push((String::from_str("errors"), errors_value(&self.errors)));
        }
        proof {
            lemma_member_views(entries@);
            assert(member_views(entries@) =~= own_members(self));
        }
        entries
    }

    /// The result and those below it as one tree: each entry holds the
    /// entries of the results below it as its `details`.
    pub fn hierarchical(&self) -> (r: Value)
        ensures
            r@ == unit_of(self),
            output_unit(r@),
        decreases self,
    {
        let mut entries = self.unit_members();
        let ghost base = entries@;
        proof {
            reveal_strlit("details");
            reveal_strlit("valid");
            reveal_strlit("evaluationPath");
            reveal_strlit("schemaLocation");
            reveal_strlit("instanceLocation");
        }
        if self.children.len() > 0 {
            let mut details: Vec<Value> = Vec::new();
            let mut i: usize = 0;
            while i < self.children.len()
                invariant
                    i <= self.children.len(),
                    details@.len() == i,
                    forall|j: int| 0 <= j < i ==> output_unit((#[trigger] details@[j])@),
                    views(details@) == units(self.children@.take(i as int)),
                decreases self.children.len() - i,
            {
                let ghost before = details@;
                details.push(self.children[i].hierarchical());
                proof {
                    assert(details@.drop_last() =~= before);
                    assert(self.children@.take(i + 1).drop_last() =~= self.children@.take(i as int));
                    assert(self.children@.take(i + 1).last() == self.children@[i as int]);
                }
                i += 1;
            }
            proof {
                lemma_views(details@);
                assert(self.children@.take(self.children@.len() as int) =~= self.children@);
            }
            let ghost without = entries@;
            entries.push((String::from_str("details"), Value::Array(details)));
            proof {
                assert(entries@.drop_last() =~= without);
                assert(member_views(entries@) == member_views(entries@.drop_last()).push(
                    (entries@.last().0@, entries@.last().1@),
                ));
                assert(member_views(entries@) =~= unit_of(self)->Object_0);
            }
        } else {
            proof {
                assert(member_views(entries@) =~= unit_of(self)->Object_0);
            }
        }
        let r = Value::Object(ObjectMap { entries });
        proof {
            lemma_member_views(entries@);
            let members = member_views(entries@);
            assert(members[0] == ("valid"@, Json::Bool(self.valid)));
            assert(members[1].0 == "evaluationPath"@);
            assert(members[2].0 == "schemaLocation"@);
            assert(members[3].0 == "instanceLocation"@);
            lemma_unit_members(members);
        }
        r
    }

    /// Adds the entry of the result, where it shows, and then those of the
    /// results below it, to a flat list.
    pub fn flatten(&self, entries: &mut Vec<Entry>)
        ensures
            entry_views(final(entries)@) == entry_views(old(entries)@) + flat(self),
            all_units(entry_views(old(entries)@)) ==> all_units(entry_views(final(entries)@)),
        decreases self,
    {
        let ghost start = entry_views(entries@);
        let applied = self.children.len() > 0 || self.annotations.is_some()
            || self.dropped_annotations.is_some() || self.errors.len() > 0;
        if applied {
            let members = self.unit_members();
            let unit = Value::Object(ObjectMap { entries: members });
            proof {
                reveal_strlit("details");
                reveal_strlit("valid");
                reveal_strlit("evaluationPath");
                reveal_strlit("schemaLocation");
                reveal_strlit("instanceLocation");
                lemma_member_views(members@);
                let views = member_views(members@);
                assert(views[0] == ("valid"@, Json::Bool(self.valid)));
                assert(views[1].0 == "evaluationPath"@);
                assert(views[2].0 == "schemaLocation"@);
                assert(views[3].0 == "instanceLocation"@);
                lemma_unit_members(views);
            }
            let evaluation_path = self.evaluation_path.pointer();
            let schema_location = self.schema_location.pointer();
            let instance_location = self.instance_location.pointer();
            entries.push(
                Entry {
                    evaluation_path: str_chars(evaluation_path.as_str()),
                    schema_location: str_chars(schema_location.as_str()),
                    instance_location: str_chars(instance_location.as_str()),
                    unit,
                },
            );
            proof {
                assert(entry_views(entries@) =~= start + seq![entry_of(self)]);
            }
        }
        let ghost own = entry_views(entries@);
        proof {
            assert(self.children@.take(0) =~= Seq::<EvaluationNode>::empty());
            assert(own =~= own + flats(self.children@.take(0)));
        }
        let mut i: usize = 0;
        while i < self.children.len()
            invariant
                i <= self.children.len(),
                entry_views(entries@) == own + flats(self.children@.take(i as int)),
                all_units(start) ==> all_units(entry_views(entries@)),
            decreases self.children.len() - i,
        {
            self.children[i].flatten(entries);
            proof {
                assert(self.children@.take(i + 1).drop_last() =~= self.children@.take(i as int));
                assert(self.children@.take(i + 1).last() == self.children@[i as int]);
                assert(entry_views(entries@) =~= own + flats(self.children@.take(i + 1)));
            }
            i += 1;
        }
        proof {
            assert(self.children@.take(self.children@.len() as int) =~= self.children@);
            assert(entry_views(entries@) =~= start + flat(self));
        }
    }
}

/// An object whose first four members are those that every entry of the
/// output has finds each of them by its name.
proof fn lemma_unit_members(members: Seq<(Seq<char>, Json)>)
    requires
        members.len() >= 4,
        members[0].0 == "valid"@,
        members[1].0 == "evaluationPath"@,
        members[2].0 == "schemaLocation"@,
        members[3].0 == "instanceLocation"@,
    ensures
        obj_get(members, "valid"@) == Some(members[0].1),
        obj_get(members, "evaluationPath"@) == Some(members[1].1),
        obj_get(members, "schemaLocation"@) == Some(members[2].1),
        obj_get(members, "instanceLocation"@) == Some(members[3].1),
{
    reveal_strlit("valid");
    reveal_strlit("evaluationPath");
    reveal_strlit("schemaLocation");
    reveal_strlit("instanceLocation");
    let a = members.drop_first();
    let b = a.drop_first();
    let c = b.drop_first();
    assert(a[0] == members[1]);
    assert(b[0] == members[2]);
    assert(c[0] == members[3]);
    assert("valid"@ != "evaluationPath"@) by {
        assert("valid"@.len() == 5 && "evaluationPath"@.len() == 14);
    }
    assert("valid"@ != "schemaLocation"@) by {
        assert("valid"@.len() == 5 && "schemaLocation"@.len() == 14);
    }
    assert("valid"@ != "instanceLocation"@) by {
        assert("valid"@.len() == 5 && "instanceLocation"@.len() == 16);
    }
    assert("evaluationPath"@ != "schemaLocation"@) by {
        assert("evaluationPath"@[0] == 'e' && "schemaLocation"@[0] == 's');
    }
    assert("evaluationPath"@ != "instanceLocation"@) by {
        assert("evaluationPath"@.len() == 14 && "instanceLocation"@.len() == 16);
    }
    assert("schemaLocation"@ != "instanceLocation"@) by {
        assert("schemaLocation"@.len() == 14 && "instanceLocation"@.len() == 16);
    }
    assert(obj_get(members, "evaluationPath"@) == obj_get(a, "evaluationPath"@));
    assert(obj_get(members, "schemaLocation"@) == obj_get(a, "schemaLocation"@));
    assert(obj_get(a, "schemaLocation"@) == obj_get(b, "schemaLocation"@));
    assert(obj_get(members, "instanceLocation"@) == obj_get(a, "instanceLocation"@));
    assert(obj_get(a, "instanceLocation"@) == obj_get(b, "instanceLocation"@));
    assert(obj_get(b, "instanceLocation"@) == obj_get(c, "instanceLocation"@));
}

/// What one result noted of a value.
#[derive(Debug)]
pub struct AnnotationEntry {
    pub schema_location: Location,
    pub instance_location: Location,
    pub annotations: Value,
}

/// The model of what one result noted.
pub struct AnnotationView {
    pub schema_location: Seq<Seg>,
    pub instance_location: Seq<Seg>,
    pub annotations: Json,
}

/// One error of one result.
#[derive(Debug)]
pub struct ErrorEntry {
    pub schema_location: Location,
    pub instance_location: Location,
    pub error: ErrorDescription,
}

/// The model of one error of one result.
pub struct ErrorEntryView {
    pub schema_location: Seq<Seg>,
    pub instance_location: Seq<Seg>,
    pub keyword: Seq<char>,
    pub message: Seq<char>,
}

impl View for AnnotationEntry {
    type V = AnnotationView;

    open spec fn view(&self) -> AnnotationView {
        AnnotationView {
            schema_location: self.schema_location@,
            instance_location: self.instance_location@,
            annotations: self.annotations@,
        }
    }
}

impl View for ErrorEntry {
    type V = ErrorEntryView;

    open spec fn view(&self) -> ErrorEntryView {
        ErrorEntryView {
            schema_location: self.schema_location@,
            instance_location: self.instance_location@,
            keyword: self.error.keyword@,
            message: self.error.message@,
        }
    }
}

/// The models of a list of notes.
pub open spec fn annotation_views(entries: Seq<AnnotationEntry>) -> Seq<AnnotationView> {
    Seq::new(entries.len(), |i: int| entries[i]@)
}

/// The models of a list of errors.
pub open spec fn error_entry_views(entries: Seq<ErrorEntry>) -> Seq<ErrorEntryView> {
    Seq::new(entries.len(), |i: int| entries[i]@)
}

/// What the results of a list and those below them noted, as they are met.
pub open spec fn notes_below(children: Seq<EvaluationNode>) -> Seq<AnnotationView>
    decreases children, 0nat,
{
    if children.len() == 0 {
        Seq::empty()
    } else {
        notes_below(children.drop_last()) + notes(&children.last())
    }
}

/// What a result and those below it noted, as they are met: the note of the
/// result, where it holds and has one, then those of the results below it.
pub open spec fn notes(node: &EvaluationNode) -> Seq<AnnotationView>
    decreases node, 1nat,
{
    (match node.annotations {
        Some(noted) => seq![
            AnnotationView {
                schema_location: node.schema_location@,
                instance_location: node.instance_location@,
                annotations: noted@,
            },
        ],
        None => Seq::empty(),
    }) + notes_below(node.children@)
}

/// The errors of a result itself, each with the places of the result.
pub open spec fn own_faults(node: &EvaluationNode) -> Seq<ErrorEntryView> {
    Seq::new(
        node.errors@.len(),
        |i: int|
            ErrorEntryView {
                schema_location: node.schema_location@,
                instance_location: node.instance_location@,
                keyword: node.errors@[i].keyword@,
                message: node.errors@[i].message@,
            },
    )
}

/// The errors of the results of a list and of those below them, as they
/// are met.
pub open spec fn faults_below(children: Seq<EvaluationNode>) -> Seq<ErrorEntryView>
    decreases children, 0nat,
{
    if children.len() == 0 {
        Seq::empty()
    } else {
        faults_below(children.drop_last()) + faults(&children.last())
    }
}

/// The errors of a result and of those below it, as they are met: those of
/// the result, then those of the results below it.
pub open spec fn faults(node: &EvaluationNode) -> Seq<ErrorEntryView>
    decreases node, 1nat,
{
    own_faults(node) + faults_below(node.children@)
}

impl EvaluationNode {
    /// Adds what the result and those below it noted to a list.
    pub fn collect_annotations(&self, entries: &mut Vec<AnnotationEntry>)
        ensures
            annotation_views(final(entries)@) == annotation_views(old(entries)@) + notes(self),
        decreases self,
    {
        let ghost start = annotation_views(entries@);
        if let Some(noted) = &self.annotations {
            entries.push(
                AnnotationEntry {
                    schema_location: self.schema_location.clone(),
                    instance_location: self.instance_location.clone(),
                    annotations: noted.clone(),
                },
            );
        }
        let ghost own = annotation_views(entries@);
        proof {
            assert(self.children@.take(0) =~= Seq::<EvaluationNode>::empty());
            assert(own =~= own + notes_below(self.children@.take(0)));
        }
        let mut i: usize = 0;
        while i < self.children.len()
            invariant
                i <= self.children.len(),
                annotation_views(entries@) == own + notes_below(self.children@.take(i as int)),
            decreases self.children.len() - i,
        {
            self.children[i].collect_annotations(entries);
            proof {
                assert(self.children@.take(i + 1).drop_last() =~= self.children@.take(i as int));
                assert(self.children@.take(i + 1).last() == self.children@[i as int]);
                assert(annotation_views(entries@) =~= own + notes_below(
                    self.children@.take(i + 1),
                ));
            }
            i += 1;
        }
        proof {
            assert(self.children@.take(self.children@.len() as int) =~= self.children@);
            assert(annotation_views(entries@) =~= start + notes(self));
        }
    }

    /// Adds the errors of the result and of those below it to a list.
    pub fn collect_errors(&self, entries: &mut Vec<ErrorEntry>)
        ensures
            error_entry_views(final(entries)@) == error_entry_views(old(entries)@) + faults(self),
        decreases self,
    {
        let ghost start = error_entry_views(entries@);
        let mut k: usize = 0;
        while k < self.errors.len()
            invariant
                k <= self.errors.len(),
                error_entry_views(entries@) == start + own_faults(self).take(k as int),
            decreases self.errors.len() - k,
        {
            let ghost earlier = entries@;
            entries.push(
                ErrorEntry {
                    schema_location: self.schema_location.clone(),
                    instance_location: self.instance_location.clone(),
                    error: ErrorDescription {
                        keyword: self.errors[k].keyword.clone(),
                        message: self.errors[k].message.clone(),
                    },
                },
            );
            proof {
                let added = entries@.last()@;
                assert(added.keyword == self.errors@[k as int].keyword@);
                assert(added.message == self.errors@[k as int].message@);
                assert(added == own_faults(self)[k as int]);
                assert(entries@.drop_last() =~= earlier);
                assert(error_entry_views(entries@) =~= error_entry_views(earlier).push(added));
                assert(own_faults(self).take(k + 1) =~= own_faults(self).take(k as int).push(
                    own_faults(self)[k as int],
                ));
            }
            k += 1;
        }
        let ghost own = error_entry_views(entries@);
        proof {
            assert(own_faults(self).take(self.errors@.len() as int) =~= own_faults(self));
            assert(self.children@.take(0) =~= Seq::<EvaluationNode>::empty());
            assert(own =~= own + faults_below(self.children@.take(0)));
        }
        let mut i: usize = 0;
        while i < self.children.len()
            invariant
                i <= self.children.len(),
                error_entry_views(entries@) == own + faults_below(self.children@.take(i as int)),
            decreases self.children.len() - i,
        {
            self.children[i].collect_errors(entries);
            proof {
                assert(self.children@.take(i + 1).drop_last() =~= self.children@.take(i as int));
                assert(self.children@.take(i + 1).last() == self.children@[i as int]);
                assert(error_entry_views(entries@) =~= own + faults_below(
                    self.children@.take(i + 1),
                ));
            }
            i += 1;
        }
        proof {
            assert(self.children@.take(self.children@.len() as int) =~= self.children@);
            assert(error_entry_views(entries@) =~= start + faults(self));
        }
    }
}

/// The least that an output tells: whether the instance is valid.
#[derive(Debug, Clone, Copy)]
pub struct FlagOutput {
    pub valid: bool,
}

/// The structured result of one schema on one instance.
#[derive(Debug)]
pub struct Evaluation {
    pub root: EvaluationNode,
}

/// What the list output holds: whether the instance is valid, and as
/// `details` one entry for each result.
pub open spec fn list_output(output: Json) -> bool {
    &&& output is Object
    &&& output->Object_0.len() == 2
    &&& output->Object_0[0].0 == "valid"@
    &&& output->Object_0[0].1 is Bool
    &&& output->Object_0[1].0 == "details"@
    &&& output->Object_0[1].1 is Array
    &&& forall|i: int|
        0 <= i < output->Object_0[1].1->Array_0.len() ==> output_unit(
            #[trigger] output->Object_0[1].1->Array_0[i],
        )
}

impl Evaluation {
    /// Whether the instance is valid.
    pub fn flag(&self) -> (r: FlagOutput)
        ensures
            r.valid == self.root.valid,
    {
        FlagOutput { valid: self.root.valid }
    }

    /// Every result that shows, in one list: the entries of the results as
    /// they are met, the schema before its keywords and each keyword before
    /// the results below it, put in the order of their evaluation paths,
    /// then of their schema locations, then of their instance locations.
    pub fn list(&self) -> (r: Value)
        ensures
            r@ == list_of(&self.root),
            list_output(r@),
    {
        let mut met: Vec<Entry> = Vec::new();
        proof {
            assert(entry_views(met@) =~= Seq::<EntryView>::empty());
        }
        self.root.flatten(&mut met);
        proof {
            assert(entry_views(met@) =~= flat(&self.root));
        }
        let ghost given = entry_views(met@);
        let sorted = arrange(met);
        let ghost inside = entry_views(sorted@);
        proof {
            broadcast use vstd::seq_lib::group_to_multiset_ensures;

            law_arranged(given);
            given.to_multiset_ensures();
            inside.to_multiset_ensures();
            assert forall|i: int| 0 <= i < inside.len() implies output_unit(
                (#[trigger] inside[i]).unit,
            ) by {
                assert(inside.contains(inside[i]));
                assert(given.to_multiset().count(inside[i]) > 0);
                assert(given.contains(inside[i]));
                let k = choose|k: int| 0 <= k < given.len() && given[k] == inside[i];
                assert(output_unit(given[k].unit));
            }
        }
        let mut details: Vec<Value> = Vec::new();
        let mut i: usize = 0;
        while i < sorted.len()
            invariant
                i <= sorted@.len(),
                inside == entry_views(sorted@),
                details@.len() == i,
                forall|j: int| 0 <= j < i ==> (#[trigger] details@[j])@ == inside[j].unit,
            decreases sorted@.len() - i,
        {
            details.push(sorted[i].unit.clone());
            i += 1;
        }
        proof {
            lemma_views(details@);
            assert(views(details@) =~= shown(inside));
        }
        let mut entries: Vec<(String, Value)> = Vec::new();
        entries.push((String::from_str("valid"), Value::Bool(self.root.valid)));
        entries.push((String::from_str("details"), Value::Array(details)));
        proof {
            lemma_member_views(entries@);
            assert(member_views(entries@) =~= list_of(&self.root)->Object_0);
        }
        Value::Object(ObjectMap { entries })
    }

    /// What the results noted, as they are met: the schema before its
    /// keywords, and each keyword before the results below it.
    pub fn iter_annotations(&self) -> (r: Vec<AnnotationEntry>)
        ensures
            annotation_views(r@) == notes(&self.root),
    {
        let mut entries: Vec<AnnotationEntry> = Vec::new();
        proof {
            assert(annotation_views(entries@) =~= Seq::<AnnotationView>::empty());
        }
        self.root.collect_annotations(&mut entries);
        proof {
            assert(annotation_views(entries@) =~= notes(&self.root));
        }
        entries
    }

    /// The errors of the results, as they are met.
    pub fn iter_errors(&self) -> (r: Vec<ErrorEntry>)
        ensures
            error_entry_views(r@) == faults(&self.root),
    {
        let mut entries: Vec<ErrorEntry> = Vec::new();
        proof {
            assert(error_entry_views(entries@) =~= Seq::<ErrorEntryView>::empty());
        }
        self.root.collect_errors(&mut entries);
        proof {
            assert(error_entry_views(entries@) =~= faults(&self.root));
        }
        entries
    }

    /// Every result as one tree, as the schema is built.
    pub fn hierarchical(&self) -> (r: Value)
        ensures
            r@ == unit_of(&self.root),
            output_unit(r@),
    {
        self.root.hierarchical()
    }
}

} // verus!
