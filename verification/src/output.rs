//! What a run over instance documents reports, and in which form.
use vstd::prelude::*;
use crate::error::{ErrorView, ValidationError, error_views, lemma_error_views, message_text};
use crate::json::{Json, ObjectMap, Value, lemma_member_views, member_views};
use crate::render::{json_text, render};
use crate::text::{decimal, usize_to_string};
use crate::validator::Validator;

verus! {

/// The form in which results are reported.
#[derive(Clone, Copy, Debug, PartialEq, Eq, Structural)]
pub enum Output {
    /// Lines for a reader.
    Text,
    /// Whether the instance is valid, and no more.
    Flag,
    /// Every assessed keyword, in one list.
    List,
    /// Every assessed keyword, as a tree.
    Hierarchical,
}

impl Output {
    /// The name of the form.
    pub open spec fn name(self) -> Seq<char> {
        match self {
            Output::Text => "text"@,
            Output::Flag => "flag"@,
            Output::List => "list"@,
            Output::Hierarchical => "hierarchical"@,
        }
    }

    pub fn as_str(self) -> (r: &'static str)
        ensures
            r@ == self.name(),
    {
        match self {
            Output::Text => "text",
            Output::Flag => "flag",
            Output::List => "list",
            Output::Hierarchical => "hierarchical",
        }
    }
}

/// The line of one error in a report for a reader: its number, counted from
/// one, and its message.
pub open spec fn numbered_line(error: ErrorView, index: nat) -> Seq<char> {
    decimal(index + 1) + ". "@ + message_text(error.kind, json_text(error.instance))
}

/// The lines of the first `n` errors.
pub open spec fn numbered_lines(errors: Seq<ErrorView>, n: nat) -> Seq<Seq<char>>
    decreases n,
{
    if n == 0 || n > errors.len() {
        Seq::empty()
    } else {
        numbered_lines(errors, (n - 1) as nat).push(numbered_line(errors[n - 1], (n - 1) as nat))
    }
}

/// What is reported of one instance to a reader: for an invalid instance a
/// heading and its errors, numbered; for a valid one a single line, unless
/// only errors are asked for.
pub open spec fn text_report(filename: Seq<char>, errors: Seq<ErrorView>, errors_only: bool) -> Seq<
    Seq<char>,
> {
    if errors.len() > 0 {
        seq![filename + " - INVALID. Errors:"@] + numbered_lines(errors, errors.len())
    } else if !errors_only {
        seq![filename + " - VALID"@]
    } else {
        Seq::empty()
    }
}

/// The views of a list of lines.
pub open spec fn line_views(lines: Seq<String>) -> Seq<Seq<char>> {
    Seq::new(lines.len(), |i: int| lines[i]@)
}

/// The record of one instance in a structured report: the form, the schema,
/// the instance, and what the form gives for the instance.
pub open spec fn record_of(output: Output, schema: Seq<char>, instance: Seq<char>, payload: Json) -> Json {
    Json::Object(
        seq![
            ("output"@, Json::String(output.name())),
            ("schema"@, Json::String(schema)),
            ("instance"@, Json::String(instance)),
            ("payload"@, payload),
        ],
    )
}

/// What is said where the schema itself is refused.
pub open spec fn refused_schema(message: Seq<char>) -> Seq<char> {
    "Schema is invalid. Error: "@ + message
}

/// The lines that report one instance to a reader.
pub fn text_lines(filename: &str, errors: &Vec<ValidationError>, errors_only: bool) -> (r: Vec<String>)
    ensures
        line_views(r@) == text_report(filename@, error_views(errors@), errors_only),
{
    let mut lines: Vec<String> = Vec::new();
    proof {
        lemma_error_views(errors@);
    }
    if errors.len() > 0 {
        let mut heading = String::from_str(filename);
        heading.append(" - INVALID. Errors:");
        lines.push(heading);
        let ghost head = line_views(lines@);
        let mut i: usize = 0;
        proof {
            assert(head =~= seq![filename@ + " - INVALID. Errors:"@]);
            assert(head + Seq::<Seq<char>>::empty() =~= head);
        }
        while i < errors.len()
            invariant
                i <= errors.len(),
                error_views(errors@).len() == errors@.len(),
                forall|j: int|
                    0 <= j < errors@.len() ==> (#[trigger] error_views(errors@)[j]) == errors@[j]@,
                line_views(lines@) == head + numbered_lines(error_views(errors@), i as nat),
            decreases errors.len() - i,
        {
            let ghost before = line_views(lines@);
            let mut line = usize_to_string(i + 1);
            line.append(". ");
            line.append(errors[i].message().as_str());
            lines.push(line);
            proof {
                assert(line_views(lines@) =~= before.push(
                    numbered_line(error_views(errors@)[i as int], i as nat),
                ));
                assert(head + numbered_lines(error_views(errors@), (i + 1) as nat) =~= (head
                    + numbered_lines(error_views(errors@), i as nat)).push(
                    numbered_line(error_views(errors@)[i as int], i as nat),
                ));
            }
            i += 1;
        }
    } else if !errors_only {
        let mut line = String::from_str(filename);
        line.append(" - VALID");
        lines.push(line);
        proof {
            assert(line_views(lines@) =~= seq![filename@ + " - VALID"@]);
        }
    } else {
        proof {
            assert(line_views(lines@) =~= Seq::<Seq<char>>::empty());
        }
    }
    lines
}

/// The record of one instance in a structured report.
pub fn record(output: Output, schema: &str, instance: &str, payload: Value) -> (r: Value)
    ensures
        r@ == record_of(output, schema@, instance@, payload@),
{
    let mut entries: Vec<(String, Value)> = Vec::new();
    entries.push((String::from_str("output"), Value::String(String::from_str(output.as_str()))));
    entries.push((String::from_str("schema"), Value::String(String::from_str(schema))));
    entries.push((String::from_str("instance"), Value::String(String::from_str(instance))));
    entries.push((String::from_str("payload"), payload));
    proof {
        lemma_member_views(entries@);
        assert(member_views(entries@) =~= record_of(
            output,
            schema@,
            instance@,
            payload@,
        )->Object_0);
    }
    Value::Object(ObjectMap { entries })
}

/// The line that says that the schema itself is refused.
pub fn refused_schema_line(error: &ValidationError) -> (r: String)
    ensures
        r@ == refused_schema(message_text(error@.kind, json_text(error@.instance))),
{
    let mut line = String::from_str("Schema is invalid. Error: ");
    line.append(error.message().as_str());
    line
}

/// What is reported of one instance: the lines to print, and whether the
/// instance is valid.
#[derive(Debug)]
pub struct InstanceReport {
    pub lines: Vec<String>,
    pub valid: bool,
}

/// What the flag form gives: whether the instance is valid.
pub open spec fn flag_payload(valid: bool) -> Json {
    Json::Object(seq![("valid"@, Json::Bool(valid))])
}

/// Assesses one instance and reports on it in the form asked for. In the
/// form for a reader the lines are those of [`text_report`]. In a structured
/// form there is one line, the record of the instance as JSON text, whose
/// payload is the flag, the list or the tree of the structured result of
/// the validator on the instance; it is left out for a valid instance where
/// only errors are asked for.
pub fn report_instance(
    validator: &Validator,
    output: Output,
    schema_display: &str,
    instance_display: &str,
    instance: &Value,
    errors_only: bool,
) -> (r: InstanceReport)
    ensures
        r.valid == validator.valid(instance@),
        output == Output::Text ==> line_views(r.lines@) == text_report(
            instance_display@,
            validator.errors(instance@),
            errors_only,
        ),
        output != Output::Text ==> r.lines@.len() == if errors_only && r.valid {
            0nat
        } else {
            1nat
        },
        output == Output::Flag && !(errors_only && r.valid) ==> r.lines@[0]@ == json_text(
            record_of(output, schema_display@, instance_display@, flag_payload(r.valid)),
        ),
        output == Output::List && !(errors_only && r.valid) ==> exists|
            root: crate::evaluation::EvaluationNode,
        |
            #[trigger] validator.evaluated(instance@, &root) && r.lines@[0]@ == json_text(
                record_of(
                    output,
                    schema_display@,
                    instance_display@,
                    crate::evaluation::list_of(&root),
                ),
            ),
        output == Output::Hierarchical && !(errors_only && r.valid) ==> exists|
            root: crate::evaluation::EvaluationNode,
        |
            #[trigger] validator.evaluated(instance@, &root) && r.lines@[0]@ == json_text(
                record_of(
                    output,
                    schema_display@,
                    instance_display@,
                    crate::evaluation::unit_of(&root),
                ),
            ),
{
    if output == Output::Text {
        let errors = validator.iter_errors(instance);
        proof {
            crate::laws::law_verdicts_agree(validator, instance@);
            lemma_error_views(errors@);
        }
        let valid = errors.len() == 0;
        InstanceReport { lines: text_lines(instance_display, &errors, errors_only), valid }
    } else {
        let evaluation = validator.evaluate(instance);
        let flag_output = evaluation.flag();
        let mut lines: Vec<String> = Vec::new();
        // Skip valid instances if errors_only is enabled
        if errors_only && flag_output.valid {
            return InstanceReport { lines, valid: true };
        }
        let payload = match output {
            Output::List => evaluation.list(),
            Output::Hierarchical => evaluation.hierarchical(),
            _ => {
                let mut entries: Vec<(String, Value)> = Vec::new();
                entries.push((String::from_str("valid"), Value::Bool(flag_output.valid)));
                proof {
                    lemma_member_views(entries@);
                    assert(member_views(entries@) =~= flag_payload(flag_output.valid)->Object_0);
                }
                Value::Object(ObjectMap { entries })
            },
        };
        let line = render(&record(output, schema_display, instance_display, payload));
        lines.push(line);
        proof {
            assert(validator.evaluated(instance@, &evaluation.root));
        }
        InstanceReport { lines, valid: flag_output.valid }
    }
}

} // verus!
