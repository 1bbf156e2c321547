//! Checking a schema document by the rules of its draft, without building a
//! validator of it.
use vstd::prelude::*;
use crate::compiler::{Context, ContextView, compile};
use crate::error::{ErrorView, ValidationError};
use crate::json::{Json, Value};
use crate::paths::Location;
use crate::refusal::{fault, refusal};
use crate::rules::accepted;
use crate::types::Draft;
use crate::validator::{ValidationOptions, draft_for, options};

verus! {

/// Whether the schema document keeps the rules of the draft by which it is
/// read: the draft that was asked for, or else its own.
pub open spec fn well_formed(asked: Option<Draft>, schema: Json) -> bool {
    accepted(
        ContextView { document: schema, draft: draft_for(asked, schema), location: Seq::empty() },
        schema,
    )
}

/// The first rule of its draft that the schema document breaks, if it
/// breaks one.
pub open spec fn broken_rule(asked: Option<Draft>, schema: Json) -> Option<ErrorView> {
    refusal(
        ContextView { document: schema, draft: draft_for(asked, schema), location: Seq::empty() },
        schema,
    )
}

/// Checks the schema document by the rules of the draft that the options
/// ask for, or else of its own. The error is the first rule that the
/// document breaks.
pub fn validate_with(options: &ValidationOptions, schema: &Value) -> (r: Result<(), ValidationError>)
    ensures
        r is Ok <==> well_formed(options.asked_draft(), schema@),
        fault(r) == broken_rule(options.asked_draft(), schema@),
{
    let draft = options.draft_of(schema);
    let ctx = Context::new(schema, draft);
    let mut found: Vec<Location> = Vec::new();
    match compile(&ctx, schema, &mut found) {
        Ok(_) => Ok(()),
        Err(e) => Err(e),
    }
}

/// Checks the schema document by the rules of its own draft.
pub fn validate(schema: &Value) -> (r: Result<(), ValidationError>)
    ensures
        r is Ok <==> well_formed(None, schema@),
        fault(r) == broken_rule(None, schema@),
{
    validate_with(&options(), schema)
}

/// Whether the schema document keeps the rules of its own draft.
pub fn is_valid(schema: &Value) -> (r: bool)
    ensures
        r == well_formed(None, schema@),
{
    validate(schema).is_ok()
}

} // verus!
