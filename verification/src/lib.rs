//! A JSON Schema validator whose behaviour is stated in contracts and proved.
//!
//! A schema document is compiled into a tree of keyword validators
//! ([`node::SchemaNode`]); the tree is then walked against an instance to give
//! a boolean verdict, the first error, every error, or a structured
//! evaluation result.
//!
//! Keywords that the compiler dispatches: `type`, `const`, `enum`,
//! `minLength`, `maxLength`, `minItems`, `maxItems`, `uniqueItems`,
//! `minProperties`, `maxProperties`, `required`, `dependentRequired`,
//! `properties`, `additionalProperties`, `propertyNames`,
//! `dependentSchemas`, `items`, `prefixItems`, `contains` with `minContains`
//! and `maxContains`, `allOf`, `anyOf`, `oneOf`, `not`, `if` with `then` and
//! `else`, `$ref` and `unevaluatedProperties`, together with the boolean
//! schemas. A schema with a keyword that asks something of an instance and
//! that the library does not enforce, such as `pattern` or `minimum`, is
//! refused when the validator is built; any other member of a schema is
//! passed over.
pub mod agreement;
pub mod arrange;
pub mod collections;
pub mod compiler;
pub mod equality;
pub mod error;
pub mod evaluation;
pub mod found;
pub mod json;
pub mod keywords;
pub mod laws;
pub mod meta;
pub mod node;
pub mod options;
pub mod outcome;
pub mod output;
pub mod paths;
pub mod pattern;
pub mod payload;
pub mod references;
pub mod refusal;
pub mod render;
pub mod retriever;
pub mod round_trip;
pub mod rules;
pub mod shape;
pub mod static_id;
pub mod text;
pub mod types;
pub mod uri;
pub mod validator;
pub mod verbose;
