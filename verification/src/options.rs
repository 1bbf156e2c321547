//! The option groups that refine how formats and patterns are checked.
use vstd::prelude::*;
use crate::text::{decimal, push_char, usize_to_string};
use crate::types::Draft;

verus! {

/// How e-mail addresses are checked.
#[derive(Debug, Clone, Copy)]
pub struct EmailOptions {
    pub require_tld: bool,
    pub allow_domain_literal: bool,
    pub allow_display_text: bool,
    pub minimum_sub_domains: Option<usize>,
}

/// The limits of the regular-expression engine that does not backtrack.
#[derive(Debug, Clone, Copy)]
pub struct RegexOptions {
    pub size_limit: Option<usize>,
    pub dfa_size_limit: Option<usize>,
}

/// The limits of the regular-expression engine that backtracks.
#[derive(Debug, Clone, Copy)]
pub struct FancyRegexOptions {
    pub backtrack_limit: Option<usize>,
    pub size_limit: Option<usize>,
    pub dfa_size_limit: Option<usize>,
}

/// A truth value as the description shows it.
pub open spec fn truth_text(value: bool) -> Seq<char> {
    if value {
        "true"@
    } else {
        "false"@
    }
}

/// A limit as the description shows it: the number, or `nil` where there is
/// none.
pub open spec fn limit_text(limit: Option<usize>) -> Seq<char> {
    match limit {
        Some(n) => decimal(n as nat),
        None => "nil"@,
    }
}

fn push_truth(s: &mut String, value: bool)
    ensures
        final(s)@ == old(s)@ + truth_text(value),
{
    if value {
        s.append("true");
    } else {
        s.append("false");
    }
}

fn push_limit(s: &mut String, limit: Option<usize>)
    ensures
        final(s)@ == old(s)@ + limit_text(limit),
{
    match limit {
        Some(n) => {
            let digits = usize_to_string(n);
            s.append(digits.as_str());
        },
        None => s.append("nil"),
    }
}

impl EmailOptions {
    /// The options with what was given; what was not given is as lenient as
    /// can be.
    pub fn new(
        require_tld: Option<bool>,
        allow_domain_literal: Option<bool>,
        allow_display_text: Option<bool>,
        minimum_sub_domains: Option<usize>,
    ) -> (r: EmailOptions)
        ensures
            r.require_tld == (require_tld == Some(true)),
            r.allow_domain_literal == (allow_domain_literal != Some(false)),
            r.allow_display_text == (allow_display_text != Some(false)),
            r.minimum_sub_domains == minimum_sub_domains,
    {
        EmailOptions {
            require_tld: match require_tld {
                Some(value) => value,
                None => false,
            },
            allow_domain_literal: match allow_domain_literal {
                Some(value) => value,
                None => true,
            },
            allow_display_text: match allow_display_text {
                Some(value) => value,
                None => true,
            },
            minimum_sub_domains,
        }
    }

    /// The description of the options.
    pub open spec fn description(&self) -> Seq<char> {
        "#<JSONSchema::EmailOptions require_tld="@ + truth_text(self.require_tld)
            + ", allow_domain_literal="@ + truth_text(self.allow_domain_literal)
            + ", allow_display_text="@ + truth_text(self.allow_display_text)
            + ", minimum_sub_domains="@ + limit_text(self.minimum_sub_domains) + seq!['>']
    }

    pub fn inspect(&self) -> (s: String)
        ensures
            s@ == self.description(),
    {
        let mut s = String::from_str("#<JSONSchema::EmailOptions require_tld=");
        push_truth(&mut s, self.require_tld);
        s.append(", allow_domain_literal=");
        push_truth(&mut s, self.allow_domain_literal);
        s.append(", allow_display_text=");
        push_truth(&mut s, self.allow_display_text);
        s.append(", minimum_sub_domains=");
        push_limit(&mut s, self.minimum_sub_domains);
        push_char(&mut s, '>');
        s
    }
}

impl RegexOptions {
    /// The description of the options.
    pub open spec fn description(&self) -> Seq<char> {
        "#<JSONSchema::RegexOptions size_limit="@ + limit_text(self.size_limit)
            + ", dfa_size_limit="@ + limit_text(self.dfa_size_limit) + seq!['>']
    }

    pub fn inspect(&self) -> (s: String)
        ensures
            s@ == self.description(),
    {
        let mut s = String::from_str("#<JSONSchema::RegexOptions size_limit=");
        push_limit(&mut s, self.size_limit);
        s.append(", dfa_size_limit=");
        push_limit(&mut s, self.dfa_size_limit);
        push_char(&mut s, '>');
        s
    }
}

impl FancyRegexOptions {
    /// The description of the options.
    pub open spec fn description(&self) -> Seq<char> {
        "#<JSONSchema::FancyRegexOptions backtrack_limit="@ + limit_text(self.backtrack_limit)
            + ", size_limit="@ + limit_text(self.size_limit) + ", dfa_size_limit="@ + limit_text(
            self.dfa_size_limit,
        ) + seq!['>']
    }

    pub fn inspect(&self) -> (s: String)
        ensures
            s@ == self.description(),
    {
        let mut s = String::from_str("#<JSONSchema::FancyRegexOptions backtrack_limit=");
        push_limit(&mut s, self.backtrack_limit);
        s.append(", size_limit=");
        push_limit(&mut s, self.size_limit);
        s.append(", dfa_size_limit=");
        push_limit(&mut s, self.dfa_size_limit);
        push_char(&mut s, '>');
        s
    }
}

/// What is said of a draft name that names no draft.
pub open spec fn unknown_draft(name: Seq<char>) -> Seq<char> {
    "Unknown draft: :"@ + name
        + ". Valid drafts: :draft4, :draft6, :draft7, :draft201909, :draft202012"@
}

/// Reads the name of a draft, as an option gives it. A name that names no
/// draft is answered with the list of those that do.
pub fn parse_draft(name: &str) -> (r: Result<Draft, String>)
    ensures
        match r {
            Ok(draft) => Draft::named(name@) == Some(draft),
            Err(message) => Draft::named(name@) is None && message@ == unknown_draft(name@),
        },
{
    match Draft::from_name(name) {
        Some(draft) => Ok(draft),
        None => {
            let mut message = String::from_str("Unknown draft: :");
            message.append(name);
            message.append(". Valid drafts: :draft4, :draft6, :draft7, :draft201909, :draft202012");
            Err(message)
        },
    }
}

/// The name by which a validator of a draft describes itself.
pub open spec fn validator_name(draft: Draft) -> Seq<char> {
    match draft {
        Draft::Draft4 => "#<JSONSchema::Draft4Validator>"@,
        Draft::Draft6 => "#<JSONSchema::Draft6Validator>"@,
        Draft::Draft7 => "#<JSONSchema::Draft7Validator>"@,
        Draft::Draft201909 => "#<JSONSchema::Draft201909Validator>"@,
        Draft::Draft202012 => "#<JSONSchema::Draft202012Validator>"@,
    }
}

/// The description of a validator of a draft.
pub fn inspect_validator(draft: Draft) -> (r: &'static str)
    ensures
        r@ == validator_name(draft),
{
    match draft {
        Draft::Draft4 => "#<JSONSchema::Draft4Validator>",
        Draft::Draft6 => "#<JSONSchema::Draft6Validator>",
        Draft::Draft7 => "#<JSONSchema::Draft7Validator>",
        Draft::Draft201909 => "#<JSONSchema::Draft201909Validator>",
        Draft::Draft202012 => "#<JSONSchema::Draft202012Validator>",
    }
}

} // verus!
