//! Condition evaluator: a single boolean predicate over string variables,
//! in one of three forms, checked in this precedence:
//! `VAR contains 'ITEM'`, `VAR == 'VALUE'`, `VAR != 'VALUE'`.
//!
//! Splitting on the comma for `contains` trims each piece; quoting with
//! single or double quotes is stripped from the literal; an unbound variable
//! is a hard error, never a silent false.

use crate::strutil::{
    find_sub, lemma_find_from_found, spec_find, spec_strip, spec_trim, str_eq, strip_char, trim,
};
use crate::vars::VarMap;
use vstd::prelude::*;

verus! {

/// What evaluating a condition yields: a boolean, a missing-variable error
/// naming the variable, or a syntax error.
pub enum CondOutcome {
    Value(bool),
    MissingVar(Seq<char>),
    BadSyntax,
}

/// Whether `item` equals one of the comma-separated, trimmed pieces of `v`.
pub open spec fn spec_csv_contains(v: Seq<char>, item: Seq<char>) -> bool
    decreases v.len(),
{
    match spec_find(v, seq![',']) {
        Some(i) => {
            if 0 <= i < v.len() {
                spec_trim(v.take(i)) == item || spec_csv_contains(v.skip(i + 1), item)
            } else {
                spec_trim(v) == item
            }
        },
        None => spec_trim(v) == item,
    }
}

/// The value literal of a condition: trimmed, then unquoted.
pub open spec fn spec_unquote(s: Seq<char>) -> Seq<char> {
    spec_strip(spec_strip(spec_trim(s), '\''), '"')
}

/// The meaning of a condition string under the given bindings.
pub open spec fn spec_eval_condition(cond: Seq<char>, vars: Map<Seq<char>, Seq<char>>)
    -> CondOutcome {
    let c = spec_trim(cond);
    match spec_find(c, " contains "@) {
        Some(i) => {
            let var = spec_trim(c.take(i));
            let item = spec_unquote(c.skip(i + " contains "@.len()));
            if vars.contains_key(var) {
                CondOutcome::Value(spec_csv_contains(vars[var], item))
            } else {
                CondOutcome::MissingVar(var)
            }
        },
        None => match spec_find(c, " == "@) {
            Some(i) => {
                let var = spec_trim(c.take(i));
                let val = spec_unquote(c.skip(i + " == "@.len()));
                if vars.contains_key(var) {
                    CondOutcome::Value(vars[var] == val)
                } else {
                    CondOutcome::MissingVar(var)
                }
            },
            None => match spec_find(c, " != "@) {
                Some(i) => {
                    let var = spec_trim(c.take(i));
                    let val = spec_unquote(c.skip(i + " != "@.len()));
                    if vars.contains_key(var) {
                        CondOutcome::Value(vars[var] != val)
                    } else {
                        CondOutcome::MissingVar(var)
                    }
                },
                None => CondOutcome::BadSyntax,
            },
        },
    }
}

/// An error from evaluating a condition.
#[derive(Debug)]
pub enum CondError {
    /// The condition referenced a variable absent from the bindings.
    VariableNotFound { name: String },
    /// The condition matched none of the supported forms.
    UnsupportedSyntax { condition: String },
}

/// The message text for a missing variable.
pub open spec fn spec_var_not_found_msg(name: Seq<char>) -> Seq<char> {
    "variable '"@ + name + "' not found"@
}

/// The message text for an unsupported condition.
pub open spec fn spec_unsupported_msg(cond: Seq<char>) -> Seq<char> {
    "unsupported condition syntax: '"@ + cond + "'"@
}

impl CondError {
    /// Render the error as text.
    pub fn message(&self) -> (r: String)
        ensures
            match self {
                CondError::VariableNotFound { name } => r@ == spec_var_not_found_msg(name@),
                CondError::UnsupportedSyntax { condition } => r@ == spec_unsupported_msg(
                    condition@,
                ),
            },
    {
        match self {
            CondError::VariableNotFound { name } => {
                let mut s = String::new();
                s.append("variable '");
                s.append(name.as_str());
                s.append("' not found");
                proof {
                    assert(s@ =~= spec_var_not_found_msg(name@));
                }
                s
            },
            CondError::UnsupportedSyntax { condition } => {
                let mut s = String::new();
                s.append("unsupported condition syntax: '");
                s.append(condition.as_str());
                s.append("'");
                proof {
                    assert(s@ =~= spec_unsupported_msg(condition@));
                }
                s
            },
        }
    }
}

/// Whether `item` is one of the comma-separated, trimmed pieces of `v`.
fn csv_contains(v: &str, item: &str) -> (r: bool)
    ensures
        r == spec_csv_contains(v@, item@),
{
    proof {
        reveal_strlit(",");
        assert(","@ =~= seq![',']);
    }
    let mut rest = v;
    loop
        invariant
            spec_csv_contains(v@, item@) == spec_csv_contains(rest@, item@),
            ","@ =~= seq![','],
        decreases rest@.len(),
    {
        let rlen = rest.unicode_len();
        match find_sub(rest, ",") {
            Some(i) => {
                proof {
                    lemma_find_from_found(rest@, ","@, 0, i as int);
                    assert(rest@.subrange(0, i as int) =~= rest@.take(i as int));
                }
                let piece = trim(rest.substring_char(0, i));
                if str_eq(piece, item) {
                    return true;
                }
                proof {
                    assert(rest@.subrange(i + 1, rlen as int) =~= rest@.skip(i + 1));
                }
                rest = rest.substring_char(i + 1, rlen);
            },
            None => {
                let piece = trim(rest);
                return str_eq(piece, item);
            },
        }
    }
}

/// Trimmed value literal with quotes stripped.
fn unquote(s: &str) -> (r: &str)
    ensures
        r@ == spec_unquote(s@),
{
    strip_char(strip_char(trim(s), '\''), '"')
}

/// Evaluate a single-predicate condition against the bindings.
///
/// Returns the boolean the condition denotes, an error naming an unbound
/// variable, or a syntax error quoting the (trimmed) condition.
pub fn evaluate_condition(condition: &str, vars: &VarMap) -> (r: Result<bool, CondError>)
    requires
        vars.wf(),
    ensures
        match r {
            Ok(b) => spec_eval_condition(condition@, vars@) == CondOutcome::Value(b),
            Err(CondError::VariableNotFound { name }) => spec_eval_condition(condition@, vars@)
                == CondOutcome::MissingVar(name@),
            Err(CondError::UnsupportedSyntax { condition: c }) => spec_eval_condition(
                condition@,
                vars@,
            ) == CondOutcome::BadSyntax && c@ == spec_trim(condition@),
        },
{
    let c = trim(condition);
    let clen = c.unicode_len();
    match find_sub(c, " contains ") {
        Some(i) => {
            let plen = " contains ".unicode_len();
            proof {
                lemma_find_from_found(c@, " contains "@, 0, i as int);
                assert(c@.subrange(0, i as int) =~= c@.take(i as int));
                assert(c@.subrange(i + plen, clen as int) =~= c@.skip(i + plen));
            }
            let var = trim(c.substring_char(0, i));
            let item = unquote(c.substring_char(i + plen, clen));
            match vars.get(var) {
                Some(value) => Ok(csv_contains(value.as_str(), item)),
                None => Err(CondError::VariableNotFound { name: var.to_owned() }),
            }
        },
        None => match find_sub(c, " == ") {
            Some(i) => {
                let plen = " == ".unicode_len();
                proof {
                    lemma_find_from_found(c@, " == "@, 0, i as int);
                    assert(c@.subrange(0, i as int) =~= c@.take(i as int));
                    assert(c@.subrange(i + plen, clen as int) =~= c@.skip(i + plen));
                }
                let var = trim(c.substring_char(0, i));
                let val = unquote(c.substring_char(i + plen, clen));
                match vars.get(var) {
                    Some(value) => Ok(str_eq(value.as_str(), val)),
                    None => Err(CondError::VariableNotFound { name: var.to_owned() }),
                }
            },
            None => match find_sub(c, " != ") {
                Some(i) => {
                    let plen = " != ".unicode_len();
                    proof {
                        lemma_find_from_found(c@, " != "@, 0, i as int);
                        assert(c@.subrange(0, i as int) =~= c@.take(i as int));
                        assert(c@.subrange(i + plen, clen as int) =~= c@.skip(i + plen));
                    }
                    let var = trim(c.substring_char(0, i));
                    let val = unquote(c.substring_char(i + plen, clen));
                    match vars.get(var) {
                        Some(value) => Ok(!str_eq(value.as_str(), val)),
                        None => Err(CondError::VariableNotFound { name: var.to_owned() }),
                    }
                },
                None => Err(CondError::UnsupportedSyntax { condition: c.to_owned() }),
            },
        },
    }
}

} // verus!
