//! Host names as the name resolution library accepts them, and lists of
//! cluster entry points given on a command line.
use vstd::prelude::*;
use abstract_ns::Name;

use crate::text::str_eq;

verus! {

#[verifier::external_type_specification]
#[verifier::external_body]
pub struct ExName(Name);

/// Why a host name is refused.
pub enum NameProblem {
    /// An empty part (a leading dot or two dots in a row).
    Dot,
    /// A character other than `a`-`z`, `0`-`9`, `-` and `_`.
    InvalidChar,
    /// A part that starts or ends with a dash.
    PrefixSuffix,
}

/// A character allowed in a part of a name.
pub open spec fn name_char(c: char) -> bool {
    ('a' <= c <= 'z') || ('0' <= c <= '9') || c == '-' || c == '_'
}

/// The parts of `s` between dots, as `str::split('.')` gives them.
pub open spec fn split_dots(s: Seq<char>) -> Seq<Seq<char>>
    decreases s.len(),
{
    if s.len() == 0 {
        seq![Seq::empty()]
    } else {
        let rest = split_dots(s.drop_last());
        if s.last() == '.' {
            rest.push(Seq::empty())
        } else {
            rest.update(rest.len() - 1, rest.last().push(s.last()))
        }
    }
}

/// What is wrong with one part of a name, if anything.
pub open spec fn piece_problem(p: Seq<char>) -> Option<NameProblem> {
    if p.len() == 0 {
        Some(NameProblem::Dot)
    } else if !(forall|i: int| 0 <= i < p.len() ==> name_char(#[trigger] p[i])) {
        Some(NameProblem::InvalidChar)
    } else if p[0] == '-' || p.last() == '-' {
        Some(NameProblem::PrefixSuffix)
    } else {
        None
    }
}

/// The problem of the first part that has one.
pub open spec fn first_problem(pieces: Seq<Seq<char>>) -> Option<NameProblem>
    decreases pieces.len(),
{
    if pieces.len() == 0 {
        None
    } else {
        match piece_problem(pieces[0]) {
            Some(p) => Some(p),
            None => first_problem(pieces.drop_first()),
        }
    }
}

/// What is wrong with a name, if anything: one trailing dot is allowed, then
/// each part between dots must be non-empty, made of `a`-`z`, `0`-`9`, `-`
/// and `_`, and must neither start nor end with a dash.
pub open spec fn name_check(s: Seq<char>) -> Option<NameProblem> {
    let body = if s.len() > 0 && s.last() == '.' {
        s.drop_last()
    } else {
        s
    };
    first_problem(split_dots(body))
}

/// The message of a refused name.
pub open spec fn problem_message(p: NameProblem) -> Seq<char> {
    match p {
        NameProblem::Dot => "DotError"@,
        NameProblem::InvalidChar => "InvalidChar"@,
        NameProblem::PrefixSuffix => "InvalidPrefixSuffix"@,
    }
}

/// The name `abstract_ns` makes of the text `text`.
pub uninterp spec fn parsed_name(text: Seq<char>) -> Name;

/// What parsing `s` as a name gives: the name made of `s` when
/// `name_check` finds no problem, otherwise the message of the problem.
pub open spec fn name_parse_outcome(s: Seq<char>, res: Result<Name, String>) -> bool {
    match name_check(s) {
        None => res matches Ok(n) && n == parsed_name(s),
        Some(p) => res matches Err(m) && m@ == problem_message(p),
    }
}

/// Calls `<abstract_ns::Name as FromStr>::from_str` and renders its error with
/// `to_string`. By the crate's source (`namecheck`) the name is accepted exactly
/// when `name_check` finds no problem; the error's variants declare no
/// `display`, so `quick-error` renders the first problem found by the
/// variant's name (`DotError`, `InvalidChar` or `InvalidPrefixSuffix`).
#[verifier::external_body]
pub(crate) fn parse_name(s: &str) -> (res: Result<Name, String>)
    ensures
        name_parse_outcome(s@, res),
        res is Ok ==> res.unwrap() == parsed_name(s@),
{
    s.parse::<Name>().map_err(|e| e.to_string())
}

/// Calls `<abstract_ns::Name as Clone>::clone`; the derived clone clones the
/// shared string, so the copy is the same name.
#[verifier::external_body]
pub(crate) fn clone_name(n: &Name) -> (res: Name)
    ensures
        res == *n,
{
    n.clone()
}

} // verus!
