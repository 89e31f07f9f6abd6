use vstd::prelude::*;
use crate::value::{ColumnType, Val, Value, views, chars_equal, copy_chars, type_of};
use crate::expr::{Expr, Declared, tenv_view, type_of_expr};
use crate::parse::{SyntaxError, parse_output, ExprV, expr_view, parse_spec};
use crate::column::{Column, Policy, Aggregate, column_wf, policy_wf};
use crate::process::{Process, process_wf, columns_wf, value_name, sibling_name};
use crate::pipeline::{Program, OnTitle, program_wf};

verus! {

/// A configuration document: the plain tree a YAML loader yields.
#[derive(Debug)]
pub enum Doc {
    Null,
    Bool(bool),
    Int(i64),
    /// A real number, as written.
    Real(Vec<char>),
    Str(Vec<char>),
    List(Vec<Doc>),
    /// Entries in document order, keys as text.
    Mapping(Vec<(Vec<char>, Doc)>),
}

/// What is wrong with a configuration.
#[derive(Debug)]
pub enum ConfigIssue {
    ExpectedMap,
    ExpectedList,
    ExpectedString,
    ExpectedBool,
    MissingKey(Vec<char>),
    UnknownKey(Vec<char>),
    /// A companion key that no chosen policy uses.
    UnusedKey(Vec<char>),
    /// A column type that is not `boolean`, `integer` or `string`.
    UnknownType(Vec<char>),
    /// Real columns and constants are not part of this library.
    RealUnsupported,
    /// A constant of another type than the one its key asks for.
    ConstantType(Vec<char>),
    UnknownPolicy(Vec<char>),
    UnknownAggregate(Vec<char>),
    UnknownOnTitle(Vec<char>),
    /// `valid-streak` is not a positive integer.
    StreakNotPositive,
    /// `on-null: average` without `on-invalid: average`.
    NullAverage,
    /// `on-null: sentinel` or `previous` beside `on-invalid: average`: a fill would land
    /// in the output while the column holds positions back.
    FillWhileAveraging,
    /// Averaging asks for a numeric output type.
    NotNumeric,
    /// An ignored column with keys beyond its title and type.
    IgnoredWithKeys,
    Syntax(SyntaxError),
    /// The output expression does not have the output type.
    OutputType,
    DuplicateTitle(Vec<char>),
    /// `aggregate-column` names no column that has output.
    AggregateColumn(Vec<char>),
    /// A process's columns do not match the outputs of the one before.
    ChainMismatch,
    NoProcesses,
}

/// A configuration error, with the process and column it was found in (empty when none).
#[derive(Debug)]
pub struct ConfigError {
    pub process: Vec<char>,
    pub column: Vec<char>,
    pub issue: ConfigIssue,
}

pub open spec fn keys_of(m: Seq<(Vec<char>, Doc)>) -> Seq<Seq<char>> {
    m.map_values(|e: (Vec<char>, Doc)| e.0@)
}

/// Every key of `m` is one of `allowed`.
pub open spec fn keys_known(m: Seq<(Vec<char>, Doc)>, allowed: Seq<Seq<char>>) -> bool {
    forall|i: int| 0 <= i < m.len() ==> allowed.contains(#[trigger] m[i].0@)
}

fn err(issue: ConfigIssue) -> (r: ConfigError)
    ensures
        r.process@.len() == 0 && r.column@.len() == 0 && r.issue == issue,
{
    ConfigError { process: Vec::new(), column: Vec::new(), issue }
}

fn words(ws: &[&str]) -> (r: Vec<Vec<char>>)
    ensures
        r@.len() == ws@.len(),
        forall|i: int| 0 <= i < ws@.len() ==> (#[trigger] r@[i])@ == ws@[i]@,
{
    let mut r: Vec<Vec<char>> = Vec::new();
    let mut i: usize = 0;
    while i < ws.len()
        invariant
            i <= ws@.len(),
            r@.len() == i,
            forall|k: int| 0 <= k < i ==> (#[trigger] r@[k])@ == ws@[k]@,
        decreases ws@.len() - i,
    {
        r.push(crate::csv::text_chars(ws[i]));
        i = i + 1;
    }
    r
}

/// The first key of `m` that is not allowed, if any.
fn unknown_key(m: &Vec<(Vec<char>, Doc)>, allowed: &Vec<Vec<char>>) -> (r: Option<Vec<char>>)
    ensures
        r is None <==> keys_known(m@, allowed@.map_values(|w: Vec<char>| w@)),
        r matches Some(k) ==> !allowed@.map_values(|w: Vec<char>| w@).contains(k@),
        r matches Some(k) ==> first_unknown(m@, allowed@.map_values(|w: Vec<char>| w@)) == Some(k@),
        r is None ==> first_unknown(m@, allowed@.map_values(|w: Vec<char>| w@)) is None,
{
    let ghost av = allowed@.map_values(|w: Vec<char>| w@);
    let mut i: usize = 0;
    assert(m@.skip(0) =~= m@);
    while i < m.len()
        invariant
            i <= m.len(),
            av == allowed@.map_values(|w: Vec<char>| w@),
            forall|k: int| 0 <= k < i ==> av.contains(#[trigger] m@[k].0@),
            first_unknown(m@, av) == first_unknown(m@.skip(i as int), av),
        decreases m.len() - i,
    {
        let mut found = false;
        let mut j: usize = 0;
        while j < allowed.len()
            invariant
                j <= allowed.len(),
                i < m.len(),
                av == allowed@.map_values(|w: Vec<char>| w@),
                found ==> av.contains(m@[i as int].0@),
                !found ==> forall|x: int| 0 <= x < j ==> av[x] != m@[i as int].0@,
            decreases allowed.len() - j,
        {
            if chars_equal(&allowed[j], &m[i].0) {
                assert(av[j as int] == m@[i as int].0@);
                found = true;
            }
            j = j + 1;
        }
        assert(m@.skip(i as int)[0] == m@[i as int]);
        if !found {
            assert(!av.contains(m@[i as int].0@));
            return Some(copy_chars(&m[i].0));
        }
        assert(m@.skip(i as int).drop_first() =~= m@.skip(i + 1));
        i = i + 1;
    }
    assert(m@.skip(i as int) =~= Seq::<(Vec<char>, Doc)>::empty());
    None
}

/// The value of the first entry of `m` under key `k`.
pub open spec fn lookup_key(m: Seq<(Vec<char>, Doc)>, k: Seq<char>) -> Option<Doc>
    decreases m.len(),
{
    if m.len() == 0 {
        None
    } else if m[0].0@ == k {
        Some(m[0].1)
    } else {
        lookup_key(m.drop_first(), k)
    }
}

fn get<'a>(m: &'a Vec<(Vec<char>, Doc)>, key: &str) -> (r: Option<&'a Doc>)
    ensures
        r matches Some(d) ==> lookup_key(m@, key@) == Some(*d),
        r is None ==> lookup_key(m@, key@) is None,
{
    let k = crate::csv::text_chars(key);
    let mut i: usize = 0;
    assert(m@.skip(0) =~= m@);
    while i < m.len()
        invariant
            i <= m.len(),
            k@ == key@,
            lookup_key(m@, key@) == lookup_key(m@.skip(i as int), key@),
        decreases m.len() - i,
    {
        assert(m@.skip(i as int)[0] == m@[i as int]);
        if chars_equal(&m[i].0, &k) {
            return Some(&m[i].1);
        }
        assert(m@.skip(i as int).drop_first() =~= m@.skip(i + 1));
        i = i + 1;
    }
    None
}

/// The column type a name denotes.
pub open spec fn type_named(s: Seq<char>) -> Option<ColumnType> {
    if s == "boolean"@ {
        Some(ColumnType::Boolean)
    } else if s == "integer"@ {
        Some(ColumnType::Integer)
    } else if s == "string"@ {
        Some(ColumnType::Str)
    } else {
        None
    }
}

/// The string under key `k`, if it is one.
pub open spec fn str_at(m: Seq<(Vec<char>, Doc)>, k: Seq<char>) -> Option<Seq<char>> {
    match lookup_key(m, k) {
        Some(Doc::Str(s)) => Some(s@),
        _ => None,
    }
}

fn get_str(m: &Vec<(Vec<char>, Doc)>, key: &str) -> (r: Result<Option<Vec<char>>, ConfigError>)
    ensures
        r matches Ok(Some(s)) ==> str_at(m@, key@) == Some(s@),
        r matches Ok(None) ==> lookup_key(m@, key@) is None,
        r is Ok <==> str_or_absent(m@, key@),
        r matches Err(e) ==> e.process@.len() == 0 && e.column@.len() == 0,
        r matches Err(e) ==> !(e.issue is OutputType),
        r matches Err(e) ==> Some(issue_view(e.issue)) == opt_str_issue(m@, key@),
        r is Ok ==> opt_str_issue(m@, key@) is None,
{
    match get(m, key) {
        None => Ok(None),
        Some(Doc::Str(s)) => Ok(Some(copy_chars(s))),
        Some(_) => Err(err(ConfigIssue::ExpectedString)),
    }
}

fn require_str(m: &Vec<(Vec<char>, Doc)>, key: &str) -> (r: Result<Vec<char>, ConfigError>)
    ensures
        r matches Ok(s) ==> str_at(m@, key@) == Some(s@),
        r is Ok <==> str_at(m@, key@) is Some,
        r matches Err(e) ==> e.process@.len() == 0 && e.column@.len() == 0,
        r matches Err(e) ==> !(e.issue is OutputType),
        r matches Err(e) ==> Some(issue_view(e.issue)) == req_str_issue(m@, key@),
        r is Ok ==> req_str_issue(m@, key@) is None,
{
    match get_str(m, key) {
        Ok(Some(s)) => Ok(s),
        Ok(None) => Err(err(ConfigIssue::MissingKey(crate::csv::text_chars(key)))),
        Err(e) => Err(e),
    }
}

/// Key `k` is absent or holds a string.
pub open spec fn str_or_absent(m: Seq<(Vec<char>, Doc)>, k: Seq<char>) -> bool {
    match lookup_key(m, k) {
        None => true,
        Some(Doc::Str(_)) => true,
        _ => false,
    }
}


/// The model of a `ConfigIssue`.
pub enum IssueV {
    ExpectedMap,
    ExpectedList,
    ExpectedString,
    ExpectedBool,
    MissingKey(Seq<char>),
    UnknownKey(Seq<char>),
    UnusedKey(Seq<char>),
    UnknownType(Seq<char>),
    RealUnsupported,
    ConstantType(Seq<char>),
    UnknownPolicy(Seq<char>),
    UnknownAggregate(Seq<char>),
    UnknownOnTitle(Seq<char>),
    StreakNotPositive,
    NullAverage,
    FillWhileAveraging,
    NotNumeric,
    IgnoredWithKeys,
    Syntax(SyntaxError),
    OutputType,
    DuplicateTitle(Seq<char>),
    AggregateColumn(Seq<char>),
    ChainMismatch,
    NoProcesses,
}

pub open spec fn issue_view(i: ConfigIssue) -> IssueV {
    match i {
        ConfigIssue::ExpectedMap => IssueV::ExpectedMap,
        ConfigIssue::ExpectedList => IssueV::ExpectedList,
        ConfigIssue::ExpectedString => IssueV::ExpectedString,
        ConfigIssue::ExpectedBool => IssueV::ExpectedBool,
        ConfigIssue::MissingKey(k) => IssueV::MissingKey(k@),
        ConfigIssue::UnknownKey(k) => IssueV::UnknownKey(k@),
        ConfigIssue::UnusedKey(k) => IssueV::UnusedKey(k@),
        ConfigIssue::UnknownType(k) => IssueV::UnknownType(k@),
        ConfigIssue::RealUnsupported => IssueV::RealUnsupported,
        ConfigIssue::ConstantType(k) => IssueV::ConstantType(k@),
        ConfigIssue::UnknownPolicy(k) => IssueV::UnknownPolicy(k@),
        ConfigIssue::UnknownAggregate(k) => IssueV::UnknownAggregate(k@),
        ConfigIssue::UnknownOnTitle(k) => IssueV::UnknownOnTitle(k@),
        ConfigIssue::StreakNotPositive => IssueV::StreakNotPositive,
        ConfigIssue::NullAverage => IssueV::NullAverage,
        ConfigIssue::FillWhileAveraging => IssueV::FillWhileAveraging,
        ConfigIssue::NotNumeric => IssueV::NotNumeric,
        ConfigIssue::IgnoredWithKeys => IssueV::IgnoredWithKeys,
        ConfigIssue::Syntax(e) => IssueV::Syntax(e),
        ConfigIssue::OutputType => IssueV::OutputType,
        ConfigIssue::DuplicateTitle(k) => IssueV::DuplicateTitle(k@),
        ConfigIssue::AggregateColumn(k) => IssueV::AggregateColumn(k@),
        ConfigIssue::ChainMismatch => IssueV::ChainMismatch,
        ConfigIssue::NoProcesses => IssueV::NoProcesses,
    }
}

/// The first key of `m` that is not one of `allowed`.
pub open spec fn first_unknown(m: Seq<(Vec<char>, Doc)>, allowed: Seq<Seq<char>>) -> Option<Seq<char>>
    decreases m.len(),
{
    if m.len() == 0 {
        None
    } else if !allowed.contains(m[0].0@) {
        Some(m[0].0@)
    } else {
        first_unknown(m.drop_first(), allowed)
    }
}

/// The issue with a required string key.
pub open spec fn req_str_issue(m: Seq<(Vec<char>, Doc)>, k: Seq<char>) -> Option<IssueV> {
    match lookup_key(m, k) {
        None => Some(IssueV::MissingKey(k)),
        Some(Doc::Str(_)) => None,
        _ => Some(IssueV::ExpectedString),
    }
}

/// The issue with an optional string key.
pub open spec fn opt_str_issue(m: Seq<(Vec<char>, Doc)>, k: Seq<char>) -> Option<IssueV> {
    match lookup_key(m, k) {
        None => None,
        Some(Doc::Str(_)) => None,
        _ => Some(IssueV::ExpectedString),
    }
}

/// The issue with a type name.
pub open spec fn type_issue(n: Seq<char>) -> Option<IssueV> {
    if type_named(n) is Some {
        None
    } else if n == "real"@ || n == "float"@ {
        Some(IssueV::RealUnsupported)
    } else {
        Some(IssueV::UnknownType(n))
    }
}

/// The issue with a constant of type `t` under `key`.
pub open spec fn const_issue(d: Doc, t: ColumnType, key: Seq<char>) -> Option<IssueV> {
    match d {
        Doc::Real(_) => Some(IssueV::RealUnsupported),
        _ => if constant_ok(d, t) {
            None
        } else {
            Some(IssueV::ConstantType(key))
        },
    }
}

/// The issue with the first bad constant of `items` from `i` on.
pub open spec fn items_issue(items: Seq<Doc>, t: ColumnType, key: Seq<char>, i: int) -> Option<IssueV>
    decreases items.len() - i,
{
    if i < 0 || i >= items.len() {
        None
    } else if const_issue(items[i], t, key) is Some {
        const_issue(items[i], t, key)
    } else {
        items_issue(items, t, key, i + 1)
    }
}

pub open spec fn list_issue(m: Seq<(Vec<char>, Doc)>, key: Seq<char>, t: ColumnType) -> Option<IssueV> {
    match lookup_key(m, key) {
        None => None,
        Some(Doc::List(items)) => items_issue(items@, t, key, 0),
        Some(_) => Some(IssueV::ExpectedList),
    }
}

pub open spec fn const_at_issue(m: Seq<(Vec<char>, Doc)>, key: Seq<char>, t: ColumnType) -> Option<IssueV> {
    match lookup_key(m, key) {
        None => None,
        Some(d) => const_issue(d, t, key),
    }
}

/// The issue with the policy under `key` and its companion keys.
pub open spec fn policy_issue(m: Seq<(Vec<char>, Doc)>, key: Seq<char>, sentinel_key: Seq<char>, out: ColumnType) -> Option<IssueV> {
    match lookup_key(m, key) {
        None => None,
        Some(Doc::Str(s)) => if s@ == "abort"@ || s@ == "delete"@ {
            None
        } else if s@ == "average"@ {
            match lookup_key(m, "valid-streak"@) {
                None => Some(IssueV::MissingKey("valid-streak"@)),
                Some(Doc::Int(k)) => if 1 <= k && k <= usize::MAX {
                    None
                } else {
                    Some(IssueV::StreakNotPositive)
                },
                Some(_) => Some(IssueV::StreakNotPositive),
            }
        } else if s@ == "previous"@ || s@ == "sentinel"@ {
            match lookup_key(m, sentinel_key) {
                None => Some(IssueV::MissingKey(sentinel_key)),
                Some(d) => const_issue(d, out, sentinel_key),
            }
        } else {
            Some(IssueV::UnknownPolicy(s@))
        },
        Some(_) => Some(IssueV::ExpectedString),
    }
}

pub open spec fn is_fill_name(s: Option<Seq<char>>) -> bool {
    s == Some("previous"@) || s == Some("sentinel"@)
}

/// The first issue with an entry's keys, title, types and `ignore`.
pub open spec fn issue_head(m: Seq<(Vec<char>, Doc)>) -> Option<IssueV> {
    if first_unknown(m, column_keys()) is Some {
        Some(IssueV::UnknownKey(first_unknown(m, column_keys())->Some_0))
    } else if req_str_issue(m, "title"@) is Some {
        req_str_issue(m, "title"@)
    } else if req_str_issue(m, "column-type"@) is Some {
        req_str_issue(m, "column-type"@)
    } else if type_issue(str_at(m, "column-type"@)->Some_0) is Some {
        type_issue(str_at(m, "column-type"@)->Some_0)
    } else if lookup_key(m, "ignore"@) is Some && !(lookup_key(m, "ignore"@)->Some_0 is Bool) {
        Some(IssueV::ExpectedBool)
    } else if lookup_key(m, "ignore"@) == Some(Doc::Bool(true)) && !keys_known(
        m,
        seq!["title"@, "column-type"@, "ignore"@],
    ) {
        Some(IssueV::IgnoredWithKeys)
    } else if opt_str_issue(m, "output-type"@) is Some {
        opt_str_issue(m, "output-type"@)
    } else if str_at(m, "output-type"@) is Some && type_issue(str_at(m, "output-type"@)->Some_0) is Some {
        type_issue(str_at(m, "output-type"@)->Some_0)
    } else {
        None
    }
}

/// The first issue with an entry's value lists and bounds, of input type `t`.
pub open spec fn issue_values(m: Seq<(Vec<char>, Doc)>, t: ColumnType) -> Option<IssueV> {
    if list_issue(m, "null-surrogates"@, t) is Some {
        list_issue(m, "null-surrogates"@, t)
    } else if list_issue(m, "valid-values"@, t) is Some {
        list_issue(m, "valid-values"@, t)
    } else if list_issue(m, "invalid-values"@, t) is Some {
        list_issue(m, "invalid-values"@, t)
    } else if const_at_issue(m, "min"@, t) is Some {
        const_at_issue(m, "min"@, t)
    } else {
        const_at_issue(m, "max"@, t)
    }
}

/// The first issue with an entry's policies and their combination, of output type `out`.
pub open spec fn issue_policies(m: Seq<(Vec<char>, Doc)>, out: ColumnType) -> Option<IssueV> {
    let inv = str_at(m, "on-invalid"@);
    let nul = str_at(m, "on-null"@);
    let averages = inv == Some("average"@) || nul == Some("average"@);
    if policy_issue(m, "on-invalid"@, "invalid-sentinel"@, out) is Some {
        policy_issue(m, "on-invalid"@, "invalid-sentinel"@, out)
    } else if policy_issue(m, "on-null"@, "null-sentinel"@, out) is Some {
        policy_issue(m, "on-null"@, "null-sentinel"@, out)
    } else if lookup_key(m, "invalid-sentinel"@) is Some && !is_fill_name(inv) {
        Some(IssueV::UnusedKey("invalid-sentinel"@))
    } else if lookup_key(m, "null-sentinel"@) is Some && !is_fill_name(nul) {
        Some(IssueV::UnusedKey("null-sentinel"@))
    } else if lookup_key(m, "valid-streak"@) is Some && !averages {
        Some(IssueV::UnusedKey("valid-streak"@))
    } else if nul == Some("average"@) && inv != Some("average"@) {
        Some(IssueV::NullAverage)
    } else if inv == Some("average"@) && is_fill_name(nul) {
        Some(IssueV::FillWhileAveraging)
    } else if averages && !out.numeric() {
        Some(IssueV::NotNumeric)
    } else {
        None
    }
}

/// The first issue with an entry's output expression and aggregate.
pub open spec fn issue_tail(m: Seq<(Vec<char>, Doc)>, out: ColumnType) -> Option<IssueV> {
    if opt_str_issue(m, "output"@) is Some {
        opt_str_issue(m, "output"@)
    } else if str_at(m, "output"@) is Some && parse_spec(str_at(m, "output"@)->Some_0) is Err {
        Some(IssueV::Syntax(parse_spec(str_at(m, "output"@)->Some_0)->Err_0))
    } else if opt_str_issue(m, "aggregate"@) is Some {
        opt_str_issue(m, "aggregate"@)
    } else {
        match str_at(m, "aggregate"@) {
            Some(a) => if a == "first"@ || a == "last"@ {
                None
            } else if a == "average"@ {
                if out.numeric() {
                    None
                } else {
                    Some(IssueV::NotNumeric)
                }
            } else {
                Some(IssueV::UnknownAggregate(a))
            },
            None => None,
        }
    }
}

/// The issue a column entry is reported with: the first check that fails, in the order
/// keys, title, types and `ignore`; value lists and bounds; policies and their
/// combination; output expression and aggregate.
pub open spec fn column_issue_map(m: Seq<(Vec<char>, Doc)>) -> Option<IssueV> {
    let t = input_type_at(m)->Some_0;
    let out = output_type_at(m, t);
    if issue_head(m) is Some {
        issue_head(m)
    } else if issue_values(m, t) is Some {
        issue_values(m, t)
    } else if issue_policies(m, out) is Some {
        issue_policies(m, out)
    } else {
        issue_tail(m, out)
    }
}

pub open spec fn column_issue(d: Doc) -> Option<IssueV> {
    match d {
        Doc::Mapping(m) => column_issue_map(m@),
        _ => Some(IssueV::ExpectedMap),
    }
}


/// The first error among column entries from `i` on: a column's own issue, or a title
/// repeated from an earlier entry; with the column it names.
pub open spec fn columns_error(items: Seq<Doc>, i: int) -> Option<(IssueV, Seq<char>)>
    decreases items.len() - i,
{
    if i < 0 || i >= items.len() {
        None
    } else if column_issue(items[i]) is Some {
        Some((column_issue(items[i])->Some_0, title_or_empty(entry_map(items[i]))))
    } else if exists|x: int| 0 <= x < i && doc_title(#[trigger] items[x]) == doc_title(items[i]) {
        Some((IssueV::DuplicateTitle(Seq::empty()), doc_title(items[i])))
    } else {
        columns_error(items, i + 1)
    }
}

/// The first non-ignored entry from `j` on whose output expression lacks its output type.
pub open spec fn types_error(items: Seq<Doc>, j: int) -> Option<(IssueV, Seq<char>)>
    decreases items.len() - j,
{
    if j < 0 || j >= items.len() {
        None
    } else if !doc_ignored(items[j]) && type_of_exprv(expr_at(entry_map(items[j])), doc_env(items, j)) != Some(
        doc_output(items[j]),
    ) {
        Some((IssueV::OutputType, doc_title(items[j])))
    } else {
        types_error(items, j + 1)
    }
}

/// The error a process entry is reported with, and the column it names (empty for none).
pub open spec fn process_error_map(m: Seq<(Vec<char>, Doc)>) -> Option<(IssueV, Seq<char>)> {
    if first_unknown(m, process_keys()) is Some {
        Some((IssueV::UnknownKey(first_unknown(m, process_keys())->Some_0), Seq::empty()))
    } else if req_str_issue(m, "name"@) is Some {
        Some((req_str_issue(m, "name"@)->Some_0, Seq::empty()))
    } else {
        match lookup_key(m, "columns"@) {
            None => Some((IssueV::MissingKey("columns"@), Seq::empty())),
            Some(Doc::List(items)) => if columns_error(items@, 0) is Some {
                columns_error(items@, 0)
            } else if types_error(items@, 0) is Some {
                types_error(items@, 0)
            } else if opt_str_issue(m, "aggregate-column"@) is Some {
                Some((opt_str_issue(m, "aggregate-column"@)->Some_0, Seq::empty()))
            } else {
                match str_at(m, "aggregate-column"@) {
                    Some(t) => if exists|j: int|
                        0 <= j < items@.len() && doc_title(#[trigger] items@[j]) == t && !doc_ignored(items@[j]) {
                        None
                    } else {
                        Some((IssueV::AggregateColumn(t), Seq::empty()))
                    },
                    None => None,
                }
            },
            Some(_) => Some((IssueV::ExpectedList, Seq::empty())),
        }
    }
}

pub open spec fn process_error(d: Doc) -> Option<(IssueV, Seq<char>)> {
    match d {
        Doc::Mapping(m) => process_error_map(m@),
        _ => Some((IssueV::ExpectedMap, Seq::empty())),
    }
}

/// The first error among process entries from `i` on, with the process and column it
/// names: a process's own error, or a process that does not read the outputs of the one
/// before.
pub open spec fn processes_error(ps: Seq<Doc>, i: int) -> Option<(IssueV, Seq<char>, Seq<char>)>
    decreases ps.len() - i,
{
    if i < 0 || i >= ps.len() {
        None
    } else if process_error(ps[i]) is Some {
        Some((process_error(ps[i])->Some_0.0, name_or_empty(entry_map(ps[i])), process_error(ps[i])->Some_0.1))
    } else if i > 0 && doc_out_types(doc_columns(ps[i - 1]), doc_columns(ps[i - 1]).len() as int)
        != doc_in_types(doc_columns(ps[i])) {
        Some((IssueV::ChainMismatch, name_or_empty(entry_map(ps[i])), Seq::empty()))
    } else {
        processes_error(ps, i + 1)
    }
}

/// The error a configuration is reported with: its issue, and the process and column it
/// names (empty for none).
pub open spec fn program_error(d: Doc) -> Option<(IssueV, Seq<char>, Seq<char>)> {
    match d {
        Doc::Mapping(mm) => {
            let m = mm@;
            if first_unknown(m, program_keys()) is Some {
                Some((IssueV::UnknownKey(first_unknown(m, program_keys())->Some_0), Seq::empty(), Seq::empty()))
            } else {
                match lookup_key(m, "processes"@) {
                    None => Some((IssueV::MissingKey("processes"@), Seq::empty(), Seq::empty())),
                    Some(Doc::List(ps)) => if processes_error(ps@, 0) is Some {
                        processes_error(ps@, 0)
                    } else if ps@.len() == 0 {
                        Some((IssueV::NoProcesses, Seq::empty(), Seq::empty()))
                    } else if opt_str_issue(m, "on-title"@) is Some {
                        Some((opt_str_issue(m, "on-title"@)->Some_0, Seq::empty(), Seq::empty()))
                    } else {
                        match str_at(m, "on-title"@) {
                            Some(t) => if t == "once"@ || t == "combine"@ || t == "split"@ {
                                None
                            } else {
                                Some((IssueV::UnknownOnTitle(t), Seq::empty(), Seq::empty()))
                            },
                            None => None,
                        }
                    },
                    Some(_) => Some((IssueV::ExpectedList, Seq::empty(), Seq::empty())),
                }
            }
        },
        _ => Some((IssueV::ExpectedMap, Seq::empty(), Seq::empty())),
    }
}

pub open spec fn error_view(e: ConfigError) -> (IssueV, Seq<char>, Seq<char>) {
    (issue_view(e.issue), e.process@, e.column@)
}

/// The title an entry gives, or nothing.
pub open spec fn title_or_empty(m: Seq<(Vec<char>, Doc)>) -> Seq<char> {
    match str_at(m, "title"@) {
        Some(t) => t,
        None => Seq::empty(),
    }
}

/// The name an entry gives, or nothing.
pub open spec fn name_or_empty(m: Seq<(Vec<char>, Doc)>) -> Seq<char> {
    match str_at(m, "name"@) {
        Some(t) => t,
        None => Seq::empty(),
    }
}

/// The value a constant entry denotes.
pub open spec fn const_val(d: Doc) -> Val {
    match d {
        Doc::Bool(b) => Val::Boolean(b),
        Doc::Int(i) => Val::Integer(i),
        Doc::Str(s) => Val::Str(s@),
        _ => Val::Boolean(false),
    }
}

/// The constant under key `k`, if there is one.
pub open spec fn const_at(m: Seq<(Vec<char>, Doc)>, k: Seq<char>) -> Option<Val> {
    match lookup_key(m, k) {
        Some(d) => Some(const_val(d)),
        None => None,
    }
}

/// The list of constants under key `k`, if there is one.
pub open spec fn list_at(m: Seq<(Vec<char>, Doc)>, k: Seq<char>) -> Option<Seq<Val>> {
    match lookup_key(m, k) {
        Some(Doc::List(items)) => Some(items@.map_values(|d: Doc| const_val(d))),
        _ => None,
    }
}

pub open spec fn opt_list_view(o: Option<Vec<Value>>) -> Option<Seq<Val>> {
    match o {
        Some(v) => Some(views(v@)),
        None => None,
    }
}

/// The model of a policy.
pub enum PolicyV {
    Abort,
    Average(nat),
    Delete,
    Previous(Val),
    Sentinel(Val),
}

pub open spec fn policy_view(p: Policy) -> PolicyV {
    match p {
        Policy::Abort => PolicyV::Abort,
        Policy::Average(k) => PolicyV::Average(k as nat),
        Policy::Delete => PolicyV::Delete,
        Policy::Previous(v) => PolicyV::Previous(v@),
        Policy::Sentinel(v) => PolicyV::Sentinel(v@),
    }
}

/// The policy named under `key` (`abort` when absent), with its streak from
/// `valid-streak` or its value from `sentinel_key`.
pub open spec fn policy_at(m: Seq<(Vec<char>, Doc)>, key: Seq<char>, sentinel_key: Seq<char>) -> PolicyV {
    match str_at(m, key) {
        Some(s) => if s == "delete"@ {
            PolicyV::Delete
        } else if s == "average"@ {
            PolicyV::Average(
                match lookup_key(m, "valid-streak"@) {
                    Some(Doc::Int(k)) => k as nat,
                    _ => 0,
                },
            )
        } else if s == "previous"@ {
            PolicyV::Previous(const_at(m, sentinel_key)->Some_0)
        } else if s == "sentinel"@ {
            PolicyV::Sentinel(const_at(m, sentinel_key)->Some_0)
        } else {
            PolicyV::Abort
        },
        None => PolicyV::Abort,
    }
}

/// The aggregate kind named under `aggregate` (`first` when absent).
pub open spec fn aggregate_at(m: Seq<(Vec<char>, Doc)>) -> Aggregate {
    match str_at(m, "aggregate"@) {
        Some(s) => if s == "last"@ {
            Aggregate::Last
        } else if s == "average"@ {
            Aggregate::Average
        } else {
            Aggregate::First
        },
        None => Aggregate::First,
    }
}

/// A constant of type `t`.
pub open spec fn constant_ok(d: Doc, t: ColumnType) -> bool {
    match d {
        Doc::Bool(_) => t == ColumnType::Boolean,
        Doc::Int(_) => t == ColumnType::Integer,
        Doc::Str(_) => t == ColumnType::Str,
        _ => false,
    }
}

/// Key `k` is absent or holds a constant of type `t`.
pub open spec fn constant_at_ok(m: Seq<(Vec<char>, Doc)>, k: Seq<char>, t: ColumnType) -> bool {
    match lookup_key(m, k) {
        None => true,
        Some(d) => constant_ok(d, t),
    }
}

/// Key `k` is absent or holds a list of constants of type `t`.
pub open spec fn list_at_ok(m: Seq<(Vec<char>, Doc)>, k: Seq<char>, t: ColumnType) -> bool {
    match lookup_key(m, k) {
        None => true,
        Some(Doc::List(items)) => forall|i: int| 0 <= i < items@.len() ==> constant_ok(#[trigger] items@[i], t),
        _ => false,
    }
}

/// Key `key` names a policy with the companion keys it needs.
pub open spec fn policy_ok(m: Seq<(Vec<char>, Doc)>, key: Seq<char>, sentinel_key: Seq<char>, out: ColumnType) -> bool {
    match lookup_key(m, key) {
        None => true,
        Some(Doc::Str(s)) => {
            ||| s@ == "abort"@
            ||| s@ == "delete"@
            ||| (s@ == "average"@ && (lookup_key(m, "valid-streak"@) matches Some(Doc::Int(k)) && 1 <= k
                && k <= usize::MAX))
            ||| ((s@ == "previous"@ || s@ == "sentinel"@) && (lookup_key(m, sentinel_key) matches Some(d)
                && constant_ok(d, out)))
        },
        _ => false,
    }
}

/// A column type by name.
pub fn column_type_of(name: &Vec<char>) -> (r: Result<ColumnType, ConfigIssue>)
    ensures
        r matches Ok(t) ==> type_named(name@) == Some(t),
        type_named(name@) matches Some(t) ==> r matches Ok(u) && u == t,
        r matches Err(e) ==> !(e is OutputType),
        r matches Err(i) ==> Some(issue_view(i)) == type_issue(name@),
{
    let n = name;
    if chars_equal(n, &crate::csv::text_chars("boolean")) {
        Ok(ColumnType::Boolean)
    } else if chars_equal(n, &crate::csv::text_chars("integer")) {
        Ok(ColumnType::Integer)
    } else if chars_equal(n, &crate::csv::text_chars("string")) {
        Ok(ColumnType::Str)
    } else if chars_equal(n, &crate::csv::text_chars("real")) || chars_equal(n, &crate::csv::text_chars("float")) {
        Err(ConfigIssue::RealUnsupported)
    } else {
        Err(ConfigIssue::UnknownType(copy_chars(n)))
    }
}

/// A constant of type `t`, for the key `key`.
pub fn constant(d: &Doc, t: ColumnType, key: &str) -> (r: Result<Value, ConfigIssue>)
    ensures
        r matches Ok(v) ==> type_of(v@) == t && v@ == const_val(*d),
        r is Ok <==> constant_ok(*d, t),
        r matches Err(e) ==> !(e is OutputType),
        r matches Err(i) ==> Some(issue_view(i)) == const_issue(*d, t, key@),
        r is Ok ==> const_issue(*d, t, key@) is None,
{
    let v = match d {
        Doc::Bool(b) => Value::Boolean(*b),
        Doc::Int(i) => Value::Integer(*i),
        Doc::Str(s) => Value::Str(copy_chars(s)),
        Doc::Real(_) => return Err(ConfigIssue::RealUnsupported),
        _ => return Err(ConfigIssue::ConstantType(crate::csv::text_chars(key))),
    };
    if v.column_type() != t {
        return Err(ConfigIssue::ConstantType(crate::csv::text_chars(key)));
    }
    Ok(v)
}

fn constant_list(d: &Doc, t: ColumnType, key: &str) -> (r: Result<Vec<Value>, ConfigIssue>)
    ensures
        r is Ok <==> (d matches Doc::List(items) && forall|i: int|
            0 <= i < items@.len() ==> constant_ok(#[trigger] items@[i], t)),
        r matches Ok(v) ==> (d matches Doc::List(items) && views(v@) == items@.map_values(
            |x: Doc| const_val(x),
        )),
        r matches Err(e) ==> !(e is OutputType),
        r matches Err(i) ==> Some(issue_view(i)) == (match *d { Doc::List(items) => items_issue(items@, t, key@, 0), _ => Some(IssueV::ExpectedList) }),
        r is Ok ==> (d matches Doc::List(items) && items_issue(items@, t, key@, 0) is None),
{
    let items = match d {
        Doc::List(items) => items,
        _ => return Err(ConfigIssue::ExpectedList),
    };
    let mut out: Vec<Value> = Vec::new();
    let mut i: usize = 0;
    while i < items.len()
        invariant
            i <= items.len(),
            forall|x: int| 0 <= x < i ==> constant_ok(#[trigger] items@[x], t),
            (d matches Doc::List(x) && x@ == items@),
            views(out@) == items@.subrange(0, i as int).map_values(|x: Doc| const_val(x)),
            items_issue(items@, t, key@, 0) == items_issue(items@, t, key@, i as int),
        decreases items.len() - i,
    {
        match constant(&items[i], t, key) {
            Ok(v) => {
                let ghost prev = out@;
                out.push(v);
                proof {
                    crate::column::lemma_views_push(prev, v);
                }
                assert(views(out@) =~= items@.subrange(0, i + 1).map_values(|x: Doc| const_val(x)));
            },
            Err(e) => {
                assert(!constant_ok(items@[i as int], t));
                return Err(e);
            },
        }
        i = i + 1;
    }
    assert(items@.subrange(0, items@.len() as int) =~= items@);
    Ok(out)
}

fn optional_constant(m: &Vec<(Vec<char>, Doc)>, key: &str, t: ColumnType) -> (r: Result<Option<Value>, ConfigIssue>)
    ensures
        r matches Ok(Some(v)) ==> type_of(v@) == t,
        r matches Ok(o) ==> crate::column::opt_view(o) == const_at(m@, key@),
        r is Ok <==> constant_at_ok(m@, key@, t),
        r matches Err(e) ==> !(e is OutputType),
        r matches Err(i) ==> Some(issue_view(i)) == const_at_issue(m@, key@, t),
        r is Ok ==> const_at_issue(m@, key@, t) is None,
{
    match get(m, key) {
        None => Ok(None),
        Some(d) => match constant(d, t, key) {
            Ok(v) => Ok(Some(v)),
            Err(e) => Err(e),
        },
    }
}

fn optional_list(m: &Vec<(Vec<char>, Doc)>, key: &str, t: ColumnType) -> (r: Result<Option<Vec<Value>>, ConfigIssue>)
    ensures
        r is Ok <==> list_at_ok(m@, key@, t),
        r matches Ok(o) ==> opt_list_view(o) == list_at(m@, key@),
        r matches Err(e) ==> !(e is OutputType),
        r matches Err(i) ==> Some(issue_view(i)) == list_issue(m@, key@, t),
        r is Ok ==> list_issue(m@, key@, t) is None,
{
    match get(m, key) {
        None => Ok(None),
        Some(d) => match constant_list(d, t, key) {
            Ok(v) => Ok(Some(v)),
            Err(e) => Err(e),
        },
    }
}

/// The policy under `on-<kind>`, with its companion keys `valid-streak` and `<kind>-sentinel`.
/// Sentinels are output values, so they have the output type.
fn policy(m: &Vec<(Vec<char>, Doc)>, on_key: &str, sentinel_key: &str, out: ColumnType) -> (r: Result<Policy, ConfigIssue>)
    ensures
        r matches Ok(p) ==> policy_wf(p) && policy_named(m@, on_key@, sentinel_key@, out, p),
        r is Ok <==> policy_ok(m@, on_key@, sentinel_key@, out),
        r matches Ok(p) ==> policy_view(p) == policy_at(m@, on_key@, sentinel_key@),
        r matches Err(e) ==> !(e is OutputType),
        r matches Err(i) ==> Some(issue_view(i)) == policy_issue(m@, on_key@, sentinel_key@, out),
        r is Ok ==> policy_issue(m@, on_key@, sentinel_key@, out) is None,
{
    proof {
        reveal_strlit("abort");
        reveal_strlit("delete");
        reveal_strlit("average");
        reveal_strlit("previous");
        reveal_strlit("sentinel");
        assert("abort"@.len() == 5);
        assert("delete"@.len() == 6);
        assert("average"@.len() == 7);
        assert("previous"@.len() == 8);
        assert("sentinel"@.len() == 8);
        assert("previous"@[0] != "sentinel"@[0]);
    }
    let name = match get(m, on_key) {
        None => return Ok(Policy::Abort),
        Some(Doc::Str(s)) => copy_chars(s),
        Some(_) => return Err(ConfigIssue::ExpectedString),
    };
    if chars_equal(&name, &crate::csv::text_chars("abort")) {
        Ok(Policy::Abort)
    } else if chars_equal(&name, &crate::csv::text_chars("delete")) {
        Ok(Policy::Delete)
    } else if chars_equal(&name, &crate::csv::text_chars("average")) {
        match get(m, "valid-streak") {
            None => Err(ConfigIssue::MissingKey(crate::csv::text_chars("valid-streak"))),
            Some(Doc::Int(k)) => {
                if *k >= 1 && (*k as u64) <= (usize::MAX as u64) {
                    Ok(Policy::Average(*k as usize))
                } else {
                    Err(ConfigIssue::StreakNotPositive)
                }
            },
            Some(_) => Err(ConfigIssue::StreakNotPositive),
        }
    } else if chars_equal(&name, &crate::csv::text_chars("previous")) || chars_equal(
        &name,
        &crate::csv::text_chars("sentinel"),
    ) {
        let s = match get(m, sentinel_key) {
            None => return Err(ConfigIssue::MissingKey(crate::csv::text_chars(sentinel_key))),
            Some(d) => match constant(d, out, sentinel_key) {
                Ok(v) => v,
                Err(e) => return Err(e),
            },
        };
        if chars_equal(&name, &crate::csv::text_chars("previous")) {
            Ok(Policy::Previous(s))
        } else {
            Ok(Policy::Sentinel(s))
        }
    } else {
        Err(ConfigIssue::UnknownPolicy(name))
    }
}

/// The policy that key `key` of `m` names, with its companion keys.
pub open spec fn policy_named(m: Seq<(Vec<char>, Doc)>, key: Seq<char>, sentinel_key: Seq<char>, out: ColumnType, p: Policy) -> bool {
    match lookup_key(m, key) {
        None => p is Abort,
        Some(Doc::Str(s)) => {
            &&& (s@ == "abort"@ <==> p is Abort)
            &&& (s@ == "delete"@ <==> p is Delete)
            &&& (s@ == "average"@ <==> p is Average)
            &&& (p matches Policy::Average(k) ==> lookup_key(m, "valid-streak"@) == Some(Doc::Int(k as i64)))
            &&& (s@ == "previous"@ <==> p is Previous)
            &&& (s@ == "sentinel"@ <==> p is Sentinel)
            &&& (p matches Policy::Previous(v) ==> type_of(v@) == out)
            &&& (p matches Policy::Sentinel(v) ==> type_of(v@) == out)
        },
        _ => false,
    }
}

fn is_fill(p: &Policy) -> (r: bool)
    ensures
        r == (*p is Previous || *p is Sentinel),
{
    match p {
        Policy::Previous(_) | Policy::Sentinel(_) => true,
        _ => false,
    }
}

fn is_average(p: &Policy) -> (r: bool)
    ensures
        r == (*p matches Policy::Average(_)),
{
    match p {
        Policy::Average(_) => true,
        _ => false,
    }
}

/// A column entry; its output expression is type checked later, against its siblings.
pub fn parse_column(d: &Doc) -> (r: Result<Column, ConfigError>)
    ensures
        r matches Ok(c) ==> column_wf(c),
        r matches Ok(c) ==> (d matches Doc::Mapping(m) && column_from(m@, c)),
        r matches Ok(c) ==> (d matches Doc::Mapping(m) && policy_named(
            m@,
            "on-invalid"@,
            "invalid-sentinel"@,
            c.output_type,
            c.on_invalid,
        ) && policy_named(m@, "on-null"@, "null-sentinel"@, c.output_type, c.on_null)),
        d matches Doc::Mapping(m) && !keys_known(m@, column_keys()) ==> (r matches Err(e) && e.issue matches ConfigIssue::UnknownKey(k)
            && !column_keys().contains(k@)),
        r is Ok <==> (d matches Doc::Mapping(m) && column_map_ok(m@)),
        r matches Err(e) ==> e.process@.len() == 0 && e.column@ == title_or_empty(entry_map(*d)),
        r matches Err(e) ==> !(e.issue is OutputType),
        r matches Err(e) ==> Some(issue_view(e.issue)) == column_issue(*d),
        r is Ok ==> column_issue(*d) is None,
{
    let m = match d {
        Doc::Mapping(m) => m,
        _ => return Err(err(ConfigIssue::ExpectedMap)),
    };
    proof {
        reveal_strlit("average");
        reveal_strlit("first");
        reveal_strlit("last");
        assert("average"@.len() == 7 && "first"@.len() == 5 && "last"@.len() == 4);
    }
    let allowed = words(
        &[
            "title",
            "column-type",
            "output-type",
            "null-surrogates",
            "valid-values",
            "invalid-values",
            "min",
            "max",
            "on-invalid",
            "on-null",
            "invalid-sentinel",
            "null-sentinel",
            "valid-streak",
            "output",
            "ignore",
            "aggregate",
        ],
    );
    assert(allowed@.map_values(|w: Vec<char>| w@) =~= column_keys());
    let path = match get_str(m, "title") {
        Ok(Some(t)) => t,
        _ => Vec::new(),
    };
    if let Some(k) = unknown_key(m, &allowed) {
        return Err(ConfigError { process: Vec::new(), column: path, issue: ConfigIssue::UnknownKey(k) });
    }
    let title = match require_str(m, "title") {
        Ok(t) => t,
        Err(e) => return Err(e),
    };

    let type_text = match require_str(m, "column-type") {
        Ok(t) => t,
        Err(e) => return Err(ConfigError { process: Vec::new(), column: copy_chars(&title), issue: e.issue }),
    };
    let input_type = match column_type_of(&type_text) {
        Ok(t) => t,
        Err(issue) => return Err(ConfigError { process: Vec::new(), column: title, issue }),
    };
    let ignore = match get(m, "ignore") {
        None => false,
        Some(Doc::Bool(b)) => *b,
        Some(_) => return Err(ConfigError { process: Vec::new(), column: title, issue: ConfigIssue::ExpectedBool }),
    };
    if ignore {
        let only = words(&["title", "column-type", "ignore"]);
        assert(only@.map_values(|w: Vec<char>| w@) =~= seq!["title"@, "column-type"@, "ignore"@]);
        if unknown_key(m, &only).is_some() {
            return Err(ConfigError { process: Vec::new(), column: title, issue: ConfigIssue::IgnoredWithKeys });
        }
    }
    let output_type = match get_str(m, "output-type") {
        Ok(None) => input_type,
        Ok(Some(n)) => match column_type_of(&n) {
            Ok(t) => t,
            Err(issue) => return Err(ConfigError { process: Vec::new(), column: title, issue }),
        },
        Err(e) => return Err(ConfigError { process: Vec::new(), column: title, issue: e.issue }),
    };
    assert(input_type_at(m@) == Some(input_type));
    assert(output_type_at(m@, input_type) == output_type);
    assert(issue_head(m@) is None);
    let null_surrogates = match optional_list(m, "null-surrogates", input_type) {
        Ok(x) => x,
        Err(issue) => return Err(ConfigError { process: Vec::new(), column: title, issue }),
    };
    let valid_values = match optional_list(m, "valid-values", input_type) {
        Ok(x) => x,
        Err(issue) => return Err(ConfigError { process: Vec::new(), column: title, issue }),
    };
    let invalid_values = match optional_list(m, "invalid-values", input_type) {
        Ok(x) => x,
        Err(issue) => return Err(ConfigError { process: Vec::new(), column: title, issue }),
    };
    let min = match optional_constant(m, "min", input_type) {
        Ok(x) => x,
        Err(issue) => return Err(ConfigError { process: Vec::new(), column: title, issue }),
    };
    let max = match optional_constant(m, "max", input_type) {
        Ok(x) => x,
        Err(issue) => return Err(ConfigError { process: Vec::new(), column: title, issue }),
    };
    assert(issue_values(m@, input_type) is None);
    let on_invalid = match policy(m, "on-invalid", "invalid-sentinel", output_type) {
        Ok(p) => p,
        Err(issue) => return Err(ConfigError { process: Vec::new(), column: title, issue }),
    };
    let on_null = match policy(m, "on-null", "null-sentinel", output_type) {
        Ok(p) => p,
        Err(issue) => return Err(ConfigError { process: Vec::new(), column: title, issue }),
    };
    if get(m, "invalid-sentinel").is_some() && !is_fill(&on_invalid) {
        return Err(ConfigError { process: Vec::new(), column: title, issue: ConfigIssue::UnusedKey(crate::csv::text_chars("invalid-sentinel")) });
    }
    if get(m, "null-sentinel").is_some() && !is_fill(&on_null) {
        return Err(ConfigError { process: Vec::new(), column: title, issue: ConfigIssue::UnusedKey(crate::csv::text_chars("null-sentinel")) });
    }
    if get(m, "valid-streak").is_some() && !is_average(&on_invalid) && !is_average(&on_null) {
        return Err(ConfigError { process: Vec::new(), column: title, issue: ConfigIssue::UnusedKey(crate::csv::text_chars("valid-streak")) });
    }
    if is_average(&on_null) && !is_average(&on_invalid) {
        return Err(ConfigError { process: Vec::new(), column: title, issue: ConfigIssue::NullAverage });
    }
    if is_average(&on_invalid) && is_fill(&on_null) {
        return Err(ConfigError { process: Vec::new(), column: title, issue: ConfigIssue::FillWhileAveraging });
    }
    if (is_average(&on_invalid) || is_average(&on_null)) && !output_type.is_numeric() {
        return Err(ConfigError { process: Vec::new(), column: title, issue: ConfigIssue::NotNumeric });
    }
    assert(issue_policies(m@, output_type) is None);
    let output = match get_str(m, "output") {
        Ok(None) => Expr::Ident(crate::csv::text_chars("value")),
        Ok(Some(text)) => match parse_output(&text) {
            Ok(e) => e,
            Err(s) => return Err(ConfigError { process: Vec::new(), column: title, issue: ConfigIssue::Syntax(s) }),
        },
        Err(e) => return Err(ConfigError { process: Vec::new(), column: title, issue: e.issue }),
    };
    let aggregate = match get_str(m, "aggregate") {
        Ok(None) => Aggregate::First,
        Ok(Some(a)) => {
            if chars_equal(&a, &crate::csv::text_chars("first")) {
                Aggregate::First
            } else if chars_equal(&a, &crate::csv::text_chars("last")) {
                Aggregate::Last
            } else if chars_equal(&a, &crate::csv::text_chars("average")) {
                if !output_type.is_numeric() {
                    return Err(ConfigError { process: Vec::new(), column: title, issue: ConfigIssue::NotNumeric });
                }
                Aggregate::Average
            } else {
                return Err(ConfigError { process: Vec::new(), column: title, issue: ConfigIssue::UnknownAggregate(a) });
            }
        },
        Err(e) => return Err(ConfigError { process: Vec::new(), column: title, issue: e.issue }),
    };
    Ok(Column {
        title,
        input_type,
        output_type,
        null_surrogates,
        valid_values,
        invalid_values,
        min,
        max,
        on_invalid,
        on_null,
        output,
        ignore,
        aggregate,
    })
}

/// The input type an entry names, if it names one.
pub open spec fn input_type_at(m: Seq<(Vec<char>, Doc)>) -> Option<ColumnType> {
    match str_at(m, "column-type"@) {
        Some(t) => type_named(t),
        None => None,
    }
}

/// The output type of an entry with input type `t`.
pub open spec fn output_type_at(m: Seq<(Vec<char>, Doc)>, t: ColumnType) -> ColumnType {
    match str_at(m, "output-type"@) {
        Some(s) => match type_named(s) {
            Some(u) => u,
            None => t,
        },
        None => t,
    }
}

/// A column entry that loads: known keys, a title and a type, well-typed constants,
/// policies with their companion keys, averaging only on a numeric output, an output
/// expression that parses, a known aggregate.
pub open spec fn column_map_ok(m: Seq<(Vec<char>, Doc)>) -> bool {
    let t = input_type_at(m)->Some_0;
    let out = output_type_at(m, t);
    let averages = str_at(m, "on-invalid"@) == Some("average"@) || str_at(m, "on-null"@) == Some("average"@);
    &&& keys_known(m, column_keys())
    &&& str_at(m, "title"@) is Some
    &&& input_type_at(m) is Some
    &&& match lookup_key(m, "ignore"@) {
        None => true,
        Some(Doc::Bool(_)) => true,
        _ => false,
    }
    &&& (lookup_key(m, "ignore"@) == Some(Doc::Bool(true)) ==> keys_known(
        m,
        seq!["title"@, "column-type"@, "ignore"@],
    ))
    &&& match lookup_key(m, "output-type"@) {
        None => true,
        Some(Doc::Str(s)) => type_named(s@) is Some,
        _ => false,
    }
    &&& list_at_ok(m, "null-surrogates"@, t)
    &&& list_at_ok(m, "valid-values"@, t)
    &&& list_at_ok(m, "invalid-values"@, t)
    &&& constant_at_ok(m, "min"@, t)
    &&& constant_at_ok(m, "max"@, t)
    &&& policy_ok(m, "on-invalid"@, "invalid-sentinel"@, out)
    &&& policy_ok(m, "on-null"@, "null-sentinel"@, out)
    &&& (str_at(m, "on-null"@) == Some("average"@) ==> str_at(m, "on-invalid"@) == Some("average"@))
    &&& (str_at(m, "on-invalid"@) == Some("average"@) ==> !(str_at(m, "on-null"@) == Some("sentinel"@) || str_at(
        m,
        "on-null"@,
    ) == Some("previous"@)))
    &&& (lookup_key(m, "invalid-sentinel"@) is Some ==> (str_at(m, "on-invalid"@) == Some("previous"@) || str_at(
        m,
        "on-invalid"@,
    ) == Some("sentinel"@)))
    &&& (lookup_key(m, "null-sentinel"@) is Some ==> (str_at(m, "on-null"@) == Some("previous"@) || str_at(
        m,
        "on-null"@,
    ) == Some("sentinel"@)))
    &&& (lookup_key(m, "valid-streak"@) is Some ==> (str_at(m, "on-invalid"@) == Some("average"@) || str_at(
        m,
        "on-null"@,
    ) == Some("average"@)))
    &&& (averages ==> out.numeric())
    &&& match lookup_key(m, "output"@) {
        None => true,
        Some(Doc::Str(s)) => crate::parse::parse_spec(s@) is Ok,
        _ => false,
    }
    &&& match lookup_key(m, "aggregate"@) {
        None => true,
        Some(Doc::Str(s)) => s@ == "first"@ || s@ == "last"@ || (s@ == "average"@ && out.numeric()),
        _ => false,
    }
}

/// `type_of_expr` on the model of an expression.
pub open spec fn type_of_exprv(e: ExprV, tenv: Seq<(Seq<char>, ColumnType)>) -> Option<ColumnType>
    decreases e,
{
    match e {
        ExprV::Literal(v) => Some(type_of(v)),
        ExprV::Ident(n) => crate::expr::lookup(tenv, n),
        ExprV::Unary(unop, right) => match type_of_exprv(*right, tenv) {
            Some(t) => if (unop == crate::expr::UnOp::Negate && t == ColumnType::Integer) || (unop
                == crate::expr::UnOp::Not && t == ColumnType::Boolean) {
                Some(t)
            } else {
                None
            },
            None => None,
        },
        ExprV::Binary(left, op, right) => match (type_of_exprv(*left, tenv), type_of_exprv(*right, tenv)) {
            (Some(a), Some(b)) => if a != b {
                None
            } else if crate::expr::is_arith(op) {
                if a == ColumnType::Integer {
                    Some(a)
                } else {
                    None
                }
            } else {
                Some(ColumnType::Boolean)
            },
            _ => None,
        },
        ExprV::Concat(left, right) => match (type_of_exprv(*left, tenv), type_of_exprv(*right, tenv)) {
            (Some(ColumnType::Str), Some(ColumnType::Str)) => Some(ColumnType::Str),
            _ => None,
        },
        ExprV::Call(func, arg) => match type_of_exprv(*arg, tenv) {
            Some(_) => match func {
                crate::expr::Func::Boolean => Some(ColumnType::Boolean),
                crate::expr::Func::Integer => Some(ColumnType::Integer),
                crate::expr::Func::Str => Some(ColumnType::Str),
                _ => None,
            },
            None => None,
        },
    }
}

proof fn lemma_type_view(e: Expr, tenv: Seq<(Seq<char>, ColumnType)>)
    ensures
        type_of_expr(e, tenv) == type_of_exprv(expr_view(e), tenv),
    decreases e,
{
    match e {
        Expr::Literal(_) => {},
        Expr::Ident(_) => {},
        Expr::Unary { right, .. } => {
            lemma_type_view(*right, tenv);
        },
        Expr::Binary { left, right, .. } => {
            lemma_type_view(*left, tenv);
            lemma_type_view(*right, tenv);
        },
        Expr::Concat { left, right } => {
            lemma_type_view(*left, tenv);
            lemma_type_view(*right, tenv);
        },
        Expr::Call { arg, .. } => {
            lemma_type_view(*arg, tenv);
        },
    }
}

/// The output expression an entry holds: the parsed `output`, or `value`.
pub open spec fn expr_at(m: Seq<(Vec<char>, Doc)>) -> ExprV {
    match lookup_key(m, "output"@) {
        Some(Doc::Str(s)) => parse_spec(s@)->Ok_0,
        _ => ExprV::Ident("value"@),
    }
}

/// What a loaded column holds of its entry `m`: its title and types as the entry names
/// them, `ignore` only beside a title and a type, averaging only on a numeric output.
pub open spec fn column_from(m: Seq<(Vec<char>, Doc)>, c: Column) -> bool {
    &&& str_at(m, "title"@) == Some(c.title@)
    &&& str_at(m, "column-type"@) matches Some(t) && type_named(t) == Some(c.input_type)
    &&& (lookup_key(m, "output-type"@) is None ==> c.output_type == c.input_type)
    &&& (str_at(m, "output-type"@) matches Some(t) ==> type_named(t) == Some(c.output_type))
    &&& c.ignore == (lookup_key(m, "ignore"@) == Some(Doc::Bool(true)))
    &&& (c.ignore ==> keys_known(m, seq!["title"@, "column-type"@, "ignore"@]))
    &&& (c.on_invalid is Average || c.on_null is Average || c.aggregate is Average ==> c.output_type.numeric())
    &&& (lookup_key(m, "output"@) is None ==> (c.output matches Expr::Ident(n) && n@ == "value"@))
    &&& expr_view(c.output) == expr_at(m)
    &&& c.output_type == output_type_at(m, c.input_type)
    &&& opt_list_view(c.null_surrogates) == list_at(m, "null-surrogates"@)
    &&& opt_list_view(c.valid_values) == list_at(m, "valid-values"@)
    &&& opt_list_view(c.invalid_values) == list_at(m, "invalid-values"@)
    &&& crate::column::opt_view(c.min) == const_at(m, "min"@)
    &&& crate::column::opt_view(c.max) == const_at(m, "max"@)
    &&& policy_view(c.on_invalid) == policy_at(m, "on-invalid"@, "invalid-sentinel"@)
    &&& policy_view(c.on_null) == policy_at(m, "on-null"@, "null-sentinel"@)
    &&& c.aggregate == aggregate_at(m)
    &&& crate::laws::policy_typed(c.on_invalid, c.output_type)
    &&& crate::laws::policy_typed(c.on_null, c.output_type)
}

pub open spec fn column_keys() -> Seq<Seq<char>> {
    seq![
        "title"@,
        "column-type"@,
        "output-type"@,
        "null-surrogates"@,
        "valid-values"@,
        "invalid-values"@,
        "min"@,
        "max"@,
        "on-invalid"@,
        "on-null"@,
        "invalid-sentinel"@,
        "null-sentinel"@,
        "valid-streak"@,
        "output"@,
        "ignore"@,
        "aggregate"@,
    ]
}


/// The names a column's output expression may use: `value`, then `value_<title>` of
/// every other column, with their input types.
pub open spec fn type_env_spec(cols: Seq<Column>, j: int) -> Seq<(Seq<char>, ColumnType)> {
    let all = Seq::new(cols.len(), |k: int| (sibling_name(cols[k].title@), cols[k].input_type));
    seq![(value_name(), cols[j].input_type)] + all.subrange(0, j) + all.subrange(j + 1, cols.len() as int)
}

fn type_env(cols: &Vec<Column>, j: usize) -> (r: Vec<Declared>)
    requires
        j < cols.len(),
    ensures
        tenv_view(r@) == type_env_spec(cols@, j as int),
{
    let ghost all = Seq::new(cols@.len(), |k: int| (sibling_name(cols@[k].title@), cols@[k].input_type));
    let ghost head = seq![(value_name(), cols@[j as int].input_type)];
    let mut r: Vec<Declared> = Vec::new();
    let value = vec!['v', 'a', 'l', 'u', 'e'];
    assert(value@ =~= value_name());
    r.push(Declared { name: value, column_type: cols[j].input_type });
    assert(tenv_view(r@) =~= head + all.subrange(0, 0));
    let mut k: usize = 0;
    while k < cols.len()
        invariant
            k <= cols.len(),
            j < cols.len(),
            all == Seq::new(cols@.len(), |x: int| (sibling_name(cols@[x].title@), cols@[x].input_type)),
            head == seq![(value_name(), cols@[j as int].input_type)],
            k <= j ==> tenv_view(r@) == head + all.subrange(0, k as int),
            k > j ==> tenv_view(r@) == head + all.subrange(0, j as int) + all.subrange(j + 1, k as int),
        decreases cols.len() - k,
    {
        if k != j {
            let mut name = vec!['v', 'a', 'l', 'u', 'e', '_'];
            let mut t = copy_chars(&cols[k].title);
            name.append(&mut t);
            assert(name@ =~= sibling_name(cols@[k as int].title@));
            let ghost prev = r@;
            r.push(Declared { name, column_type: cols[k].input_type });
            assert(tenv_view(r@) =~= tenv_view(prev).push(all[k as int]));
            if k < j {
                assert(head + all.subrange(0, k + 1) =~= (head + all.subrange(0, k as int)).push(all[k as int]));
            } else {
                assert(head + all.subrange(0, j as int) + all.subrange(j + 1, k + 1) =~= (head + all.subrange(
                    0,
                    j as int,
                ) + all.subrange(j + 1, k as int)).push(all[k as int]));
            }
        } else {
            assert(head + all.subrange(0, j as int) + all.subrange(j + 1, j + 1) =~= head + all.subrange(0, j as int));
        }
        k = k + 1;
    }
    if j + 1 == cols.len() {
        assert(all.subrange(j + 1, cols.len() as int) =~= all.subrange(j + 1, j + 1));
    }
    r
}

/// Whether `title` is the title of one of `cols[..n]`.
fn title_index(cols: &Vec<Column>, n: usize, title: &Vec<char>) -> (r: Option<usize>)
    requires
        n <= cols.len(),
    ensures
        r matches Some(i) ==> i < n && cols@[i as int].title@ == title@,
        r is None ==> forall|i: int| 0 <= i < n ==> cols@[i].title@ != title@,
{
    let mut i: usize = 0;
    while i < n
        invariant
            i <= n,
            n <= cols.len(),
            forall|x: int| 0 <= x < i ==> cols@[x].title@ != title@,
        decreases n - i,
    {
        if chars_equal(&cols[i].title, title) {
            return Some(i);
        }
        i = i + 1;
    }
    None
}

/// A process entry: its columns, their output expressions type checked against their
/// siblings, and the key column of aggregation resolved.
pub fn parse_process(d: &Doc) -> (r: Result<Process, ConfigError>)
    ensures
        r matches Ok(p) ==> process_wf(p) && forall|j: int, k: int|
            0 <= j < k < p.columns@.len() ==> p.columns@[j].title@ != p.columns@[k].title@,
        r matches Ok(p) ==> forall|j: int|
            0 <= j < p.columns@.len() && !(#[trigger] p.columns@[j]).ignore ==> type_of_expr(
                p.columns@[j].output,
                type_env_spec(p.columns@, j),
            ) == Some(p.columns@[j].output_type),
        d matches Doc::Mapping(m) && !keys_known(m@, process_keys()) ==> (r matches Err(e) && e.issue matches ConfigIssue::UnknownKey(k)
            && !process_keys().contains(k@)),
        r is Ok <==> (d matches Doc::Mapping(m) && process_map_ok(m@)),
        r matches Ok(p) ==> process_of_doc(p, *d),
        r matches Ok(p) ==> crate::laws::process_typed(p.columns@),
        r matches Err(e) ==> e.process@ == name_or_empty(entry_map(*d)) && (e.column@.len() == 0
            || exists|i: int|
            0 <= i < doc_columns(*d).len() && doc_title(#[trigger] doc_columns(*d)[i]) == e.column@),
        r matches Err(e) ==> (e.issue is OutputType ==> exists|j: int|
            0 <= j < doc_columns(*d).len() && doc_title(#[trigger] doc_columns(*d)[j]) == e.column@
                && !doc_ignored(doc_columns(*d)[j]) && type_of_exprv(
                expr_at(entry_map(doc_columns(*d)[j])),
                doc_env(doc_columns(*d), j),
            ) != Some(doc_output(doc_columns(*d)[j]))),
        r matches Err(e) ==> Some((issue_view(e.issue), e.column@)) == process_error(*d),
        r is Ok ==> process_error(*d) is None,
{
    let m = match d {
        Doc::Mapping(m) => m,
        _ => return Err(err(ConfigIssue::ExpectedMap)),
    };
    let allowed = words(&["name", "columns", "aggregate-column"]);
    assert(allowed@.map_values(|w: Vec<char>| w@) =~= process_keys());
    let path = match get_str(m, "name") {
        Ok(Some(t)) => t,
        _ => Vec::new(),
    };
    if let Some(k) = unknown_key(m, &allowed) {
        return Err(ConfigError { process: path, column: Vec::new(), issue: ConfigIssue::UnknownKey(k) });
    }
    let name = match require_str(m, "name") {
        Ok(n) => n,
        Err(e) => return Err(e),
    };
    let entries = match get(m, "columns") {
        None => return Err(ConfigError { process: name, column: Vec::new(), issue: ConfigIssue::MissingKey(crate::csv::text_chars("columns")) }),
        Some(Doc::List(items)) => items,
        Some(_) => return Err(ConfigError { process: name, column: Vec::new(), issue: ConfigIssue::ExpectedList }),
    };
    let ghost items = entries@;
    let mut columns: Vec<Column> = Vec::new();
    let mut i: usize = 0;
    while i < entries.len()
        invariant
            items == entries@,
            (d matches Doc::Mapping(mm) && mm@ == m@),
            (lookup_key(m@, "columns"@) matches Some(Doc::List(x)) && x@ == items),
            name@ == name_or_empty(m@),
            keys_known(m@, process_keys()),
            doc_columns(*d) == items,
            i <= entries.len(),
            columns@.len() == i,
            columns_wf(columns@),
            forall|j: int, k: int| 0 <= j < k < columns@.len() ==> columns@[j].title@ != columns@[k].title@,
            forall|x: int| 0 <= x < i ==> column_of_doc(#[trigger] columns@[x], items[x]),
            forall|x: int| 0 <= x < i ==> column_issue(#[trigger] items[x]) is None,
            first_unknown(m@, process_keys()) is None,
            req_str_issue(m@, "name"@) is None,
            columns_error(items, 0) == columns_error(items, i as int),
        decreases entries.len() - i,
    {
        let c = match parse_column(&entries[i]) {
            Ok(c) => c,
            Err(e) => {
                assert(!column_doc_ok(items[i as int]));
                assert(!columns_doc_ok(items));
                if e.column.len() > 0 {
                    assert(doc_title(items[i as int]) == e.column@);
                }
                return Err(ConfigError { process: name, column: e.column, issue: e.issue });
            },
        };
        assert(column_issue(items[i as int]) is None);
        assert(doc_title(items[i as int]) == c.title@);
        if let Some(x) = title_index(&columns, columns.len(), &c.title) {
            assert(column_of_doc(columns@[x as int], items[x as int]));
            assert(doc_title(items[x as int]) == doc_title(items[i as int]));
            assert(columns_error(items, i as int) == Some((IssueV::DuplicateTitle(Seq::empty()), doc_title(items[i as int]))));
            let no_title: Vec<char> = Vec::new();
            assert(no_title@ =~= Seq::<char>::empty());
            assert(!columns_doc_ok(items));
            assert(doc_title(items[i as int]) == c.title@);
            return Err(ConfigError { process: name, column: c.title, issue: ConfigIssue::DuplicateTitle(no_title) });
        }
        assert(!exists|x: int| 0 <= x < i && doc_title(#[trigger] items[x]) == doc_title(items[i as int])) by {
            assert forall|x: int| 0 <= x < i implies doc_title(#[trigger] items[x]) != doc_title(items[i as int]) by {
                assert(column_of_doc(columns@[x], items[x]));
            }
        }
        columns.push(c);
        i = i + 1;
    }
    assert(forall|x: int| 0 <= x < items.len() ==> column_doc_ok(#[trigger] items[x])) by {
        assert forall|x: int| 0 <= x < items.len() implies column_doc_ok(#[trigger] items[x]) by {
            assert(column_of_doc(columns@[x], items[x]));
        }
    }
    assert forall|x: int, k: int| 0 <= x < k < items.len() implies doc_title(items[x]) != doc_title(items[k]) by {
        assert(column_of_doc(columns@[x], items[x]));
        assert(column_of_doc(columns@[k], items[k]));
    }
    assert(columns_error(items, 0) is None);
    let mut j: usize = 0;
    while j < columns.len()
        invariant
            columns_error(items, 0) is None,
            types_error(items, 0) == types_error(items, j as int),
            first_unknown(m@, process_keys()) is None,
            req_str_issue(m@, "name"@) is None,
            items == entries@,
            (d matches Doc::Mapping(mm) && mm@ == m@),
            (lookup_key(m@, "columns"@) matches Some(Doc::List(x)) && x@ == items),
            name@ == name_or_empty(m@),
            keys_known(m@, process_keys()),
            doc_columns(*d) == items,
            columns@.len() == items.len(),
            j <= columns.len(),
            forall|x: int| 0 <= x < columns@.len() ==> column_of_doc(#[trigger] columns@[x], items[x]),
            forall|x: int|
                0 <= x < j && !(#[trigger] columns@[x]).ignore ==> type_of_expr(
                    columns@[x].output,
                    type_env_spec(columns@, x),
                ) == Some(columns@[x].output_type),
        decreases columns.len() - j,
    {
        if !columns[j].ignore {
            let tenv = type_env(&columns, j);
            proof {
                assert(column_of_doc(columns@[j as int], items[j as int]));
                assert(type_env_spec(columns@, j as int) =~= doc_env(items, j as int)) by {
                    assert forall|k: int| 0 <= k < items.len() implies (sibling_name(columns@[k].title@), columns@[k].input_type)
                        == (sibling_name(doc_title(items[k])), doc_input(items[k])) by {
                        assert(column_of_doc(columns@[k], items[k]));
                    }
                    assert(Seq::new(columns@.len(), |k: int| (sibling_name(columns@[k].title@), columns@[k].input_type))
                        =~= Seq::new(items.len(), |k: int| (sibling_name(doc_title(items[k])), doc_input(items[k]))));
                }
                lemma_type_view(columns@[j as int].output, type_env_spec(columns@, j as int));
            }
            match columns[j].output.check(&tenv) {
                Some(t) => {
                    if t != columns[j].output_type {
                        assert(!columns_doc_ok(items));
                        return Err(ConfigError { process: name, column: copy_chars(&columns[j].title), issue: ConfigIssue::OutputType });
                    }
                },
                None => {
                    assert(!columns_doc_ok(items));
                    return Err(ConfigError { process: name, column: copy_chars(&columns[j].title), issue: ConfigIssue::OutputType });
                },
            }
        }
        proof {
            assert(column_of_doc(columns@[j as int], items[j as int]));
            if !columns@[j as int].ignore {
                assert(type_env_spec(columns@, j as int) =~= doc_env(items, j as int)) by {
                    assert forall|k: int| 0 <= k < items.len() implies (sibling_name(columns@[k].title@), columns@[k].input_type)
                        == (sibling_name(doc_title(items[k])), doc_input(items[k])) by {
                        assert(column_of_doc(columns@[k], items[k]));
                    }
                    assert(Seq::new(columns@.len(), |k: int| (sibling_name(columns@[k].title@), columns@[k].input_type))
                        =~= Seq::new(items.len(), |k: int| (sibling_name(doc_title(items[k])), doc_input(items[k]))));
                }
                lemma_type_view(columns@[j as int].output, type_env_spec(columns@, j as int));
            }
        }
        j = j + 1;
    }
    assert(types_error(items, 0) is None);
    assert forall|x: int| 0 <= x < items.len() && !doc_ignored(#[trigger] items[x]) implies type_of_exprv(
        expr_at(entry_map(items[x])),
        doc_env(items, x),
    ) == Some(doc_output(items[x])) by {
        assert(column_of_doc(columns@[x], items[x]));
        assert(type_env_spec(columns@, x) =~= doc_env(items, x)) by {
            assert forall|k: int| 0 <= k < items.len() implies (sibling_name(columns@[k].title@), columns@[k].input_type)
                == (sibling_name(doc_title(items[k])), doc_input(items[k])) by {
                assert(column_of_doc(columns@[k], items[k]));
            }
            assert(Seq::new(columns@.len(), |k: int| (sibling_name(columns@[k].title@), columns@[k].input_type))
                =~= Seq::new(items.len(), |k: int| (sibling_name(doc_title(items[k])), doc_input(items[k]))));
        }
        lemma_type_view(columns@[x].output, type_env_spec(columns@, x));
    }
    let aggregate_column = match get_str(m, "aggregate-column") {
        Ok(None) => None,
        Ok(Some(t)) => match title_index(&columns, columns.len(), &t) {
            Some(a) => {
                assert(column_of_doc(columns@[a as int], items[a as int]));
                if columns[a].ignore {
                    assert forall|x: int| 0 <= x < items.len() && doc_title(#[trigger] items[x]) == t@ implies doc_ignored(
                        items[x],
                    ) by {
                        assert(column_of_doc(columns@[x], items[x]));
                        if x != a {
                            assert(columns@[x].title@ == columns@[a as int].title@);
                        }
                    }
                    return Err(ConfigError { process: name, column: Vec::new(), issue: ConfigIssue::AggregateColumn(t) });
                }
                Some(a)
            },
            None => {
                assert forall|x: int| 0 <= x < items.len() implies doc_title(#[trigger] items[x]) != t@ by {
                    assert(column_of_doc(columns@[x], items[x]));
                }
                return Err(ConfigError { process: name, column: Vec::new(), issue: ConfigIssue::AggregateColumn(t) });
            },
        },
        Err(e) => return Err(ConfigError { process: name, column: Vec::new(), issue: e.issue }),
    };
    Ok(Process { name, columns, aggregate_column })
}

pub open spec fn entry_map(d: Doc) -> Seq<(Vec<char>, Doc)> {
    match d {
        Doc::Mapping(m) => m@,
        _ => Seq::empty(),
    }
}

pub open spec fn column_doc_ok(d: Doc) -> bool {
    d matches Doc::Mapping(m) && column_map_ok(m@)
}

pub open spec fn doc_title(d: Doc) -> Seq<char> {
    str_at(entry_map(d), "title"@)->Some_0
}

pub open spec fn doc_input(d: Doc) -> ColumnType {
    input_type_at(entry_map(d))->Some_0
}

pub open spec fn doc_output(d: Doc) -> ColumnType {
    output_type_at(entry_map(d), doc_input(d))
}

pub open spec fn doc_ignored(d: Doc) -> bool {
    lookup_key(entry_map(d), "ignore"@) == Some(Doc::Bool(true))
}

/// The names the output expression of entry `j` may use, by the entries' titles and types.
pub open spec fn doc_env(items: Seq<Doc>, j: int) -> Seq<(Seq<char>, ColumnType)> {
    let all = Seq::new(items.len(), |k: int| (sibling_name(doc_title(items[k])), doc_input(items[k])));
    seq![(value_name(), doc_input(items[j]))] + all.subrange(0, j) + all.subrange(j + 1, items.len() as int)
}

/// Column entries that load together: each loads, titles differ, and each output
/// expression has its column's output type among its siblings.
pub open spec fn columns_doc_ok(items: Seq<Doc>) -> bool {
    &&& forall|i: int| 0 <= i < items.len() ==> column_doc_ok(#[trigger] items[i])
    &&& forall|i: int, k: int| 0 <= i < k < items.len() ==> doc_title(items[i]) != doc_title(items[k])
    &&& forall|j: int|
        0 <= j < items.len() && !doc_ignored(#[trigger] items[j]) ==> type_of_exprv(
            expr_at(entry_map(items[j])),
            doc_env(items, j),
        ) == Some(doc_output(items[j]))
}

/// A process entry that loads: known keys, a name, loadable columns, and an aggregate
/// column, if any, that names a column with output.
pub open spec fn process_map_ok(m: Seq<(Vec<char>, Doc)>) -> bool {
    &&& keys_known(m, process_keys())
    &&& str_at(m, "name"@) is Some
    &&& match lookup_key(m, "columns"@) {
        Some(Doc::List(items)) => {
            &&& columns_doc_ok(items@)
            &&& match lookup_key(m, "aggregate-column"@) {
                None => true,
                Some(Doc::Str(t)) => exists|j: int|
                    0 <= j < items@.len() && doc_title(#[trigger] items@[j]) == t@ && !doc_ignored(items@[j]),
                _ => false,
            }
        },
        _ => false,
    }
}

/// A loaded column and the entry it came from agree.
pub open spec fn column_of_doc(c: Column, d: Doc) -> bool {
    &&& column_doc_ok(d)
    &&& c.title@ == doc_title(d)
    &&& c.input_type == doc_input(d)
    &&& c.output_type == doc_output(d)
    &&& c.ignore == doc_ignored(d)
    &&& expr_view(c.output) == expr_at(entry_map(d))
    &&& column_from(entry_map(d), c)
}

pub open spec fn process_keys() -> Seq<Seq<char>> {
    seq!["name"@, "columns"@, "aggregate-column"@]
}

pub open spec fn program_keys() -> Seq<Seq<char>> {
    seq!["processes"@, "on-title"@]
}

/// The output types of the non-ignored columns before column `j`.
pub open spec fn out_types(cols: Seq<Column>, j: int) -> Seq<ColumnType>
    decreases j,
{
    if j <= 0 {
        Seq::empty()
    } else if cols[j - 1].ignore {
        out_types(cols, j - 1)
    } else {
        out_types(cols, j - 1).push(cols[j - 1].output_type)
    }
}

/// `out_types` of the entries the columns were loaded from.
pub open spec fn doc_out_types(items: Seq<Doc>, j: int) -> Seq<ColumnType>
    decreases j,
{
    if j <= 0 {
        Seq::empty()
    } else if doc_ignored(items[j - 1]) {
        doc_out_types(items, j - 1)
    } else {
        doc_out_types(items, j - 1).push(doc_output(items[j - 1]))
    }
}

pub open spec fn in_types(cols: Seq<Column>) -> Seq<ColumnType> {
    Seq::new(cols.len(), |k: int| cols[k].input_type)
}

pub open spec fn doc_in_types(items: Seq<Doc>) -> Seq<ColumnType> {
    Seq::new(items.len(), |k: int| doc_input(items[k]))
}

proof fn lemma_out_types_prefix(cols: Seq<Column>, j: int, n: int)
    requires
        0 <= j <= n <= cols.len(),
    ensures
        out_types(cols, j).len() <= out_types(cols, n).len(),
        out_types(cols, n).subrange(0, out_types(cols, j).len() as int) == out_types(cols, j),
    decreases n - j,
{
    if j < n {
        lemma_out_types_prefix(cols, j, n - 1);
        let a = out_types(cols, j);
        let b = out_types(cols, n - 1);
        if !cols[n - 1].ignore {
            assert(b.push(cols[n - 1].output_type).subrange(0, a.len() as int) =~= b.subrange(0, a.len() as int));
        }
    } else {
        assert(out_types(cols, n).subrange(0, out_types(cols, n).len() as int) =~= out_types(cols, n));
    }
}

proof fn lemma_types_of_docs(cols: Seq<Column>, items: Seq<Doc>, j: int)
    requires
        cols.len() == items.len(),
        0 <= j <= cols.len(),
        forall|x: int| 0 <= x < cols.len() ==> column_of_doc(#[trigger] cols[x], items[x]),
    ensures
        out_types(cols, j) == doc_out_types(items, j),
        in_types(cols) == doc_in_types(items),
    decreases j,
{
    if j > 0 {
        lemma_types_of_docs(cols, items, j - 1);
        assert(column_of_doc(cols[j - 1], items[j - 1]));
    }
    assert forall|k: int| 0 <= k < cols.len() implies in_types(cols)[k] == doc_in_types(items)[k] by {
        assert(column_of_doc(cols[k], items[k]));
    }
    assert(in_types(cols) =~= doc_in_types(items));
}

/// Whether process `next` reads exactly the outputs of `prev`: one column per
/// non-ignored column of `prev`, with its output type.
fn chain_fits(prev: &Process, next: &Process) -> (r: bool)
    ensures
        r == (out_types(prev.columns@, prev.columns@.len() as int) == in_types(next.columns@)),
{
    let ghost all = out_types(prev.columns@, prev.columns@.len() as int);
    let mut j: usize = 0;
    let mut k: usize = 0;
    while j < prev.columns.len()
        invariant
            j <= prev.columns.len(),
            all == out_types(prev.columns@, prev.columns@.len() as int),
            k == out_types(prev.columns@, j as int).len(),
            k <= next.columns.len(),
            forall|x: int| 0 <= x < k ==> out_types(prev.columns@, j as int)[x] == (#[trigger] next.columns@[x]).input_type,
        decreases prev.columns.len() - j,
    {
        if !prev.columns[j].ignore {
            proof {
                lemma_out_types_prefix(prev.columns@, j + 1, prev.columns@.len() as int);
            }
            if k >= next.columns.len() || next.columns[k].input_type != prev.columns[j].output_type {
                proof {
                    if k < next.columns.len() {
                        assert(all[k as int] == out_types(prev.columns@, j + 1)[k as int]);
                        assert(in_types(next.columns@)[k as int] == next.columns@[k as int].input_type);
                    }
                }
                return false;
            }
            k = k + 1;
        }
        j = j + 1;
    }
    if k == next.columns.len() {
        assert(all =~= in_types(next.columns@));
    }
    k == next.columns.len()
}

pub open spec fn doc_processes(d: Doc) -> Seq<Doc> {
    match lookup_key(entry_map(d), "processes"@) {
        Some(Doc::List(ps)) => ps@,
        _ => Seq::empty(),
    }
}

/// An error names a process entry of `d` and, if any column, a column of that entry;
/// errors outside any process name nothing.
pub open spec fn error_path_in(e: ConfigError, d: Doc) -> bool {
    (e.process@.len() == 0 && e.column@.len() == 0) || exists|k: int|
        0 <= k < doc_processes(d).len() && name_or_empty(entry_map(#[trigger] doc_processes(d)[k])) == e.process@
            && (e.column@.len() == 0 || exists|i: int|
            0 <= i < doc_columns(doc_processes(d)[k]).len() && doc_title(
                #[trigger] doc_columns(doc_processes(d)[k])[i],
            ) == e.column@)
}

pub open spec fn doc_columns(pd: Doc) -> Seq<Doc> {
    match lookup_key(entry_map(pd), "columns"@) {
        Some(Doc::List(items)) => items@,
        _ => Seq::empty(),
    }
}

pub open spec fn process_doc_ok(pd: Doc) -> bool {
    pd matches Doc::Mapping(m) && process_map_ok(m@)
}

/// A configuration that loads: known keys, at least one loadable process, each process
/// after the first reading exactly the outputs of the one before, a known `on-title`.
pub open spec fn program_map_ok(m: Seq<(Vec<char>, Doc)>) -> bool {
    &&& keys_known(m, program_keys())
    &&& match lookup_key(m, "processes"@) {
        Some(Doc::List(ps)) => {
            &&& ps@.len() >= 1
            &&& forall|k: int| 0 <= k < ps@.len() ==> process_doc_ok(#[trigger] ps@[k])
            &&& forall|k: int|
                1 <= k < ps@.len() ==> doc_out_types(
                    doc_columns(ps@[k - 1]),
                    doc_columns(ps@[k - 1]).len() as int,
                ) == doc_in_types(doc_columns(#[trigger] ps@[k]))
        },
        _ => false,
    }
    &&& match lookup_key(m, "on-title"@) {
        None => true,
        Some(Doc::Str(s)) => s@ == "once"@ || s@ == "combine"@ || s@ == "split"@,
        _ => false,
    }
}

/// The `on-title` mode an entry names (`once` when absent).
pub open spec fn on_title_at(m: Seq<(Vec<char>, Doc)>) -> OnTitle {
    match str_at(m, "on-title"@) {
        Some(s) => if s == "combine"@ {
            OnTitle::Combine
        } else if s == "split"@ {
            OnTitle::Split
        } else {
            OnTitle::Once
        },
        None => OnTitle::Once,
    }
}

/// A loaded program and its document agree process by process, and on `on-title`.
pub open spec fn program_of_doc(p: Program, d: Doc) -> bool {
    &&& p.on_title == on_title_at(entry_map(d))
    &&& match lookup_key(entry_map(d), "processes"@) {
        Some(Doc::List(ps)) => ps@.len() == p.processes@.len() && forall|k: int|
            0 <= k < ps@.len() ==> process_of_doc(#[trigger] p.processes@[k], ps@[k]),
        _ => false,
    }
}

/// A loaded process and the entry it came from agree on the name, column by column,
/// and on the key column of aggregation (none when the entry names none).
pub open spec fn process_of_doc(p: Process, pd: Doc) -> bool {
    &&& process_doc_ok(pd)
    &&& str_at(entry_map(pd), "name"@) == Some(p.name@)
    &&& match str_at(entry_map(pd), "aggregate-column"@) {
        None => p.aggregate_column is None,
        Some(t) => p.aggregate_column matches Some(a) && a < p.columns@.len() && p.columns@[a as int].title@ == t,
    }
    &&& doc_columns(pd).len() == p.columns@.len()
    &&& forall|x: int| 0 <= x < p.columns@.len() ==> column_of_doc(#[trigger] p.columns@[x], doc_columns(pd)[x])
}

/// A configuration document: `processes` and an optional `on-title`.
#[verifier::rlimit(60)]
pub fn load_program(d: &Doc) -> (r: Result<Program, ConfigError>)
    ensures
        r matches Ok(p) ==> program_wf(p),
        d matches Doc::Mapping(m) && !keys_known(m@, program_keys()) ==> (r matches Err(e) && e.issue matches ConfigIssue::UnknownKey(k)
            && !program_keys().contains(k@)),
        r is Ok <==> (d matches Doc::Mapping(m) && program_map_ok(m@)),
        r matches Ok(p) ==> program_of_doc(p, *d),
        r matches Ok(p) ==> forall|k: int|
            0 <= k < p.processes@.len() ==> crate::laws::process_typed(#[trigger] p.processes@[k].columns@),
        r matches Err(e) ==> error_path_in(e, *d),
        r matches Err(e) ==> Some(error_view(e)) == program_error(*d),
{
    proof {
        reveal_strlit("once");
        reveal_strlit("combine");
        reveal_strlit("split");
        assert("once"@.len() == 4 && "combine"@.len() == 7 && "split"@.len() == 5);
    }
    let m = match d {
        Doc::Mapping(m) => m,
        _ => return Err(err(ConfigIssue::ExpectedMap)),
    };
    let allowed = words(&["processes", "on-title"]);
    assert(allowed@.map_values(|w: Vec<char>| w@) =~= program_keys());
    if let Some(k) = unknown_key(m, &allowed) {
        return Err(err(ConfigIssue::UnknownKey(k)));
    }
    let entries = match get(m, "processes") {
        None => return Err(err(ConfigIssue::MissingKey(crate::csv::text_chars("processes")))),
        Some(Doc::List(items)) => items,
        Some(_) => return Err(err(ConfigIssue::ExpectedList)),
    };
    let ghost ps = entries@;
    let mut processes: Vec<Process> = Vec::new();
    let mut i: usize = 0;
    while i < entries.len()
        invariant
            ps == entries@,
            keys_known(m@, program_keys()),
            doc_processes(*d) == ps,
            (d matches Doc::Mapping(mm) && mm@ == m@),
            (lookup_key(m@, "processes"@) matches Some(Doc::List(x)) && x@ == ps),
            i <= entries.len(),
            processes@.len() == i,
            forall|k: int| 0 <= k < i ==> process_wf(#[trigger] processes@[k]),
            forall|k: int| 0 <= k < i ==> crate::laws::process_typed(#[trigger] processes@[k].columns@),
            forall|k: int| 0 <= k < i ==> process_of_doc(#[trigger] processes@[k], ps[k]),
            forall|k: int| 0 <= k < i ==> process_error(#[trigger] ps[k]) is None,
            first_unknown(m@, program_keys()) is None,
            processes_error(ps, 0) == processes_error(ps, i as int),
            forall|k: int|
                1 <= k < i ==> doc_out_types(
                    doc_columns(ps[k - 1]),
                    doc_columns(ps[k - 1]).len() as int,
                ) == doc_in_types(doc_columns(#[trigger] ps[k])),
        decreases entries.len() - i,
    {
        let p = match parse_process(&entries[i]) {
            Ok(p) => p,
            Err(e) => {
                assert(!process_doc_ok(ps[i as int]));
                assert(name_or_empty(entry_map(ps[i as int])) == e.process@);
                return Err(e);
            },
        };
        if i > 0 {
            let fits = chain_fits(&processes[i - 1], &p);
            proof {
                let prev = processes@[i - 1];
                assert(process_of_doc(prev, ps[i - 1]));
                lemma_types_of_docs(prev.columns@, doc_columns(ps[i - 1]), prev.columns@.len() as int);
                lemma_types_of_docs(p.columns@, doc_columns(ps[i as int]), 0);
            }
            if !fits {
                assert(name_or_empty(entry_map(ps[i as int])) == p.name@);
                let no_column: Vec<char> = Vec::new();
                assert(no_column@ =~= Seq::<char>::empty());
                return Err(ConfigError { process: p.name, column: no_column, issue: ConfigIssue::ChainMismatch });
            }
        }
        processes.push(p);
        i = i + 1;
    }
    assert(processes_error(ps, 0) is None);
    if processes.len() == 0 {
        return Err(err(ConfigIssue::NoProcesses));
    }
    assert forall|k: int| 0 <= k < ps.len() implies process_doc_ok(#[trigger] ps[k]) by {
        assert(process_of_doc(processes@[k], ps[k]));
    }
    let on_title = match get_str(m, "on-title") {
        Ok(None) => OnTitle::Once,
        Ok(Some(t)) => {
            if chars_equal(&t, &crate::csv::text_chars("once")) {
                OnTitle::Once
            } else if chars_equal(&t, &crate::csv::text_chars("combine")) {
                OnTitle::Combine
            } else if chars_equal(&t, &crate::csv::text_chars("split")) {
                OnTitle::Split
            } else {
                return Err(err(ConfigIssue::UnknownOnTitle(t)));
            }
        },
        Err(e) => return Err(e),
    };
    Ok(Program { processes, on_title })
}

} // verus!
