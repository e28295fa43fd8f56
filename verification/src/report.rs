//! What the checks find: return sites, violations, reports and errors.

use vstd::prelude::*;

use crate::name_map::NameMap;
use crate::text::{decimal, push_decimal, texts};
use crate::types::{
    cloned_strings, type_text, Contract, ContractModel, ParamDef, ParamModel, TypeDef, TypeModel,
};

verus! {

// ---------------------------------------------------------------------------
// Return sites.
// ---------------------------------------------------------------------------

/// Why an expression has no value that is known statically.
#[derive(Debug, PartialEq)]
pub enum DynamicReason {
    /// `return x;`: a local variable, whose assignments are not tracked.
    Variable(String),
    /// `return helper(x);`, where `helper` is not in the registry.
    UnannotatedCall(String),
    /// `return f(x);`, where `f` is an expression and not the name of a
    /// function.
    IndirectCall,
    /// `return value.compute();`: a method of a value.
    MethodCall(String),
    /// `return expr?;`, where the type of `expr` does not tell what is left.
    TryPropagation,
    /// An operator, a field or index access, any other expression.
    Expression,
}

/// What is known statically of the value of an expression.
#[derive(Debug, PartialEq)]
pub enum LiteralValue {
    String(String),
    Int(i64),
    /// The literal as it is written, in decimal notation.
    Float(String),
    Bool(bool),
    Object(Vec<(String, LiteralValue)>),
    Enum { path: Vec<String>, inner: Option<Box<LiteralValue>> },
    List(Vec<LiteralValue>),
    Unit,
    /// A call of a function in the registry.
    ResolvedCall { name: String, type_def: TypeDef },
    Dynamic(DynamicReason),
}

/// A place at which a function returns, with what is known of the value.
#[derive(Debug, PartialEq)]
pub enum ReturnSite {
    /// `return #{ field: value, ... }`
    ObjectLiteral(Vec<(String, LiteralValue)>),
    /// `return "text"`, `return 42`, `return true`, `return [..]`
    PrimitiveLiteral(LiteralValue),
    /// `return Enum::Variant(value)`
    EnumLiteral { path: Vec<String>, inner: Option<Box<LiteralValue>> },
    /// `return ()`, or the end of the function without a value.
    Unit,
    /// `return helper(x)`, where the registry knows what `helper` returns.
    ResolvedCall { name: String, type_def: TypeDef },
    /// `expr?` on an expression of unknown type: it may leave the function
    /// with `None` or `Err(..)`.
    TryPropagation { line: usize },
    /// A value that is not known statically.
    Dynamic(DynamicReason),
}

#[verifier::ext_equal]
pub enum ReasonModel {
    Variable(Seq<char>),
    UnannotatedCall(Seq<char>),
    IndirectCall,
    MethodCall(Seq<char>),
    TryPropagation,
    Expression,
}

#[verifier::ext_equal]
pub enum LiteralModel {
    String(Seq<char>),
    Int(i64),
    Float(Seq<char>),
    Bool(bool),
    Object(Seq<(Seq<char>, LiteralModel)>),
    Enum { path: Seq<Seq<char>>, inner: Option<Box<LiteralModel>> },
    List(Seq<LiteralModel>),
    Unit,
    ResolvedCall { name: Seq<char>, type_def: TypeModel },
    Dynamic(ReasonModel),
}

#[verifier::ext_equal]
pub enum SiteModel {
    ObjectLiteral(Seq<(Seq<char>, LiteralModel)>),
    PrimitiveLiteral(LiteralModel),
    EnumLiteral { path: Seq<Seq<char>>, inner: Option<Box<LiteralModel>> },
    Unit,
    ResolvedCall { name: Seq<char>, type_def: TypeModel },
    TryPropagation { line: nat },
    Dynamic(ReasonModel),
}

impl View for DynamicReason {
    type V = ReasonModel;

    open spec fn view(&self) -> ReasonModel {
        match self {
            DynamicReason::Variable(name) => ReasonModel::Variable(name@),
            DynamicReason::UnannotatedCall(name) => ReasonModel::UnannotatedCall(name@),
            DynamicReason::IndirectCall => ReasonModel::IndirectCall,
            DynamicReason::MethodCall(name) => ReasonModel::MethodCall(name@),
            DynamicReason::TryPropagation => ReasonModel::TryPropagation,
            DynamicReason::Expression => ReasonModel::Expression,
        }
    }
}

pub open spec fn literal_model(value: LiteralValue) -> LiteralModel
    decreases value,
{
    match value {
        LiteralValue::String(s) => LiteralModel::String(s@),
        LiteralValue::Int(n) => LiteralModel::Int(n),
        LiteralValue::Float(s) => LiteralModel::Float(s@),
        LiteralValue::Bool(b) => LiteralModel::Bool(b),
        LiteralValue::Object(fields) => LiteralModel::Object(literal_fields_model(fields@)),
        LiteralValue::Enum { path, inner } => LiteralModel::Enum {
            path: texts(path@),
            inner: match inner {
                Some(inner) => Some(Box::new(literal_model(*inner))),
                None => None,
            },
        },
        LiteralValue::List(items) => LiteralModel::List(literals_model(items@)),
        LiteralValue::Unit => LiteralModel::Unit,
        LiteralValue::ResolvedCall { name, type_def } => LiteralModel::ResolvedCall {
            name: name@,
            type_def: type_def@,
        },
        LiteralValue::Dynamic(reason) => LiteralModel::Dynamic(reason@),
    }
}

pub open spec fn literal_fields_model(fields: Seq<(String, LiteralValue)>) -> Seq<
    (Seq<char>, LiteralModel),
>
    decreases fields,
{
    Seq::new(
        fields.len(),
        |i: int|
            if 0 <= i < fields.len() {
                (fields[i].0@, literal_model(fields[i].1))
            } else {
                arbitrary()
            },
    )
}

pub open spec fn literals_model(items: Seq<LiteralValue>) -> Seq<LiteralModel>
    decreases items,
{
    Seq::new(
        items.len(),
        |i: int|
            if 0 <= i < items.len() {
                literal_model(items[i])
            } else {
                arbitrary()
            },
    )
}

impl View for LiteralValue {
    type V = LiteralModel;

    open spec fn view(&self) -> LiteralModel {
        literal_model(*self)
    }
}

/// The inner value of an enum literal as a mathematical value.
pub open spec fn inner_model(inner: Option<Box<LiteralValue>>) -> Option<Box<LiteralModel>> {
    match inner {
        Some(inner) => Some(Box::new(literal_model(*inner))),
        None => None,
    }
}

impl View for ReturnSite {
    type V = SiteModel;

    open spec fn view(&self) -> SiteModel {
        match self {
            ReturnSite::ObjectLiteral(fields) => SiteModel::ObjectLiteral(
                literal_fields_model(fields@),
            ),
            ReturnSite::PrimitiveLiteral(value) => SiteModel::PrimitiveLiteral(value@),
            ReturnSite::EnumLiteral { path, inner } => SiteModel::EnumLiteral {
                path: texts(path@),
                inner: inner_model(*inner),
            },
            ReturnSite::Unit => SiteModel::Unit,
            ReturnSite::ResolvedCall { name, type_def } => SiteModel::ResolvedCall {
                name: name@,
                type_def: type_def@,
            },
            ReturnSite::TryPropagation { line } => SiteModel::TryPropagation { line: *line as nat },
            ReturnSite::Dynamic(reason) => SiteModel::Dynamic(reason@),
        }
    }
}

/// Return sites as mathematical values.
pub open spec fn sites_model(sites: Seq<ReturnSite>) -> Seq<SiteModel> {
    sites.map_values(|site: ReturnSite| site@)
}

impl Clone for DynamicReason {
    fn clone(&self) -> (r: DynamicReason)
        ensures
            r@ == self@,
    {
        match self {
            DynamicReason::Variable(name) => DynamicReason::Variable(name.clone()),
            DynamicReason::UnannotatedCall(name) => DynamicReason::UnannotatedCall(name.clone()),
            DynamicReason::IndirectCall => DynamicReason::IndirectCall,
            DynamicReason::MethodCall(name) => DynamicReason::MethodCall(name.clone()),
            DynamicReason::TryPropagation => DynamicReason::TryPropagation,
            DynamicReason::Expression => DynamicReason::Expression,
        }
    }
}

impl Clone for LiteralValue {
    fn clone(&self) -> (r: LiteralValue)
        ensures
            r@ == self@,
        decreases self,
    {
        match self {
            LiteralValue::String(s) => LiteralValue::String(s.clone()),
            LiteralValue::Int(n) => LiteralValue::Int(*n),
            LiteralValue::Float(s) => LiteralValue::Float(s.clone()),
            LiteralValue::Bool(b) => LiteralValue::Bool(*b),
            LiteralValue::Object(fields) => LiteralValue::Object(cloned_literal_fields(fields)),
            LiteralValue::Enum { path, inner } => LiteralValue::Enum {
                path: cloned_strings(path),
                inner: match inner {
                    Some(inner) => Some(Box::new((**inner).clone())),
                    None => None,
                },
            },
            LiteralValue::List(items) => LiteralValue::List(cloned_literals(items)),
            LiteralValue::Unit => LiteralValue::Unit,
            LiteralValue::ResolvedCall { name, type_def } => LiteralValue::ResolvedCall {
                name: name.clone(),
                type_def: type_def.clone(),
            },
            LiteralValue::Dynamic(reason) => LiteralValue::Dynamic(reason.clone()),
        }
    }
}

/// A copy of the fields of an object literal.
fn cloned_literal_fields(fields: &Vec<(String, LiteralValue)>) -> (r: Vec<(String, LiteralValue)>)
    ensures
        literal_fields_model(r@) == literal_fields_model(fields@),
    decreases fields,
{
    let mut out: Vec<(String, LiteralValue)> = Vec::new();
    for i in 0..fields.len()
        invariant
            out@.len() == i,
            forall|j: int|
                0 <= j < i ==> (#[trigger] out@[j]).0@ == fields@[j].0@ && out@[j].1@
                    == fields@[j].1@,
    {
        out.push((fields[i].0.clone(), fields[i].1.clone()));
    }
    assert(literal_fields_model(out@) =~= literal_fields_model(fields@));
    out
}

/// A copy of the items of a list literal.
fn cloned_literals(items: &Vec<LiteralValue>) -> (r: Vec<LiteralValue>)
    ensures
        literals_model(r@) == literals_model(items@),
    decreases items,
{
    let mut out: Vec<LiteralValue> = Vec::new();
    for i in 0..items.len()
        invariant
            out@.len() == i,
            forall|j: int| 0 <= j < i ==> (#[trigger] out@[j])@ == items@[j]@,
    {
        out.push(items[i].clone());
    }
    assert(literals_model(out@) =~= literals_model(items@));
    out
}

impl Clone for ReturnSite {
    fn clone(&self) -> (r: ReturnSite)
        ensures
            r@ == self@,
    {
        match self {
            ReturnSite::ObjectLiteral(fields) => ReturnSite::ObjectLiteral(
                cloned_literal_fields(fields),
            ),
            ReturnSite::PrimitiveLiteral(value) => ReturnSite::PrimitiveLiteral(value.clone()),
            ReturnSite::EnumLiteral { path, inner } => ReturnSite::EnumLiteral {
                path: cloned_strings(path),
                inner: match inner {
                    Some(inner) => Some(Box::new((**inner).clone())),
                    None => None,
                },
            },
            ReturnSite::Unit => ReturnSite::Unit,
            ReturnSite::ResolvedCall { name, type_def } => ReturnSite::ResolvedCall {
                name: name.clone(),
                type_def: type_def.clone(),
            },
            ReturnSite::TryPropagation { line } => ReturnSite::TryPropagation { line: *line },
            ReturnSite::Dynamic(reason) => ReturnSite::Dynamic(reason.clone()),
        }
    }
}

// ---------------------------------------------------------------------------
// Violations.
// ---------------------------------------------------------------------------

/// A return site that breaks the contract.
#[derive(Debug, Clone, PartialEq)]
pub struct Violation {
    pub site: ReturnSite,
    pub expected: TypeDef,
    pub actual: String,
}

/// The return sites of a function, sorted by how they fare against the
/// contract.
#[derive(Debug, Clone)]
pub struct StaticCheckResult {
    pub verified: Vec<ReturnSite>,
    pub unverifiable: Vec<ReturnSite>,
    pub violations: Vec<Violation>,
}

/// A call of a method that its receiver does not have.
#[derive(Debug, Clone, PartialEq)]
pub struct MethodViolation {
    pub receiver: String,
    pub method: String,
    pub line: usize,
}

#[verifier::ext_equal]
pub struct ViolationModel {
    pub site: SiteModel,
    pub expected: TypeModel,
    pub actual: Seq<char>,
}

#[verifier::ext_equal]
pub struct StaticModel {
    pub verified: Seq<SiteModel>,
    pub unverifiable: Seq<SiteModel>,
    pub violations: Seq<ViolationModel>,
}

#[verifier::ext_equal]
pub struct MethodViolationModel {
    pub receiver: Seq<char>,
    pub method: Seq<char>,
    pub line: nat,
}

impl View for Violation {
    type V = ViolationModel;

    open spec fn view(&self) -> ViolationModel {
        ViolationModel { site: self.site@, expected: self.expected@, actual: self.actual@ }
    }
}

/// Violations as mathematical values.
pub open spec fn violations_model(violations: Seq<Violation>) -> Seq<ViolationModel> {
    violations.map_values(|v: Violation| v@)
}

impl View for StaticCheckResult {
    type V = StaticModel;

    open spec fn view(&self) -> StaticModel {
        StaticModel {
            verified: sites_model(self.verified@),
            unverifiable: sites_model(self.unverifiable@),
            violations: violations_model(self.violations@),
        }
    }
}

impl View for MethodViolation {
    type V = MethodViolationModel;

    open spec fn view(&self) -> MethodViolationModel {
        MethodViolationModel {
            receiver: self.receiver@,
            method: self.method@,
            line: self.line as nat,
        }
    }
}

/// Method violations as mathematical values.
pub open spec fn method_violations_model(violations: Seq<MethodViolation>) -> Seq<
    MethodViolationModel,
> {
    violations.map_values(|v: MethodViolation| v@)
}

impl Default for StaticCheckResult {
    fn default() -> (r: StaticCheckResult)
        ensures
            r.verified@.len() == 0,
            r.unverifiable@.len() == 0,
            r.violations@.len() == 0,
    {
        StaticCheckResult {
            verified: Vec::new(),
            unverifiable: Vec::new(),
            violations: Vec::new(),
        }
    }
}

/// A method violation in words.
pub open spec fn method_violation_text(v: MethodViolationModel) -> Seq<char> {
    "unknown method `"@ + v.method + "` on `"@ + v.receiver + "` (line "@ + decimal(v.line) + ")"@
}

impl MethodViolation {
    /// The violation in words.
    pub fn to_string(&self) -> (r: String)
        ensures
            r@ == method_violation_text(self@),
    {
        let mut out = "unknown method `".to_owned();
        out.append(self.method.as_str());
        out.append("` on `");
        out.append(self.receiver.as_str());
        out.append("` (line ");
        push_decimal(&mut out, self.line);
        out.append(")");
        out
    }
}

/// A difference between the contract that a script declares and the signature
/// that the host expects.
#[derive(Debug, Clone, PartialEq)]
pub enum ContractMismatch {
    /// The script declares another number of parameters.
    ParamCount { expected: usize, actual: usize },
    /// The parameter at a position has another type. Names are not compared:
    /// the script picks its own.
    Param { index: usize, expected: ParamDef, actual: ParamDef },
    /// The return type is another one.
    ReturnType { expected: TypeDef, actual: TypeDef },
}

#[verifier::ext_equal]
pub enum MismatchModel {
    ParamCount { expected: nat, actual: nat },
    Param { index: nat, expected: ParamModel, actual: ParamModel },
    ReturnType { expected: TypeModel, actual: TypeModel },
}

impl View for ContractMismatch {
    type V = MismatchModel;

    open spec fn view(&self) -> MismatchModel {
        match self {
            ContractMismatch::ParamCount { expected, actual } => MismatchModel::ParamCount {
                expected: *expected as nat,
                actual: *actual as nat,
            },
            ContractMismatch::Param { index, expected, actual } => MismatchModel::Param {
                index: *index as nat,
                expected: expected@,
                actual: actual@,
            },
            ContractMismatch::ReturnType { expected, actual } => MismatchModel::ReturnType {
                expected: expected@,
                actual: actual@,
            },
        }
    }
}

/// Mismatches as mathematical values.
pub open spec fn mismatches_model(mismatches: Seq<ContractMismatch>) -> Seq<MismatchModel> {
    mismatches.map_values(|m: ContractMismatch| m@)
}

/// A mismatch in words.
pub open spec fn mismatch_text(m: MismatchModel) -> Seq<char> {
    match m {
        MismatchModel::ParamCount { expected, actual } => "expected "@ + decimal(expected)
            + " params, script declares "@ + decimal(actual),
        MismatchModel::Param { index, expected, actual } => "param "@ + decimal(index) + " '"@
            + expected.name + "': expected `"@ + type_text(expected.type_def)
            + "`, script declares `"@ + type_text(actual.type_def) + "`"@,
        MismatchModel::ReturnType { expected, actual } => "return type: expected `"@ + type_text(
            expected,
        ) + "`, script declares `"@ + type_text(actual) + "`"@,
    }
}

impl ContractMismatch {
    /// The mismatch in words.
    pub fn to_string(&self) -> (r: String)
        ensures
            r@ == mismatch_text(self@),
    {
        match self {
            ContractMismatch::ParamCount { expected, actual } => {
                let mut out = "expected ".to_owned();
                push_decimal(&mut out, *expected);
                out.append(" params, script declares ");
                push_decimal(&mut out, *actual);
                out
            },
            ContractMismatch::Param { index, expected, actual } => {
                let mut out = "param ".to_owned();
                push_decimal(&mut out, *index);
                out.append(" '");
                out.append(expected.name.as_str());
                out.append("': expected `");
                out.append(expected.type_def.to_string().as_str());
                out.append("`, script declares `");
                out.append(actual.type_def.to_string().as_str());
                out.append("`");
                out
            },
            ContractMismatch::ReturnType { expected, actual } => {
                let mut out = "return type: expected `".to_owned();
                out.append(expected.to_string().as_str());
                out.append("`, script declares `");
                out.append(actual.to_string().as_str());
                out.append("`");
                out
            },
        }
    }
}

// ---------------------------------------------------------------------------
// Reports and errors.
// ---------------------------------------------------------------------------

/// What the validation of one function found.
#[derive(Debug, Clone)]
pub struct ValidationReport {
    pub function_name: String,
    pub contract: Contract,
    pub static_result: StaticCheckResult,
    pub method_violations: Vec<MethodViolation>,
    pub is_valid: bool,
}

/// What the validation of a script found.
#[derive(Debug, Clone)]
pub struct ScriptValidationReport {
    /// The contracted function.
    pub main: ValidationReport,
    /// The helpers that it reaches, by name.
    pub helpers: NameMap<ValidationReport>,
    /// The differences from the signature that the host expects; empty where
    /// it expects none.
    pub contract_mismatches: Vec<ContractMismatch>,
    pub is_valid: bool,
}

/// Why a script could not be validated.
#[derive(Debug, Clone, PartialEq)]
pub enum CheckerError {
    FunctionNotFound(String),
    NoDocComment,
    InvalidContractSyntax(String),
    RuneParseError(String),
}

#[verifier::ext_equal]
pub struct ReportModel {
    pub function_name: Seq<char>,
    pub contract: ContractModel,
    pub static_result: StaticModel,
    pub method_violations: Seq<MethodViolationModel>,
    pub is_valid: bool,
}

#[verifier::ext_equal]
pub struct ScriptReportModel {
    pub main: ReportModel,
    pub helpers: Map<Seq<char>, ReportModel>,
    pub contract_mismatches: Seq<MismatchModel>,
    pub is_valid: bool,
}

#[verifier::ext_equal]
pub enum ErrorModel {
    FunctionNotFound(Seq<char>),
    NoDocComment,
    InvalidContractSyntax(Seq<char>),
    RuneParseError(Seq<char>),
}

impl View for ValidationReport {
    type V = ReportModel;

    open spec fn view(&self) -> ReportModel {
        ReportModel {
            function_name: self.function_name@,
            contract: self.contract@,
            static_result: self.static_result@,
            method_violations: method_violations_model(self.method_violations@),
            is_valid: self.is_valid,
        }
    }
}

/// Reports by name as mathematical values.
pub open spec fn reports_model(reports: Map<Seq<char>, ValidationReport>) -> Map<
    Seq<char>,
    ReportModel,
> {
    reports.map_values(|r: ValidationReport| r@)
}

impl View for ScriptValidationReport {
    type V = ScriptReportModel;

    open spec fn view(&self) -> ScriptReportModel {
        ScriptReportModel {
            main: self.main@,
            helpers: reports_model(self.helpers@),
            contract_mismatches: mismatches_model(self.contract_mismatches@),
            is_valid: self.is_valid,
        }
    }
}

impl View for CheckerError {
    type V = ErrorModel;

    open spec fn view(&self) -> ErrorModel {
        match self {
            CheckerError::FunctionNotFound(name) => ErrorModel::FunctionNotFound(name@),
            CheckerError::NoDocComment => ErrorModel::NoDocComment,
            CheckerError::InvalidContractSyntax(message) => ErrorModel::InvalidContractSyntax(
                message@,
            ),
            CheckerError::RuneParseError(message) => ErrorModel::RuneParseError(message@),
        }
    }
}

/// An error in words.
pub open spec fn error_text(e: ErrorModel) -> Seq<char> {
    match e {
        ErrorModel::FunctionNotFound(name) => "Function '"@ + name + "' not found in script"@,
        ErrorModel::NoDocComment => "Function has no contract doc-comment"@,
        ErrorModel::InvalidContractSyntax(message) => "Invalid contract syntax: "@ + message,
        ErrorModel::RuneParseError(message) => "Rune parse error: "@ + message,
    }
}

impl CheckerError {
    /// The error in words.
    pub fn to_string(&self) -> (r: String)
        ensures
            r@ == error_text(self@),
    {
        match self {
            CheckerError::FunctionNotFound(name) => {
                let mut out = "Function '".to_owned();
                out.append(name.as_str());
                out.append("' not found in script");
                out
            },
            CheckerError::NoDocComment => "Function has no contract doc-comment".to_owned(),
            CheckerError::InvalidContractSyntax(message) => {
                let mut out = "Invalid contract syntax: ".to_owned();
                out.append(message.as_str());
                out
            },
            CheckerError::RuneParseError(message) => {
                let mut out = "Rune parse error: ".to_owned();
                out.append(message.as_str());
                out
            },
        }
    }
}

} // verus!
