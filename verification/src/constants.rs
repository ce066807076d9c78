//! The kinds of unused code that deadcode reports, with their messages and error codes.

use vstd::prelude::*;

verus! {

/// A kind of finding.
#[derive(Debug, Clone, Copy, PartialEq, Eq, Structural, Hash)]
pub enum UnusedCodeType {
    Attribute,
    Class,
    Function,
    Import,
    Method,
    Property,
    Variable,
    UnreachableCode,
    Name,
    UnusedFile,
    CommentedOutCode,
    IgnoreExpression,
}

/// The human-readable name of a finding kind (the type with `_` replaced by
/// a space and the first letter capitalised).
pub open spec fn spec_display_name(t: UnusedCodeType) -> Seq<char> {
    match t {
        UnusedCodeType::Attribute => "Attribute"@,
        UnusedCodeType::Class => "Class"@,
        UnusedCodeType::Function => "Function"@,
        UnusedCodeType::Import => "Import"@,
        UnusedCodeType::Method => "Method"@,
        UnusedCodeType::Property => "Property"@,
        UnusedCodeType::Variable => "Variable"@,
        UnusedCodeType::UnreachableCode => "Unreachable code"@,
        UnusedCodeType::Name => "Name"@,
        UnusedCodeType::UnusedFile => "Unused file"@,
        UnusedCodeType::CommentedOutCode => "Commented out code"@,
        UnusedCodeType::IgnoreExpression => "Ignore expression"@,
    }
}

/// The `DCxx` error code of a finding kind (`DC10` is not used).
pub open spec fn spec_error_code(t: UnusedCodeType) -> Seq<char> {
    match t {
        UnusedCodeType::Variable => "DC01"@,
        UnusedCodeType::Function => "DC02"@,
        UnusedCodeType::Class => "DC03"@,
        UnusedCodeType::Method => "DC04"@,
        UnusedCodeType::Attribute => "DC05"@,
        UnusedCodeType::Name => "DC06"@,
        UnusedCodeType::Import => "DC07"@,
        UnusedCodeType::Property => "DC08"@,
        UnusedCodeType::UnreachableCode => "DC09"@,
        UnusedCodeType::UnusedFile => "DC11"@,
        UnusedCodeType::CommentedOutCode => "DC12"@,
        UnusedCodeType::IgnoreExpression => "DC13"@,
    }
}

impl UnusedCodeType {
    pub fn display_name(self) -> (s: &'static str)
        ensures
            s@ == spec_display_name(self),
    {
        match self {
            UnusedCodeType::Attribute => "Attribute",
            UnusedCodeType::Class => "Class",
            UnusedCodeType::Function => "Function",
            UnusedCodeType::Import => "Import",
            UnusedCodeType::Method => "Method",
            UnusedCodeType::Property => "Property",
            UnusedCodeType::Variable => "Variable",
            UnusedCodeType::UnreachableCode => "Unreachable code",
            UnusedCodeType::Name => "Name",
            UnusedCodeType::UnusedFile => "Unused file",
            UnusedCodeType::CommentedOutCode => "Commented out code",
            UnusedCodeType::IgnoreExpression => "Ignore expression",
        }
    }

    pub fn error_code(self) -> (s: &'static str)
        ensures
            s@ == spec_error_code(self),
    {
        match self {
            UnusedCodeType::Variable => "DC01",
            UnusedCodeType::Function => "DC02",
            UnusedCodeType::Class => "DC03",
            UnusedCodeType::Method => "DC04",
            UnusedCodeType::Attribute => "DC05",
            UnusedCodeType::Name => "DC06",
            UnusedCodeType::Import => "DC07",
            UnusedCodeType::Property => "DC08",
            UnusedCodeType::UnreachableCode => "DC09",
            UnusedCodeType::UnusedFile => "DC11",
            UnusedCodeType::CommentedOutCode => "DC12",
            UnusedCodeType::IgnoreExpression => "DC13",
        }
    }
}

/// The two digits of a kind's code.
spec fn code_digits(t: UnusedCodeType) -> (char, char) {
    match t {
        UnusedCodeType::Variable => ('0', '1'),
        UnusedCodeType::Function => ('0', '2'),
        UnusedCodeType::Class => ('0', '3'),
        UnusedCodeType::Method => ('0', '4'),
        UnusedCodeType::Attribute => ('0', '5'),
        UnusedCodeType::Name => ('0', '6'),
        UnusedCodeType::Import => ('0', '7'),
        UnusedCodeType::Property => ('0', '8'),
        UnusedCodeType::UnreachableCode => ('0', '9'),
        UnusedCodeType::UnusedFile => ('1', '1'),
        UnusedCodeType::CommentedOutCode => ('1', '2'),
        UnusedCodeType::IgnoreExpression => ('1', '3'),
    }
}

/// Every code is `DC` and two digits, and the digits are the kind's.
proof fn lemma_error_code_digits(t: UnusedCodeType)
    ensures
        spec_error_code(t).len() == 4,
        spec_error_code(t)[2] == code_digits(t).0,
        spec_error_code(t)[3] == code_digits(t).1,
{
    match t {
        UnusedCodeType::Variable => {
            reveal_strlit("DC01");
        },
        UnusedCodeType::Function => {
            reveal_strlit("DC02");
        },
        UnusedCodeType::Class => {
            reveal_strlit("DC03");
        },
        UnusedCodeType::Method => {
            reveal_strlit("DC04");
        },
        UnusedCodeType::Attribute => {
            reveal_strlit("DC05");
        },
        UnusedCodeType::Name => {
            reveal_strlit("DC06");
        },
        UnusedCodeType::Import => {
            reveal_strlit("DC07");
        },
        UnusedCodeType::Property => {
            reveal_strlit("DC08");
        },
        UnusedCodeType::UnreachableCode => {
            reveal_strlit("DC09");
        },
        UnusedCodeType::UnusedFile => {
            reveal_strlit("DC11");
        },
        UnusedCodeType::CommentedOutCode => {
            reveal_strlit("DC12");
        },
        UnusedCodeType::IgnoreExpression => {
            reveal_strlit("DC13");
        },
    }
}

/// Each kind of finding is reported under its own code: unused variables
/// DC01, functions DC02, classes DC03, methods DC04, attributes DC05, names
/// DC06, imports DC07, properties DC08, unreachable code DC09, unused files
/// DC11, commented-out code DC12 and ignore expressions DC13; no two kinds
/// share a code. Each kind is named in the report as listed.
pub proof fn law_each_kind_has_its_own_code(a: UnusedCodeType, b: UnusedCodeType)
    ensures
        spec_error_code(UnusedCodeType::Variable) == "DC01"@,
        spec_error_code(UnusedCodeType::Function) == "DC02"@,
        spec_error_code(UnusedCodeType::Class) == "DC03"@,
        spec_error_code(UnusedCodeType::Method) == "DC04"@,
        spec_error_code(UnusedCodeType::Attribute) == "DC05"@,
        spec_error_code(UnusedCodeType::Name) == "DC06"@,
        spec_error_code(UnusedCodeType::Import) == "DC07"@,
        spec_error_code(UnusedCodeType::Property) == "DC08"@,
        spec_error_code(UnusedCodeType::UnreachableCode) == "DC09"@,
        spec_error_code(UnusedCodeType::UnusedFile) == "DC11"@,
        spec_error_code(UnusedCodeType::CommentedOutCode) == "DC12"@,
        spec_error_code(UnusedCodeType::IgnoreExpression) == "DC13"@,
        spec_error_code(a) == spec_error_code(b) ==> a == b,
        spec_display_name(UnusedCodeType::Attribute) == "Attribute"@,
        spec_display_name(UnusedCodeType::Class) == "Class"@,
        spec_display_name(UnusedCodeType::Function) == "Function"@,
        spec_display_name(UnusedCodeType::Import) == "Import"@,
        spec_display_name(UnusedCodeType::Method) == "Method"@,
        spec_display_name(UnusedCodeType::Property) == "Property"@,
        spec_display_name(UnusedCodeType::Variable) == "Variable"@,
        spec_display_name(UnusedCodeType::UnreachableCode) == "Unreachable code"@,
        spec_display_name(UnusedCodeType::Name) == "Name"@,
        spec_display_name(UnusedCodeType::UnusedFile) == "Unused file"@,
        spec_display_name(UnusedCodeType::CommentedOutCode) == "Commented out code"@,
        spec_display_name(UnusedCodeType::IgnoreExpression) == "Ignore expression"@,
{
    lemma_error_code_digits(a);
    lemma_error_code_digits(b);
    if spec_error_code(a) == spec_error_code(b) {
        assert(code_digits(a) == code_digits(b));
    }
}

} // verus!
