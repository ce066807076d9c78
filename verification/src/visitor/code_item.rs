//! A definition found in the code, with where it is and what removing it cuts out.

use vstd::prelude::*;

use crate::constants::{spec_error_code, UnusedCodeType};
use crate::data_types::Part;
use crate::utils::text::{
    chars_of, copy_strings, push_decimal, spec_decimal, string_from_chars, string_views,
};

verus! {

/// One definition (or file) that may be reported.
#[derive(Debug, Clone)]
pub struct CodeItem {
    pub name: String,
    pub type_: UnusedCodeType,
    pub filename: String,
    pub code_parts: Vec<Part>,
    pub scope: Option<String>,
    pub inherits_from: Option<Vec<String>>,
    pub name_line: Option<u32>,
    pub name_column: Option<u32>,
    pub message: String,
    pub number_of_uses: u32,
}

/// `path` with every backslash turned into a forward slash.
pub open spec fn spec_as_posix(path: Seq<char>) -> Seq<char> {
    path.map_values(|c: char| if c == '\\' { '/' } else { c })
}

/// `Path::as_posix()`: forward slashes regardless of host OS.
pub fn path_as_posix(path: &str) -> (r: String)
    ensures
        r@ == spec_as_posix(path@),
{
    let cs = chars_of(path);
    let mut out: Vec<char> = Vec::new();
    for i in 0..cs.len()
        invariant
            cs@ == path@,
            out@ == spec_as_posix(cs@.take(i as int)),
    {
        assert(cs@.take(i + 1) =~= cs@.take(i as int).push(cs@[i as int]));
        if cs[i] == '\\' {
            out.push('/');
        } else {
            out.push(cs[i]);
        }
        assert(out@ =~= spec_as_posix(cs@.take(i + 1)));
    }
    assert(cs@.take(cs.len() as int) =~= cs@);
    string_from_chars(out.as_slice())
}

/// `file`, `file:line` or `file:line:column:` (the column only after a line).
pub open spec fn spec_filename_with_position(
    filename: Seq<char>,
    name_line: Option<u32>,
    name_column: Option<u32>,
) -> Seq<char> {
    let base = spec_as_posix(filename);
    match name_line {
        None => base,
        Some(line) => {
            let with_line = base + seq![':'] + spec_decimal(line as nat);
            match name_column {
                None => with_line,
                Some(col) => with_line + seq![':'] + spec_decimal(col as nat) + seq![':'],
            }
        },
    }
}

/// What an item holds, as values.
pub struct CodeItemView {
    pub name: Seq<char>,
    pub type_: UnusedCodeType,
    pub filename: Seq<char>,
    pub code_parts: Seq<Part>,
    pub scope: Option<Seq<char>>,
    pub inherits_from: Option<Seq<Seq<char>>>,
    pub name_line: Option<u32>,
    pub name_column: Option<u32>,
    pub message: Seq<char>,
    pub number_of_uses: u32,
}

impl View for CodeItem {
    type V = CodeItemView;

    open spec fn view(&self) -> CodeItemView {
        CodeItemView {
            name: self.name@,
            type_: self.type_,
            filename: self.filename@,
            code_parts: self.code_parts@,
            scope: match self.scope {
                Some(s) => Some(s@),
                None => None,
            },
            inherits_from: match self.inherits_from {
                Some(v) => Some(string_views(v@)),
                None => None,
            },
            name_line: self.name_line,
            name_column: self.name_column,
            message: self.message@,
            number_of_uses: self.number_of_uses,
        }
    }
}

impl CodeItem {
    pub fn new(
        name: String,
        type_: UnusedCodeType,
        filename: String,
        code_parts: Vec<Part>,
        scope: Option<String>,
        inherits_from: Option<Vec<String>>,
        name_line: Option<u32>,
        name_column: Option<u32>,
        message: String,
    ) -> (item: Self)
        ensures
            item.name == name,
            item.type_ == type_,
            item.filename == filename,
            item.code_parts == code_parts,
            item.scope == scope,
            item.inherits_from == inherits_from,
            item.name_line == name_line,
            item.name_column == name_column,
            item.message == message,
            item.number_of_uses == 0,
    {
        CodeItem {
            name,
            type_,
            filename,
            code_parts,
            scope,
            inherits_from,
            name_line,
            name_column,
            message,
            number_of_uses: 0,
        }
    }

    pub fn error_code(&self) -> (s: &'static str)
        ensures
            s@ == spec_error_code(self.type_),
    {
        self.type_.error_code()
    }

    /// The item's file (forward slashes) and, when known, `:line`, then `:column:`.
    pub fn filename_with_position(&self) -> (r: String)
        ensures
            r@ == spec_filename_with_position(self.filename@, self.name_line, self.name_column),
    {
        let posix = path_as_posix(self.filename.as_str());
        let mut out = chars_of(posix.as_str());
        match self.name_line {
            None => {},
            Some(line) => {
                out.push(':');
                push_decimal(&mut out, line as u64);
                match self.name_column {
                    None => {},
                    Some(col) => {
                        out.push(':');
                        push_decimal(&mut out, col as u64);
                        out.push(':');
                    },
                }
            },
        }
        string_from_chars(out.as_slice())
    }

    /// A copy of the item.
    pub fn duplicate(&self) -> (r: CodeItem)
        ensures
            r@ == self@,
    {
        let mut parts: Vec<Part> = Vec::new();
        for i in 0..self.code_parts.len()
            invariant
                parts@ == self.code_parts@.take(i as int),
        {
            parts.push(self.code_parts[i]);
            assert(self.code_parts@.take(i + 1) =~= self.code_parts@.take(i as int).push(
                self.code_parts@[i as int],
            ));
        }
        assert(self.code_parts@.take(self.code_parts.len() as int) =~= self.code_parts@);
        let scope = match &self.scope {
            Some(s) => Some(s.clone()),
            None => None,
        };
        let inherits_from = match &self.inherits_from {
            Some(v) => Some(copy_strings(v)),
            None => None,
        };
        CodeItem {
            name: self.name.clone(),
            type_: self.type_,
            filename: self.filename.clone(),
            code_parts: parts,
            scope,
            inherits_from,
            name_line: self.name_line,
            name_column: self.name_column,
            message: self.message.clone(),
            number_of_uses: self.number_of_uses,
        }
    }
}

} // verus!
