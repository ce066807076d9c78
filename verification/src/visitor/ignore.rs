//! The rules by which a definition is not reported, whatever its use.

use vstd::prelude::*;

use crate::utils::fnmatch::{match_any, match_many, spec_match_any, spec_match_many};
use crate::utils::path_utils::{
    components, parent_dir, path_components, spec_resolve_path, resolve_path,
};
use crate::utils::text::{
    chars_contain, chars_end_with, chars_of, chars_start_with, contains_chars, ends_with_chars,
    starts_with_chars, str_eq, string_views,
};
use crate::visitor::code_item::{path_as_posix, spec_as_posix};
use crate::visitor::python_ast::Expr;

verus! {

/// The last component of a path, unless the path ends in `..` or has none.
pub open spec fn spec_file_name(path: Seq<char>) -> Option<Seq<char>> {
    let comps = path_components(path);
    if comps.len() == 0 || comps.last() == parent_dir() {
        None
    } else {
        Some(comps.last())
    }
}

/// `Path::file_name`.
pub fn file_name(path: &str) -> (r: Option<String>)
    ensures
        match r {
            None => spec_file_name(path@) is None,
            Some(n) => spec_file_name(path@) == Some(n@),
        },
{
    let p = chars_of(path);
    let comps = components(p.as_slice());
    if comps.len() == 0 {
        return None;
    }
    let last = &comps[comps.len() - 1];
    let dd = vec!['.', '.'];
    assert(dd@ =~= parent_dir());
    if crate::utils::text::chars_eq(last.as_slice(), dd.as_slice()) {
        return None;
    }
    Some(crate::utils::text::string_from_chars(last.as_slice()))
}

fn file_name_is(path: &str, name: &str) -> (r: bool)
    ensures
        r == (spec_file_name(path@) == Some(name@)),
{
    match file_name(path) {
        None => false,
        Some(n) => str_eq(n.as_str(), name),
    }
}

/// `__x__`.
pub open spec fn is_special_name(name: Seq<char>) -> bool {
    chars_start_with(name, seq!['_', '_']) && chars_end_with(name, seq!['_', '_'])
}

fn special_name(name: &str) -> (r: bool)
    ensures
        r == is_special_name(name@),
{
    let n = chars_of(name);
    let us = vec!['_', '_'];
    assert(us@ =~= seq!['_', '_']);
    starts_with_chars(n.as_slice(), us.as_slice()) && ends_with_chars(n.as_slice(), us.as_slice())
}

/// The glob patterns that mark a test file.
pub open spec fn test_file_patterns() -> Seq<Seq<char>> {
    seq!["*/test/*"@, "*/tests/*"@, "*/test*.py"@, "*[-_]test.py"@]
}

/// The resolved path matches a test-file pattern (case-insensitively).
pub open spec fn spec_is_test_file(cwd: Seq<char>, filename: Seq<char>) -> bool {
    spec_match_any(spec_as_posix(spec_resolve_path(cwd, filename)), test_file_patterns(), false)
}

/// The file, resolved against `cwd`, is in a `test`/`tests` directory or is
/// named `test*.py` or `*-test.py`/`*_test.py` (case-insensitively).
pub fn is_test_file(cwd: &str, filename: &str) -> (r: bool)
    ensures
        r == spec_is_test_file(cwd@, filename@),
{
    let resolved = resolve_path(cwd, filename);
    let posix = path_as_posix(resolved.as_str());
    let patterns = vec![
        "*/test/*".to_owned(),
        "*/tests/*".to_owned(),
        "*/test*.py".to_owned(),
        "*[-_]test.py".to_owned(),
    ];
    assert(string_views(patterns@) =~= test_file_patterns());
    match_any(posix.as_str(), patterns.as_slice(), false)
}

/// The file is named `conftest.py`.
pub open spec fn spec_is_conftest_file(filename: Seq<char>) -> bool {
    spec_file_name(filename) == Some("conftest.py"@)
}

pub fn is_conftest_file(filename: &str) -> (r: bool)
    ensures
        r == spec_is_conftest_file(filename@),
{
    file_name_is(filename, "conftest.py")
}

/// A class named like a test in a test file.
pub open spec fn spec_ignore_class(cwd: Seq<char>, filename: Seq<char>, class_name: Seq<char>) -> bool {
    spec_is_test_file(cwd, filename) && contains_chars(class_name, "Test"@)
}

pub fn ignore_class(cwd: &str, filename: &str, class_name: &str) -> (r: bool)
    ensures
        r == spec_ignore_class(cwd@, filename@, class_name@),
{
    let n = chars_of(class_name);
    let t = chars_of("Test");
    is_test_file(cwd, filename) && chars_contain(n.as_slice(), t.as_slice())
}

/// Star imports (their use cannot be seen) and imports in `__init__.py`
/// files (which re-export a package's API).
pub open spec fn spec_ignore_import(filename: Seq<char>, import_name: Seq<char>) -> bool {
    spec_file_name(filename) == Some("__init__.py"@) || import_name == seq!['*']
}

pub fn ignore_import(filename: &str, import_name: &str) -> (r: bool)
    ensures
        r == spec_ignore_import(filename@, import_name@),
{
    let star = vec!['*'];
    let n = chars_of(import_name);
    assert(star@ =~= seq!['*']);
    file_name_is(filename, "__init__.py") || crate::utils::text::chars_eq(
        n.as_slice(),
        star.as_slice(),
    )
}

/// pytest's module-level setup and teardown functions.
pub open spec fn is_pytest_function_name(name: Seq<char>) -> bool {
    name == "setup_module"@ || name == "teardown_module"@ || name == "setup_function"@ || name
        == "teardown_function"@
}

/// pytest's class-level setup and teardown methods.
pub open spec fn is_pytest_method_name(name: Seq<char>) -> bool {
    name == "setup_class"@ || name == "teardown_class"@ || name == "setup_method"@ || name
        == "teardown_method"@
}

/// A `pytest_*` hook in a `conftest.py`.
pub open spec fn spec_ignore_pytest_hook(filename: Seq<char>, function_name: Seq<char>) -> bool {
    spec_is_conftest_file(filename) && chars_start_with(function_name, "pytest_"@)
}

/// pytest's setup/teardown or `test_*` functions in a test file, and pytest hooks.
pub open spec fn spec_ignore_function(cwd: Seq<char>, filename: Seq<char>, function_name: Seq<char>) -> bool {
    ((is_pytest_function_name(function_name) || chars_start_with(function_name, "test_"@))
        && spec_is_test_file(cwd, filename)) || spec_ignore_pytest_hook(filename, function_name)
}

fn starts_with_str(s: &str, p: &str) -> (r: bool)
    ensures
        r == chars_start_with(s@, p@),
{
    let a = chars_of(s);
    let b = chars_of(p);
    starts_with_chars(a.as_slice(), b.as_slice())
}

pub fn ignore_function(cwd: &str, filename: &str, function_name: &str) -> (r: bool)
    ensures
        r == spec_ignore_function(cwd@, filename@, function_name@),
{
    let named = str_eq(function_name, "setup_module") || str_eq(function_name, "teardown_module")
        || str_eq(function_name, "setup_function") || str_eq(function_name, "teardown_function")
        || starts_with_str(function_name, "test_");
    (named && is_test_file(cwd, filename)) || ignore_pytest_hook(filename, function_name)
}

/// `pytest_*` functions in conftest.py (hooks pytest calls by name).
pub fn ignore_pytest_hook(filename: &str, function_name: &str) -> (r: bool)
    ensures
        r == spec_ignore_pytest_hook(filename@, function_name@),
{
    is_conftest_file(filename) && starts_with_str(function_name, "pytest_")
}

/// The decorators that make a function a pytest fixture.
pub open spec fn fixture_decorator_names() -> Seq<Seq<char>> {
    seq!["@pytest.fixture"@, "@pytest_asyncio.fixture"@, "@fixture"@]
}

/// The decorators that mark a method as overriding a base-class method.
pub open spec fn override_decorator_names() -> Seq<Seq<char>> {
    seq!["@typing.override"@, "@typing_extensions.override"@, "@override"@]
}

/// The decorators that register an `attrs` field's default factory or validator.
pub open spec fn attrs_field_hook_patterns() -> Seq<Seq<char>> {
    seq!["@*.default"@, "@*.validator"@]
}

/// A fixture defined in conftest.py or a test file.
pub open spec fn spec_ignore_pytest_fixture(
    cwd: Seq<char>,
    filename: Seq<char>,
    decorator_names: Seq<Seq<char>>,
) -> bool {
    (spec_is_conftest_file(filename) || spec_is_test_file(cwd, filename)) && spec_match_many(
        decorator_names,
        fixture_decorator_names(),
        true,
    )
}

/// Pytest fixtures are consumed by name-matching, never called directly.
/// Any fixture defined in conftest.py or a recognized test file is trusted.
pub fn ignore_pytest_fixture(cwd: &str, filename: &str, decorator_names: &[String]) -> (r: bool)
    ensures
        r == spec_ignore_pytest_fixture(cwd@, filename@, string_views(decorator_names@)),
{
    let patterns = vec![
        "@pytest.fixture".to_owned(),
        "@pytest_asyncio.fixture".to_owned(),
        "@fixture".to_owned(),
    ];
    assert(string_views(patterns@) =~= fixture_decorator_names());
    (is_conftest_file(filename) || is_test_file(cwd, filename)) && match_many(
        decorator_names,
        patterns.as_slice(),
        true,
    )
}

/// `@typing.override` marks a method as overriding a base-class method,
/// which is what gets called.
pub fn ignore_override(decorator_names: &[String]) -> (r: bool)
    ensures
        r == spec_match_many(string_views(decorator_names@), override_decorator_names(), true),
{
    let patterns = vec![
        "@typing.override".to_owned(),
        "@typing_extensions.override".to_owned(),
        "@override".to_owned(),
    ];
    assert(string_views(patterns@) =~= override_decorator_names());
    match_many(decorator_names, patterns.as_slice(), true)
}

/// `@some_field.default` / `@some_field.validator` register an `attrs`
/// field's default factory or validator, which `attrs` calls itself.
pub fn ignore_attrs_field_hook(decorator_names: &[String]) -> (r: bool)
    ensures
        r == spec_match_many(string_views(decorator_names@), attrs_field_hook_patterns(), true),
{
    let patterns = vec!["@*.default".to_owned(), "@*.validator".to_owned()];
    assert(string_views(patterns@) =~= attrs_field_hook_patterns());
    match_many(decorator_names, patterns.as_slice(), true)
}

/// Special methods, and pytest's setup/teardown or `test_*` methods in a test file.
pub open spec fn spec_ignore_method(cwd: Seq<char>, filename: Seq<char>, method_name: Seq<char>) -> bool {
    is_special_name(method_name) || ((is_pytest_method_name(method_name) || chars_start_with(
        method_name,
        "test_"@,
    )) && spec_is_test_file(cwd, filename))
}

pub fn ignore_method(cwd: &str, filename: &str, method_name: &str) -> (r: bool)
    ensures
        r == spec_ignore_method(cwd@, filename@, method_name@),
{
    if special_name(method_name) {
        return true;
    }
    let named = str_eq(method_name, "setup_class") || str_eq(method_name, "teardown_class")
        || str_eq(method_name, "setup_method") || str_eq(method_name, "teardown_method")
        || starts_with_str(method_name, "test_");
    named && is_test_file(cwd, filename)
}

/// `object` and `self`.
pub open spec fn is_ignored_variable_name(name: Seq<char>) -> bool {
    name == "object"@ || name == "self"@
}

/// `_` (Python idiom), `_x` (pylint convention) and `__x__` (special
/// variable), but not `__x`.
pub open spec fn spec_ignore_variable(varname: Seq<char>) -> bool {
    is_ignored_variable_name(varname) || (chars_start_with(varname, seq!['_'])
        && !chars_start_with(varname, seq!['_', '_'])) || is_special_name(varname)
}

pub fn ignore_variable(varname: &str) -> (r: bool)
    ensures
        r == spec_ignore_variable(varname@),
{
    let n = chars_of(varname);
    let one = vec!['_'];
    let two = vec!['_', '_'];
    assert(one@ =~= seq!['_']);
    assert(two@ =~= seq!['_', '_']);
    str_eq(varname, "object") || str_eq(varname, "self") || (starts_with_chars(
        n.as_slice(),
        one.as_slice(),
    ) && !starts_with_chars(n.as_slice(), two.as_slice())) || special_name(varname)
}


/// The decorators that name fixtures to use for a test.
pub open spec fn usefixtures_decorator_names() -> Seq<Seq<char>> {
    seq!["@pytest.mark.usefixtures"@, "@mark.usefixtures"@, "@usefixtures"@]
}

/// Whether a decorator name is one of the `usefixtures` marks.
pub fn is_usefixtures_decorator_name(name: &str) -> (r: bool)
    ensures
        r == usefixtures_decorator_names().contains(name@),
{
    proof {
        reveal_strlit("@pytest.mark.usefixtures");
        reveal_strlit("@mark.usefixtures");
        reveal_strlit("@usefixtures");
    }
    let r = str_eq(name, "@pytest.mark.usefixtures") || str_eq(name, "@mark.usefixtures") || str_eq(
        name,
        "@usefixtures",
    );
    proof {
        if usefixtures_decorator_names().contains(name@) {
            let k = choose|k: int| 0 <= k < 3 && usefixtures_decorator_names()[k] == name@;
            assert(k == 0 || k == 1 || k == 2);
        }
        if r {
            if name@ == "@pytest.mark.usefixtures"@ {
                assert(usefixtures_decorator_names()[0] == name@);
            } else if name@ == "@mark.usefixtures"@ {
                assert(usefixtures_decorator_names()[1] == name@);
            } else {
                assert(usefixtures_decorator_names()[2] == name@);
            }
        }
    }
    r
}

/// Some target is the plain name `__all__`.
pub open spec fn spec_assigns_special_variable_all(targets: Seq<Expr>) -> bool {
    exists|i: int|
        0 <= i < targets.len() && (#[trigger] targets[i] matches Expr::Name { id, .. } && id@
            == "__all__"@)
}

/// Whether an assignment sets `__all__`.
pub fn assigns_special_variable_all(targets: &[Expr]) -> (r: bool)
    ensures
        r == spec_assigns_special_variable_all(targets@),
{
    for i in 0..targets.len()
        invariant
            forall|k: int|
                0 <= k < i ==> !(#[trigger] targets@[k] matches Expr::Name { id, .. } && id@
                    == "__all__"@),
    {
        if let Expr::Name { id, .. } = &targets[i] {
            if str_eq(id.as_str(), "__all__") {
                assert(targets@[i as int] matches Expr::Name { id, .. } && id@ == "__all__"@);
                return true;
            }
        }
    }
    false
}

/// The attribute is set on the plain name `self`.
pub open spec fn spec_is_self_attribute_target(value: Expr) -> bool {
    value matches Expr::Name { id, .. } && id@ == "self"@
}

/// Whether an attribute assignment target is `self.attr` (as opposed to e.g.
/// `foo.attr`, where `foo` is some other object).
pub fn is_self_attribute_target(value: &Expr) -> (r: bool)
    ensures
        r == spec_is_self_attribute_target(*value),
{
    match value {
        Expr::Name { id, .. } => str_eq(id.as_str(), "self"),
        _ => false,
    }
}

/// In a test file, pytest's xunit-style setup and teardown methods
/// (`setup_class`, `teardown_class`, `setup_method`, `teardown_method`) and
/// every `test_*` method are never reported, nor are pytest's module-level
/// setup and teardown functions (`setup_module`, `teardown_module`,
/// `setup_function`, `teardown_function`) and every `test_*` function; a
/// special `__x__` method is never reported, in any file.
pub proof fn law_pytest_names_are_exempt_in_test_files(
    cwd: Seq<char>,
    filename: Seq<char>,
    name: Seq<char>,
)
    ensures
        spec_is_test_file(cwd, filename) && (name == "setup_class"@ || name == "teardown_class"@
            || name == "setup_method"@ || name == "teardown_method"@) ==> spec_ignore_method(
            cwd,
            filename,
            name,
        ),
        spec_is_test_file(cwd, filename) && chars_start_with(name, "test_"@) ==> spec_ignore_method(
            cwd,
            filename,
            name,
        ),
        spec_is_test_file(cwd, filename) && (name == "setup_module"@ || name == "teardown_module"@
            || name == "setup_function"@ || name == "teardown_function"@) ==> spec_ignore_function(
            cwd,
            filename,
            name,
        ),
        spec_is_test_file(cwd, filename) && chars_start_with(name, "test_"@)
            ==> spec_ignore_function(cwd, filename, name),
        chars_start_with(name, seq!['_', '_']) && chars_end_with(name, seq!['_', '_'])
            ==> spec_ignore_method(cwd, filename, name),
{
}

} // verus!
