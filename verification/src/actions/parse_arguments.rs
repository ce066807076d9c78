//! The options of a run after the command line is parsed: comma-separated
//! list values are split, `pyproject.toml`'s `[tool.deadcode]` table extends
//! the list options, and `--dry` overrides `--fix`.

use vstd::prelude::*;

use crate::data_types::Args;
use crate::utils::text::{
    chars_of, replace_all, replace_all_occurrences, split_chars, split_chars_on, str_eq,
    string_from_chars, string_views,
};
use crate::utils::toml_support::{
    array_strings, entry_views, lemma_entry_views_index, lemma_entry_views_len, parse_toml,
    spec_get, toml_document, toml_entries, toml_get, toml_strings, TomlValue, TomlView,
};

verus! {

/// Every value split at its commas, in order.
pub open spec fn flatten_commas(values: Seq<Seq<char>>) -> Seq<Seq<char>>
    decreases values.len(),
{
    if values.len() == 0 {
        Seq::empty()
    } else {
        flatten_commas(values.drop_last()) + split_chars_on(values.last(), ',')
    }
}

/// Splits every value at its commas.
pub fn flatten_comma_list(values: &[String]) -> (r: Vec<String>)
    ensures
        string_views(r@) == flatten_commas(string_views(values@)),
{
    let mut out: Vec<String> = Vec::new();
    for i in 0..values.len()
        invariant
            string_views(out@) == flatten_commas(string_views(values@.take(i as int))),
    {
        assert(string_views(values@.take(i + 1)).drop_last() =~= string_views(values@.take(i as int)));
        assert(string_views(values@.take(i + 1)).last() == values@[i as int]@);
        let cs = chars_of(values[i].as_str());
        let pieces = split_chars(cs.as_slice(), ',');
        let ghost before = string_views(out@);
        for k in 0..pieces.len()
            invariant
                crate::utils::text::char_views(pieces@) == split_chars_on(values@[i as int]@, ','),
                string_views(out@) == before + crate::utils::text::char_views(pieces@).take(k as int),
        {
            let ghost prev = string_views(out@);
            let p = string_from_chars(pieces[k].as_slice());
            out.push(p);
            assert(string_views(out@) =~= prev.push(pieces@[k as int]@));
            assert(crate::utils::text::char_views(pieces@).take(k + 1) =~= crate::utils::text::char_views(
                pieces@,
            ).take(k as int).push(pieces@[k as int]@));
        }
        assert(crate::utils::text::char_views(pieces@).take(pieces.len() as int)
            =~= crate::utils::text::char_views(pieces@));
    }
    assert(values@.take(values.len() as int) =~= values@);
    out
}

/// The values of the list option `key` (named as in `pyproject.toml`).
pub open spec fn list_option(a: Args, key: Seq<char>) -> Option<Seq<Seq<char>>> {
    if key == "paths"@ {
        Some(string_views(a.paths@))
    } else if key == "only"@ {
        Some(string_views(a.only@))
    } else if key == "exclude"@ {
        Some(string_views(a.exclude@))
    } else if key == "ignore_definitions"@ {
        Some(string_views(a.ignore_definitions@))
    } else if key == "ignore_definitions_if_decorated_with"@ {
        Some(string_views(a.ignore_definitions_if_decorated_with@))
    } else if key == "ignore_definitions_if_inherits_from"@ {
        Some(string_views(a.ignore_definitions_if_inherits_from@))
    } else if key == "ignore_bodies_of"@ {
        Some(string_views(a.ignore_bodies_of@))
    } else if key == "ignore_bodies_if_decorated_with"@ {
        Some(string_views(a.ignore_bodies_if_decorated_with@))
    } else if key == "ignore_bodies_if_inherits_from"@ {
        Some(string_views(a.ignore_bodies_if_inherits_from@))
    } else if key == "ignore_if_decorated_with"@ {
        Some(string_views(a.ignore_if_decorated_with@))
    } else if key == "ignore_if_inherits_from"@ {
        Some(string_views(a.ignore_if_inherits_from@))
    } else if key == "ignore_names"@ {
        Some(string_views(a.ignore_names@))
    } else if key == "ignore_names_if_decorated_with"@ {
        Some(string_views(a.ignore_names_if_decorated_with@))
    } else if key == "ignore_names_if_inherits_from"@ {
        Some(string_views(a.ignore_names_if_inherits_from@))
    } else if key == "ignore_names_in_files"@ {
        Some(string_views(a.ignore_names_in_files@))
    } else if key == "tach_config"@ {
        Some(string_views(a.tach_config@))
    } else {
        None
    }
}

/// The two option sets have the same flags.
pub open spec fn same_flags(a: Args, b: Args) -> bool {
    &&& a.fix == b.fix
    &&& a.dry == b.dry
    &&& a.ignore_non_self_attributes == b.ignore_non_self_attributes
    &&& a.ignore_class_attributes == b.ignore_class_attributes
    &&& a.no_color == b.no_color
    &&& a.quiet == b.quiet
    &&& a.count == b.count
    &&& a.verbose == b.verbose
    &&& a.version == b.version
}

/// `after` is `before` with every list option but `paths` split at commas.
pub open spec fn commas_flattened(after: Args, before: Args) -> bool {
    &&& same_flags(after, before)
    &&& string_views(after.paths@) == string_views(before.paths@)
    &&& forall|k: Seq<char>|
        k != "paths"@ && (#[trigger] list_option(before, k)) is Some ==> list_option(after, k) == Some(
            flatten_commas(list_option(before, k)->0),
        )
}

/// Splits the values of every list option except `paths` at their commas.
pub fn flatten_comma_separated(args: &mut Args)
    ensures
        commas_flattened(*final(args), *old(args)),
{
    args.only = flatten_comma_list(args.only.as_slice());
    args.exclude = flatten_comma_list(args.exclude.as_slice());
    args.ignore_definitions = flatten_comma_list(args.ignore_definitions.as_slice());
    args.ignore_definitions_if_decorated_with = flatten_comma_list(
        args.ignore_definitions_if_decorated_with.as_slice(),
    );
    args.ignore_definitions_if_inherits_from = flatten_comma_list(
        args.ignore_definitions_if_inherits_from.as_slice(),
    );
    args.ignore_bodies_of = flatten_comma_list(args.ignore_bodies_of.as_slice());
    args.ignore_bodies_if_decorated_with = flatten_comma_list(
        args.ignore_bodies_if_decorated_with.as_slice(),
    );
    args.ignore_bodies_if_inherits_from = flatten_comma_list(
        args.ignore_bodies_if_inherits_from.as_slice(),
    );
    args.ignore_if_decorated_with = flatten_comma_list(args.ignore_if_decorated_with.as_slice());
    args.ignore_if_inherits_from = flatten_comma_list(args.ignore_if_inherits_from.as_slice());
    args.ignore_names = flatten_comma_list(args.ignore_names.as_slice());
    args.ignore_names_if_decorated_with = flatten_comma_list(
        args.ignore_names_if_decorated_with.as_slice(),
    );
    args.ignore_names_if_inherits_from = flatten_comma_list(
        args.ignore_names_if_inherits_from.as_slice(),
    );
    args.ignore_names_in_files = flatten_comma_list(args.ignore_names_in_files.as_slice());
    args.tach_config = flatten_comma_list(args.tach_config.as_slice());
}

/// A `pyproject.toml` key as an option name: `--` dropped, `-` made `_`.
pub open spec fn spec_config_key(raw: Seq<char>) -> Seq<char> {
    replace_all(replace_all(raw, seq!['-', '-'], Seq::empty()), seq!['-'], seq!['_'])
}

/// Normalizes a `pyproject.toml` key to an option name.
pub fn config_key(raw: &str) -> (r: String)
    ensures
        r@ == spec_config_key(raw@),
{
    let cs = chars_of(raw);
    let dashes = vec!['-', '-'];
    let empty: Vec<char> = Vec::new();
    let dash = vec!['-'];
    let underscore = vec!['_'];
    assert(dashes@ =~= seq!['-', '-']);
    assert(empty@ =~= Seq::<char>::empty());
    assert(dash@ =~= seq!['-']);
    assert(underscore@ =~= seq!['_']);
    let a = replace_all_occurrences(cs.as_slice(), dashes.as_slice(), empty.as_slice());
    let b = replace_all_occurrences(a.as_slice(), dash.as_slice(), underscore.as_slice());
    string_from_chars(b.as_slice())
}

/// The values that the `[tool.deadcode]` entries give the option `key`:
/// the string elements of each array under a key naming that option, in
/// order (entries whose value is not an array give nothing).
pub open spec fn config_extras(entries: Seq<(Seq<char>, TomlView)>, key: Seq<char>) -> Seq<Seq<char>>
    decreases entries.len(),
{
    if entries.len() == 0 {
        Seq::empty()
    } else {
        let (raw, value) = entries.last();
        config_extras(entries.drop_last(), key) + if spec_config_key(raw) == key {
            match value {
                TomlView::Array(items) => array_strings(items),
                _ => Seq::empty(),
            }
        } else {
            Seq::empty()
        }
    }
}

/// `after` is `before` with each list option extended by `extras(key)`.
pub open spec fn extended_by(after: Args, before: Args, entries: Seq<(Seq<char>, TomlView)>) -> bool {
    &&& same_flags(after, before)
    &&& forall|k: Seq<char>|
        (#[trigger] list_option(before, k)) is Some ==> list_option(after, k) == Some(
            list_option(before, k)->0 + config_extras(entries, k),
        )
}

/// Appends `extra` to the list option named `key`, if there is one.
fn extend_option(args: &mut Args, key: &str, extra: Vec<String>)
    ensures
        same_flags(*final(args), *old(args)),
        forall|k: Seq<char>|
            (#[trigger] list_option(*old(args), k)) is Some ==> list_option(*final(args), k) == Some(
                list_option(*old(args), k)->0 + if k == key@ {
                    string_views(extra@)
                } else {
                    Seq::empty()
                },
            ),
{
    let mut extra = extra;
    let ghost ev = string_views(extra@);
    let ghost before = *args;
    proof {
        reveal_strlit("paths");
        reveal_strlit("only");
        reveal_strlit("exclude");
        reveal_strlit("ignore_definitions");
        reveal_strlit("ignore_definitions_if_decorated_with");
        reveal_strlit("ignore_definitions_if_inherits_from");
        reveal_strlit("ignore_bodies_of");
        reveal_strlit("ignore_bodies_if_decorated_with");
        reveal_strlit("ignore_bodies_if_inherits_from");
        reveal_strlit("ignore_if_decorated_with");
        reveal_strlit("ignore_if_inherits_from");
        reveal_strlit("ignore_names");
        reveal_strlit("ignore_names_if_decorated_with");
        reveal_strlit("ignore_names_if_inherits_from");
        reveal_strlit("ignore_names_in_files");
        reveal_strlit("tach_config");
    }
    if str_eq(key, "paths") {
        args.paths.append(&mut extra);
    } else if str_eq(key, "only") {
        args.only.append(&mut extra);
    } else if str_eq(key, "exclude") {
        args.exclude.append(&mut extra);
    } else if str_eq(key, "ignore_definitions") {
        args.ignore_definitions.append(&mut extra);
    } else if str_eq(key, "ignore_definitions_if_decorated_with") {
        args.ignore_definitions_if_decorated_with.append(&mut extra);
    } else if str_eq(key, "ignore_definitions_if_inherits_from") {
        args.ignore_definitions_if_inherits_from.append(&mut extra);
    } else if str_eq(key, "ignore_bodies_of") {
        args.ignore_bodies_of.append(&mut extra);
    } else if str_eq(key, "ignore_bodies_if_decorated_with") {
        args.ignore_bodies_if_decorated_with.append(&mut extra);
    } else if str_eq(key, "ignore_bodies_if_inherits_from") {
        args.ignore_bodies_if_inherits_from.append(&mut extra);
    } else if str_eq(key, "ignore_if_decorated_with") {
        args.ignore_if_decorated_with.append(&mut extra);
    } else if str_eq(key, "ignore_if_inherits_from") {
        args.ignore_if_inherits_from.append(&mut extra);
    } else if str_eq(key, "ignore_names") {
        args.ignore_names.append(&mut extra);
    } else if str_eq(key, "ignore_names_if_decorated_with") {
        args.ignore_names_if_decorated_with.append(&mut extra);
    } else if str_eq(key, "ignore_names_if_inherits_from") {
        args.ignore_names_if_inherits_from.append(&mut extra);
    } else if str_eq(key, "ignore_names_in_files") {
        args.ignore_names_in_files.append(&mut extra);
    } else if str_eq(key, "tach_config") {
        args.tach_config.append(&mut extra);
    }
    assert forall|k: Seq<char>| (#[trigger] list_option(before, k)) is Some implies list_option(
        *args,
        k,
    ) == Some(
        list_option(before, k)->0 + if k == key@ {
            ev
        } else {
            Seq::empty()
        },
    ) by {
        assert(list_option(before, k)->0 + Seq::<Seq<char>>::empty() =~= list_option(before, k)->0);
        assert(forall|a: Seq<String>, b: Seq<String>| #[trigger] string_views(a + b) =~= string_views(a)
            + string_views(b));
    }
}

/// Extends each list option by the values the `[tool.deadcode]` entries
/// give it (see `config_extras`).
pub fn merge_config_entries(args: &mut Args, entries: &Vec<(String, TomlValue)>)
    ensures
        extended_by(*final(args), *old(args), entry_views(entries@)),
{
    let ghost ev = entry_views(entries@);
    proof {
        lemma_entry_views_len(entries@);
    }
    for i in 0..entries.len()
        invariant
            ev == entry_views(entries@),
            ev.len() == entries@.len(),
            extended_by(*args, *old(args), ev.take(i as int)),
    {
        proof {
            lemma_entry_views_index(entries@, i as int);
        }
        assert(ev.take(i + 1).drop_last() =~= ev.take(i as int));
        assert(ev.take(i + 1).last() == ev[i as int]);
        let ghost mid = *args;
        let key = config_key(entries[i].0.as_str());
        match toml_strings(&entries[i].1) {
            Some(extra) => {
                extend_option(args, key.as_str(), extra);
            },
            None => {},
        }
        assert forall|k: Seq<char>| (#[trigger] list_option(*old(args), k)) is Some implies list_option(
            *args,
            k,
        ) == Some(list_option(*old(args), k)->0 + config_extras(ev.take(i + 1), k)) by {
            assert(list_option(mid, k) is Some);
            assert(Seq::<Seq<char>>::empty() + Seq::<Seq<char>>::empty() =~= Seq::<Seq<char>>::empty());
            assert(forall|a: Seq<Seq<char>>, b: Seq<Seq<char>>, c: Seq<Seq<char>>|
                #[trigger] ((a + b) + c) =~= a + (b + c));
            assert(forall|a: Seq<Seq<char>>| #[trigger] (a + Seq::<Seq<char>>::empty()) =~= a);
        }
    }
    assert(ev.take(entries.len() as int) =~= ev);
}

/// The `[tool.deadcode]` table of a `pyproject.toml` text, when the text
/// parses and has one.
pub open spec fn deadcode_table(text: Seq<char>) -> Option<Seq<(Seq<char>, TomlView)>> {
    match toml_document(text) {
        Some(doc) => match spec_get(doc, "tool"@) {
            Some(tool) => match spec_get(tool, "deadcode"@) {
                Some(TomlView::Table(entries)) => Some(entries),
                _ => None,
            },
            None => None,
        },
        None => None,
    }
}

/// Extends (not replaces) each list option with the values found in
/// `pyproject.toml`'s `[tool.deadcode]` table; no text, a text that does
/// not parse, or one without the table changes nothing.
pub fn merge_pyproject_toml(args: &mut Args, pyproject_text: Option<&str>)
    ensures
        match pyproject_text {
            Some(t) => match deadcode_table(t@) {
                Some(entries) => extended_by(*final(args), *old(args), entries),
                None => *final(args) == *old(args),
            },
            None => *final(args) == *old(args),
        },
{
    let text = match pyproject_text {
        Some(t) => t,
        None => return,
    };
    let doc = match parse_toml(text) {
        Some(d) => d,
        None => return,
    };
    let tool = match toml_get(&doc, "tool") {
        Some(t) => t,
        None => return,
    };
    let table = match toml_get(tool, "deadcode") {
        Some(t) => t,
        None => return,
    };
    match toml_entries(table) {
        Some(entries) => {
            merge_config_entries(args, entries);
        },
        None => {},
    }
}

/// The values the `pyproject.toml` text gives the list option `key`.
pub open spec fn pyproject_extras(text: Option<Seq<char>>, key: Seq<char>) -> Seq<Seq<char>> {
    match text {
        Some(t) => match deadcode_table(t) {
            Some(entries) => config_extras(entries, key),
            None => Seq::empty(),
        },
        None => Seq::empty(),
    }
}

/// The command-line values of the list option `key`, split at commas but
/// for `paths`.
pub open spec fn cli_values(cli: Args, key: Seq<char>) -> Seq<Seq<char>> {
    if key == "paths"@ {
        list_option(cli, key)->0
    } else {
        flatten_commas(list_option(cli, key)->0)
    }
}

/// The two option sets have the same flags, but for `fix`.
pub open spec fn same_flags_but_fix(a: Args, b: Args) -> bool {
    &&& a.dry == b.dry
    &&& a.ignore_non_self_attributes == b.ignore_non_self_attributes
    &&& a.ignore_class_attributes == b.ignore_class_attributes
    &&& a.no_color == b.no_color
    &&& a.quiet == b.quiet
    &&& a.count == b.count
    &&& a.verbose == b.verbose
    &&& a.version == b.version
}

/// The options of a run from those of its command line: list values split
/// at commas (but for `paths`), then extended from the `pyproject.toml`
/// text, and `--fix` off under `--dry`.
pub fn parse_arguments_with_config(cli_args: Args, pyproject_text: Option<&str>) -> (r: Args)
    ensures
        r.fix == (cli_args.fix && !cli_args.dry),
        same_flags_but_fix(r, cli_args),
        forall|k: Seq<char>|
            (#[trigger] list_option(cli_args, k)) is Some ==> list_option(r, k) == Some(
                cli_values(cli_args, k) + pyproject_extras(
                    match pyproject_text {
                        Some(t) => Some(t@),
                        None => None,
                    },
                    k,
                ),
            ),
{
    let ghost cli = cli_args;
    let mut args = cli_args;
    flatten_comma_separated(&mut args);
    let ghost flat = args;
    merge_pyproject_toml(&mut args, pyproject_text);
    let ghost merged = args;
    if args.dry {
        args.fix = false;
    }
    assert forall|k: Seq<char>| (#[trigger] list_option(cli, k)) is Some implies list_option(
        args,
        k,
    ) == Some(
        cli_values(cli, k) + pyproject_extras(
            match pyproject_text {
                Some(t) => Some(t@),
                None => None,
            },
            k,
        ),
    ) by {
        assert(list_option(flat, k) is Some);
        assert(list_option(args, k) == list_option(merged, k));
        assert(list_option(flat, k) == Some(cli_values(cli, k)));
        assert(cli_values(cli, k) + Seq::<Seq<char>>::empty() =~= cli_values(cli, k));
    }
    args
}

} // verus!
