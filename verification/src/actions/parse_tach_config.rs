//! tach.toml support: source roots, unchecked modules and exposed interfaces.
//!
//! Paths are `/`-separated; the paths held by a configuration are absolute
//! and resolved. A path given to a query is first resolved against the
//! working directory `cwd`.

use vstd::prelude::*;

use crate::utils::fnmatch::{fnmatchcase, never_match_regex, spec_glob_match};
use crate::utils::path_utils::{
    components, is_absolute, path_components, render, render_path, resolve_components, resolve_path,
    resolved_components, spec_resolve_path,
};
use crate::utils::toml_support::{
    array_strings, parse_toml, spec_get, toml_bool, toml_document, toml_get, toml_items, toml_str,
    toml_strings, toml_view, toml_views, lemma_toml_views_index, lemma_toml_views_len, TomlValue,
    TomlView,
};
use crate::utils::regex_support::{
    regex_escape, regex_search, regex_search_result, spec_regex_escape,
};
use crate::utils::text::{
    chars_start_with, starts_with_chars,
    char_views, chars_end_with, chars_eq, chars_of, chars_range, ends_with_chars, find_char,
    first_index_of, join, join_chars, lemma_first_index_of_bounds, push_chars, replace_all,
    replace_all_occurrences, split_chars, split_chars_on, string_from_chars, string_views,
};

verus! {

/// An `[[interfaces]]` entry: the names it exposes, and the modules that
/// adopt it (every module when `from` is absent).
#[derive(Debug, Clone)]
pub struct TachInterface {
    pub expose: Vec<String>,
    pub from_patterns: Option<Vec<String>>,
}

/// A `[[modules]]` entry: its dotted path patterns and whether it is unchecked.
#[derive(Debug, Clone)]
pub struct TachModule {
    pub path_patterns: Vec<String>,
    pub unchecked: bool,
}

/// One tach project.
#[derive(Debug, Clone)]
pub struct TachConfig {
    pub source_roots: Vec<String>,
    pub project_root: Option<String>,
    pub modules: Vec<TachModule>,
    pub interfaces: Vec<TachInterface>,
}

/// Every loaded tach project.
#[derive(Debug)]
pub struct TachIndex {
    configs: Vec<TachConfig>,
}

/// `a` is a prefix of `b` (a path is within or equal to another).
pub open spec fn within(a: Seq<Seq<char>>, b: Seq<Seq<char>>) -> bool {
    a.is_prefix_of(b)
}

/// `a` is a strict ancestor of `b`.
pub open spec fn strict_ancestor(a: Seq<Seq<char>>, b: Seq<Seq<char>>) -> bool {
    a.len() < b.len() && a.is_prefix_of(b)
}

/// The path is a source root, inside one, or on the way to one.
pub open spec fn within_or_towards(path: Seq<Seq<char>>, root: Seq<Seq<char>>) -> bool {
    within(root, path) || strict_ancestor(path, root)
}

/// The project root of a configuration, as components.
pub open spec fn root_components(c: TachConfig) -> Option<Seq<Seq<char>>> {
    match c.project_root {
        None => None,
        Some(r) => Some(path_components(r@)),
    }
}

/// The path belongs to the configuration's project (is its root or below it).
pub open spec fn claims(c: TachConfig, path: Seq<Seq<char>>) -> bool {
    match root_components(c) {
        None => false,
        Some(r) => within(r, path),
    }
}

/// The configuration lets the path through: the path leads to its project
/// root, or belongs to the project and is within or towards a source root.
pub open spec fn admits(c: TachConfig, path: Seq<Seq<char>>) -> bool {
    match root_components(c) {
        None => false,
        Some(r) => if within(r, path) {
            exists|k: int|
                0 <= k < c.source_roots@.len() && within_or_towards(
                    path,
                    path_components(#[trigger] c.source_roots@[k]@),
                )
        } else {
            strict_ancestor(path, r)
        },
    }
}

/// The path belongs to some tach project but every project it relates to
/// keeps it out.
pub open spec fn spec_is_outside(configs: Seq<TachConfig>, path: Seq<Seq<char>>) -> bool {
    &&& exists|i: int| 0 <= i < configs.len() && claims(#[trigger] configs[i], path)
    &&& !exists|i: int| 0 <= i < configs.len() && admits(#[trigger] configs[i], path)
}

/// Chooses the source root that `file` lies strictly below with the most
/// components (the first of several equally long ones), scanning from `i`
/// with `cur` the best one so far.
pub open spec fn best_root_from(
    cwd: Seq<char>,
    file: Seq<Seq<char>>,
    roots: Seq<String>,
    i: int,
    cur: Option<int>,
) -> Option<int>
    decreases roots.len() - i,
{
    if i < 0 || i >= roots.len() {
        cur
    } else {
        let candidate = strict_ancestor(resolved_components(cwd, roots[i]@), file);
        let better = candidate && match cur {
            None => true,
            Some(b) => path_components(roots[i]@).len() > path_components(roots[b]@).len(),
        };
        best_root_from(cwd, file, roots, i + 1, if better { Some(i) } else { cur })
    }
}

/// `.py` as characters.
pub open spec fn py_suffix() -> Seq<char> {
    seq!['.', 'p', 'y']
}

/// The module path of the file's components below its source root:
/// `__init__.py` stands for its package, a `.py` file for its module; any
/// other file has none, nor has a package that is the source root itself.
pub open spec fn module_parts(rel: Seq<Seq<char>>) -> Option<Seq<Seq<char>>> {
    if rel.len() > 0 && rel.last() == "__init__.py"@ {
        if rel.len() > 1 {
            Some(rel.drop_last())
        } else {
            None
        }
    } else if rel.len() > 0 && chars_end_with(rel.last(), py_suffix()) {
        Some(rel.drop_last().push(rel.last().take(rel.last().len() - 3)))
    } else {
        None
    }
}

/// The dotted module path of `file` below the best of `source_roots`.
pub open spec fn spec_dotted_module_name(cwd: Seq<char>, file: Seq<char>, source_roots: Seq<String>) -> Option<
    Seq<char>,
> {
    let f = resolved_components(cwd, file);
    match best_root_from(cwd, f, source_roots, 0, None) {
        None => None,
        Some(b) => {
            let root = resolved_components(cwd, source_roots[b]@);
            match module_parts(f.skip(root.len() as int)) {
                None => None,
                Some(parts) => Some(join(parts, seq!['.'])),
            }
        },
    }
}

/// The regex for one segment of a dotted glob: `**` matches anything, and
/// in any other segment `*` matches within the segment.
pub open spec fn segment_regex(segment: Seq<char>) -> Seq<char> {
    if segment == seq!['*', '*'] {
        seq!['.', '*']
    } else {
        replace_all(spec_regex_escape(segment), seq!['\\', '*'], seq!['[', '^', '.', ']', '*'])
    }
}

/// The anchored regex for a dotted glob pattern.
pub open spec fn dotted_glob_regex(pattern: Seq<char>) -> Seq<char> {
    seq!['^', '(', '?', ':'] + join(
        split_chars_on(pattern, '.').map_values(|s: Seq<char>| segment_regex(s)),
        seq!['\\', '.'],
    ) + seq![')', '$']
}

/// The dotted path matches the dotted glob (a pattern whose regex does not
/// compile matches as a regex that never matches would).
pub open spec fn dotted_glob_matches(pattern: Seq<char>, dotted: Seq<char>) -> bool {
    match regex_search_result(dotted_glob_regex(pattern), dotted) {
        Some(b) => b,
        None => regex_search_result(never_match_regex(), dotted) == Some(true),
    }
}

/// Some pattern matches.
pub open spec fn spec_match_any_dotted_glob(patterns: Seq<Seq<char>>, dotted: Seq<char>) -> bool {
    exists|i: int| 0 <= i < patterns.len() && dotted_glob_matches(#[trigger] patterns[i], dotted)
}

/// The whole value matches the regex `pattern` (a pattern that does not
/// compile matches nothing).
pub open spec fn full_regex_matches(pattern: Seq<char>, value: Seq<char>) -> bool {
    regex_search_result(seq!['^', '(', '?', ':'] + pattern + seq![')', '$'], value) == Some(true)
}

/// An `expose` entry `ClassPattern.MemberPattern` (split at the first `.`,
/// both halves non-empty) matches the enclosing class and the name.
pub open spec fn dotted_expose_matches(pattern: Seq<char>, class_name: Seq<char>, name: Seq<char>) -> bool {
    let k = first_index_of(pattern, '.', 0);
    &&& 0 < k < pattern.len() - 1
    &&& spec_glob_match(class_name, pattern.take(k), true)
    &&& spec_glob_match(name, pattern.skip(k + 1), true)
}

/// The name is exposed by one of the entries: as a whole-name regex, or,
/// inside a class, by a `Class.member` glob pair.
pub open spec fn exposes(expose: Seq<String>, class_name: Option<Seq<char>>, name: Seq<char>) -> bool {
    exists|i: int|
        0 <= i < expose.len() && (full_regex_matches(#[trigger] expose[i]@, name) || match class_name {
            None => false,
            Some(c) => dotted_expose_matches(expose[i]@, c, name),
        })
}

/// The interface applies to the module.
pub open spec fn adopts(interface: TachInterface, dotted: Seq<char>) -> bool {
    match interface.from_patterns {
        None => true,
        Some(p) => spec_match_any_dotted_glob(string_views(p@), dotted),
    }
}

/// Some configuration in which the file is a module has an unchecked
/// module entry matching it.
pub open spec fn spec_is_unchecked(configs: Seq<TachConfig>, cwd: Seq<char>, file: Seq<char>) -> bool {
    exists|i: int, j: int|
        0 <= i < configs.len() && 0 <= j < configs[i].modules@.len() && match spec_dotted_module_name(
            cwd,
            file,
            (#[trigger] configs[i]).source_roots@,
        ) {
            None => false,
            Some(m) => (#[trigger] configs[i].modules@[j]).unchecked && spec_match_any_dotted_glob(
                string_views(configs[i].modules@[j].path_patterns@),
                m,
            ),
        }
}

/// Some configuration in which the file is a module has an interface that
/// the module adopts and that exposes the name.
pub open spec fn spec_is_exposed(
    configs: Seq<TachConfig>,
    cwd: Seq<char>,
    file: Seq<char>,
    class_name: Option<Seq<char>>,
    name: Seq<char>,
) -> bool {
    exists|i: int, j: int|
        0 <= i < configs.len() && 0 <= j < configs[i].interfaces@.len() && match spec_dotted_module_name(
            cwd,
            file,
            (#[trigger] configs[i]).source_roots@,
        ) {
            None => false,
            Some(m) => adopts(#[trigger] configs[i].interfaces@[j], m) && exposes(
                configs[i].interfaces@[j].expose@,
                class_name,
                name,
            ),
        }
}

fn is_prefix(a: &Vec<Vec<char>>, b: &Vec<Vec<char>>) -> (r: bool)
    ensures
        r == char_views(a@).is_prefix_of(char_views(b@)),
{
    if a.len() > b.len() {
        return false;
    }
    let mut i: usize = 0;
    while i < a.len()
        invariant
            a.len() <= b.len(),
            i <= a.len(),
            forall|k: int| 0 <= k < i ==> a@[k]@ == b@[k]@,
        decreases a.len() - i,
    {
        if !chars_eq(a[i].as_slice(), b[i].as_slice()) {
            assert(char_views(a@)[i as int] != char_views(b@)[i as int]);
            return false;
        }
        i = i + 1;
    }
    assert(char_views(b@).take(a.len() as int) =~= char_views(a@));
    true
}

fn string_components(s: &String) -> (r: Vec<Vec<char>>)
    ensures
        char_views(r@) == path_components(s@),
{
    let cs = chars_of(s.as_str());
    components(cs.as_slice())
}

impl TachIndex {
    /// The loaded configurations.
    pub closed spec fn configs(&self) -> Seq<TachConfig> {
        self.configs@
    }

    pub fn new(configs: Vec<TachConfig>) -> (r: Self)
        ensures
            r.configs() == configs@,
    {
        TachIndex { configs }
    }

    /// True if `path` belongs to a tach project (is its project root or
    /// nested under it) but falls outside every one of that project's
    /// `source_roots`, and outside them for every other tach project it
    /// might also belong to. Paths unrelated to any tach project are
    /// unaffected.
    pub fn is_outside_source_roots(&self, cwd: &str, path: &str) -> (r: bool)
        ensures
            r == spec_is_outside(self.configs(), resolved_components(cwd@, path@)),
    {
        if self.configs.len() == 0 {
            return false;
        }
        let p = resolve_components(cwd, path);
        let ghost pv = char_views(p@);
        let mut related = false;
        for i in 0..self.configs.len()
            invariant
                pv == char_views(p@),
                pv == resolved_components(cwd@, path@),
                related == exists|k: int| 0 <= k < i && claims(#[trigger] self.configs@[k], pv),
                forall|k: int| 0 <= k < i ==> !admits(#[trigger] self.configs@[k], pv),
        {
            let config = &self.configs[i];
            let ghost cfg = self.configs@[i as int];
            assert(*config == cfg);
            match &config.project_root {
                None => {
                    assert(!claims(cfg, pv) && !admits(cfg, pv));
                },
                Some(root) => {
                    let rc = string_components(root);
                    let ghost rv = char_views(rc@);
                    assert(root_components(cfg) == Some(rv));
                    if is_prefix(&rc, &p) {
                        assert(claims(cfg, pv));
                        related = true;
                        let mut j: usize = 0;
                        while j < config.source_roots.len()
                            invariant
                                j <= config.source_roots.len(),
                                pv == char_views(p@),
                                *config == cfg,
                                cfg == self.configs@[i as int],
                                i < self.configs@.len(),
                                pv == resolved_components(cwd@, path@),
                                root_components(cfg) == Some(rv),
                                rv.is_prefix_of(pv),
                                forall|k: int|
                                    0 <= k < j ==> !within_or_towards(
                                        pv,
                                        path_components(#[trigger] config.source_roots@[k]@),
                                    ),
                            decreases config.source_roots.len() - j,
                        {
                            let sr = string_components(&config.source_roots[j]);
                            if is_prefix(&sr, &p) || (p.len() < sr.len() && is_prefix(&p, &sr)) {
                                assert(within_or_towards(
                                    pv,
                                    path_components(cfg.source_roots@[j as int]@),
                                ));
                                assert(admits(self.configs()[i as int], pv));
                                return false;
                            }
                            j = j + 1;
                        }
                        assert(!admits(cfg, pv));
                    } else if p.len() < rc.len() && is_prefix(&p, &rc) {
                        assert(admits(self.configs()[i as int], pv));
                        return false;
                    } else {
                        assert(!claims(cfg, pv) && !admits(cfg, pv));
                    }
                },
            }
        }
        related
    }

    /// Whether some configuration marks the file's module unchecked.
    pub fn is_unchecked(&self, cwd: &str, file: &str) -> (r: bool)
        ensures
            r == spec_is_unchecked(self.configs(), cwd@, file@),
    {
        for i in 0..self.configs.len()
            invariant
                forall|k: int, j: int|
                    0 <= k < i && 0 <= j < self.configs@[k].modules@.len() ==> !match spec_dotted_module_name(
                        cwd@,
                        file@,
                        (#[trigger] self.configs@[k]).source_roots@,
                    ) {
                        None => false,
                        Some(m) => (#[trigger] self.configs@[k].modules@[j]).unchecked
                            && spec_match_any_dotted_glob(
                            string_views(self.configs@[k].modules@[j].path_patterns@),
                            m,
                        ),
                    },
        {
            let config = &self.configs[i];
            let ghost cfg = self.configs@[i as int];
            assert(*config == cfg);
            match dotted_module_name(cwd, file, config.source_roots.as_slice()) {
                None => {},
                Some(dotted) => {
                    for j in 0..config.modules.len()
                        invariant
                            *config == cfg,
                            cfg == self.configs@[i as int],
                            i < self.configs@.len(),
                            spec_dotted_module_name(cwd@, file@, config.source_roots@) == Some(
                                dotted@,
                            ),
                            forall|l: int|
                                0 <= l < j ==> !((#[trigger] config.modules@[l]).unchecked
                                    && spec_match_any_dotted_glob(
                                    string_views(config.modules@[l].path_patterns@),
                                    dotted@,
                                )),
                    {
                        let module = &config.modules[j];
                        if module.unchecked && match_any_dotted_glob(
                            module.path_patterns.as_slice(),
                            dotted.as_str(),
                        ) {
                            assert(self.configs()[i as int].modules@[j as int] == *module);
                            assert(match spec_dotted_module_name(
                                cwd@,
                                file@,
                                self.configs()[i as int].source_roots@,
                            ) {
                                None => false,
                                Some(m) => self.configs()[i as int].modules@[j as int].unchecked
                                    && spec_match_any_dotted_glob(
                                    string_views(self.configs()[i as int].modules@[j as int].path_patterns@),
                                    m,
                                ),
                            });
                            return true;
                        }
                    }
                },
            }
        }
        false
    }

    /// `class_name` is the class a method, property or attribute is directly
    /// defined in (`None` for module-level definitions); it only matters to
    /// `expose` entries written as `ClassName.member`.
    pub fn is_exposed(&self, cwd: &str, file: &str, class_name: Option<&str>, name: &str) -> (r: bool)
        ensures
            r == spec_is_exposed(
                self.configs(),
                cwd@,
                file@,
                match class_name {
                    None => None,
                    Some(c) => Some(c@),
                },
                name@,
            ),
    {
        let ghost cls = match class_name {
            None => None,
            Some(c) => Some(c@),
        };
        for i in 0..self.configs.len()
            invariant
                cls == match class_name {
                    None => None,
                    Some(c) => Some(c@),
                },
                forall|k: int, j: int|
                    0 <= k < i && 0 <= j < self.configs@[k].interfaces@.len() ==> !match spec_dotted_module_name(
                        cwd@,
                        file@,
                        (#[trigger] self.configs@[k]).source_roots@,
                    ) {
                        None => false,
                        Some(m) => adopts(#[trigger] self.configs@[k].interfaces@[j], m) && exposes(
                            self.configs@[k].interfaces@[j].expose@,
                            cls,
                            name@,
                        ),
                    },
        {
            let config = &self.configs[i];
            let ghost cfg = self.configs@[i as int];
            assert(*config == cfg);
            match dotted_module_name(cwd, file, config.source_roots.as_slice()) {
                None => {},
                Some(dotted) => {
                    for j in 0..config.interfaces.len()
                        invariant
                            *config == cfg,
                            cfg == self.configs@[i as int],
                            i < self.configs@.len(),
                            spec_dotted_module_name(cwd@, file@, config.source_roots@) == Some(
                                dotted@,
                            ),
                            cls == match class_name {
                                None => None,
                                Some(c) => Some(c@),
                            },
                            forall|l: int|
                                0 <= l < j ==> !(adopts(
                                    #[trigger] config.interfaces@[l],
                                    dotted@,
                                ) && exposes(config.interfaces@[l].expose@, cls, name@)),
                    {
                        let interface = &config.interfaces[j];
                        let adopted = match &interface.from_patterns {
                            None => true,
                            Some(patterns) => match_any_dotted_glob(
                                patterns.as_slice(),
                                dotted.as_str(),
                            ),
                        };
                        let by_regex = match_any_regex(interface.expose.as_slice(), name);
                        let by_class = match_any_dotted_expose(
                            interface.expose.as_slice(),
                            class_name,
                            name,
                        );
                        proof {
                            lemma_exposes_split(interface.expose@, cls, name@);
                        }
                        if adopted && (by_regex || by_class) {
                            assert(self.configs()[i as int].interfaces@[j as int] == *interface);
                            assert(match spec_dotted_module_name(
                                cwd@,
                                file@,
                                self.configs()[i as int].source_roots@,
                            ) {
                                None => false,
                                Some(m) => adopts(self.configs()[i as int].interfaces@[j as int], m)
                                    && exposes(
                                    self.configs()[i as int].interfaces@[j as int].expose@,
                                    cls,
                                    name@,
                                ),
                            });
                            return true;
                        }
                    }
                },
            }
        }
        false
    }
}

/// `exposes` holds exactly when a whole-name regex entry matches or, inside
/// a class, a `Class.member` entry does.
proof fn lemma_exposes_split(expose: Seq<String>, class_name: Option<Seq<char>>, name: Seq<char>)
    ensures
        exposes(expose, class_name, name) == ((exists|i: int|
            0 <= i < expose.len() && full_regex_matches(#[trigger] expose[i]@, name)) || match class_name {
            None => false,
            Some(c) => exists|i: int|
                0 <= i < expose.len() && dotted_expose_matches(#[trigger] expose[i]@, c, name),
        }),
{
}

/// The dotted module path of `file` below the deepest of `source_roots`
/// it lies strictly under (`None` if it lies under none, is not a `.py`
/// file, or is the `__init__.py` of the root itself).
pub fn dotted_module_name(cwd: &str, file: &str, source_roots: &[String]) -> (r: Option<String>)
    ensures
        match r {
            None => spec_dotted_module_name(cwd@, file@, source_roots@) is None,
            Some(m) => spec_dotted_module_name(cwd@, file@, source_roots@) == Some(m@),
        },
{
    let f = resolve_components(cwd, file);
    let ghost fv = char_views(f@);
    let mut best: Option<usize> = None;
    let mut best_count: usize = 0;
    for i in 0..source_roots.len()
        invariant
            fv == char_views(f@),
            fv == resolved_components(cwd@, file@),
            best_root_from(cwd@, fv, source_roots@, 0, None) == best_root_from(
                cwd@,
                fv,
                source_roots@,
                i as int,
                match best {
                    None => None,
                    Some(b) => Some(b as int),
                },
            ),
            match best {
                None => true,
                Some(b) => b < i && best_count == path_components(source_roots@[b as int]@).len()
                    && strict_ancestor(resolved_components(cwd@, source_roots@[b as int]@), fv),
            },
    {
        let root = resolve_components(cwd, source_roots[i].as_str());
        let count = string_components(&source_roots[i]).len();
        if root.len() < f.len() && is_prefix(&root, &f) {
            let better = match best {
                None => true,
                Some(_) => count > best_count,
            };
            if better {
                best = Some(i);
                best_count = count;
            }
        }
    }
    let b = match best {
        None => return None,
        Some(b) => b,
    };
    let root = resolve_components(cwd, source_roots[b].as_str());
    let mut rel: Vec<Vec<char>> = Vec::new();
    let mut k = root.len();
    proof {
        assert(fv.subrange(k as int, k as int) =~= char_views(rel@));
    }
    while k < f.len()
        invariant
            root.len() <= k <= f.len(),
            fv == char_views(f@),
            char_views(rel@) == fv.subrange(root.len() as int, k as int),
        decreases f.len() - k,
    {
        let c = f[k].clone();
        let ghost before = char_views(rel@);
        let ghost cv = c@;
        assert(cv == fv[k as int]);
        rel.push(c);
        assert(char_views(rel@) =~= before.push(cv));
        k = k + 1;
        assert(fv.subrange(root.len() as int, k as int) =~= fv.subrange(
            root.len() as int,
            (k - 1) as int,
        ).push(fv[(k - 1) as int]));
    }
    assert(fv.subrange(root.len() as int, f.len() as int) =~= fv.skip(root.len() as int));
    let ghost relv = char_views(rel@);
    let n = rel.len();
    if n == 0 {
        return None;
    }
    let init = vec!['_', '_', 'i', 'n', 'i', 't', '_', '_', '.', 'p', 'y'];
    let py = vec!['.', 'p', 'y'];
    assert(py@ =~= py_suffix());
    proof {
        reveal_strlit("__init__.py");
        assert(init@ =~= "__init__.py"@);
    }
    if chars_eq(rel[n - 1].as_slice(), init.as_slice()) {
        rel.pop();
        assert(char_views(rel@) =~= relv.drop_last());
    } else if ends_with_chars(rel[n - 1].as_slice(), py.as_slice()) {
        let last = rel.pop().unwrap();
        let stem = chars_range(last.as_slice(), 0, last.len() - 3);
        let ghost sv = stem@;
        rel.push(stem);
        assert(char_views(rel@) =~= relv.drop_last().push(relv.last().take(relv.last().len() - 3)));
    } else {
        return None;
    }
    if rel.len() == 0 {
        return None;
    }
    let dot = vec!['.'];
    assert(dot@ =~= seq!['.']);
    assert(rel@.map_values(|p: Vec<char>| p@) =~= char_views(rel@));
    let joined = join_chars(&rel, dot.as_slice());
    Some(string_from_chars(joined.as_slice()))
}

/// The anchored regex for a dotted glob pattern.
pub fn dotted_glob_to_regex(pattern: &str) -> (r: String)
    ensures
        r@ == dotted_glob_regex(pattern@),
{
    let p = chars_of(pattern);
    let segments = split_chars(p.as_slice(), '.');
    let ghost segs = char_views(segments@);
    let ghost target = segs.map_values(|s: Seq<char>| segment_regex(s));
    let star_star = vec!['*', '*'];
    let escaped_star = vec!['\\', '*'];
    let one_segment = vec!['[', '^', '.', ']', '*'];
    assert(star_star@ =~= seq!['*', '*']);
    assert(escaped_star@ =~= seq!['\\', '*']);
    assert(one_segment@ =~= seq!['[', '^', '.', ']', '*']);
    let mut pieces: Vec<Vec<char>> = Vec::new();
    for i in 0..segments.len()
        invariant
            segs == char_views(segments@),
            target == segs.map_values(|s: Seq<char>| segment_regex(s)),
            star_star@ == seq!['*', '*'],
            escaped_star@ == seq!['\\', '*'],
            one_segment@ == seq!['[', '^', '.', ']', '*'],
            char_views(pieces@) == target.take(i as int),
    {
        let seg = &segments[i];
        let piece = if chars_eq(seg.as_slice(), star_star.as_slice()) {
            let v = vec!['.', '*'];
            assert(v@ =~= seq!['.', '*']);
            v
        } else {
            let s = string_from_chars(seg.as_slice());
            let e = regex_escape(s.as_str());
            let ec = chars_of(e.as_str());
            replace_all_occurrences(ec.as_slice(), escaped_star.as_slice(), one_segment.as_slice())
        };
        let ghost before = char_views(pieces@);
        let ghost pv = piece@;
        assert(pv == target[i as int]);
        pieces.push(piece);
        assert(char_views(pieces@) =~= before.push(pv));
        assert(target.take(i + 1) =~= target.take(i as int).push(target[i as int]));
    }
    assert(target.take(segments.len() as int) =~= target);
    let sep = vec!['\\', '.'];
    assert(sep@ =~= seq!['\\', '.']);
    assert(pieces@.map_values(|p: Vec<char>| p@) =~= char_views(pieces@));
    let body = join_chars(&pieces, sep.as_slice());
    let mut out = vec!['^', '(', '?', ':'];
    push_chars(&mut out, body.as_slice());
    out.push(')');
    out.push('$');
    assert(out@ =~= dotted_glob_regex(pattern@));
    string_from_chars(out.as_slice())
}

fn never_match() -> (r: String)
    ensures
        r@ == never_match_regex(),
{
    let v = vec!['[', '^', '\\', 's', '\\', 'S', ']'];
    assert(v@ =~= never_match_regex());
    string_from_chars(v.as_slice())
}

/// Some dotted glob pattern (`*` within a segment, `**` across segments)
/// matches the dotted path.
pub fn match_any_dotted_glob(patterns: &[String], dotted_path: &str) -> (r: bool)
    ensures
        r == spec_match_any_dotted_glob(string_views(patterns@), dotted_path@),
{
    for i in 0..patterns.len()
        invariant
            forall|k: int| 0 <= k < i ==> !dotted_glob_matches(#[trigger] patterns@[k]@, dotted_path@),
    {
        let re = dotted_glob_to_regex(patterns[i].as_str());
        let m = match regex_search(re.as_str(), dotted_path) {
            Some(b) => b,
            None => {
                let fallback = never_match();
                regex_search(fallback.as_str(), dotted_path) == Some(true)
            },
        };
        if m {
            assert(string_views(patterns@)[i as int] == patterns@[i as int]@);
            return true;
        }
    }
    assert forall|k: int| 0 <= k < patterns.len() implies !dotted_glob_matches(
        #[trigger] string_views(patterns@)[k],
        dotted_path@,
    ) by {
        assert(string_views(patterns@)[k] == patterns@[k]@);
    }
    false
}

/// Some pattern, as an anchored regex, matches the whole value; a pattern
/// that does not compile matches nothing.
pub fn match_any_regex(patterns: &[String], value: &str) -> (r: bool)
    ensures
        r == exists|i: int|
            0 <= i < patterns.len() && full_regex_matches(#[trigger] patterns@[i]@, value@),
{
    for i in 0..patterns.len()
        invariant
            forall|k: int| 0 <= k < i ==> !full_regex_matches(#[trigger] patterns@[k]@, value@),
    {
        let mut anchored = vec!['^', '(', '?', ':'];
        let pc = chars_of(patterns[i].as_str());
        push_chars(&mut anchored, pc.as_slice());
        anchored.push(')');
        anchored.push('$');
        assert(anchored@ =~= seq!['^', '(', '?', ':'] + patterns@[i as int]@ + seq![')', '$']);
        let re = string_from_chars(anchored.as_slice());
        if regex_search(re.as_str(), value) == Some(true) {
            return true;
        }
    }
    false
}

/// Matches `expose` entries of the form `ClassPattern.MemberPattern`
/// against the class a definition is directly in and its name; entries
/// without a `.`, or with an empty half, and definitions outside a class
/// never match here.
pub fn match_any_dotted_expose(patterns: &[String], class_name: Option<&str>, name: &str) -> (r: bool)
    ensures
        r == match class_name {
            None => false,
            Some(c) => exists|i: int|
                0 <= i < patterns.len() && dotted_expose_matches(
                    #[trigger] patterns@[i]@,
                    c@,
                    name@,
                ),
        },
{
    let cls = match class_name {
        None => return false,
        Some(c) => c,
    };
    for i in 0..patterns.len()
        invariant
            class_name == Some(cls),
            forall|k: int|
                0 <= k < i ==> !dotted_expose_matches(#[trigger] patterns@[k]@, cls@, name@),
    {
        let pc = chars_of(patterns[i].as_str());
        let k = find_char(pc.as_slice(), '.');
        proof {
            lemma_first_index_of_bounds(pc@, '.', 0);
        }
        if k > 0 && k < pc.len() && k + 1 < pc.len() {
            let class_pattern = chars_range(pc.as_slice(), 0, k);
            let member_pattern = chars_range(pc.as_slice(), k + 1, pc.len());
            assert(class_pattern@ =~= pc@.take(k as int));
            assert(member_pattern@ =~= pc@.skip(k + 1));
            let cp = string_from_chars(class_pattern.as_slice());
            let mp = string_from_chars(member_pattern.as_slice());
            if fnmatchcase(cls, cp.as_str()) && fnmatchcase(name, mp.as_str()) {
                return true;
            }
        }
    }
    false
}

// ---------------------------------------------------------------------------
// Reading tach.toml and tach.domain.toml documents

/// A module entry as values: its path patterns and whether it is unchecked.
pub open spec fn module_view(m: TachModule) -> (Seq<Seq<char>>, bool) {
    (string_views(m.path_patterns@), m.unchecked)
}

/// An interface entry as values: what it exposes and its `from` patterns.
pub open spec fn interface_view(i: TachInterface) -> (Seq<Seq<char>>, Option<Seq<Seq<char>>>) {
    (
        string_views(i.expose@),
        match i.from_patterns {
            Some(p) => Some(string_views(p@)),
            None => None,
        },
    )
}

/// A `[[modules]]` entry: the string elements of `paths` if that is an
/// array, else `path` if that is a string (else no entry), and `unchecked`
/// if that is a boolean (else false).
pub open spec fn module_entry(raw: TomlView) -> Option<(Seq<Seq<char>>, bool)> {
    let patterns = match spec_get(raw, "paths"@) {
        Some(TomlView::Array(items)) => Some(array_strings(items)),
        _ => match spec_get(raw, "path"@) {
            Some(TomlView::Str(p)) => Some(seq![p]),
            _ => None,
        },
    };
    match patterns {
        None => None,
        Some(p) => Some(
            (
                p,
                match spec_get(raw, "unchecked"@) {
                    Some(TomlView::Boolean(b)) => b,
                    _ => false,
                },
            ),
        ),
    }
}

/// The module entries among some raw entries, in order.
pub open spec fn module_entries(items: Seq<TomlView>) -> Seq<(Seq<Seq<char>>, bool)>
    decreases items.len(),
{
    if items.len() == 0 {
        Seq::empty()
    } else {
        let rest = module_entries(items.drop_last());
        match module_entry(items.last()) {
            Some(m) => rest.push(m),
            None => rest,
        }
    }
}

/// The `[[modules]]` of a document.
pub open spec fn spec_modules(data: TomlView) -> Seq<(Seq<Seq<char>>, bool)> {
    match spec_get(data, "modules"@) {
        Some(TomlView::Array(items)) => module_entries(items),
        _ => Seq::empty(),
    }
}

/// An `[[interfaces]]` entry: the string elements of `expose` (no entry when
/// there are none), and those of `from` when that is an array.
pub open spec fn interface_entry(raw: TomlView) -> Option<(Seq<Seq<char>>, Option<Seq<Seq<char>>>)> {
    let expose = match spec_get(raw, "expose"@) {
        Some(TomlView::Array(items)) => array_strings(items),
        _ => Seq::empty(),
    };
    if expose.len() == 0 {
        None
    } else {
        Some(
            (
                expose,
                match spec_get(raw, "from"@) {
                    Some(TomlView::Array(items)) => Some(array_strings(items)),
                    _ => None,
                },
            ),
        )
    }
}

/// The interface entries among some raw entries, in order.
pub open spec fn interface_entries(items: Seq<TomlView>) -> Seq<(Seq<Seq<char>>, Option<Seq<Seq<char>>>)>
    decreases items.len(),
{
    if items.len() == 0 {
        Seq::empty()
    } else {
        let rest = interface_entries(items.drop_last());
        match interface_entry(items.last()) {
            Some(i) => rest.push(i),
            None => rest,
        }
    }
}

/// The `[[interfaces]]` of a document.
pub open spec fn spec_interfaces(data: TomlView) -> Seq<(Seq<Seq<char>>, Option<Seq<Seq<char>>>)> {
    match spec_get(data, "interfaces"@) {
        Some(TomlView::Array(items)) => interface_entries(items),
        _ => Seq::empty(),
    }
}

/// The `[[modules]]` entries of a document.
pub fn extract_modules(data: &TomlValue) -> (r: Vec<TachModule>)
    ensures
        r@.map_values(|m: TachModule| module_view(m)) == spec_modules(toml_view(*data)),
{
    let mut modules: Vec<TachModule> = Vec::new();
    let raw_modules = match toml_get(data, "modules") {
        Some(v) => match toml_items(v) {
            Some(items) => items,
            None => {
                assert(modules@.map_values(|m: TachModule| module_view(m)) =~= Seq::<
                    (Seq<Seq<char>>, bool),
                >::empty());
                return modules;
            },
        },
        None => {
            assert(modules@.map_values(|m: TachModule| module_view(m)) =~= Seq::<
                (Seq<Seq<char>>, bool),
            >::empty());
            return modules;
        },
    };
    let ghost iv = toml_views(raw_modules@);
    proof {
        lemma_toml_views_len(raw_modules@);
    }
    for i in 0..raw_modules.len()
        invariant
            iv == toml_views(raw_modules@),
            iv.len() == raw_modules@.len(),
            spec_modules(toml_view(*data)) == module_entries(iv),
            modules@.map_values(|m: TachModule| module_view(m)) == module_entries(iv.take(i as int)),
    {
        proof {
            lemma_toml_views_index(raw_modules@, i as int);
        }
        assert(iv.take(i + 1).drop_last() =~= iv.take(i as int));
        assert(iv.take(i + 1).last() == toml_view(raw_modules@[i as int]));
        let raw = &raw_modules[i];
        let patterns = match toml_get(raw, "paths") {
            Some(p) => match toml_strings(p) {
                Some(v) => Some(v),
                None => match toml_get(raw, "path") {
                    Some(q) => match toml_str(q) {
                        Some(one) => {
                            let mut v: Vec<String> = Vec::new();
                            v.push(one.clone());
                            assert(string_views(v@) =~= seq![one@]);
                            Some(v)
                        },
                        None => None,
                    },
                    None => None,
                },
            },
            None => match toml_get(raw, "path") {
                Some(q) => match toml_str(q) {
                    Some(one) => {
                        let mut v: Vec<String> = Vec::new();
                        v.push(one.clone());
                        assert(string_views(v@) =~= seq![one@]);
                        Some(v)
                    },
                    None => None,
                },
                None => None,
            },
        };
        if let Some(path_patterns) = patterns {
            let unchecked = match toml_get(raw, "unchecked") {
                Some(u) => match toml_bool(u) {
                    Some(b) => b,
                    None => false,
                },
                None => false,
            };
            let ghost before = modules@.map_values(|m: TachModule| module_view(m));
            let m = TachModule { path_patterns, unchecked };
            let ghost mv = module_view(m);
            modules.push(m);
            assert(modules@.map_values(|m: TachModule| module_view(m)) =~= before.push(mv));
        }
    }
    assert(iv.take(raw_modules.len() as int) =~= iv);
    modules
}

/// The `[[interfaces]]` entries of a document.
pub fn extract_interfaces(data: &TomlValue) -> (r: Vec<TachInterface>)
    ensures
        r@.map_values(|i: TachInterface| interface_view(i)) == spec_interfaces(toml_view(*data)),
{
    let mut interfaces: Vec<TachInterface> = Vec::new();
    let raw_interfaces = match toml_get(data, "interfaces") {
        Some(v) => match toml_items(v) {
            Some(items) => items,
            None => {
                assert(interfaces@.map_values(|i: TachInterface| interface_view(i)) =~= Seq::<
                    (Seq<Seq<char>>, Option<Seq<Seq<char>>>),
                >::empty());
                return interfaces;
            },
        },
        None => {
            assert(interfaces@.map_values(|i: TachInterface| interface_view(i)) =~= Seq::<
                (Seq<Seq<char>>, Option<Seq<Seq<char>>>),
            >::empty());
            return interfaces;
        },
    };
    let ghost iv = toml_views(raw_interfaces@);
    proof {
        lemma_toml_views_len(raw_interfaces@);
    }
    for i in 0..raw_interfaces.len()
        invariant
            iv == toml_views(raw_interfaces@),
            iv.len() == raw_interfaces@.len(),
            spec_interfaces(toml_view(*data)) == interface_entries(iv),
            interfaces@.map_values(|i: TachInterface| interface_view(i)) == interface_entries(
                iv.take(i as int),
            ),
    {
        proof {
            lemma_toml_views_index(raw_interfaces@, i as int);
        }
        assert(iv.take(i + 1).drop_last() =~= iv.take(i as int));
        assert(iv.take(i + 1).last() == toml_view(raw_interfaces@[i as int]));
        let raw = &raw_interfaces[i];
        let expose = match toml_get(raw, "expose") {
            Some(e) => match toml_strings(e) {
                Some(v) => v,
                None => Vec::new(),
            },
            None => Vec::new(),
        };
        assert(expose@.len() == 0 ==> string_views(expose@) =~= Seq::<Seq<char>>::empty());
        if expose.len() > 0 {
            let from_patterns = match toml_get(raw, "from") {
                Some(f) => toml_strings(f),
                None => None,
            };
            let ghost before = interfaces@.map_values(|i: TachInterface| interface_view(i));
            let it = TachInterface { expose, from_patterns };
            let ghost v = interface_view(it);
            interfaces.push(it);
            assert(interfaces@.map_values(|i: TachInterface| interface_view(i)) =~= before.push(v));
        }
    }
    assert(iv.take(raw_interfaces.len() as int) =~= iv);
    interfaces
}

/// `Path::parent`, or `.` when there is none: the path without its last
/// component.
pub open spec fn spec_parent(path: Seq<char>) -> Seq<char> {
    let comps = path_components(path);
    if comps.len() == 0 {
        seq!['.']
    } else {
        render_path(is_absolute(path), comps.drop_last())
    }
}

/// The directory a path is in (see `spec_parent`).
pub fn parent_path(path: &str) -> (r: String)
    ensures
        r@ == spec_parent(path@),
{
    let p = chars_of(path);
    let mut comps = components(p.as_slice());
    if comps.len() == 0 {
        let dot = vec!['.'];
        assert(dot@ =~= seq!['.']);
        return string_from_chars(dot.as_slice());
    }
    let ghost cv = char_views(comps@);
    comps.pop();
    assert(char_views(comps@) =~= cv.drop_last());
    let absolute = p.len() > 0 && p[0] == '/';
    let out = render(absolute, &comps);
    string_from_chars(out.as_slice())
}

/// The source roots a tach.toml names: the string elements of
/// `source_roots`, or `.` when there are none.
pub open spec fn raw_source_roots(data: TomlView) -> Seq<Seq<char>> {
    let roots = match spec_get(data, "source_roots"@) {
        Some(TomlView::Array(items)) => array_strings(items),
        _ => Seq::empty(),
    };
    if roots.len() == 0 {
        seq![seq!['.']]
    } else {
        roots
    }
}

/// A configuration as values: source roots, project root, modules and
/// interfaces.
pub open spec fn config_view(c: TachConfig) -> (
    Seq<Seq<char>>,
    Option<Seq<char>>,
    Seq<(Seq<Seq<char>>, bool)>,
    Seq<(Seq<Seq<char>>, Option<Seq<Seq<char>>>)>,
) {
    (
        string_views(c.source_roots@),
        match c.project_root {
            Some(r) => Some(r@),
            None => None,
        },
        c.modules@.map_values(|m: TachModule| module_view(m)),
        c.interfaces@.map_values(|i: TachInterface| interface_view(i)),
    )
}

/// The project of a tach.toml at `config_path` holding `text`: its root is
/// the file's directory (resolved against `cwd`), its source roots are
/// resolved against that root.
pub open spec fn spec_tach_config(cwd: Seq<char>, config_path: Seq<char>, data: TomlView) -> (
    Seq<Seq<char>>,
    Option<Seq<char>>,
    Seq<(Seq<Seq<char>>, bool)>,
    Seq<(Seq<Seq<char>>, Option<Seq<Seq<char>>>)>,
) {
    let project_root = spec_resolve_path(cwd, spec_parent(config_path));
    (
        raw_source_roots(data).map_values(|r: Seq<char>| spec_resolve_path(project_root, r)),
        Some(project_root),
        spec_modules(data),
        spec_interfaces(data),
    )
}

/// The project that a tach.toml text describes (before its domain files
/// are merged in), or `None` when the text does not parse.
pub fn tach_config_from_toml(cwd: &str, config_path: &str, text: &str) -> (r: Option<TachConfig>)
    ensures
        match toml_document(text@) {
            None => r is None,
            Some(doc) => r is Some && config_view(r->0) == spec_tach_config(cwd@, config_path@, doc),
        },
{
    let data = match parse_toml(text) {
        Some(d) => d,
        None => return None,
    };
    let parent = parent_path(config_path);
    let project_root = resolve_path(cwd, parent.as_str());
    let raw = match toml_get(&data, "source_roots") {
        Some(v) => match toml_strings(v) {
            Some(roots) => roots,
            None => Vec::new(),
        },
        None => Vec::new(),
    };
    let raw = if raw.len() == 0 {
        let mut d: Vec<String> = Vec::new();
        let dot = vec!['.'];
        assert(dot@ =~= seq!['.']);
        d.push(string_from_chars(dot.as_slice()));
        assert(string_views(d@) =~= seq![seq!['.']]);
        d
    } else {
        raw
    };
    assert(string_views(raw@) == raw_source_roots(toml_view(data)));
    let ghost rv = string_views(raw@);
    let mut source_roots: Vec<String> = Vec::new();
    for i in 0..raw.len()
        invariant
            rv == string_views(raw@),
            string_views(source_roots@) == rv.take(i as int).map_values(
                |r: Seq<char>| spec_resolve_path(project_root@, r),
            ),
    {
        let ghost before = string_views(source_roots@);
        let resolved = resolve_path(project_root.as_str(), raw[i].as_str());
        source_roots.push(resolved);
        assert(string_views(source_roots@) =~= before.push(spec_resolve_path(project_root@, rv[i as int])));
        assert(rv.take(i + 1).map_values(|r: Seq<char>| spec_resolve_path(project_root@, r))
            =~= rv.take(i as int).map_values(|r: Seq<char>| spec_resolve_path(project_root@, r)).push(
            spec_resolve_path(project_root@, rv[i as int]),
        ));
    }
    assert(rv.take(raw.len() as int) =~= rv);
    let modules = extract_modules(&data);
    let interfaces = extract_interfaces(&data);
    let config = TachConfig { source_roots, project_root: Some(project_root), modules, interfaces };
    Some(config)
}

/// The dotted path of a directory below a source root: its components past
/// the root's, joined with `.` (empty for the root itself, or for a
/// directory not below the root).
pub open spec fn spec_dotted_dir_path(cwd: Seq<char>, directory: Seq<char>, source_root: Seq<char>) -> Seq<char> {
    let d = resolved_components(cwd, directory);
    let r = resolved_components(cwd, source_root);
    if r.is_prefix_of(d) {
        join(d.skip(r.len() as int), seq!['.'])
    } else {
        Seq::empty()
    }
}

/// The dotted path of `directory` below `source_root`.
pub fn dotted_dir_path(cwd: &str, directory: &str, source_root: &str) -> (r: String)
    ensures
        r@ == spec_dotted_dir_path(cwd@, directory@, source_root@),
{
    let d = resolve_components(cwd, directory);
    let root = resolve_components(cwd, source_root);
    let ghost dv = char_views(d@);
    let ghost rv = char_views(root@);
    if root.len() <= d.len() && is_prefix(&root, &d) {
        let mut rest: Vec<Vec<char>> = Vec::new();
        let mut k = root.len();
        assert(dv.skip(rv.len() as int).take(0) =~= char_views(rest@));
        while k < d.len()
            invariant
                root.len() <= k <= d.len(),
                dv == char_views(d@),
                rv.len() == root.len(),
                char_views(rest@) == dv.skip(rv.len() as int).take(k - root.len()),
            decreases d.len() - k,
        {
            let ghost before = char_views(rest@);
            let c = d[k].clone();
            let ghost cv = c@;
            rest.push(c);
            assert(char_views(rest@) =~= before.push(cv));
            assert(dv.skip(rv.len() as int).take(k + 1 - root.len()) =~= dv.skip(rv.len() as int).take(
                k - root.len(),
            ).push(dv[k as int]));
            k = k + 1;
        }
        assert(dv.skip(rv.len() as int).take(d.len() - root.len()) =~= dv.skip(rv.len() as int));
        let dot = vec!['.'];
        assert(dot@ =~= seq!['.']);
        assert(rest@.map_values(|p: Vec<char>| p@) =~= char_views(rest@));
        let joined = join_chars(&rest, dot.as_slice());
        string_from_chars(joined.as_slice())
    } else {
        String::new()
    }
}

/// A domain file's module path or `from` pattern made absolute: `//x` is
/// `x` from the source root, `` is the domain's own path, anything else is
/// below the domain's path.
pub open spec fn resolve_entry(domain: Seq<char>, entry: Seq<char>) -> Seq<char> {
    if chars_start_with(entry, seq!['/', '/']) {
        entry.skip(2)
    } else if entry.len() == 0 {
        domain
    } else if domain.len() > 0 {
        domain + seq!['.'] + entry
    } else {
        entry
    }
}

/// Resolves one domain entry (see `resolve_entry`).
fn resolve_domain_entry(domain: &str, entry: &str) -> (r: String)
    ensures
        r@ == resolve_entry(domain@, entry@),
{
    let e = chars_of(entry);
    let slashes = vec!['/', '/'];
    assert(slashes@ =~= seq!['/', '/']);
    if starts_with_chars(e.as_slice(), slashes.as_slice()) {
        let rest = chars_range(e.as_slice(), 2, e.len());
        assert(rest@ =~= e@.skip(2));
        string_from_chars(rest.as_slice())
    } else if e.len() == 0 {
        domain.to_owned()
    } else {
        let d = chars_of(domain);
        if d.len() > 0 {
            let mut out = d;
            out.push('.');
            push_chars(&mut out, e.as_slice());
            assert(out@ =~= domain@ + seq!['.'] + entry@);
            string_from_chars(out.as_slice())
        } else {
            entry.to_owned()
        }
    }
}

/// Resolves each of some domain entries.
fn resolve_domain_entries(domain: &str, entries: &Vec<String>) -> (r: Vec<String>)
    ensures
        string_views(r@) == string_views(entries@).map_values(|e: Seq<char>| resolve_entry(domain@, e)),
{
    let mut out: Vec<String> = Vec::new();
    for i in 0..entries.len()
        invariant
            string_views(out@) == string_views(entries@.take(i as int)).map_values(
                |e: Seq<char>| resolve_entry(domain@, e),
            ),
    {
        let ghost before = string_views(out@);
        out.push(resolve_domain_entry(domain, entries[i].as_str()));
        assert(string_views(out@) =~= before.push(resolve_entry(domain@, entries@[i as int]@)));
        assert(string_views(entries@.take(i + 1)).map_values(|e: Seq<char>| resolve_entry(domain@, e))
            =~= string_views(entries@.take(i as int)).map_values(
            |e: Seq<char>| resolve_entry(domain@, e),
        ).push(resolve_entry(domain@, entries@[i as int]@)));
    }
    assert(entries@.take(entries.len() as int) =~= entries@);
    assert(string_views(entries@).map_values(|e: Seq<char>| resolve_entry(domain@, e))
        =~= string_views(entries@.take(entries.len() as int)).map_values(
        |e: Seq<char>| resolve_entry(domain@, e),
    ));
    out
}

/// A domain module entry with its patterns resolved.
pub open spec fn resolved_module(domain: Seq<char>, m: (Seq<Seq<char>>, bool)) -> (Seq<Seq<char>>, bool) {
    (m.0.map_values(|e: Seq<char>| resolve_entry(domain, e)), m.1)
}

/// A domain interface entry with its `from` patterns resolved.
pub open spec fn resolved_interface(
    domain: Seq<char>,
    i: (Seq<Seq<char>>, Option<Seq<Seq<char>>>),
) -> (Seq<Seq<char>>, Option<Seq<Seq<char>>>) {
    (
        i.0,
        match i.1 {
            Some(p) => Some(p.map_values(|e: Seq<char>| resolve_entry(domain, e))),
            None => None,
        },
    )
}

/// `[root] unchecked = true` in a domain file.
pub open spec fn root_unchecked(data: TomlView) -> bool {
    match spec_get(data, "root"@) {
        Some(t) => match spec_get(t, "unchecked"@) {
            Some(TomlView::Boolean(b)) => b,
            _ => false,
        },
        None => false,
    }
}

/// Merges a tach.domain.toml (at `domain_file`, below `source_root`) into a
/// project: its modules and interfaces, with paths resolved below the
/// domain's dotted path, and, under `[root] unchecked = true`, the domain's
/// own path as an unchecked module. A text that does not parse changes
/// nothing and gives `false`.
pub fn merge_domain_config(
    config: &mut TachConfig,
    cwd: &str,
    domain_file: &str,
    source_root: &str,
    text: &str,
) -> (r: bool)
    ensures
        match toml_document(text@) {
            None => !r && config_view(*final(config)) == config_view(*old(config)),
            Some(doc) => {
                let domain = spec_dotted_dir_path(cwd@, spec_parent(domain_file@), source_root@);
                let before = config_view(*old(config));
                &&& r
                &&& config_view(*final(config)) == (
                    before.0,
                    before.1,
                    before.2 + spec_modules(doc).map_values(
                        |m: (Seq<Seq<char>>, bool)| resolved_module(domain, m),
                    ) + if root_unchecked(doc) {
                        seq![(seq![domain], true)]
                    } else {
                        Seq::empty()
                    },
                    before.3 + spec_interfaces(doc).map_values(
                        |i: (Seq<Seq<char>>, Option<Seq<Seq<char>>>)| resolved_interface(domain, i),
                    ),
                )
            },
        },
{
    let data = match parse_toml(text) {
        Some(d) => d,
        None => return false,
    };
    let ghost doc = toml_view(data);
    let parent = parent_path(domain_file);
    let domain = dotted_dir_path(cwd, parent.as_str(), source_root);
    let modules = extract_modules(&data);
    let ghost mods = spec_modules(doc);
    let mut resolved: Vec<TachModule> = Vec::new();
    for i in 0..modules.len()
        invariant
            modules@.map_values(|m: TachModule| module_view(m)) == mods,
            resolved@.map_values(|m: TachModule| module_view(m)) == mods.take(i as int).map_values(
                |m: (Seq<Seq<char>>, bool)| resolved_module(domain@, m),
            ),
    {
        assert(module_view(modules@[i as int]) == mods[i as int]);
        let ghost before = resolved@.map_values(|m: TachModule| module_view(m));
        let patterns = resolve_domain_entries(domain.as_str(), &modules[i].path_patterns);
        let m = TachModule { path_patterns: patterns, unchecked: modules[i].unchecked };
        let ghost mv = module_view(m);
        resolved.push(m);
        assert(resolved@.map_values(|m: TachModule| module_view(m)) =~= before.push(mv));
        assert(mods.take(i + 1).map_values(|m: (Seq<Seq<char>>, bool)| resolved_module(domain@, m))
            =~= mods.take(i as int).map_values(
            |m: (Seq<Seq<char>>, bool)| resolved_module(domain@, m),
        ).push(resolved_module(domain@, mods[i as int])));
    }
    assert(mods.take(modules.len() as int) =~= mods);
    let interfaces = extract_interfaces(&data);
    let ghost ifs = spec_interfaces(doc);
    let mut resolved_ifs: Vec<TachInterface> = Vec::new();
    for i in 0..interfaces.len()
        invariant
            interfaces@.map_values(|i: TachInterface| interface_view(i)) == ifs,
            resolved_ifs@.map_values(|i: TachInterface| interface_view(i)) == ifs.take(i as int).map_values(
                |i: (Seq<Seq<char>>, Option<Seq<Seq<char>>>)| resolved_interface(domain@, i),
            ),
    {
        assert(interface_view(interfaces@[i as int]) == ifs[i as int]);
        let ghost before = resolved_ifs@.map_values(|i: TachInterface| interface_view(i));
        let expose = crate::utils::text::copy_strings(&interfaces[i].expose);
        let from_patterns = match &interfaces[i].from_patterns {
            Some(p) => Some(resolve_domain_entries(domain.as_str(), p)),
            None => None,
        };
        let it = TachInterface { expose, from_patterns };
        let ghost v = interface_view(it);
        resolved_ifs.push(it);
        assert(resolved_ifs@.map_values(|i: TachInterface| interface_view(i)) =~= before.push(v));
        assert(ifs.take(i + 1).map_values(
            |i: (Seq<Seq<char>>, Option<Seq<Seq<char>>>)| resolved_interface(domain@, i),
        ) =~= ifs.take(i as int).map_values(
            |i: (Seq<Seq<char>>, Option<Seq<Seq<char>>>)| resolved_interface(domain@, i),
        ).push(resolved_interface(domain@, ifs[i as int])));
    }
    assert(ifs.take(interfaces.len() as int) =~= ifs);
    let unchecked_root = match toml_get(&data, "root") {
        Some(t) => match toml_get(t, "unchecked") {
            Some(u) => match toml_bool(u) {
                Some(b) => b,
                None => false,
            },
            None => false,
        },
        None => false,
    };
    if unchecked_root {
        let mut patterns: Vec<String> = Vec::new();
        patterns.push(domain.clone());
        assert(string_views(patterns@) =~= seq![domain@]);
        resolved.push(TachModule { path_patterns: patterns, unchecked: true });
    }
    let ghost old_mods = config.modules@;
    let ghost old_ifs = config.interfaces@;
    let ghost added = resolved@;
    let ghost added_ifs = resolved_ifs@;
    config.modules.append(&mut resolved);
    config.interfaces.append(&mut resolved_ifs);
    assert(config.modules@.map_values(|m: TachModule| module_view(m)) =~= old_mods.map_values(
        |m: TachModule| module_view(m),
    ) + added.map_values(|m: TachModule| module_view(m)));
    assert(config.interfaces@.map_values(|i: TachInterface| interface_view(i)) =~= old_ifs.map_values(
        |i: TachInterface| interface_view(i),
    ) + added_ifs.map_values(|i: TachInterface| interface_view(i)));
    true
}

} // verus!
