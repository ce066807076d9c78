//! The classes defined so far, by scope, with their flattened inherits-from chains.
//!
//! Only classes are recorded: the chain of a class is all a lookup needs.
//! A lookup starts at a scope and walks up through the enclosing scopes,
//! nearest first, but only from a scope path that some registration reached
//! (a lookup does not fall back to the longest known prefix).

use vstd::prelude::*;

use crate::utils::text::{str_eq, string_views};

verus! {

/// One registered class.
#[derive(Debug, Clone)]
pub struct ScopeEntry {
    pub scope: Vec<String>,
    pub name: String,
    pub inherits_from: Vec<String>,
}

/// The registered classes, in registration order.
pub struct NestedScope {
    entries: Vec<ScopeEntry>,
}

/// A registration: (scope path, class name, inherits-from chain).
pub type ScopeRecord = (Seq<Seq<char>>, Seq<char>, Seq<Seq<char>>);

/// The scope path `scope` exists: it is the root, or a prefix of some
/// registered class's scope path.
pub open spec fn path_exists(records: Seq<ScopeRecord>, scope: Seq<Seq<char>>) -> bool {
    scope.len() == 0 || exists|i: int|
        0 <= i < records.len() && scope.is_prefix_of(#[trigger] records[i].0)
}

/// The chain of the latest registration of `name` at exactly `scope`.
pub open spec fn lookup_at(records: Seq<ScopeRecord>, scope: Seq<Seq<char>>, name: Seq<char>) -> Option<
    Seq<Seq<char>>,
>
    decreases records.len(),
{
    if records.len() == 0 {
        None
    } else if records.last().0 == scope && records.last().1 == name {
        Some(records.last().2)
    } else {
        lookup_at(records.drop_last(), scope, name)
    }
}

/// Looks `name` up at `scope.take(k)`, then at ever shorter prefixes.
pub open spec fn lookup_up_from(
    records: Seq<ScopeRecord>,
    scope: Seq<Seq<char>>,
    name: Seq<char>,
    k: nat,
) -> Option<Seq<Seq<char>>>
    decreases k,
{
    match lookup_at(records, scope.take(k as int), name) {
        Some(c) => Some(c),
        None => if k == 0 {
            None
        } else {
            lookup_up_from(records, scope, name, (k - 1) as nat)
        },
    }
}

/// What `get_inherits_from` finds.
pub open spec fn spec_get_inherits_from(
    records: Seq<ScopeRecord>,
    scope: Seq<Seq<char>>,
    name: Seq<char>,
) -> Option<Seq<Seq<char>>> {
    if path_exists(records, scope) {
        lookup_up_from(records, scope, name, scope.len())
    } else {
        None
    }
}

fn strings_eq(a: &Vec<String>, b: &[String]) -> (r: bool)
    ensures
        r == (string_views(a@) == string_views(b@)),
{
    if a.len() != b.len() {
        assert(string_views(a@).len() != string_views(b@).len());
        return false;
    }
    let mut i: usize = 0;
    while i < a.len()
        invariant
            a.len() == b.len(),
            i <= a.len(),
            forall|k: int| 0 <= k < i ==> a@[k]@ == b@[k]@,
        decreases a.len() - i,
    {
        if a[i] != b[i] {
            assert(string_views(a@)[i as int] != string_views(b@)[i as int]);
            return false;
        }
        i = i + 1;
    }
    assert(string_views(a@) =~= string_views(b@));
    true
}

/// `p` is a prefix of `s`.
fn strings_prefix(p: &[String], s: &Vec<String>) -> (r: bool)
    ensures
        r == string_views(p@).is_prefix_of(string_views(s@)),
{
    if p.len() > s.len() {
        return false;
    }
    let mut i: usize = 0;
    while i < p.len()
        invariant
            p.len() <= s.len(),
            i <= p.len(),
            forall|k: int| 0 <= k < i ==> p@[k]@ == s@[k]@,
        decreases p.len() - i,
    {
        if p[i] != s[i] {
            assert(string_views(p@)[i as int] != string_views(s@)[i as int]);
            return false;
        }
        i = i + 1;
    }
    assert(string_views(s@).take(p.len() as int) =~= string_views(p@));
    true
}

impl NestedScope {
    /// The registrations, oldest first.
    pub closed spec fn records(&self) -> Seq<ScopeRecord> {
        self.entries@.map_values(
            |e: ScopeEntry| (string_views(e.scope@), e.name@, string_views(e.inherits_from@)),
        )
    }

    pub fn new() -> (s: Self)
        ensures
            s.records() == Seq::<ScopeRecord>::empty(),
    {
        let s = NestedScope { entries: Vec::new() };
        assert(s.records() =~= Seq::<ScopeRecord>::empty());
        s
    }

    /// Registers a class's (already-flattened) inherits-from chain at the
    /// given scope path; a later registration of the same name at the same
    /// path shadows the earlier one.
    pub fn add_class(&mut self, scope_parts: &[String], name: &str, inherits_from: Vec<String>)
        ensures
            final(self).records() == old(self).records().push(
                (string_views(scope_parts@), name@, string_views(inherits_from@)),
            ),
    {
        let mut scope: Vec<String> = Vec::new();
        for i in 0..scope_parts.len()
            invariant
                string_views(scope@) == string_views(scope_parts@.take(i as int)),
        {
            let part = scope_parts[i].clone();
            let ghost before = scope@;
            scope.push(part);
            assert(string_views(scope@) =~= string_views(before).push(scope_parts@[i as int]@));
            assert(string_views(scope_parts@.take(i + 1)) =~= string_views(
                scope_parts@.take(i as int),
            ).push(scope_parts@[i as int]@));
        }
        assert(scope_parts@.take(scope_parts.len() as int) =~= scope_parts@);
        let entry = ScopeEntry { scope, name: name.to_owned(), inherits_from };
        let ghost before = self.entries@;
        self.entries.push(entry);
        assert(self.records() =~= old(self).records().push(
            (string_views(scope_parts@), name@, string_views(inherits_from@)),
        ));
    }

    /// Looks up `name` starting from `scope_parts` and walking up through
    /// enclosing scopes (nearest first), returning the first match's
    /// inherits-from chain. The full `scope_parts` path must already exist
    /// (some class was registered at it or below it) for the walk to start.
    pub fn get_inherits_from(&self, scope_parts: &[String], name: &str) -> (r: Option<&Vec<String>>)
        ensures
            match (r, spec_get_inherits_from(self.records(), string_views(scope_parts@), name@)) {
                (None, None) => true,
                (Some(c), Some(d)) => string_views(c@) == d,
                _ => false,
            },
    {
        let ghost recs = self.records();
        let ghost scope = string_views(scope_parts@);
        // Does the full path exist?
        let mut exists = scope_parts.len() == 0;
        let mut i: usize = 0;
        while i < self.entries.len() && !exists
            invariant
                i <= self.entries.len(),
                recs == self.records(),
                scope == string_views(scope_parts@),
                exists ==> path_exists(recs, scope),
                !exists ==> scope.len() > 0 && forall|k: int|
                    0 <= k < i ==> !scope.is_prefix_of(#[trigger] recs[k].0),
            decreases self.entries.len() - i,
        {
            if strings_prefix(scope_parts, &self.entries[i].scope) {
                exists = true;
                assert(recs[i as int].0 == string_views(self.entries@[i as int].scope@));
            }
            i = i + 1;
        }
        if !exists {
            return None;
        }
        let mut k: usize = scope_parts.len();
        loop
            invariant
                k <= scope_parts.len(),
                recs == self.records(),
                scope == string_views(scope_parts@),
                path_exists(recs, scope),
                lookup_up_from(recs, scope, name@, scope.len()) == lookup_up_from(
                    recs,
                    scope,
                    name@,
                    k as nat,
                ),
            decreases k,
        {
            let prefix = vstd::slice::slice_subrange(scope_parts, 0, k);
            assert(string_views(prefix@) =~= scope.take(k as int));
            let mut j: usize = self.entries.len();
            assert(recs.take(j as int) =~= recs);
            while j > 0
                invariant
                    j <= self.entries.len(),
                    recs == self.records(),
                    lookup_at(recs, scope.take(k as int), name@) == lookup_at(
                        recs.take(j as int),
                        scope.take(k as int),
                        name@,
                    ),
                    string_views(prefix@) == scope.take(k as int),
                    scope == string_views(scope_parts@),
                    path_exists(recs, scope),
                    lookup_up_from(recs, scope, name@, scope.len()) == lookup_up_from(
                        recs,
                        scope,
                        name@,
                        k as nat,
                    ),
                decreases j,
            {
                let e = &self.entries[j - 1];
                assert(recs.take(j as int).last() == (
                    string_views(e.scope@),
                    e.name@,
                    string_views(e.inherits_from@),
                ));
                assert(recs.take(j as int).drop_last() =~= recs.take(j - 1));
                if strings_eq(&e.scope, prefix) && str_eq(e.name.as_str(), name) {
                    assert(lookup_at(recs.take(j as int), scope.take(k as int), name@) == Some(
                        string_views(e.inherits_from@),
                    ));
                    assert(lookup_up_from(recs, scope, name@, k as nat) == Some(
                        string_views(e.inherits_from@),
                    ));
                    return Some(&e.inherits_from);
                }
                j = j - 1;
            }
            assert(recs.take(0) =~= Seq::<ScopeRecord>::empty());
            if k == 0 {
                return None;
            }
            k = k - 1;
        }
    }
}

/// A lookup of a class at the scope path where it was just registered finds
/// the chain that was registered, whatever was registered before.
pub proof fn law_lookup_after_add(
    records: Seq<ScopeRecord>,
    scope: Seq<Seq<char>>,
    name: Seq<char>,
    chain: Seq<Seq<char>>,
)
    ensures
        spec_get_inherits_from(records.push((scope, name, chain)), scope, name) == Some(chain),
{
    let r = records.push((scope, name, chain));
    assert(r[records.len() as int].0 == scope);
    assert(scope.is_prefix_of(r[records.len() as int].0));
    assert(path_exists(r, scope));
    assert(scope.take(scope.len() as int) =~= scope);
    assert(lookup_at(r, scope, name) == Some(chain));
}

} // verus!
