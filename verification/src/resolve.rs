//! Redirect resolution: following a specifier through the redirect table
//! to its canonical form, failing on a revisited specifier instead of
//! looping.

use vstd::prelude::*;
use vstd::seq_lib::seq_to_set_is_finite;
use vstd::set_lib::lemma_len_subset;

use crate::graph::GraphError;
use crate::graph::ModuleGraph;
use crate::graph::RedirectTable;
use crate::graph::SpecGraph;
use crate::graph::SpecModule;
use crate::graph::is_redirect_key;
use crate::graph::lemma_step_some_iff_key;
use crate::graph::redirect_step;
use crate::graph::spec_local_of;
use crate::graph::spec_specifier_of;
use crate::strutil::contains_string;
use crate::strutil::string_views;

verus! {

/// The specifier reached from `start` after following `n` redirect steps,
/// or `None` when the chain runs out before the `n`th step.
pub open spec fn chain(table: Seq<(Seq<char>, Seq<char>)>, start: Seq<char>, n: nat) -> Option<
    Seq<char>,
>
    decreases n,
{
    if n == 0 {
        Some(start)
    } else {
        match chain(table, start, (n - 1) as nat) {
            Some(t) => redirect_step(table, t),
            None => None,
        }
    }
}

/// Whether the redirect chain from `start` reaches `t`, and `t` has no
/// further redirect.
pub open spec fn resolves_to(
    table: Seq<(Seq<char>, Seq<char>)>,
    start: Seq<char>,
    t: Seq<char>,
) -> bool {
    exists|n: nat|
        #[trigger] chain(table, start, n) == Some(t) && redirect_step(table, t) is None
}

/// Whether the redirect chain from `start` visits some specifier twice,
/// that is, runs into a cycle.
pub open spec fn cyclic_from(table: Seq<(Seq<char>, Seq<char>)>, start: Seq<char>) -> bool {
    exists|i: nat, j: nat|
        #![trigger chain(table, start, i), chain(table, start, j)]
        i < j && chain(table, start, i) is Some && chain(table, start, i) == chain(table, start, j)
}

/// The canonical specifier the chain from `start` resolves to.  Meaningful
/// only when some specifier satisfies `resolves_to`.
pub open spec fn spec_resolved(table: Seq<(Seq<char>, Seq<char>)>, start: Seq<char>) -> Seq<char> {
    choose|t: Seq<char>| resolves_to(table, start, t)
}

/// Once the chain has run out, it stays run out.
pub proof fn lemma_chain_none_mono(
    table: Seq<(Seq<char>, Seq<char>)>,
    start: Seq<char>,
    m: nat,
    n: nat,
)
    requires
        m <= n,
        chain(table, start, m) is None,
    ensures
        chain(table, start, n) is None,
    decreases n,
{
    if n > m {
        lemma_chain_none_mono(table, start, m, (n - 1) as nat);
    }
}

/// The chain is deterministic, so at most one specifier is resolved to.
pub proof fn lemma_resolves_unique(
    table: Seq<(Seq<char>, Seq<char>)>,
    start: Seq<char>,
    t1: Seq<char>,
    t2: Seq<char>,
)
    requires
        resolves_to(table, start, t1),
        resolves_to(table, start, t2),
    ensures
        t1 == t2,
{
    let n1 = choose|n: nat|
        #[trigger] chain(table, start, n) == Some(t1) && redirect_step(table, t1) is None;
    let n2 = choose|n: nat|
        #[trigger] chain(table, start, n) == Some(t2) && redirect_step(table, t2) is None;
    if n1 < n2 {
        assert(chain(table, start, (n1 + 1) as nat) is None);
        lemma_chain_none_mono(table, start, (n1 + 1) as nat, n2);
    } else if n2 < n1 {
        assert(chain(table, start, (n2 + 1) as nat) is None);
        lemma_chain_none_mono(table, start, (n2 + 1) as nat, n1);
    }
}

/// A chain that lists pairwise distinct specifiers and then runs out
/// cannot have run into a cycle.
pub proof fn lemma_terminal_prefix_acyclic(
    table: Seq<(Seq<char>, Seq<char>)>,
    start: Seq<char>,
    vals: Seq<Seq<char>>,
)
    requires
        forall|k: int| 0 <= k < vals.len() ==> chain(table, start, k as nat) == Some(
            #[trigger] vals[k],
        ),
        vals.no_duplicates(),
        chain(table, start, vals.len() as nat) is None,
    ensures
        !cyclic_from(table, start),
{
    if cyclic_from(table, start) {
        let (i, j) = choose|i: nat, j: nat|
            #![trigger chain(table, start, i), chain(table, start, j)]
            i < j && chain(table, start, i) is Some && chain(table, start, i) == chain(
                table,
                start,
                j,
            );
        if j >= vals.len() {
            lemma_chain_none_mono(table, start, vals.len() as nat, j);
        } else {
            assert(vals[i as int] == vals[j as int]);
        }
    }
}

/// The set of keys of the redirect table.
pub open spec fn redirect_key_set(table: Seq<(Seq<char>, Seq<char>)>) -> Set<Seq<char>> {
    table.map_values(|p: (Seq<char>, Seq<char>)| p.0).to_set()
}

/// Key-set membership coincides with having an entry in the table.
pub proof fn lemma_key_set_contains(table: Seq<(Seq<char>, Seq<char>)>, s: Seq<char>)
    ensures
        redirect_key_set(table).contains(s) <==> is_redirect_key(table, s),
{
    let keys = table.map_values(|p: (Seq<char>, Seq<char>)| p.0);
    if is_redirect_key(table, s) {
        let i = choose|i: int| 0 <= i < table.len() && table[i].0 == s;
        assert(keys[i] == s);
        assert(keys.contains(s));
    }
    if keys.contains(s) {
        let i = choose|i: int| 0 <= i < keys.len() && keys[i] == s;
        assert(table[i].0 == s);
    }
}

/// A chain that has run out passed a specifier with no further redirect.
proof fn lemma_chain_none_resolves(table: Seq<(Seq<char>, Seq<char>)>, start: Seq<char>, n: nat)
    requires
        chain(table, start, n) is None,
    ensures
        exists|t: Seq<char>| resolves_to(table, start, t),
    decreases n,
{
    assert(n != 0);
    if chain(table, start, (n - 1) as nat) is Some {
        let t = chain(table, start, (n - 1) as nat).unwrap();
        assert(chain(table, start, (n - 1) as nat) == Some(t) && redirect_step(table, t) is None);
        assert(resolves_to(table, start, t));
    } else {
        lemma_chain_none_resolves(table, start, (n - 1) as nat);
    }
}

/// From a start that reaches no cycle, the chain resolves: it cannot
/// stay inside the finite key set forever without repeating, so it
/// reaches a specifier with no further redirect.
pub proof fn lemma_acyclic_resolves(table: Seq<(Seq<char>, Seq<char>)>, start: Seq<char>)
    requires
        !cyclic_from(table, start),
    ensures
        resolves_to(table, start, spec_resolved(table, start)),
{
    let kk = redirect_key_set(table).len();
    if exists|n: nat| n <= kk + 1 && #[trigger] chain(table, start, n) is None {
        let n0 = choose|n: nat| n <= kk + 1 && #[trigger] chain(table, start, n) is None;
        lemma_chain_none_resolves(table, start, n0);
    } else {
        let vals = Seq::new((kk + 1) as nat, |k: int| chain(table, start, k as nat).unwrap());
        assert forall|a: int, b: int| 0 <= a < b < vals.len() implies vals[a] != vals[b] by {
            assert(chain(table, start, a as nat) is Some);
            assert(chain(table, start, b as nat) is Some);
            if vals[a] == vals[b] {
                assert(chain(table, start, a as nat) == chain(table, start, b as nat));
                assert(cyclic_from(table, start));
            }
        }
        assert(vals.no_duplicates());
        assert forall|s: Seq<char>| vals.to_set().contains(s) implies redirect_key_set(
            table,
        ).contains(s) by {
            let k = choose|k: int| 0 <= k < vals.len() && vals[k] == s;
            assert(chain(table, start, (k + 1) as nat) is Some);
            assert(chain(table, start, k as nat) is Some);
            assert(chain(table, start, (k + 1) as nat) == redirect_step(table, s));
            lemma_step_some_iff_key(table, s);
            lemma_key_set_contains(table, s);
        }
        vals.unique_seq_to_set();
        seq_to_set_is_finite(table.map_values(|p: (Seq<char>, Seq<char>)| p.0));
        lemma_len_subset(vals.to_set(), redirect_key_set(table));
        assert(false);
    }
}

/// Resolves `initial` through the redirect table: repeatedly follows the
/// entry for the current specifier until none exists, and fails with
/// `CircularRedirect` as soon as a specifier recurs.
///
/// For a table whose redirects reach no cycle from `initial` this always
/// returns `Ok`, and the returned specifier is absent from the table's
/// key set; it fails exactly when the chain from `initial` runs into a
/// cycle.
pub fn follow_redirects(initial: &str, redirects: &RedirectTable) -> (r: Result<
    String,
    GraphError,
>)
    ensures
        r matches Ok(t) ==> resolves_to(redirects@, initial@, t@) && !is_redirect_key(
            redirects@,
            t@,
        ),
        r is Ok <==> !cyclic_from(redirects@, initial@),
        r matches Err(e) ==> e == GraphError::CircularRedirect,
{
    let mut current: String = initial.to_owned();
    let mut seen: Vec<String> = Vec::new();
    proof {
        assert(chain(redirects@, initial@, 0) == Some(initial@));
        seq_to_set_is_finite(redirects@.map_values(|p: (Seq<char>, Seq<char>)| p.0));
    }
    loop
        invariant
            chain(redirects@, initial@, seen@.len() as nat) == Some(current@),
            forall|k: int| 0 <= k < seen@.len() ==> chain(redirects@, initial@, k as nat) == Some(
                #[trigger] string_views(seen@)[k],
            ),
            forall|k: int| 0 <= k < seen@.len() ==> is_redirect_key(
                redirects@,
                #[trigger] string_views(seen@)[k],
            ),
            string_views(seen@).no_duplicates(),
            redirect_key_set(redirects@).finite(),
            seen@.len() <= redirect_key_set(redirects@).len(),
        decreases redirect_key_set(redirects@).len() - seen@.len(),
    {
        let step = redirects.lookup(current.as_str());
        match step {
            None => {
                proof {
                    let ghost vals = string_views(seen@).push(current@);
                    lemma_step_some_iff_key(redirects@, current@);
                    assert forall|k: int| 0 <= k < vals.len() implies chain(
                        redirects@,
                        initial@,
                        k as nat,
                    ) == Some(#[trigger] vals[k]) by {}
                    assert(vals.no_duplicates());
                    assert(chain(redirects@, initial@, vals.len() as nat) is None);
                    lemma_terminal_prefix_acyclic(redirects@, initial@, vals);
                    assert(resolves_to(redirects@, initial@, current@));
                }
                return Ok(current);
            },
            Some(next) => {
                let next_owned = next.clone();
                if contains_string(&seen, current.as_str()) {
                    proof {
                        let k = choose|k: int|
                            0 <= k < string_views(seen@).len() && string_views(seen@)[k]
                                == current@;
                        assert(chain(redirects@, initial@, k as nat) == chain(
                            redirects@,
                            initial@,
                            seen@.len() as nat,
                        ));
                        assert(cyclic_from(redirects@, initial@));
                    }
                    return Err(GraphError::CircularRedirect);
                }
                proof {
                    lemma_step_some_iff_key(redirects@, current@);
                    lemma_key_set_contains(redirects@, current@);
                    let ghost views_new = string_views(seen@).push(current@);
                    assert(views_new.no_duplicates());
                    assert forall|s: Seq<char>| views_new.to_set().contains(s) implies
                        redirect_key_set(redirects@).contains(s) by {
                        let k = choose|k: int|
                            0 <= k < views_new.len() && views_new[k] == s;
                        if k < seen@.len() {
                            lemma_key_set_contains(redirects@, s);
                        }
                    }
                    views_new.unique_seq_to_set();
                    lemma_len_subset(views_new.to_set(), redirect_key_set(redirects@));
                    assert(string_views(seen@.push(current)) =~= views_new);
                }
                seen.push(current);
                current = next_owned;
                proof {
                    assert(chain(redirects@, initial@, seen@.len() as nat) == Some(current@));
                }
            },
        }
    }
}

/// How `r` reads as a model value: the characters of the returned string,
/// or the error unchanged.
pub open spec fn str_result_view(r: Result<String, GraphError>) -> Result<Seq<char>, GraphError> {
    match r {
        Ok(s) => Ok(s@),
        Err(e) => Err(e),
    }
}

/// The model of a full forward lookup: resolve the redirects, then take
/// the local path of the first module carrying the resolved specifier.
pub open spec fn spec_local_path(g: SpecGraph, specifier: Seq<char>) -> Result<
    Seq<char>,
    GraphError,
> {
    if cyclic_from(g.redirects, specifier) {
        Err(GraphError::CircularRedirect)
    } else {
        match spec_local_of(g.modules, spec_resolved(g.redirects, specifier)) {
            Some(p) => Ok(p),
            None => Err(GraphError::NotFound),
        }
    }
}

/// Reverse lookup finds the `i`th module when it is the first one whose
/// local path matches.
pub proof fn lemma_specifier_of_first(modules: Seq<SpecModule>, local: Seq<char>, i: int)
    requires
        0 <= i < modules.len(),
        modules[i].local == Some(local),
        forall|j: int| 0 <= j < i ==> (#[trigger] modules[j]).local != Some(local),
    ensures
        spec_specifier_of(modules, local) == Some(modules[i].specifier),
    decreases i,
{
    if i == 0 {
    } else {
        assert(modules[0].local != Some(local));
        lemma_specifier_of_first(modules.drop_first(), local, i - 1);
        assert(modules.drop_first()[i - 1] == modules[i]);
    }
}

/// Forward lookup finds the `i`th module when it is the first one with
/// this specifier and a present local path.
pub proof fn lemma_local_of_first(
    modules: Seq<SpecModule>,
    specifier: Seq<char>,
    i: int,
)
    requires
        0 <= i < modules.len(),
        modules[i].specifier == specifier,
        modules[i].local is Some,
        forall|j: int| 0 <= j < i ==> !((#[trigger] modules[j]).specifier == specifier
            && modules[j].local is Some),
    ensures
        spec_local_of(modules, specifier) == modules[i].local,
    decreases i,
{
    if i == 0 {
    } else {
        lemma_local_of_first(modules.drop_first(), specifier, i - 1);
        assert(modules.drop_first()[i - 1] == modules[i]);
    }
}

/// A specifier without a redirect entry resolves to itself, through no
/// cycle.
pub proof fn lemma_terminal_resolves(table: Seq<(Seq<char>, Seq<char>)>, s: Seq<char>)
    requires
        redirect_step(table, s) is None,
    ensures
        !cyclic_from(table, s),
        resolves_to(table, s, s),
        spec_resolved(table, s) == s,
{
    assert(chain(table, s, 0) == Some(s));
    assert(resolves_to(table, s, s));
    if cyclic_from(table, s) {
        let (i, j) = choose|i: nat, j: nat|
            #![trigger chain(table, s, i), chain(table, s, j)]
            i < j && chain(table, s, i) is Some && chain(table, s, i) == chain(table, s, j);
        assert(chain(table, s, 1) is None);
        lemma_chain_none_mono(table, s, 1, j);
    }
    lemma_resolves_unique(table, s, spec_resolved(table, s), s);
}

/// Round trip from a materialized local path back to itself: for a
/// module that is the first carrier of its local path, whose specifier
/// has no redirect entry and is not carried with a local path by any
/// earlier module, looking up the specifier of that local path and then
/// the local path of that specifier returns the local path unchanged.
pub proof fn lemma_local_specifier_round_trip(g: SpecGraph, i: int)
    requires
        0 <= i < g.modules.len(),
        g.modules[i].local is Some,
        forall|j: int| 0 <= j < i ==> (#[trigger] g.modules[j]).local != g.modules[i].local,
        redirect_step(g.redirects, g.modules[i].specifier) is None,
        forall|j: int| 0 <= j < i ==> !((#[trigger] g.modules[j]).specifier
            == g.modules[i].specifier && g.modules[j].local is Some),
    ensures
        spec_specifier_of(g.modules, g.modules[i].local.unwrap()) == Some(g.modules[i].specifier),
        spec_local_path(g, g.modules[i].specifier) == Ok::<Seq<char>, GraphError>(
            g.modules[i].local.unwrap(),
        ),
        spec_local_path(g, spec_specifier_of(g.modules, g.modules[i].local.unwrap()).unwrap())
            == Ok::<Seq<char>, GraphError>(g.modules[i].local.unwrap()),
{
    let p = g.modules[i].local.unwrap();
    lemma_specifier_of_first(g.modules, p, i);
    lemma_terminal_resolves(g.redirects, g.modules[i].specifier);
    lemma_local_of_first(g.modules, g.modules[i].specifier, i);
}

impl ModuleGraph {
    /// Resolves a specifier through this graph's redirect table.
    pub fn resolve_redirects(&self, specifier: &str) -> (r: Result<String, GraphError>)
        ensures
            r matches Ok(t) ==> resolves_to(self@.redirects, specifier@, t@) && !is_redirect_key(
                self@.redirects,
                t@,
            ),
            r is Ok <==> !cyclic_from(self@.redirects, specifier@),
            r matches Err(e) ==> e == GraphError::CircularRedirect,
    {
        follow_redirects(specifier, &self.redirects)
    }

    /// Forward lookup: resolves the specifier through the redirects, then
    /// returns the local path of the first module with the resolved
    /// specifier and a present local path.  Fails with `CircularRedirect`
    /// on a redirect cycle and with `NotFound` when no such module exists.
    pub fn local_path_of(&self, specifier: &str) -> (r: Result<String, GraphError>)
        ensures
            str_result_view(r) == spec_local_path(self@, specifier@),
    {
        let resolved = match self.resolve_redirects(specifier) {
            Ok(t) => t,
            Err(e) => {
                return Err(e);
            },
        };
        proof {
            assert(resolves_to(self@.redirects, specifier@, resolved@));
            let t0 = spec_resolved(self@.redirects, specifier@);
            assert(resolves_to(self@.redirects, specifier@, t0));
            lemma_resolves_unique(self@.redirects, specifier@, t0, resolved@);
        }
        match self.local_of_exact(resolved.as_str()) {
            Some(p) => Ok(p),
            None => Err(GraphError::NotFound),
        }
    }
}

} // verus!
