//! The module graph: modules with their specifiers and optional local
//! paths, plus a table of specifier redirects.

use vstd::prelude::*;

use crate::strutil::str_eq;

verus! {

/// How a graph query or an import rewrite fails.
#[derive(Clone, Copy, PartialEq, Eq, Structural, Debug)]
pub enum GraphError {
    /// The module-graph description does not parse.
    MalformedGraph,
    /// A local path or specifier is absent from the graph.
    NotFound,
    /// A redirect chain revisits a specifier.
    CircularRedirect,
    /// A base specifier and relative reference do not join into a URL.
    InvalidUrl,
}

/// One module known to the graph: its specifier, and its local path when
/// the module is materialized on disk.
pub struct Module {
    pub local: Option<String>,
    pub specifier: String,
}

/// Mathematical model of one module entry.
pub ghost struct SpecModule {
    pub local: Option<Seq<char>>,
    pub specifier: Seq<char>,
}

impl View for Module {
    type V = SpecModule;

    open spec fn view(&self) -> SpecModule {
        SpecModule {
            local: match self.local {
                Some(p) => Some(p@),
                None => None,
            },
            specifier: self.specifier@,
        }
    }
}

/// One redirect: the specifier `from` stands for the specifier `to`.
pub struct Redirect {
    pub from: String,
    pub to: String,
}

impl View for Redirect {
    type V = (Seq<char>, Seq<char>);

    open spec fn view(&self) -> (Seq<char>, Seq<char>) {
        (self.from@, self.to@)
    }
}

/// A mapping from specifier to specifier.  Lookup takes the first entry
/// with the given key; insertion removes every entry with that key first,
/// so a table built through `new` and `insert` holds each key once.
pub struct RedirectTable {
    entries: Vec<Redirect>,
}

impl View for RedirectTable {
    type V = Seq<(Seq<char>, Seq<char>)>;

    closed spec fn view(&self) -> Seq<(Seq<char>, Seq<char>)> {
        self.entries@.map_values(|r: Redirect| r@)
    }
}

/// The value the first entry of `table` with key `s` maps to, if any.
pub open spec fn redirect_step(table: Seq<(Seq<char>, Seq<char>)>, s: Seq<char>) -> Option<
    Seq<char>,
>
    decreases table.len(),
{
    if table.len() == 0 {
        None
    } else if table[0].0 == s {
        Some(table[0].1)
    } else {
        redirect_step(table.drop_first(), s)
    }
}

/// Whether `s` is the key of some entry of `table`.
pub open spec fn is_redirect_key(table: Seq<(Seq<char>, Seq<char>)>, s: Seq<char>) -> bool {
    exists|i: int| 0 <= i < table.len() && table[i].0 == s
}

/// A redirect table has an entry for `s` exactly when `s` is one of its keys.
pub proof fn lemma_step_some_iff_key(table: Seq<(Seq<char>, Seq<char>)>, s: Seq<char>)
    ensures
        redirect_step(table, s) is Some <==> is_redirect_key(table, s),
    decreases table.len(),
{
    if table.len() == 0 {
    } else if table[0].0 == s {
        assert(is_redirect_key(table, s));
    } else {
        lemma_step_some_iff_key(table.drop_first(), s);
        if is_redirect_key(table, s) {
            let i = choose|i: int| 0 <= i < table.len() && table[i].0 == s;
            assert(table.drop_first()[i - 1].0 == s);
            assert(is_redirect_key(table.drop_first(), s));
        }
        if is_redirect_key(table.drop_first(), s) {
            let i = choose|i: int| 0 <= i < table.drop_first().len() && table.drop_first()[i].0
                == s;
            assert(table[i + 1].0 == s);
        }
    }
}

impl RedirectTable {
    /// An empty table.
    pub fn new() -> (r: RedirectTable)
        ensures
            r@ == Seq::<(Seq<char>, Seq<char>)>::empty(),
    {
        let r = RedirectTable { entries: Vec::new() };
        proof {
            assert(r@ =~= Seq::<(Seq<char>, Seq<char>)>::empty());
        }
        r
    }

    /// A table holding exactly these entries, in order.  Intended for the
    /// entries of a JSON object, which holds each key once.
    pub(crate) fn from_entries(entries: Vec<Redirect>) -> (r: RedirectTable)
        ensures
            r@ == entries@.map_values(|e: Redirect| e@),
    {
        RedirectTable { entries }
    }

    /// The value `s` redirects to, if the table has an entry for it.
    pub fn lookup(&self, s: &str) -> (r: Option<&String>)
        ensures
            match r {
                Some(t) => redirect_step(self@, s@) == Some(t@),
                None => redirect_step(self@, s@) is None,
            },
    {
        let n = self.entries.len();
        let mut i: usize = 0;
        proof {
            assert(self@.skip(0) =~= self@);
        }
        while i < n
            invariant
                i <= n,
                n == self.entries.len(),
                redirect_step(self@, s@) == redirect_step(self@.skip(i as int), s@),
            decreases n - i,
        {
            proof {
                assert(self@[i as int] == self.entries@[i as int]@);
                assert(self@.skip(i as int)[0] == self@[i as int]);
            }
            if str_eq(self.entries[i].from.as_str(), s) {
                return Some(&self.entries[i].to);
            }
            proof {
                assert(self@.skip(i as int).drop_first() =~= self@.skip(i + 1));
            }
            i += 1;
        }
        proof {
            assert(self@.skip(n as int) =~= Seq::<(Seq<char>, Seq<char>)>::empty());
        }
        None
    }

    /// Maps `from` to `to`, dropping any earlier mapping of `from`; every
    /// other key keeps its value.
    pub fn insert(&mut self, from: String, to: String)
        ensures
            redirect_step(final(self)@, from@) == Some(to@),
            forall|k: Seq<char>| k != from@ ==> #[trigger] redirect_step(final(self)@, k)
                == redirect_step(old(self)@, k),
    {
        let ghost orig = self@;
        let n = self.entries.len();
        let mut kept: Vec<Redirect> = Vec::new();
        let mut i: usize = 0;
        proof {
            assert(kept@.map_values(|r: Redirect| r@) =~= Seq::<(Seq<char>, Seq<char>)>::empty());
            assert(orig.take(0) =~= Seq::<(Seq<char>, Seq<char>)>::empty());
        }
        while i < n
            invariant
                i <= n,
                n == self.entries.len(),
                orig == self@,
                forall|j: int| 0 <= j < kept@.len() ==> (#[trigger] kept@[j]@).0 != from@,
                forall|k: Seq<char>| k != from@ ==> redirect_step(
                    kept@.map_values(|r: Redirect| r@),
                    k,
                ) == #[trigger] redirect_step(orig.take(i as int), k),
            decreases n - i,
        {
            let ghost kept_pre = kept@.map_values(|r: Redirect| r@);
            proof {
                assert(orig[i as int] == self.entries@[i as int]@);
            }
            let entry = Redirect {
                from: self.entries[i].from.clone(),
                to: self.entries[i].to.clone(),
            };
            proof {
                assert(entry@ == orig[i as int]);
            }
            if !str_eq(entry.from.as_str(), from.as_str()) {
                kept.push(entry);
                proof {
                    assert(kept@.map_values(|r: Redirect| r@) =~= kept_pre.push(orig[i as int]));
                }
            }
            proof {
                assert(orig.take(i + 1) =~= orig.take(i as int).push(orig[i as int]));
                assert forall|k: Seq<char>| k != from@ implies redirect_step(
                    kept@.map_values(|r: Redirect| r@),
                    k,
                ) == #[trigger] redirect_step(orig.take(i + 1), k) by {
                    lemma_step_push(orig.take(i as int), orig[i as int], k);
                    if orig[i as int].0 != from@ {
                        lemma_step_push(kept_pre, orig[i as int], k);
                    }
                }
            }
            i += 1;
        }
        proof {
            assert(orig.take(n as int) =~= orig);
        }
        let ghost kept_view = kept@.map_values(|r: Redirect| r@);
        kept.push(Redirect { from, to });
        self.entries = kept;
        proof {
            assert(self@ =~= kept_view.push((from@, to@)));
            assert forall|k: Seq<char>| true implies #[trigger] redirect_step(self@, k) == (
            if redirect_step(kept_view, k) is Some {
                redirect_step(kept_view, k)
            } else if k == from@ {
                Some(to@)
            } else {
                None
            }) by {
                lemma_step_push(kept_view, (from@, to@), k);
            }
            lemma_step_some_iff_key(kept_view, from@);
        }
    }
}

/// Appending an entry leaves every present key's value alone and serves
/// the appended key only when it was absent.
proof fn lemma_step_push(
    table: Seq<(Seq<char>, Seq<char>)>,
    entry: (Seq<char>, Seq<char>),
    s: Seq<char>,
)
    ensures
        redirect_step(table.push(entry), s) == (if redirect_step(table, s) is Some {
            redirect_step(table, s)
        } else if entry.0 == s {
            Some(entry.1)
        } else {
            None
        }),
    decreases table.len(),
{
    if table.len() == 0 {
        assert(table.push(entry)[0] == entry);
        assert(table.push(entry).drop_first() =~= Seq::<(Seq<char>, Seq<char>)>::empty());
    } else {
        assert(table.push(entry)[0] == table[0]);
        assert(table.push(entry).drop_first() =~= table.drop_first().push(entry));
        lemma_step_push(table.drop_first(), entry, s);
    }
}

/// The whole graph: the known modules in order, and the redirect table.
pub struct ModuleGraph {
    pub modules: Vec<Module>,
    pub redirects: RedirectTable,
}

/// Mathematical model of the whole graph.
pub ghost struct SpecGraph {
    pub modules: Seq<SpecModule>,
    pub redirects: Seq<(Seq<char>, Seq<char>)>,
}

impl View for ModuleGraph {
    type V = SpecGraph;

    open spec fn view(&self) -> SpecGraph {
        SpecGraph {
            modules: self.modules@.map_values(|m: Module| m@),
            redirects: self.redirects@,
        }
    }
}

/// The specifier of the first module whose local path is `local`.
pub open spec fn spec_specifier_of(modules: Seq<SpecModule>, local: Seq<char>) -> Option<Seq<char>>
    decreases modules.len(),
{
    if modules.len() == 0 {
        None
    } else if modules[0].local == Some(local) {
        Some(modules[0].specifier)
    } else {
        spec_specifier_of(modules.drop_first(), local)
    }
}

/// The local path of the first module with specifier `specifier` and a
/// present local path.
pub open spec fn spec_local_of(modules: Seq<SpecModule>, specifier: Seq<char>) -> Option<Seq<char>>
    decreases modules.len(),
{
    if modules.len() == 0 {
        None
    } else if modules[0].specifier == specifier && modules[0].local is Some {
        modules[0].local
    } else {
        spec_local_of(modules.drop_first(), specifier)
    }
}

impl ModuleGraph {
    /// Reverse lookup: the specifier that produced the local path `local`.
    /// Fails with `NotFound` when no module's local path equals it.
    pub fn specifier_of(&self, local: &str) -> (r: Result<String, GraphError>)
        ensures
            match r {
                Ok(s) => spec_specifier_of(self@.modules, local@) == Some(s@),
                Err(e) => e == GraphError::NotFound && spec_specifier_of(self@.modules, local@)
                    is None,
            },
    {
        let n = self.modules.len();
        let mut i: usize = 0;
        proof {
            assert(self@.modules.skip(0) =~= self@.modules);
        }
        while i < n
            invariant
                i <= n,
                n == self.modules.len(),
                spec_specifier_of(self@.modules, local@) == spec_specifier_of(
                    self@.modules.skip(i as int),
                    local@,
                ),
            decreases n - i,
        {
            proof {
                assert(self@.modules[i as int] == self.modules@[i as int]@);
                assert(self@.modules.skip(i as int)[0] == self@.modules[i as int]);
            }
            let matches_local = match &self.modules[i].local {
                Some(p) => str_eq(p.as_str(), local),
                None => false,
            };
            if matches_local {
                return Ok(self.modules[i].specifier.clone());
            }
            proof {
                assert(self@.modules.skip(i as int).drop_first() =~= self@.modules.skip(i + 1));
            }
            i += 1;
        }
        proof {
            assert(self@.modules.skip(n as int) =~= Seq::<SpecModule>::empty());
        }
        Err(GraphError::NotFound)
    }

    /// Forward lookup without redirect resolution: the local path of the
    /// first module with this exact specifier and a present local path.
    pub fn local_of_exact(&self, specifier: &str) -> (r: Option<String>)
        ensures
            match r {
                Some(p) => spec_local_of(self@.modules, specifier@) == Some(p@),
                None => spec_local_of(self@.modules, specifier@) is None,
            },
    {
        let n = self.modules.len();
        let mut i: usize = 0;
        proof {
            assert(self@.modules.skip(0) =~= self@.modules);
        }
        while i < n
            invariant
                i <= n,
                n == self.modules.len(),
                spec_local_of(self@.modules, specifier@) == spec_local_of(
                    self@.modules.skip(i as int),
                    specifier@,
                ),
            decreases n - i,
        {
            proof {
                assert(self@.modules[i as int] == self.modules@[i as int]@);
                assert(self@.modules.skip(i as int)[0] == self@.modules[i as int]);
            }
            if str_eq(self.modules[i].specifier.as_str(), specifier) {
                match &self.modules[i].local {
                    Some(p) => {
                        return Some(p.clone());
                    },
                    None => {},
                }
            }
            proof {
                assert(self@.modules.skip(i as int).drop_first() =~= self@.modules.skip(i + 1));
            }
            i += 1;
        }
        proof {
            assert(self@.modules.skip(n as int) =~= Seq::<SpecModule>::empty());
        }
        None
    }
}

} // verus!
