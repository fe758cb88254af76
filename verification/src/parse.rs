//! Parsing the serialized module-graph description into a `ModuleGraph`,
//! and the string-level queries that parse and look up in one step.

use vstd::prelude::*;

use crate::graph::GraphError;
use crate::graph::Module;
use crate::graph::ModuleGraph;
use crate::graph::Redirect;
use crate::graph::RedirectTable;
use crate::graph::SpecGraph;
use crate::graph::SpecModule;
use crate::graph::spec_specifier_of;
use crate::json::JsonValue;
use crate::json::SpecJson;
use crate::json::field_of;
use crate::json::json_doc_of;
use crate::json::json_pair_views;
use crate::json::json_parse;
use crate::json::json_views;
use crate::json::lemma_json_pair_views_index;
use crate::json::lemma_json_pair_views_len;
use crate::json::lemma_json_views_index;
use crate::json::lemma_json_views_len;
use crate::json::spec_field;
use crate::resolve::spec_local_path;
use crate::resolve::str_result_view;

verus! {

/// The module one JSON value describes: an object whose `specifier`
/// field is a string, and whose `local` field, when present and not
/// null, is a string too.
pub open spec fn spec_module_of(item: SpecJson) -> Option<SpecModule> {
    match item {
        SpecJson::Object(pairs) => match spec_field(pairs, "specifier"@) {
            Some(SpecJson::Text(s)) => match spec_field(pairs, "local"@) {
                None => Some(SpecModule { local: None, specifier: s }),
                Some(SpecJson::Null) => Some(SpecModule { local: None, specifier: s }),
                Some(SpecJson::Text(l)) => Some(SpecModule { local: Some(l), specifier: s }),
                Some(_) => None,
            },
            _ => None,
        },
        _ => None,
    }
}

/// The modules a JSON array describes, each item in turn; `None` as soon
/// as one item is no module.
pub open spec fn spec_modules_of(items: Seq<SpecJson>) -> Option<Seq<SpecModule>>
    decreases items.len(),
{
    if items.len() == 0 {
        Some(Seq::empty())
    } else {
        match spec_module_of(items[0]) {
            Some(m) => match spec_modules_of(items.drop_first()) {
                Some(rest) => Some(seq![m] + rest),
                None => None,
            },
            None => None,
        }
    }
}

/// The redirect entries a JSON object describes: each value must be a
/// string.
pub open spec fn spec_redirects_of(pairs: Seq<(Seq<char>, SpecJson)>) -> Option<
    Seq<(Seq<char>, Seq<char>)>,
>
    decreases pairs.len(),
{
    if pairs.len() == 0 {
        Some(Seq::empty())
    } else {
        match pairs[0].1 {
            SpecJson::Text(t) => match spec_redirects_of(pairs.drop_first()) {
                Some(rest) => Some(seq![(pairs[0].0, t)] + rest),
                None => None,
            },
            _ => None,
        }
    }
}

/// The graph a JSON document describes: an object with a `modules` array
/// of module objects and a `redirects` object from specifier to
/// specifier.
pub open spec fn spec_graph_of(doc: SpecJson) -> Option<SpecGraph> {
    match doc {
        SpecJson::Object(root) => match (spec_field(root, "modules"@), spec_field(
            root,
            "redirects"@,
        )) {
            (Some(SpecJson::Array(items)), Some(SpecJson::Object(rpairs))) => match (
                spec_modules_of(items),
                spec_redirects_of(rpairs),
            ) {
                (Some(ms), Some(rs)) => Some(SpecGraph { modules: ms, redirects: rs }),
                _ => None,
            },
            _ => None,
        },
        _ => None,
    }
}

/// The graph the text denotes: its JSON document's graph, or `None` when
/// the text does not parse or does not describe a graph.
pub open spec fn spec_parse_graph(text: Seq<char>) -> Option<SpecGraph> {
    match json_doc_of(text) {
        Some(doc) => spec_graph_of(doc),
        None => None,
    }
}

proof fn lemma_modules_of_pointwise(items: Seq<SpecJson>, ms: Seq<SpecModule>)
    requires
        items.len() == ms.len(),
        forall|k: int| 0 <= k < items.len() ==> spec_module_of(#[trigger] items[k]) == Some(
            ms[k],
        ),
    ensures
        spec_modules_of(items) == Some(ms),
    decreases items.len(),
{
    if items.len() == 0 {
        assert(ms =~= Seq::<SpecModule>::empty());
    } else {
        assert forall|k: int| 0 <= k < items.drop_first().len() implies spec_module_of(
            #[trigger] items.drop_first()[k],
        ) == Some(ms.drop_first()[k]) by {
            assert(items.drop_first()[k] == items[k + 1]);
            assert(ms.drop_first()[k] == ms[k + 1]);
        }
        lemma_modules_of_pointwise(items.drop_first(), ms.drop_first());
        assert(seq![ms[0]] + ms.drop_first() =~= ms);
    }
}

proof fn lemma_modules_of_none(items: Seq<SpecJson>, k: int)
    requires
        0 <= k < items.len(),
        spec_module_of(items[k]) is None,
    ensures
        spec_modules_of(items) is None,
    decreases k,
{
    if spec_module_of(items[0]) is Some {
        lemma_modules_of_none(items.drop_first(), k - 1);
        assert(items.drop_first()[k - 1] == items[k]);
    }
}

proof fn lemma_redirects_of_pointwise(pairs: Seq<(Seq<char>, SpecJson)>, rs: Seq<(Seq<char>, Seq<char>)>)
    requires
        pairs.len() == rs.len(),
        forall|k: int| 0 <= k < pairs.len() ==> (#[trigger] pairs[k]).1 == SpecJson::Text(
            rs[k].1,
        ) && pairs[k].0 == rs[k].0,
    ensures
        spec_redirects_of(pairs) == Some(rs),
    decreases pairs.len(),
{
    if pairs.len() == 0 {
        assert(rs =~= Seq::<(Seq<char>, Seq<char>)>::empty());
    } else {
        assert forall|k: int| 0 <= k < pairs.drop_first().len() implies (#[trigger] pairs.drop_first()[k]).1
            == SpecJson::Text(rs.drop_first()[k].1) && pairs.drop_first()[k].0
            == rs.drop_first()[k].0 by {
            assert(pairs.drop_first()[k] == pairs[k + 1]);
            assert(rs.drop_first()[k] == rs[k + 1]);
        }
        lemma_redirects_of_pointwise(pairs.drop_first(), rs.drop_first());
        assert(rs[0] == (pairs[0].0, rs[0].1));
        assert(seq![rs[0]] + rs.drop_first() =~= rs);
    }
}

proof fn lemma_redirects_of_none(pairs: Seq<(Seq<char>, SpecJson)>, k: int)
    requires
        0 <= k < pairs.len(),
        !(pairs[k].1 is Text),
    ensures
        spec_redirects_of(pairs) is None,
    decreases k,
{
    if pairs[0].1 is Text {
        lemma_redirects_of_none(pairs.drop_first(), k - 1);
        assert(pairs.drop_first()[k - 1] == pairs[k]);
    }
}

/// The module one JSON array item describes, or `MalformedGraph`.
fn parse_module(item: &JsonValue) -> (r: Result<Module, GraphError>)
    ensures
        match r {
            Ok(m) => spec_module_of(item@) == Some(m@),
            Err(e) => e == GraphError::MalformedGraph && spec_module_of(item@) is None,
        },
{
    let pairs = match item {
        JsonValue::Object(ps) => ps,
        _ => {
            return Err(GraphError::MalformedGraph);
        },
    };
    let specifier = match field_of(pairs, "specifier") {
        Some(JsonValue::Text(s)) => s.clone(),
        _ => {
            return Err(GraphError::MalformedGraph);
        },
    };
    let local = match field_of(pairs, "local") {
        None => None,
        Some(JsonValue::Null) => None,
        Some(JsonValue::Text(l)) => Some(l.clone()),
        Some(_) => {
            return Err(GraphError::MalformedGraph);
        },
    };
    Ok(Module { local, specifier })
}

/// Parses the module-graph description.  On a well-formed description it
/// returns exactly the graph the text denotes; any text that is not a
/// JSON document of that shape fails with `MalformedGraph`.
#[verifier::loop_isolation(false)]
pub fn parse_graph(text: &str) -> (r: Result<ModuleGraph, GraphError>)
    ensures
        r matches Ok(g) ==> spec_parse_graph(text@) == Some(g@),
        r is Ok <==> spec_parse_graph(text@) is Some,
        r matches Err(e) ==> e == GraphError::MalformedGraph,
{
    let doc = match json_parse(text) {
        Some(v) => v,
        None => {
            return Err(GraphError::MalformedGraph);
        },
    };
    let root_pairs = match &doc {
        JsonValue::Object(ps) => ps,
        _ => {
            return Err(GraphError::MalformedGraph);
        },
    };
    let ghost rvr = json_pair_views(root_pairs@);
    proof {
        assert(doc@ == SpecJson::Object(rvr));
    }
    let items = match field_of(root_pairs, "modules") {
        Some(JsonValue::Array(items)) => items,
        _ => {
            return Err(GraphError::MalformedGraph);
        },
    };
    let ghost iv = json_views(items@);
    proof {
        lemma_json_views_len(items@);
        assert(spec_field(rvr, "modules"@) == Some(SpecJson::Array(iv)));
    }
    let mut modules: Vec<Module> = Vec::new();
    let n = items.len();
    let mut i: usize = 0;
    proof {
        assert(modules@.map_values(|m: Module| m@) =~= Seq::<SpecModule>::empty());
    }
    while i < n
        invariant
            i <= n,
            n == items@.len(),
            iv == json_views(items@),
            iv.len() == n,
            modules@.len() == i,
            forall|k: int| 0 <= k < i ==> spec_module_of(#[trigger] iv[k]) == Some(
                modules@.map_values(|m: Module| m@)[k],
            ),
        decreases n - i,
    {
        let ghost mview_pre = modules@.map_values(|m: Module| m@);
        proof {
            lemma_json_views_index(items@, i as int);
        }
        match parse_module(&items[i]) {
            Ok(m) => {
                proof {
                    assert(modules@.push(m).map_values(|m: Module| m@) =~= mview_pre.push(m@));
                }
                modules.push(m);
            },
            Err(e) => {
                proof {
                    lemma_modules_of_none(iv, i as int);
                    assert(spec_modules_of(iv) is None);
                    assert(spec_graph_of(doc@) is None);
                }
                return Err(e);
            },
        }
        i += 1;
    }
    proof {
        lemma_modules_of_pointwise(iv, modules@.map_values(|m: Module| m@));
    }
    let rpairs = match field_of(root_pairs, "redirects") {
        Some(JsonValue::Object(ps)) => ps,
        _ => {
            return Err(GraphError::MalformedGraph);
        },
    };
    let ghost rv = json_pair_views(rpairs@);
    proof {
        lemma_json_pair_views_len(rpairs@);
    }
    let mut entries: Vec<Redirect> = Vec::new();
    let m = rpairs.len();
    let mut j: usize = 0;
    proof {
        assert(entries@.map_values(|e: Redirect| e@) =~= Seq::<(Seq<char>, Seq<char>)>::empty());
    }
    while j < m
        invariant
            j <= m,
            m == rpairs@.len(),
            rv == json_pair_views(rpairs@),
            rv.len() == m,
            entries@.len() == j,
            forall|k: int| 0 <= k < j ==> (#[trigger] rv[k]).1 == SpecJson::Text(
                entries@.map_values(|e: Redirect| e@)[k].1,
            ) && rv[k].0 == entries@.map_values(|e: Redirect| e@)[k].0,
        decreases m - j,
    {
        let ghost eview_pre = entries@.map_values(|e: Redirect| e@);
        proof {
            lemma_json_pair_views_index(rpairs@, j as int);
        }
        let to = match &rpairs[j].1 {
            JsonValue::Text(t) => t.clone(),
            _ => {
                proof {
                    lemma_redirects_of_none(rv, j as int);
                }
                return Err(GraphError::MalformedGraph);
            },
        };
        let entry = Redirect { from: rpairs[j].0.clone(), to };
        proof {
            assert(entries@.push(entry).map_values(|e: Redirect| e@) =~= eview_pre.push(entry@));
        }
        entries.push(entry);
        j += 1;
    }
    proof {
        lemma_redirects_of_pointwise(rv, entries@.map_values(|e: Redirect| e@));
    }
    let graph = ModuleGraph { modules, redirects: RedirectTable::from_entries(entries) };
    proof {
        assert(spec_graph_of(doc@) == Some(graph@));
    }
    Ok(graph)
}

/// Reverse lookup straight from the serialized description: the
/// specifier of the first module whose local path is `local`.  A text
/// that denotes no graph fails with `MalformedGraph`; a local path no
/// module of the denoted graph carries fails with `NotFound`.
pub fn from_local_to_specifier(info_result: &str, local: &str) -> (r: Result<String, GraphError>)
    ensures
        spec_parse_graph(info_result@) is None ==> r == Err::<String, GraphError>(
            GraphError::MalformedGraph,
        ),
        spec_parse_graph(info_result@) matches Some(g) ==> str_result_view(r) == (
        match spec_specifier_of(g.modules, local@) {
            Some(s) => Ok(s),
            None => Err(GraphError::NotFound),
        }),
{
    let graph = match parse_graph(info_result) {
        Ok(g) => g,
        Err(e) => {
            return Err(e);
        },
    };
    graph.specifier_of(local)
}

/// Forward lookup straight from the serialized description: parses it,
/// resolves the specifier through the redirects and returns the local
/// path of the first module with the resolved specifier and a present
/// local path.  A text that denotes no graph fails with
/// `MalformedGraph`; otherwise the answer is `spec_local_path` of the
/// denoted graph.
pub fn get_local_path(info_result: &str, specifier: &str) -> (r: Result<String, GraphError>)
    ensures
        spec_parse_graph(info_result@) is None ==> r == Err::<String, GraphError>(
            GraphError::MalformedGraph,
        ),
        spec_parse_graph(info_result@) matches Some(g) ==> str_result_view(r) == spec_local_path(
            g,
            specifier@,
        ),
{
    let graph = match parse_graph(info_result) {
        Ok(g) => g,
        Err(e) => {
            return Err(e);
        },
    };
    graph.local_path_of(specifier)
}

} // verus!
