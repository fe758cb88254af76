//! Per-import rewriting: classify an import's source string and compute
//! the replacement, if any, from the module graph.

use vstd::prelude::*;
use vstd::string::StrSliceExecFns;
use vstd::string::StringExecFns;

use crate::graph::GraphError;
use crate::graph::ModuleGraph;
use crate::graph::SpecGraph;
use crate::graph::spec_specifier_of;
use crate::resolve::spec_local_path;

verus! {

/// A relative reference: the source string begins with `.`.
pub open spec fn is_relative_import(s: Seq<char>) -> bool {
    s.len() >= 1 && s[0] == '.'
}

/// A package-registry specifier: the source string begins with one of
/// the recognized registry scheme prefixes, `jsr:` or `pkg:`.
pub open spec fn is_registry_import(s: Seq<char>) -> bool {
    (s.len() >= 4 && s[0] == 'j' && s[1] == 's' && s[2] == 'r' && s[3] == ':') || (s.len() >= 4
        && s[0] == 'p' && s[1] == 'k' && s[2] == 'g' && s[3] == ':')
}

/// A remote reference: the source string begins with `http://` or
/// `https://`.
pub open spec fn is_remote_import(s: Seq<char>) -> bool {
    (s.len() >= 7 && s[0] == 'h' && s[1] == 't' && s[2] == 't' && s[3] == 'p' && s[4] == ':' && s[5]
        == '/' && s[6] == '/') || (s.len() >= 8 && s[0] == 'h' && s[1] == 't' && s[2] == 't' && s[3]
        == 'p' && s[4] == 's' && s[5] == ':' && s[6] == '/' && s[7] == '/')
}

fn check_relative(src: &str) -> (r: bool)
    ensures
        r == is_relative_import(src@),
{
    src.unicode_len() >= 1 && src.get_char(0) == '.'
}

fn check_registry(src: &str) -> (r: bool)
    ensures
        r == is_registry_import(src@),
{
    let n = src.unicode_len();
    (n >= 4 && src.get_char(0) == 'j' && src.get_char(1) == 's' && src.get_char(2) == 'r'
        && src.get_char(3) == ':') || (n >= 4 && src.get_char(0) == 'p' && src.get_char(1) == 'k'
        && src.get_char(2) == 'g' && src.get_char(3) == ':')
}

fn check_remote(src: &str) -> (r: bool)
    ensures
        r == is_remote_import(src@),
{
    let n = src.unicode_len();
    (n >= 7 && src.get_char(0) == 'h' && src.get_char(1) == 't' && src.get_char(2) == 't'
        && src.get_char(3) == 'p' && src.get_char(4) == ':' && src.get_char(5) == '/'
        && src.get_char(6) == '/') || (n >= 8 && src.get_char(0) == 'h' && src.get_char(1) == 't'
        && src.get_char(2) == 't' && src.get_char(3) == 'p' && src.get_char(4) == 's'
        && src.get_char(5) == ':' && src.get_char(6) == '/' && src.get_char(7) == '/')
}

/// `s` with every occurrence of `://` replaced by `_`, scanning left to
/// right without overlap.
pub open spec fn escape_scheme(s: Seq<char>) -> Seq<char>
    decreases s.len(),
{
    if s.len() >= 3 && s[0] == ':' && s[1] == '/' && s[2] == '/' {
        seq!['_'] + escape_scheme(s.skip(3))
    } else if s.len() == 0 {
        s
    } else {
        seq![s[0]] + escape_scheme(s.skip(1))
    }
}

/// The deterministic local-looking target of a remote reference: the
/// fixed directory marker `./resolved/` followed by the reference with
/// each `://` escaped to `_`.
pub open spec fn spec_remote_target(src: Seq<char>) -> Seq<char> {
    "./resolved/"@ + escape_scheme(src)
}

/// Rewrites a remote URL reference to its synthetic local-looking path.
/// A pure function of the input string alone; it never fails and never
/// consults the module graph.
pub fn rewrite_remote(src: &str) -> (r: String)
    ensures
        r@ == spec_remote_target(src@),
{
    let n = src.unicode_len();
    let mut out: String = "./resolved/".to_owned();
    let mut i: usize = 0;
    proof {
        assert(src@.skip(0) =~= src@);
    }
    while i < n
        invariant
            i <= n,
            n == src@.len(),
            out@ + escape_scheme(src@.skip(i as int)) == spec_remote_target(src@),
        decreases n - i,
    {
        let ghost pre = out@;
        let ghost rest = src@.skip(i as int);
        proof {
            assert(rest.len() == n - i);
            assert forall|k: int| 0 <= k < rest.len() implies #[trigger] rest[k] == src@[i + k] by {}
        }
        if n - i > 2 && src.get_char(i) == ':' && src.get_char(i + 1) == '/' && src.get_char(i + 2)
            == '/' {
            out.append("_");
            proof {
                reveal_strlit("_");
                assert("_"@ =~= seq!['_']);
                assert(rest.skip(3) =~= src@.skip(i + 3));
                assert(escape_scheme(rest) == seq!['_'] + escape_scheme(src@.skip(i + 3)));
                assert(out@ + escape_scheme(src@.skip(i + 3)) =~= pre + escape_scheme(rest));
            }
            i += 3;
        } else {
            let piece = src.substring_char(i, i + 1);
            out.append(piece);
            proof {
                assert(piece@ =~= seq![src@[i as int]]);
                assert(rest.skip(1) =~= src@.skip(i + 1));
                assert(escape_scheme(rest) == seq![rest[0]] + escape_scheme(src@.skip(i + 1)));
                assert(out@ + escape_scheme(src@.skip(i + 1)) =~= pre + escape_scheme(rest));
            }
            i += 1;
        }
    }
    proof {
        assert(src@.skip(n as int) =~= Seq::<char>::empty());
        assert(out@ + escape_scheme(src@.skip(n as int)) =~= out@);
    }
    out
}

/// The string the base specifier and the relative reference join to
/// under base/relative URL resolution, with only the path component kept
/// for a `file`-scheme result; `None` when they do not join into a URL.
pub uninterp spec fn url_join(base: Seq<char>, reference: Seq<char>) -> Option<Seq<char>>;

/// Relies on `url::Url::parse` and `url::Url::join` for base/relative URL
/// resolution, and on `url::Url::scheme`, `url::Url::path` and
/// `url::Url::as_str` to read the joined result; the outcome is a
/// function of the two strings alone.  A `file`-scheme result keeps only
/// its path component; any other keeps its full serialization.
#[verifier::external_body]
fn join_against_base(base: &str, reference: &str) -> (r: Option<String>)
    ensures
        r is Some <==> url_join(base@, reference@) is Some,
        r matches Some(s) ==> url_join(base@, reference@) == Some(s@),
{
    let base_url = match url::Url::parse(base) {
        Ok(u) => u,
        Err(_) => return None,
    };
    let joined = match base_url.join(reference) {
        Ok(u) => u,
        Err(_) => return None,
    };
    if joined.scheme() == "file" {
        Some(joined.path().to_string())
    } else {
        Some(joined.as_str().to_string())
    }
}

/// What happens to one import's source string.
#[derive(Debug, PartialEq, Eq)]
pub enum Rewrite {
    /// The source string is replaced by this value.
    Rewritten(String),
    /// The source string is not a recognized reference; it stays as it is.
    Unchanged,
    /// A relative reference in a file that is not part of the graph: the
    /// source string stays as it is, and the caller may emit a diagnostic.
    SkippedOutsideGraph,
}

/// Mathematical model of a rewrite outcome.
pub ghost enum SpecRewrite {
    Rewritten(Seq<char>),
    Unchanged,
    SkippedOutsideGraph,
}

impl View for Rewrite {
    type V = SpecRewrite;

    open spec fn view(&self) -> SpecRewrite {
        match self {
            Rewrite::Rewritten(p) => SpecRewrite::Rewritten(p@),
            Rewrite::Unchanged => SpecRewrite::Unchanged,
            Rewrite::SkippedOutsideGraph => SpecRewrite::SkippedOutsideGraph,
        }
    }
}

/// How a rewrite result reads as a model value.
pub open spec fn rewrite_result_view(r: Result<Rewrite, GraphError>) -> Result<
    SpecRewrite,
    GraphError,
> {
    match r {
        Ok(w) => Ok(w@),
        Err(e) => Err(e),
    }
}

/// The model of rewriting one import inside the file `file`: the four
/// rules in priority order.
///
/// A relative reference is joined against the file's own specifier and
/// the joined output looked up, where a file outside the graph is
/// skipped rather than failed; a registry specifier is looked up
/// directly; a remote reference is escaped to its fixed local-looking
/// target with no graph involved; anything else stays as it is.
pub open spec fn spec_rewrite_import(g: SpecGraph, file: Seq<char>, src: Seq<char>) -> Result<
    SpecRewrite,
    GraphError,
> {
    if is_relative_import(src) {
        match spec_specifier_of(g.modules, file) {
            None => Ok(SpecRewrite::SkippedOutsideGraph),
            Some(base) => match url_join(base, src) {
                None => Err(GraphError::InvalidUrl),
                Some(joined) => match spec_local_path(g, joined) {
                    Ok(p) => Ok(SpecRewrite::Rewritten(p)),
                    Err(e) => Err(e),
                },
            },
        }
    } else if is_registry_import(src) {
        match spec_local_path(g, src) {
            Ok(p) => Ok(SpecRewrite::Rewritten(p)),
            Err(e) => Err(e),
        }
    } else if is_remote_import(src) {
        Ok(SpecRewrite::Rewritten(spec_remote_target(src)))
    } else {
        Ok(SpecRewrite::Unchanged)
    }
}

/// Rewrites one import source string of the file at `file_path` against
/// the graph, by the first matching rule.
pub fn rewrite_import(graph: &ModuleGraph, file_path: &str, src: &str) -> (r: Result<
    Rewrite,
    GraphError,
>)
    ensures
        rewrite_result_view(r) == spec_rewrite_import(graph@, file_path@, src@),
{
    if check_relative(src) {
        match graph.specifier_of(file_path) {
            Err(_) => Ok(Rewrite::SkippedOutsideGraph),
            Ok(base) => match join_against_base(base.as_str(), src) {
                None => Err(GraphError::InvalidUrl),
                Some(joined) => match graph.local_path_of(joined.as_str()) {
                    Ok(p) => Ok(Rewrite::Rewritten(p)),
                    Err(e) => Err(e),
                },
            },
        }
    } else if check_registry(src) {
        match graph.local_path_of(src) {
            Ok(p) => Ok(Rewrite::Rewritten(p)),
            Err(e) => Err(e),
        }
    } else if check_remote(src) {
        Ok(Rewrite::Rewritten(rewrite_remote(src)))
    } else {
        Ok(Rewrite::Unchanged)
    }
}

/// The source string of one import after the rewrite: the replacement
/// when a rule rewrote it, and the original string when it was left
/// alone.  Meaningful when the rewrite did not fail.
pub open spec fn spec_rewritten_source(g: SpecGraph, file: Seq<char>, src: Seq<char>) -> Seq<
    char,
> {
    match spec_rewrite_import(g, file, src) {
        Ok(SpecRewrite::Rewritten(p)) => p,
        _ => src,
    }
}

/// Rewrites every import source string of one file, in order, failing
/// fast on the first fatal error.
pub fn rewrite_all(graph: &ModuleGraph, file_path: &str, sources: &Vec<String>) -> (r: Result<
    Vec<String>,
    GraphError,
>)
    ensures
        r matches Ok(out) ==> out@.len() == sources@.len() && forall|i: int|
            0 <= i < sources@.len() ==> #[trigger] out@[i]@ == spec_rewritten_source(
                graph@,
                file_path@,
                sources@[i]@,
            ),
        r matches Ok(out) ==> forall|i: int|
            0 <= i < sources@.len() ==> #[trigger] spec_rewrite_import(
                graph@,
                file_path@,
                sources@[i]@,
            ) is Ok,
        r matches Err(e) ==> exists|i: int|
            0 <= i < sources@.len() && #[trigger] spec_rewrite_import(
                graph@,
                file_path@,
                sources@[i]@,
            ) == Err::<SpecRewrite, GraphError>(e) && (forall|k: int|
                0 <= k < i ==> #[trigger] spec_rewrite_import(
                    graph@,
                    file_path@,
                    sources@[k]@,
                ) is Ok),
{
    let n = sources.len();
    let mut out: Vec<String> = Vec::new();
    let mut i: usize = 0;
    while i < n
        invariant
            i <= n,
            n == sources@.len(),
            out@.len() == i,
            forall|k: int| 0 <= k < i ==> #[trigger] out@[k]@ == spec_rewritten_source(
                graph@,
                file_path@,
                sources@[k]@,
            ),
            forall|k: int| 0 <= k < i ==> #[trigger] spec_rewrite_import(
                graph@,
                file_path@,
                sources@[k]@,
            ) is Ok,
        decreases n - i,
    {
        match rewrite_import(graph, file_path, sources[i].as_str()) {
            Ok(Rewrite::Rewritten(p)) => {
                out.push(p);
            },
            Ok(_) => {
                out.push(sources[i].clone());
            },
            Err(e) => {
                return Err(e);
            },
        }
        i += 1;
    }
    Ok(out)
}

/// Rewriting a remote reference is a pure function of the source string
/// alone: any two graphs and importing files give the same outcome, and
/// that outcome never fails.
pub proof fn lemma_remote_rewrite_graph_independent(
    g1: SpecGraph,
    g2: SpecGraph,
    file1: Seq<char>,
    file2: Seq<char>,
    src: Seq<char>,
)
    requires
        is_remote_import(src),
    ensures
        spec_rewrite_import(g1, file1, src) == Ok::<SpecRewrite, GraphError>(
            SpecRewrite::Rewritten(spec_remote_target(src)),
        ),
        spec_rewrite_import(g1, file1, src) == spec_rewrite_import(g2, file2, src),
{
    assert(!is_relative_import(src));
    assert(!is_registry_import(src));
}

} // verus!
