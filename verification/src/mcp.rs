//! The decisions of the MCP (Model Context Protocol) server: which
//! JSON-RPC requests get an answer and which handler serves them, how the
//! tool arguments select a diff mode, and the diff summary. Reading and
//! writing JSON lines is left to the caller.

use vstd::prelude::*;
use vstd::string::*;

use crate::text::str_eq;
use crate::types::{status_marker, DiffMode, EntrySpec, FileEntry, ModeSpec};
use crate::git::entries_view;

verus! {

/// A JSON-RPC error: code and message.
#[derive(Debug, Clone, PartialEq, Eq)]
pub struct RpcError {
    pub code: i64,
    pub message: String,
}

/// The handler a JSON-RPC request goes to.
#[derive(Debug, Clone, PartialEq, Eq)]
pub enum Route {
    Initialize,
    Ping,
    ToolsList,
    ToolsCall,
    /// An unknown method: answered with this error.
    NotFound(RpcError),
}

/// Mathematical model of a [`Route`] (the error as code and message).
pub enum RouteSpec {
    Initialize,
    Ping,
    ToolsList,
    ToolsCall,
    NotFound(i64, Seq<char>),
}

/// How a request is answered: a request without an "id" is a notification
/// and gets no answer; otherwise the method picks the handler ("" when the
/// method is missing), and an unknown method is error -32601.
pub open spec fn route_spec(method: Option<Seq<char>>, has_id: bool) -> Option<RouteSpec> {
    if !has_id {
        None
    } else {
        let m = match method {
            Some(m) => m,
            None => ""@,
        };
        Some(
            if m == "initialize"@ {
                RouteSpec::Initialize
            } else if m == "ping"@ {
                RouteSpec::Ping
            } else if m == "tools/list"@ {
                RouteSpec::ToolsList
            } else if m == "tools/call"@ {
                RouteSpec::ToolsCall
            } else {
                RouteSpec::NotFound(-32601i64, "method not found: "@ + m)
            },
        )
    }
}

/// The model of a route.
pub open spec fn route_view(r: Route) -> RouteSpec {
    match r {
        Route::Initialize => RouteSpec::Initialize,
        Route::Ping => RouteSpec::Ping,
        Route::ToolsList => RouteSpec::ToolsList,
        Route::ToolsCall => RouteSpec::ToolsCall,
        Route::NotFound(e) => RouteSpec::NotFound(e.code, e.message@),
    }
}

/// Where a JSON-RPC request goes: `None` for a notification (no "id").
pub fn route(method: Option<&str>, has_id: bool) -> (r: Option<Route>)
    ensures
        route_spec(
            match method {
                Some(m) => Some(m@),
                None => None,
            },
            has_id,
        ) == match r {
            Some(x) => Some(route_view(x)),
            None => None,
        },
{
    if !has_id {
        return None;
    }
    let m = match method {
        Some(m) => m,
        None => "",
    };
    Some(
        if str_eq(m, "initialize") {
            Route::Initialize
        } else if str_eq(m, "ping") {
            Route::Ping
        } else if str_eq(m, "tools/list") {
            Route::ToolsList
        } else if str_eq(m, "tools/call") {
            Route::ToolsCall
        } else {
            Route::NotFound(
                RpcError { code: -32601, message: String::from_str("method not found: ").concat(m) },
            )
        },
    )
}

/// The protocol version to answer `initialize` with: the client's, or
/// "2024-11-05" when it gives none.
pub fn protocol_version(requested: Option<&str>) -> (r: String)
    ensures
        r@ == match requested {
            Some(v) => v@,
            None => "2024-11-05"@,
        },
{
    match requested {
        Some(v) => v.to_owned(),
        None => String::from_str("2024-11-05"),
    }
}

/// The tools the server offers.
#[derive(Debug, Clone, Copy, PartialEq, Eq, Structural)]
pub enum Tool {
    ListChangedFiles,
    GetFileDiff,
    DiffSummary,
}

/// The tool a `tools/call` names: error -32602 when the name is missing or
/// unknown.
pub fn tool_route(name: Option<&str>) -> (r: Result<Tool, RpcError>)
    ensures
        match name {
            None => r matches Err(e) && e.code == -32602 && e.message@ == "missing required param: name"@,
            Some(n) => if n@ == "list_changed_files"@ {
                r == Ok::<Tool, RpcError>(Tool::ListChangedFiles)
            } else if n@ == "get_file_diff"@ {
                r == Ok::<Tool, RpcError>(Tool::GetFileDiff)
            } else if n@ == "diff_summary"@ {
                r == Ok::<Tool, RpcError>(Tool::DiffSummary)
            } else {
                r matches Err(e) && e.code == -32602 && e.message@ == "unknown tool: "@ + n@
            },
        },
{
    match name {
        None => Err(RpcError { code: -32602, message: String::from_str("missing required param: name") }),
        Some(n) => {
            if str_eq(n, "list_changed_files") {
                Ok(Tool::ListChangedFiles)
            } else if str_eq(n, "get_file_diff") {
                Ok(Tool::GetFileDiff)
            } else if str_eq(n, "diff_summary") {
                Ok(Tool::DiffSummary)
            } else {
                Err(RpcError { code: -32602, message: String::from_str("unknown tool: ").concat(n) })
            }
        },
    }
}

/// The diff mode a tool call asks for.
#[derive(Debug, Clone, PartialEq, Eq)]
pub enum ModeArg {
    /// A fully specified mode.
    Mode(DiffMode),
    /// Branch mode against the repository's default base branch.
    BranchDefaultBase,
    /// An unknown mode name.
    Invalid(String),
}

/// The mode named by the `mode` argument ("working" when absent):
/// "branch" (against `base`, or the default base when none is given),
/// "working", "staged" or "unstaged"; any other name is invalid.
pub open spec fn mode_arg_spec(mode: Option<Seq<char>>, base: Option<Seq<char>>) -> ModeArgSpec {
    let m = match mode {
        Some(m) => m,
        None => "working"@,
    };
    if m == "branch"@ {
        match base {
            Some(b) => ModeArgSpec::Mode(ModeSpec::BranchToBase(b)),
            None => ModeArgSpec::BranchDefaultBase,
        }
    } else if m == "working"@ {
        ModeArgSpec::Mode(ModeSpec::WorkingTree)
    } else if m == "staged"@ {
        ModeArgSpec::Mode(ModeSpec::Staged)
    } else if m == "unstaged"@ {
        ModeArgSpec::Mode(ModeSpec::Unstaged)
    } else {
        ModeArgSpec::Invalid(m)
    }
}

/// The mode argument names one of the four modes: an explicit "working"
/// means the same as no mode argument, the working tree against HEAD;
/// "staged" and "unstaged" give their modes whatever the base; "branch"
/// takes the given base (or asks for the default one); every other name is
/// refused, carrying the name.
pub proof fn lemma_mode_names(name: Seq<char>, base: Option<Seq<char>>)
    ensures
        mode_arg_spec(Some("working"@), base) == mode_arg_spec(None, base),
        mode_arg_spec(None, base) == ModeArgSpec::Mode(ModeSpec::WorkingTree),
        mode_arg_spec(Some("staged"@), base) == ModeArgSpec::Mode(ModeSpec::Staged),
        mode_arg_spec(Some("unstaged"@), base) == ModeArgSpec::Mode(ModeSpec::Unstaged),
        mode_arg_spec(Some("branch"@), base) == match base {
            Some(b) => ModeArgSpec::Mode(ModeSpec::BranchToBase(b)),
            None => ModeArgSpec::BranchDefaultBase,
        },
        name != "working"@ && name != "staged"@ && name != "unstaged"@ && name != "branch"@
            ==> mode_arg_spec(Some(name), base) == ModeArgSpec::Invalid(name),
{
    reveal_strlit("working");
    reveal_strlit("staged");
    reveal_strlit("unstaged");
    reveal_strlit("branch");
    assert("working"@[0] != "branch"@[0]);
    assert("staged"@[0] != "branch"@[0]);
    assert("staged"@[0] != "working"@[0]);
    assert("unstaged"@[0] != "branch"@[0]);
    assert("unstaged"@[0] != "working"@[0]);
    assert("unstaged"@[0] != "staged"@[0]);
}

/// Mathematical model of a [`ModeArg`].
pub enum ModeArgSpec {
    Mode(ModeSpec),
    BranchDefaultBase,
    Invalid(Seq<char>),
}

impl View for ModeArg {
    type V = ModeArgSpec;

    open spec fn view(&self) -> ModeArgSpec {
        match self {
            ModeArg::Mode(m) => ModeArgSpec::Mode(m@),
            ModeArg::BranchDefaultBase => ModeArgSpec::BranchDefaultBase,
            ModeArg::Invalid(s) => ModeArgSpec::Invalid(s@),
        }
    }
}

/// Parse the `mode`/`base` tool arguments.
pub fn parse_mode_arg(mode: Option<&str>, base: Option<&str>) -> (r: ModeArg)
    ensures
        r@ == mode_arg_spec(
            match mode {
                Some(m) => Some(m@),
                None => None,
            },
            match base {
                Some(b) => Some(b@),
                None => None,
            },
        ),
{
    let m = match mode {
        Some(m) => m,
        None => "working",
    };
    if str_eq(m, "branch") {
        match base {
            Some(b) => ModeArg::Mode(DiffMode::BranchToBase { base: b.to_owned() }),
            None => ModeArg::BranchDefaultBase,
        }
    } else if str_eq(m, "working") {
        ModeArg::Mode(DiffMode::WorkingTree)
    } else if str_eq(m, "staged") {
        ModeArg::Mode(DiffMode::Staged)
    } else if str_eq(m, "unstaged") {
        ModeArg::Mode(DiffMode::Unstaged)
    } else {
        ModeArg::Invalid(m.to_owned())
    }
}

// ---------------------------------------------------------------------
// Diff summary
// ---------------------------------------------------------------------

/// Totals of a changed-file list.
#[derive(Debug, Clone, PartialEq, Eq)]
pub struct Summary {
    pub file_count: usize,
    pub additions: usize,
    pub deletions: usize,
    /// Number of files per status marker, in ascending marker order.
    pub by_status: Vec<(char, usize)>,
}

/// Sum of the added line counts of the first `n` entries.
pub open spec fn sum_additions(es: Seq<EntrySpec>, n: int) -> int
    decreases n,
{
    if n <= 0 {
        0
    } else {
        sum_additions(es, n - 1) + es[n - 1].additions
    }
}

/// Sum of the deleted line counts of the first `n` entries.
pub open spec fn sum_deletions(es: Seq<EntrySpec>, n: int) -> int
    decreases n,
{
    if n <= 0 {
        0
    } else {
        sum_deletions(es, n - 1) + es[n - 1].deletions
    }
}

/// Number of the first `n` entries whose status marker is `c`.
pub open spec fn marker_count(es: Seq<EntrySpec>, c: char, n: int) -> int
    decreases n,
{
    if n <= 0 {
        0
    } else {
        marker_count(es, c, n - 1) + if status_marker(es[n - 1].status) == c {
            1int
        } else {
            0
        }
    }
}

/// The per-status counts of the first `n` entries: markers in strictly
/// ascending order, each with its count, and every marker that occurs.
pub open spec fn by_status_ok(es: Seq<EntrySpec>, n: int, bs: Seq<(char, usize)>) -> bool {
    &&& forall|i: int, j: int| 0 <= i < j < bs.len() ==> (#[trigger] bs[i]).0 < (#[trigger] bs[j]).0
    &&& forall|i: int| 0 <= i < bs.len() ==> (#[trigger] bs[i]).1 == marker_count(es, bs[i].0, n) && bs[i].1 > 0
    &&& forall|k: int| 0 <= k < n ==> exists|i: int| 0 <= i < bs.len() && (#[trigger] bs[i]).0 == status_marker(#[trigger] es[k].status)
}

proof fn lemma_marker_count_bound(es: Seq<EntrySpec>, c: char, n: int)
    requires
        0 <= n,
    ensures
        0 <= marker_count(es, c, n) <= n,
    decreases n,
{
    if n > 0 {
        lemma_marker_count_bound(es, c, n - 1);
    }
}

/// Summarize a changed-file list: file count, total additions and
/// deletions, and the number of files per status marker.
pub fn summarize(entries: &[FileEntry]) -> (r: Summary)
    requires
        sum_additions(entries_view(entries@), entries@.len() as int) <= usize::MAX,
        sum_deletions(entries_view(entries@), entries@.len() as int) <= usize::MAX,
    ensures
        r.file_count == entries@.len(),
        r.additions == sum_additions(entries_view(entries@), entries@.len() as int),
        r.deletions == sum_deletions(entries_view(entries@), entries@.len() as int),
        by_status_ok(entries_view(entries@), entries@.len() as int, r.by_status@),
{
    let ghost es = entries_view(entries@);
    let mut additions: usize = 0;
    let mut deletions: usize = 0;
    let mut by_status: Vec<(char, usize)> = Vec::new();
    let mut i: usize = 0;
    while i < entries.len()
        invariant
            es == entries_view(entries@),
            i <= entries@.len(),
            sum_additions(es, entries@.len() as int) <= usize::MAX,
            sum_deletions(es, entries@.len() as int) <= usize::MAX,
            additions == sum_additions(es, i as int),
            deletions == sum_deletions(es, i as int),
            by_status_ok(es, i as int, by_status@),
        decreases entries@.len() - i,
    {
        let e = &entries[i];
        assert(es[i as int] == e@);
        proof {
            lemma_sums_grow(es, i as int + 1, entries@.len() as int);
        }
        additions = additions + e.additions;
        deletions = deletions + e.deletions;
        let c = e.status.marker();
        let mut p: usize = 0;
        while p < by_status.len() && by_status[p].0 < c
            invariant
                p <= by_status@.len(),
                forall|k: int| 0 <= k < p ==> (#[trigger] by_status@[k]).0 < c,
            decreases by_status@.len() - p,
        {
            p = p + 1;
        }
        let ghost old_bs = by_status@;
        proof {
            lemma_marker_count_bound(es, c, i as int);
        }
        if p < by_status.len() && by_status[p].0 == c {
            let n = by_status[p].1;
            proof {
                lemma_marker_count_bound(es, c, i as int);
            }
            by_status.set(p, (c, n + 1));
            proof {
                let bs = by_status@;
                assert forall|a: int, b: int| 0 <= a < b < bs.len() implies (#[trigger] bs[a]).0 < (#[trigger] bs[b]).0 by {
                    assert(old_bs[a].0 < old_bs[b].0);
                }
                assert forall|a: int| 0 <= a < bs.len() implies (#[trigger] bs[a]).1 == marker_count(es, bs[a].0, i + 1) && bs[a].1 > 0 by {
                    assert(bs[a].0 == old_bs[a].0);
                }
                assert forall|k: int| 0 <= k < i + 1 implies exists|a: int| 0 <= a < bs.len() && (#[trigger] bs[a]).0 == status_marker(#[trigger] es[k].status) by {
                    if k < i {
                        let a = choose|a: int| 0 <= a < old_bs.len() && (#[trigger] old_bs[a]).0 == status_marker(es[k].status);
                        assert(bs[a].0 == old_bs[a].0);
                    } else {
                        assert(bs[p as int].0 == c);
                    }
                }
            }
        } else {
            by_status.insert(p, (c, 1));
            proof {
                let bs = by_status@;
                assert(bs =~= old_bs.insert(p as int, (c, 1usize)));
                assert forall|a: int, b: int| 0 <= a < b < bs.len() implies (#[trigger] bs[a]).0 < (#[trigger] bs[b]).0 by {
                    if a < p && b < p {
                        assert(bs[a] == old_bs[a] && bs[b] == old_bs[b]);
                    } else if a < p && b == p {
                        assert(bs[a] == old_bs[a]);
                    } else if a < p {
                        assert(bs[a] == old_bs[a] && bs[b] == old_bs[b - 1]);
                        assert(old_bs[a].0 < old_bs[b - 1].0);
                    } else if a == p {
                        assert(bs[b] == old_bs[b - 1]);
                        assert(old_bs[p as int].0 >= c);
                        assert(old_bs[p as int].0 != c);
                        if b - 1 > p {
                            assert(old_bs[p as int].0 < old_bs[b - 1].0);
                        }
                    } else {
                        assert(bs[a] == old_bs[a - 1] && bs[b] == old_bs[b - 1]);
                        assert(old_bs[a - 1].0 < old_bs[b - 1].0);
                    }
                }
                assert(marker_count(es, c, i as int) == 0) by {
                    if marker_count(es, c, i as int) > 0 {
                        lemma_count_witness(es, c, i as int);
                        let k = choose|k: int| 0 <= k < i && status_marker(es[k].status) == c;
                        let a = choose|a: int| 0 <= a < old_bs.len() && (#[trigger] old_bs[a]).0 == status_marker(es[k].status);
                        if a < p {
                            assert(old_bs[a].0 < c);
                        } else if a > p {
                            assert(old_bs[p as int].0 < old_bs[a].0);
                            assert(old_bs[p as int].0 >= c);
                        }
                    }
                }
                assert forall|a: int| 0 <= a < bs.len() implies (#[trigger] bs[a]).1 == marker_count(es, bs[a].0, i + 1) && bs[a].1 > 0 by {
                    if a < p {
                        assert(bs[a] == old_bs[a]);
                        assert(old_bs[a].0 < c);
                    } else if a > p {
                        assert(bs[a] == old_bs[a - 1]);
                        assert(old_bs[a - 1].0 != c) by {
                            if p < old_bs.len() && a - 1 > p {
                                assert(old_bs[p as int].0 < old_bs[a - 1].0);
                            }
                        }
                    }
                }
                assert forall|k: int| 0 <= k < i + 1 implies exists|a: int| 0 <= a < bs.len() && (#[trigger] bs[a]).0 == status_marker(#[trigger] es[k].status) by {
                    if k < i {
                        let a = choose|a: int| 0 <= a < old_bs.len() && (#[trigger] old_bs[a]).0 == status_marker(es[k].status);
                        if a < p {
                            assert(bs[a] == old_bs[a]);
                        } else {
                            assert(bs[a + 1] == old_bs[a]);
                        }
                    } else {
                        assert(bs[p as int].0 == c);
                    }
                }
            }
        }
        i = i + 1;
    }
    Summary { file_count: entries.len(), additions, deletions, by_status }
}

/// A positive count has an entry with that marker.
proof fn lemma_count_witness(es: Seq<EntrySpec>, c: char, n: int)
    requires
        marker_count(es, c, n) > 0,
    ensures
        exists|k: int| 0 <= k < n && status_marker(es[k].status) == c,
    decreases n,
{
    if n > 0 && status_marker(es[n - 1].status) != c {
        lemma_count_witness(es, c, n - 1);
    }
}

/// Sums over a prefix do not exceed sums over a longer prefix.
proof fn lemma_sums_grow(es: Seq<EntrySpec>, k: int, n: int)
    requires
        0 <= k <= n,
    ensures
        sum_additions(es, k) <= sum_additions(es, n),
        sum_deletions(es, k) <= sum_deletions(es, n),
    decreases n - k,
{
    if k < n {
        lemma_sums_grow(es, k, n - 1);
    }
}

// ---------------------------------------------------------------------
// Laws: the per-status counts add up
// ---------------------------------------------------------------------

/// The sum of the counts of a per-status list.
pub open spec fn counts_total(bs: Seq<(char, usize)>) -> int
    decreases bs.len(),
{
    if bs.len() == 0 {
        0
    } else {
        counts_total(bs.drop_last()) + bs.last().1
    }
}

/// The number of files of the first `n` entries with each marker in `cs`,
/// summed over `cs`.
spec fn marker_total(es: Seq<EntrySpec>, cs: Seq<char>, n: int) -> int
    decreases cs.len(),
{
    if cs.len() == 0 {
        0
    } else {
        marker_total(es, cs.drop_last(), n) + marker_count(es, cs.last(), n)
    }
}

/// How often `x` occurs in `cs`.
spec fn hits(cs: Seq<char>, x: char) -> int
    decreases cs.len(),
{
    if cs.len() == 0 {
        0
    } else {
        hits(cs.drop_last(), x) + if cs.last() == x {
            1int
        } else {
            0
        }
    }
}

proof fn lemma_marker_total_empty(es: Seq<EntrySpec>, cs: Seq<char>)
    ensures
        marker_total(es, cs, 0) == 0,
    decreases cs.len(),
{
    if cs.len() > 0 {
        lemma_marker_total_empty(es, cs.drop_last());
    }
}

proof fn lemma_marker_total_step(es: Seq<EntrySpec>, cs: Seq<char>, n: int)
    requires
        n > 0,
    ensures
        marker_total(es, cs, n) == marker_total(es, cs, n - 1) + hits(cs, status_marker(es[n - 1].status)),
    decreases cs.len(),
{
    if cs.len() > 0 {
        lemma_marker_total_step(es, cs.drop_last(), n);
    }
}

proof fn lemma_hits_none(cs: Seq<char>, x: char)
    requires
        forall|i: int| 0 <= i < cs.len() ==> cs[i] != x,
    ensures
        hits(cs, x) == 0,
    decreases cs.len(),
{
    if cs.len() > 0 {
        let init = cs.drop_last();
        assert forall|i: int| 0 <= i < init.len() implies init[i] != x by {
            assert(init[i] == cs[i]);
        }
        lemma_hits_none(init, x);
    }
}

proof fn lemma_hits_once(cs: Seq<char>, x: char)
    requires
        forall|i: int, j: int| 0 <= i < j < cs.len() ==> cs[i] != cs[j],
        exists|i: int| 0 <= i < cs.len() && cs[i] == x,
    ensures
        hits(cs, x) == 1,
    decreases cs.len(),
{
    let init = cs.drop_last();
    let w = choose|i: int| 0 <= i < cs.len() && cs[i] == x;
    assert forall|i: int, j: int| 0 <= i < j < init.len() implies init[i] != init[j] by {
        assert(init[i] == cs[i] && init[j] == cs[j]);
    }
    if cs.last() == x {
        assert forall|i: int| 0 <= i < init.len() implies init[i] != x by {
            assert(init[i] == cs[i]);
            assert(cs[i] != cs[cs.len() - 1]);
        }
        lemma_hits_none(init, x);
    } else {
        assert(w < cs.len() - 1);
        assert(init[w] == x);
        lemma_hits_once(init, x);
    }
}

/// Counting each marker of a list of distinct markers that covers every
/// entry counts every entry once.
proof fn lemma_marker_total_covers(es: Seq<EntrySpec>, cs: Seq<char>, n: int)
    requires
        0 <= n,
        forall|i: int, j: int| 0 <= i < j < cs.len() ==> cs[i] != cs[j],
        forall|k: int| 0 <= k < n ==> exists|i: int| 0 <= i < cs.len() && cs[i] == status_marker(#[trigger] es[k].status),
    ensures
        marker_total(es, cs, n) == n,
    decreases n,
{
    if n == 0 {
        lemma_marker_total_empty(es, cs);
    } else {
        lemma_marker_total_covers(es, cs, n - 1);
        lemma_marker_total_step(es, cs, n);
        let x = status_marker(es[n - 1].status);
        assert(exists|i: int| 0 <= i < cs.len() && cs[i] == x);
        lemma_hits_once(cs, x);
    }
}

proof fn lemma_counts_total_is_marker_total(es: Seq<EntrySpec>, bs: Seq<(char, usize)>, n: int)
    requires
        forall|i: int| 0 <= i < bs.len() ==> (#[trigger] bs[i]).1 == marker_count(es, bs[i].0, n),
    ensures
        counts_total(bs) == marker_total(es, bs.map_values(|p: (char, usize)| p.0), n),
    decreases bs.len(),
{
    if bs.len() > 0 {
        let init = bs.drop_last();
        assert forall|i: int| 0 <= i < init.len() implies (#[trigger] init[i]).1 == marker_count(es, init[i].0, n) by {
            assert(init[i] == bs[i]);
        }
        lemma_counts_total_is_marker_total(es, init, n);
        let cs = bs.map_values(|p: (char, usize)| p.0);
        assert(init.map_values(|p: (char, usize)| p.0) =~= cs.drop_last());
        assert(bs.last() == bs[bs.len() - 1]);
    }
}

/// The per-status counts of a summary add up to its number of files.
pub proof fn lemma_status_counts_add_up(es: Seq<EntrySpec>, bs: Seq<(char, usize)>)
    requires
        by_status_ok(es, es.len() as int, bs),
    ensures
        counts_total(bs) == es.len(),
{
    let n = es.len() as int;
    let cs = bs.map_values(|p: (char, usize)| p.0);
    lemma_counts_total_is_marker_total(es, bs, n);
    assert forall|i: int, j: int| 0 <= i < j < cs.len() implies cs[i] != cs[j] by {
        assert(bs[i].0 < bs[j].0);
    }
    assert forall|k: int| 0 <= k < n implies exists|i: int| 0 <= i < cs.len() && cs[i] == status_marker(#[trigger] es[k].status) by {
        let i = choose|i: int| 0 <= i < bs.len() && (#[trigger] bs[i]).0 == status_marker(es[k].status);
        assert(cs[i] == bs[i].0);
    }
    lemma_marker_total_covers(es, cs, n);
}

} // verus!
