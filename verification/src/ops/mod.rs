//! The operations behind the command line: finding unregistered functions,
//! the status summary, and the project rules handed to agents.
use vstd::prelude::*;

use crate::config::QualityConfig;
use crate::git::owner_or_unassigned;
use crate::scanner::regex_scanner::{fn_views, FunctionInfo, FunctionModel};
use crate::store::structured::{worktree_views, Decision, RegisteredFn, Worktree, WorktreeModel};
use crate::text::{chars_eq, chars_of, decimal, push_chars, push_decimal, push_str, string_of};

pub mod test_tracking;

verus! {

// ── Return types ──────────────────────────────────────────────────────
pub struct CatchupResult {
    pub missing: Vec<FunctionInfo>,
    pub total_scanned: usize,
}

pub struct StatusReport {
    pub function_count: usize,
    pub decision_count: usize,
    pub worktree_count: usize,
    pub baseline_count: usize,
    pub hooks_installed: bool,
}

// ── Catch-up ──────────────────────────────────────────────────────────
/// The key by which a function is known to the store: `file:name`.
pub open spec fn fn_key(file: Seq<char>, name: Seq<char>) -> Seq<char> {
    file + ":"@ + name
}

/// Whether some registered function has the key `key`.
pub open spec fn is_known(existing: Seq<RegisteredFn>, key: Seq<char>) -> bool {
    exists|i: int| 0 <= i < existing.len() && fn_key((#[trigger] existing[i]).file@, existing[i].name@) == key
}

/// The functions of `found` whose key no registered function has, in order.
pub open spec fn spec_missing(found: Seq<FunctionModel>, existing: Seq<RegisteredFn>) -> Seq<FunctionModel>
    decreases found.len(),
{
    if found.len() == 0 {
        seq![]
    } else {
        let rest = spec_missing(found.drop_last(), existing);
        let f = found.last();
        if is_known(existing, fn_key(f.file, f.name)) {
            rest
        } else {
            rest.push(f)
        }
    }
}

/// The key of a function, as characters.
fn key_chars(file: &str, name: &str) -> (r: Vec<char>)
    ensures
        r@ == fn_key(file@, name@),
{
    let mut k: Vec<char> = Vec::new();
    push_str(&mut k, file);
    push_str(&mut k, ":");
    push_str(&mut k, name);
    k
}

/// Finds the scanned functions that are not registered yet.
///
/// A function is registered when a registered function has the same
/// `file:name` key.
pub fn catchup(existing: &[RegisteredFn], found: Vec<FunctionInfo>) -> (r: CatchupResult)
    ensures
        r.total_scanned == found@.len(),
        fn_views(r.missing@) == spec_missing(fn_views(found@), existing@),
{
    let mut known: Vec<Vec<char>> = Vec::new();
    let mut k: usize = 0;
    while k < existing.len()
        invariant
            k <= existing@.len(),
            known@.len() == k,
            forall|j: int| 0 <= j < k ==> (#[trigger] known@[j])@ == fn_key(existing@[j].file@, existing@[j].name@),
        decreases existing@.len() - k,
    {
        known.push(key_chars(existing[k].file.as_str(), existing[k].name.as_str()));
        k = k + 1;
    }
    let ghost fv = fn_views(found@);
    let mut missing: Vec<FunctionInfo> = Vec::new();
    let mut i: usize = 0;
    while i < found.len()
        invariant
            i <= found@.len(),
            fv == fn_views(found@),
            known@.len() == existing@.len(),
            forall|j: int| 0 <= j < known@.len() ==> (#[trigger] known@[j])@ == fn_key(existing@[j].file@, existing@[j].name@),
            fn_views(missing@) == spec_missing(fv.take(i as int), existing@),
        decreases found@.len() - i,
    {
        assert(fv.take(i + 1).drop_last() =~= fv.take(i as int));
        assert(fv[i as int] == found@[i as int]@);
        let key = key_chars(found[i].file.as_str(), found[i].name.as_str());
        let mut hit = false;
        let mut j: usize = 0;
        while j < known.len()
            invariant
                j <= known@.len(),
                known@.len() == existing@.len(),
                forall|q: int| 0 <= q < known@.len() ==> (#[trigger] known@[q])@ == fn_key(existing@[q].file@, existing@[q].name@),
                hit <==> exists|q: int| 0 <= q < j && fn_key((#[trigger] existing@[q]).file@, existing@[q].name@) == key@,
            decreases known@.len() - j,
        {
            if chars_eq(&known[j], &key) {
                hit = true;
            }
            proof {
                assert(known@[j as int]@ == fn_key(existing@[j as int].file@, existing@[j as int].name@));
            }
            j = j + 1;
        }
        if !hit {
            let ghost before = fn_views(missing@);
            missing.push(found[i].clone_info());
            assert(fn_views(missing@) =~= before.push(fv[i as int]));
        }
        i = i + 1;
    }
    assert(fv.take(i as int) =~= fv);
    CatchupResult { missing, total_scanned: found.len() }
}

/// Catch-up reports only unregistered functions, each scanned, and every
/// scanned function that is unregistered.
pub proof fn lemma_catchup_exact(found: Seq<FunctionModel>, existing: Seq<RegisteredFn>)
    ensures
        spec_missing(found, existing).len() <= found.len(),
        forall|i: int| 0 <= i < spec_missing(found, existing).len() ==> !is_known(
            existing,
            fn_key((#[trigger] spec_missing(found, existing)[i]).file, spec_missing(found, existing)[i].name),
        ),
        forall|i: int| 0 <= i < found.len() && !is_known(existing, fn_key((#[trigger] found[i]).file, found[i].name))
            ==> spec_missing(found, existing).contains(found[i]),
    decreases found.len(),
{
    if found.len() > 0 {
        let rest = found.drop_last();
        lemma_catchup_exact(rest, existing);
        let m = spec_missing(found, existing);
        assert forall|i: int| 0 <= i < found.len() && !is_known(existing, fn_key((#[trigger] found[i]).file, found[i].name))
            implies m.contains(found[i]) by {
            if i < found.len() - 1 {
                assert(rest[i] == found[i]);
                let mr = spec_missing(rest, existing);
                assert(mr.contains(rest[i]));
                let k = choose|k: int| 0 <= k < mr.len() && mr[k] == rest[i];
                assert(m[k] == mr[k]);
            } else {
                assert(m[m.len() - 1] == found[i]);
            }
        }
    }
}

// ── Status ────────────────────────────────────────────────────────────
/// The status summary: how many functions, decisions and worktrees the
/// store holds, how many baselines are recorded, and whether the hooks are
/// installed.
pub fn status(
    functions: &[RegisteredFn],
    decisions: &[Decision],
    worktrees: &[Worktree],
    baseline_count: usize,
    hooks_installed: bool,
) -> (r: StatusReport)
    ensures
        r.function_count == functions@.len(),
        r.decision_count == decisions@.len(),
        r.worktree_count == worktrees@.len(),
        r.baseline_count == baseline_count,
        r.hooks_installed == hooks_installed,
{
    StatusReport {
        function_count: functions.len(),
        decision_count: decisions.len(),
        worktree_count: worktrees.len(),
        baseline_count,
        hooks_installed,
    }
}

// ── Project rules ─────────────────────────────────────────────────────
pub const RULES_HEADER: &'static str = "# spec-store \u{2014} Project Rules\n\n`spec-store` is a Rust workspace that maintains a codebase specification registry with semantic search, quality gates, and multi-agent worktree coordination.\n\n";

pub const RULES_WORKFLOW: &'static str = "## Before Writing Any New Function\n\n1. Use the `search` tool with a description of what you intend to write\n2. If similarity \u{2265} 0.85, extend the existing function instead\n3. Use `reuse_check` to verify your new function won't be blocked\n\n## Workspace Structure\n\n```\ncrates/\n  spec-store-core/   \u{2014} library: stores, scanners, coverage, quality gates\n  spec-store-cli/    \u{2014} thin CLI for CI/hooks (binary: spec-store)\n  spec-store-mcp/    \u{2014} MCP server for agent integration\n```\n\n";

pub const RULES_DEV_WORKFLOW: &'static str = "## Development Workflow\n\n1. `search` \u{2014} check for existing code before writing\n2. Write code \u{2014} respect the hard rules above\n3. Write tests \u{2014} target 85%+ per file\n4. `check_quality` \u{2014} verify quality gates pass\n5. `catchup` \u{2014} find any unregistered functions\n6. `check_coverage` \u{2014} verify coverage gates pass before pushing\n\n## Running Tests\n\n```bash\ncargo test --workspace              # all tests\ncargo test -p spec-store-core       # core library only\ncargo llvm-cov --lcov --output-path lcov.info  # generate coverage\n```\n";

/// One row of the hard-rules table.
pub open spec fn rule_row(label: Seq<char>, value: Seq<char>) -> Seq<char> {
    "| "@ + label + " | "@ + value + " |\n"@
}

/// The hard-rules section: the quality limits, the coverage threshold and
/// the similarity limits, the last three as the caller rendered them.
pub open spec fn hard_rules(q: QualityConfig, coverage: Seq<char>, block: Seq<char>, warn: Seq<char>) -> Seq<char> {
    "## Hard Rules (enforced by gates \u{2014} do not bypass)\n\n"@
        + "| Rule | Limit |\n|------|-------|\n"@
        + rule_row("Lines per file (code)"@, decimal(q.max_file_lines as nat))
        + rule_row("Lines per function"@, decimal(q.max_fn_lines as nat))
        + rule_row("Functions per file"@, decimal(q.max_fns_per_file as nat))
        + rule_row("Cyclomatic complexity"@, decimal(q.max_fn_complexity as nat))
        + rule_row("Parameters per function"@, decimal(q.max_fn_params as nat))
        + rule_row("Test coverage per file"@, coverage + "%"@)
        + "| Similarity to existing fn | < "@ + block + " (blocked), < "@ + warn + " (warn) |\n\n"@
}

/// Whether the first `n` bytes of the UTF-8 encoding of `s` end on a
/// character boundary.
pub open spec fn byte_boundary(s: Seq<char>, n: int) -> bool
    decreases s.len(),
{
    if n == 0 {
        true
    } else if s.len() == 0 || n < 0 {
        false
    } else {
        crate::scanner::test_detect::utf8_width(s[0]) <= n && byte_boundary(
            s.drop_first(),
            n - crate::scanner::test_detect::utf8_width(s[0]),
        )
    }
}

/// The characters of the first `n` bytes of `s`.
pub open spec fn take_bytes(s: Seq<char>, n: int) -> Seq<char>
    decreases s.len(),
{
    if n <= 0 || s.len() == 0 {
        seq![]
    } else {
        seq![s[0]] + take_bytes(s.drop_first(), n - crate::scanner::test_detect::utf8_width(s[0]))
    }
}

/// The line of one decision: the date part of its time stamp (its first ten
/// bytes) and its text.
pub open spec fn decision_line(d: Decision) -> Seq<char> {
    "- ["@ + take_bytes(d.created_at@, 10) + "] "@ + d.text@ + "\n"@
}

/// The lines of `ds`, in order.
pub open spec fn decision_lines(ds: Seq<Decision>) -> Seq<char>
    decreases ds.len(),
{
    if ds.len() == 0 {
        seq![]
    } else {
        decision_lines(ds.drop_last()) + decision_line(ds.last())
    }
}

/// How many decisions the rules list.
pub open spec fn listed_decisions() -> int {
    15
}

/// The decisions the rules list: the first fifteen.
pub open spec fn listed(ds: Seq<Decision>) -> Seq<Decision> {
    if ds.len() > listed_decisions() {
        ds.take(listed_decisions())
    } else {
        ds
    }
}

/// The decisions section: empty without decisions; else the first fifteen
/// and a note of how many more there are.
pub open spec fn decisions_section(ds: Seq<Decision>) -> Seq<char> {
    if ds.len() == 0 {
        seq![]
    } else {
        "## Architectural Decisions\n\n"@ + decision_lines(listed(ds)) + (if ds.len()
            > listed_decisions() {
            "\n*"@ + decimal((ds.len() - listed_decisions()) as nat) + " more \u{2014} use `list_decisions` to see all.*\n"@
        } else {
            seq![]
        }) + "\n"@
    }
}

/// The line of one active worktree: its branch, its owner, and its
/// contract when it has one.
pub open spec fn worktree_line(w: WorktreeModel) -> Seq<char> {
    "- `"@ + w.branch + "` ("@ + owner_or_unassigned(w.owner) + ")"@ + (match w.contract {
        Some(c) => " \u{2192} `"@ + c + "`"@,
        None => seq![],
    }) + "\n"@
}

/// The lines of `ws`, in order.
pub open spec fn worktree_lines(ws: Seq<WorktreeModel>) -> Seq<char>
    decreases ws.len(),
{
    if ws.len() == 0 {
        seq![]
    } else {
        worktree_lines(ws.drop_last()) + worktree_line(ws.last())
    }
}

/// The active-worktrees section: empty without worktrees.
pub open spec fn worktrees_section(ws: Seq<WorktreeModel>) -> Seq<char> {
    if ws.len() == 0 {
        seq![]
    } else {
        "## Active Worktrees (do not modify files owned by others)\n\n"@ + worktree_lines(ws) + "\n"@
    }
}

/// The whole project-rules document.
pub open spec fn spec_project_rules(
    q: QualityConfig,
    coverage: Seq<char>,
    block: Seq<char>,
    warn: Seq<char>,
    ds: Seq<Decision>,
    ws: Seq<WorktreeModel>,
) -> Seq<char> {
    RULES_HEADER@ + hard_rules(q, coverage, block, warn) + RULES_WORKFLOW@ + decisions_section(ds)
        + worktrees_section(ws) + RULES_DEV_WORKFLOW@
}

/// Whether every listed decision's time stamp can be cut after ten bytes.
pub open spec fn dates_cuttable(ds: Seq<Decision>) -> bool {
    forall|i: int| 0 <= i < ds.len() && i < listed_decisions() ==> byte_boundary((#[trigger] ds[i]).created_at@, 10)
}

fn push_rule_row(out: &mut Vec<char>, label: &str, value: u64)
    ensures
        final(out)@ == old(out)@ + rule_row(label@, decimal(value as nat)),
{
    let ghost o = out@;
    push_str(out, "| ");
    push_str(out, label);
    push_str(out, " | ");
    push_decimal(out, value);
    push_str(out, " |\n");
    assert(out@ =~= o + rule_row(label@, decimal(value as nat)));
}

fn push_hard_rules(out: &mut Vec<char>, q: &QualityConfig, coverage: &str, block: &str, warn: &str)
    ensures
        final(out)@ == old(out)@ + hard_rules(*q, coverage@, block@, warn@),
{
    let ghost o = out@;
    push_str(out, "## Hard Rules (enforced by gates \u{2014} do not bypass)\n\n");
    push_str(out, "| Rule | Limit |\n|------|-------|\n");
    push_rule_row(out, "Lines per file (code)", q.max_file_lines as u64);
    push_rule_row(out, "Lines per function", q.max_fn_lines as u64);
    push_rule_row(out, "Functions per file", q.max_fns_per_file as u64);
    push_rule_row(out, "Cyclomatic complexity", q.max_fn_complexity as u64);
    push_rule_row(out, "Parameters per function", q.max_fn_params as u64);
    let ghost before_cov = out@;
    push_str(out, "| ");
    push_str(out, "Test coverage per file");
    push_str(out, " | ");
    push_str(out, coverage);
    push_str(out, "%");
    push_str(out, " |\n");
    assert(out@ =~= before_cov + rule_row("Test coverage per file"@, coverage@ + "%"@));
    push_str(out, "| Similarity to existing fn | < ");
    push_str(out, block);
    push_str(out, " (blocked), < ");
    push_str(out, warn);
    push_str(out, " (warn) |\n\n");
    assert(out@ =~= o + hard_rules(*q, coverage@, block@, warn@));
}

/// The characters of the first `n` bytes of `s`.
fn take_bytes_exec(s: &str, n: usize) -> (r: Vec<char>)
    requires
        byte_boundary(s@, n as int),
    ensures
        r@ == take_bytes(s@, n as int),
{
    let v = chars_of(s);
    let mut out: Vec<char> = Vec::new();
    let mut rem: usize = n;
    let mut i: usize = 0;
    assert(v@.skip(0) =~= v@);
    while rem > 0
        invariant
            i <= v@.len(),
            v@ == s@,
            byte_boundary(v@.skip(i as int), rem as int),
            out@ + take_bytes(v@.skip(i as int), rem as int) == take_bytes(s@, n as int),
        decreases rem,
    {
        let ghost rest = v@.skip(i as int);
        assert(rest.len() > 0);
        assert(i < v.len());
        assert(rest.drop_first() =~= v@.skip(i + 1));
        let c = v[i];
        assert(rest[0] == c);
        assert(crate::scanner::test_detect::utf8_width(rest[0]) <= rem);
        let u = c as u32;
        let w: usize = if u < 0x80 {
            1
        } else if u < 0x800 {
            2
        } else if u < 0x10000 {
            3
        } else {
            4
        };
        assert(w == crate::scanner::test_detect::utf8_width(c));
        let ghost before = out@;
        out.push(c);
        assert(out@ + take_bytes(v@.skip(i + 1), rem - w) =~= before + take_bytes(rest, rem as int));
        rem = rem - w;
        i = i + 1;
    }
    assert(take_bytes(v@.skip(i as int), 0) =~= Seq::<char>::empty());
    assert(out@ + Seq::<char>::empty() =~= out@);
    out
}

fn push_decisions(out: &mut Vec<char>, decisions: &[Decision])
    requires
        dates_cuttable(decisions@),
    ensures
        final(out)@ == old(out)@ + decisions_section(decisions@),
{
    if decisions.len() == 0 {
        assert(decisions_section(decisions@) =~= Seq::<char>::empty());
        assert(out@ =~= old(out)@ + Seq::<char>::empty());
        return;
    }
    let ghost o = out@;
    push_str(out, "## Architectural Decisions\n\n");
    let ghost ds = decisions@;
    let shown: usize = if decisions.len() > 15 { 15 } else { decisions.len() };
    let ghost base = out@;
    let mut i: usize = 0;
    while i < shown
        invariant
            i <= shown,
            shown <= decisions@.len(),
            shown == if decisions@.len() > 15 { 15 } else { decisions@.len() },
            ds == decisions@,
            dates_cuttable(ds),
            out@ == base + decision_lines(ds.take(i as int)),
        decreases shown - i,
    {
        assert(ds.take(i + 1).drop_last() =~= ds.take(i as int));
        let d = &decisions[i];
        assert(byte_boundary(ds[i as int].created_at@, 10));
        let date = take_bytes_exec(d.created_at.as_str(), 10);
        let ghost before = out@;
        push_str(out, "- [");
        push_chars(out, &date);
        push_str(out, "] ");
        push_str(out, d.text.as_str());
        push_str(out, "\n");
        assert(out@ =~= before + decision_line(ds[i as int]));
        i = i + 1;
    }
    assert(ds.take(shown as int) =~= listed(ds));
    if decisions.len() > 15 {
        push_str(out, "\n*");
        push_decimal(out, (decisions.len() - 15) as u64);
        push_str(out, " more \u{2014} use `list_decisions` to see all.*\n");
    }
    push_str(out, "\n");
    assert(out@ =~= o + decisions_section(decisions@));
}

fn push_worktrees(out: &mut Vec<char>, worktrees: &[Worktree])
    ensures
        final(out)@ == old(out)@ + worktrees_section(worktree_views(worktrees@)),
{
    let ghost wv = worktree_views(worktrees@);
    if worktrees.len() == 0 {
        assert(worktrees_section(wv) =~= Seq::<char>::empty());
        assert(out@ =~= old(out)@ + Seq::<char>::empty());
        return;
    }
    let ghost o = out@;
    push_str(out, "## Active Worktrees (do not modify files owned by others)\n\n");
    let ghost base = out@;
    let mut i: usize = 0;
    while i < worktrees.len()
        invariant
            i <= worktrees@.len(),
            wv == worktree_views(worktrees@),
            out@ == base + worktree_lines(wv.take(i as int)),
        decreases worktrees@.len() - i,
    {
        assert(wv.take(i + 1).drop_last() =~= wv.take(i as int));
        assert(wv[i as int] == worktrees@[i as int]@);
        let wt = &worktrees[i];
        let ghost before = out@;
        push_str(out, "- `");
        push_str(out, wt.branch.as_str());
        push_str(out, "` (");
        match &wt.owner {
            Some(o) => push_str(out, o.as_str()),
            None => push_str(out, "unassigned"),
        }
        push_str(out, ")");
        match &wt.contract {
            Some(c) => {
                push_str(out, " \u{2192} `");
                push_str(out, c.as_str());
                push_str(out, "`");
            },
            None => {},
        }
        push_str(out, "\n");
        assert(out@ =~= before + worktree_line(wv[i as int]));
        i = i + 1;
    }
    assert(wv.take(i as int) =~= wv);
    push_str(out, "\n");
    assert(out@ =~= o + worktrees_section(wv));
}

/// The project rules handed to agents: the limits the gates enforce, the
/// workflow, the recorded decisions (the first fifteen) and the active
/// worktrees.
///
/// `coverage` is the per-file coverage threshold and `block` and `warn` the
/// similarity limits, rendered by the caller (`{:.0}` and `{:.2}`).
pub fn project_rules(
    quality: &QualityConfig,
    coverage: &str,
    block: &str,
    warn: &str,
    decisions: &[Decision],
    worktrees: &[Worktree],
) -> (r: String)
    requires
        dates_cuttable(decisions@),
    ensures
        r@ == spec_project_rules(
            *quality,
            coverage@,
            block@,
            warn@,
            decisions@,
            worktree_views(worktrees@),
        ),
{
    let mut out: Vec<char> = Vec::new();
    push_str(&mut out, RULES_HEADER);
    push_hard_rules(&mut out, quality, coverage, block, warn);
    push_str(&mut out, RULES_WORKFLOW);
    push_decisions(&mut out, decisions);
    push_worktrees(&mut out, worktrees);
    push_str(&mut out, RULES_DEV_WORKFLOW);
    assert(out@ =~= spec_project_rules(
        *quality,
        coverage@,
        block@,
        warn@,
        decisions@,
        worktree_views(worktrees@),
    ));
    string_of(&out)
}

} // verus!
