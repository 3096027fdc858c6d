use vstd::prelude::*;
use crate::messages::{TaskPriority, Token};
use crate::tokens::{
    completes, incremented, lemma_increment_within_threshold, result_state, row_of, with_state, TokenRow,
    TokenState, TokenTable,
};

verus! {

/// Which result of the parent an edge follows.
#[derive(Copy, Clone, PartialEq, Eq, Structural, Debug, Hash)]
pub enum EdgeKind {
    Success,
    Failure,
}

/// A dependency between two tasks of a job.
#[derive(Copy, Clone, PartialEq, Eq, Structural, Debug)]
pub struct TaskEdge {
    pub parent_task_id: u128,
    pub child_task_id: u128,
    pub kind: EdgeKind,
}

/// The number of edges into a task: the completions its token needs.
pub open spec fn in_degree(edges: Seq<TaskEdge>, task_id: u128) -> nat {
    edges.filter(|e: TaskEdge| e.child_task_id == task_id).len()
}

/// The children that a parent's result of the given kind enables, in edge
/// order.
pub open spec fn children(edges: Seq<TaskEdge>, parent: u128, kind: EdgeKind) -> Seq<u128> {
    edges.filter(|e: TaskEdge| e.parent_task_id == parent && e.kind == kind).map_values(
        |e: TaskEdge| e.child_task_id,
    )
}

/// The tokens of the children, at the parent's logical time.
pub open spec fn child_tokens(edges: Seq<TaskEdge>, parent: Token, kind: EdgeKind) -> Seq<Token> {
    children(edges, parent.task_id, kind).map_values(
        |c: u128| Token { task_id: c, trigger_datetime: parent.trigger_datetime },
    )
}

/// The table after incrementing one token, with its in-degree as threshold.
pub open spec fn bump(m: Map<Token, TokenRow>, t: Token, edges: Seq<TaskEdge>) -> Map<Token, TokenRow> {
    m.insert(t, incremented(row_of(m, t), t, in_degree(edges, t.task_id) as u64))
}

/// The table after incrementing each token in turn.
pub open spec fn bump_all(m: Map<Token, TokenRow>, ts: Seq<Token>, edges: Seq<TaskEdge>) -> Map<
    Token,
    TokenRow,
>
    decreases ts.len(),
{
    if ts.len() == 0 {
        m
    } else {
        bump(bump_all(m, ts.drop_last(), edges), ts.last(), edges)
    }
}

/// Incrementing the tokens of `a` and then those of `b` is incrementing
/// those of `a + b`.
pub proof fn lemma_bump_all_append(m: Map<Token, TokenRow>, a: Seq<Token>, b: Seq<Token>, edges: Seq<TaskEdge>)
    ensures
        bump_all(m, a + b, edges) == bump_all(bump_all(m, a, edges), b, edges),
    decreases b.len(),
{
    if b.len() == 0 {
        assert(a + b =~= a);
    } else {
        lemma_bump_all_append(m, a, b.drop_last(), edges);
        assert((a + b).drop_last() =~= a + b.drop_last());
        assert((a + b).last() == b.last());
    }
}

/// The tokens that messages to the token processor are about.
pub open spec fn message_tokens(msgs: Seq<ProcessToken>) -> Seq<Token> {
    msgs.map_values(
        |m: ProcessToken|
            match m {
                ProcessToken::Increment(t, _) => t,
                ProcessToken::Activate(t, _) => t,
                ProcessToken::Clear(t) => t,
            },
    )
}

/// Whether every message asks for a threshold check at the given priority.
pub open spec fn all_increments(msgs: Seq<ProcessToken>, priority: TaskPriority) -> bool {
    forall|i: int| 0 <= i < msgs.len() ==> (#[trigger] msgs[i] matches ProcessToken::Increment(_, p) && p == priority)
}

/// The in-degree of a task: the threshold of its tokens.
pub fn threshold_of(edges: &Vec<TaskEdge>, task_id: u128) -> (r: u64)
    ensures
        r as nat == in_degree(edges@, task_id),
{
    let mut n: u64 = 0;
    let mut i: usize = 0;
    while i < edges.len()
        invariant
            i <= edges@.len(),
            n as nat == edges@.subrange(0, i as int).filter(|e: TaskEdge| e.child_task_id == task_id).len(),
            n <= i,
        decreases edges@.len() - i,
    {
        proof {
            reveal(Seq::filter);
            assert(edges@.subrange(0, i + 1).drop_last() =~= edges@.subrange(0, i as int));
            edges@.subrange(0, i as int).lemma_filter_len(|e: TaskEdge| e.child_task_id == task_id);
        }
        if edges[i].child_task_id == task_id {
            n = n + 1;
        }
        i = i + 1;
    }
    assert(edges@.subrange(0, edges@.len() as int) =~= edges@);
    n
}

/// The tokens that a parent's result enables: one per matching edge, at the
/// parent's logical time.
pub fn children_tokens(edges: &Vec<TaskEdge>, parent: Token, kind: EdgeKind) -> (r: Vec<Token>)
    ensures
        r@ == child_tokens(edges@, parent, kind),
{
    let mut r: Vec<Token> = Vec::new();
    let mut i: usize = 0;
    while i < edges.len()
        invariant
            i <= edges@.len(),
            r@ == child_tokens(edges@.subrange(0, i as int), parent, kind),
        decreases edges@.len() - i,
    {
        let ghost pre = edges@.subrange(0, i as int);
        let ghost f = |e: TaskEdge| e.parent_task_id == parent.task_id && e.kind == kind;
        proof {
            reveal(Seq::filter);
            assert(edges@.subrange(0, i + 1).drop_last() =~= pre);
        }
        let e = edges[i];
        if e.parent_task_id == parent.task_id && e.kind == kind {
            r.push(Token { task_id: e.child_task_id, trigger_datetime: parent.trigger_datetime });
            proof {
                assert(edges@.subrange(0, i + 1).filter(f) =~= pre.filter(f).push(e));
            }
        } else {
            proof {
                assert(edges@.subrange(0, i + 1).filter(f) =~= pre.filter(f));
            }
        }
        proof {
            assert(r@ =~= child_tokens(edges@.subrange(0, i + 1), parent, kind));
        }
        i = i + 1;
    }
    assert(edges@.subrange(0, edges@.len() as int) =~= edges@);
    r
}

/// Applies a task's result. The parent token moves to success or failure
/// if it had not finished; only then is each child, along the edges of
/// the result's kind, incremented at the parent's logical time, and the
/// children's tokens are returned for a threshold check. A result for a
/// token that is already finished changes nothing and returns no tokens.
pub fn process_progress(table: &mut TokenTable, edges: &Vec<TaskEdge>, parent: Token, kind: EdgeKind) -> (r: Vec<
    Token,
>)
    requires
        old(table).wf(),
    ensures
        final(table).wf(),
        !completes(row_of(old(table)@, parent)) ==> r@.len() == 0 && final(table)@ == old(table)@,
        completes(row_of(old(table)@, parent)) ==> r@ == child_tokens(edges@, parent, kind) && final(table)@
            == bump_all(
            old(table)@.insert(parent, with_state(old(table)@[parent], result_state(kind == EdgeKind::Success))),
            r@,
            edges@,
        ),
{
    if !table.complete(parent, kind == EdgeKind::Success) {
        return Vec::new();
    }
    let ghost start = table@;
    let tokens = children_tokens(edges, parent, kind);
    let mut i: usize = 0;
    while i < tokens.len()
        invariant
            i <= tokens@.len(),
            table.wf(),
            table@ == bump_all(start, tokens@.subrange(0, i as int), edges@),
        decreases tokens@.len() - i,
    {
        let t = tokens[i];
        let threshold = threshold_of(edges, t.task_id);
        table.increment(t, threshold);
        proof {
            let next = tokens@.subrange(0, i + 1);
            assert(next.drop_last() =~= tokens@.subrange(0, i as int));
        }
        i = i + 1;
    }
    assert(tokens@.subrange(0, tokens@.len() as int) =~= tokens@);
    tokens
}

/// After incrementing distinct tokens in turn, each of them has been
/// incremented exactly once, and every other row is as it was.
pub proof fn lemma_bump_all_distinct(m: Map<Token, TokenRow>, ts: Seq<Token>, edges: Seq<TaskEdge>, k: Token)
    requires
        ts.no_duplicates(),
    ensures
        row_of(bump_all(m, ts, edges), k) == if ts.contains(k) {
            Some(incremented(row_of(m, k), k, in_degree(edges, k.task_id) as u64))
        } else {
            row_of(m, k)
        },
    decreases ts.len(),
{
    if ts.len() > 0 {
        let pre = ts.drop_last();
        assert(pre.no_duplicates());
        lemma_bump_all_distinct(m, pre, edges, k);
        if k == ts.last() {
            assert(!pre.contains(k)) by {
                if pre.contains(k) {
                    let j = choose|j: int| 0 <= j < pre.len() && pre[j] == k;
                    assert(ts[j] == ts[ts.len() - 1]);
                }
            }
        } else {
            assert(ts.contains(k) == pre.contains(k)) by {
                if ts.contains(k) {
                    let j = choose|j: int| 0 <= j < ts.len() && ts[j] == k;
                    assert(pre[j] == k);
                }
                if pre.contains(k) {
                    let j = choose|j: int| 0 <= j < pre.len() && pre[j] == k;
                    assert(ts[j] == k);
                }
            }
        }
    }
}

/// Whether every row's count lies within its threshold.
pub open spec fn counts_within(m: Map<Token, TokenRow>) -> bool {
    forall|k: Token| #[trigger] m.contains_key(k) ==> m[k].count <= m[k].threshold
}

/// Incrementing distinct tokens keeps every count within its threshold,
/// provided each of them was still below its threshold, or is new and has
/// at least one prerequisite.
pub proof fn lemma_bump_all_within_threshold(m: Map<Token, TokenRow>, ts: Seq<Token>, edges: Seq<TaskEdge>)
    requires
        counts_within(m),
        ts.no_duplicates(),
        forall|i: int| 0 <= i < ts.len() ==> match #[trigger] row_of(m, ts[i]) {
            Some(r) => r.count < r.threshold,
            None => in_degree(edges, ts[i].task_id) as u64 >= 1,
        },
    ensures
        counts_within(bump_all(m, ts, edges)),
{
    let after = bump_all(m, ts, edges);
    assert forall|k: Token| #[trigger] after.contains_key(k) implies after[k].count <= after[k].threshold by {
        lemma_bump_all_distinct(m, ts, edges, k);
        if ts.contains(k) {
            let i = choose|i: int| 0 <= i < ts.len() && ts[i] == k;
            lemma_increment_within_threshold(row_of(m, k), k, in_degree(edges, k.task_id) as u64);
        }
    }
}

/// A result for a parent that has not finished keeps every count within
/// its threshold, provided its children are distinct, none is the parent,
/// and each was still below its threshold or is new with at least one
/// prerequisite.
pub proof fn lemma_progress_within_threshold(m: Map<Token, TokenRow>, edges: Seq<TaskEdge>, parent: Token, kind: EdgeKind)
    requires
        counts_within(m),
        completes(row_of(m, parent)),
        child_tokens(edges, parent, kind).no_duplicates(),
        !child_tokens(edges, parent, kind).contains(parent),
        forall|i: int| 0 <= i < child_tokens(edges, parent, kind).len() ==> match #[trigger] row_of(
            m,
            child_tokens(edges, parent, kind)[i],
        ) {
            Some(r) => r.count < r.threshold,
            None => in_degree(edges, child_tokens(edges, parent, kind)[i].task_id) as u64 >= 1,
        },
    ensures
        counts_within(
            bump_all(
                m.insert(parent, with_state(m[parent], result_state(kind == EdgeKind::Success))),
                child_tokens(edges, parent, kind),
                edges,
            ),
        ),
{
    let ts = child_tokens(edges, parent, kind);
    let done = m.insert(parent, with_state(m[parent], result_state(kind == EdgeKind::Success)));
    assert forall|i: int| 0 <= i < ts.len() implies #[trigger] row_of(done, ts[i]) == row_of(m, ts[i]) by {
        assert(ts[i] != parent);
    }
    lemma_bump_all_within_threshold(done, ts, edges);
}

/// How many times `k` occurs in `ts`.
pub open spec fn occurrences(ts: Seq<Token>, k: Token) -> nat
    decreases ts.len(),
{
    if ts.len() == 0 {
        0
    } else {
        occurrences(ts.drop_last(), k) + if ts.last() == k { 1nat } else { 0nat }
    }
}

/// `n` more completions; the count saturates at the largest `u64`.
pub open spec fn add_saturating(c: u64, n: nat) -> u64 {
    if c + n <= u64::MAX {
        (c + n) as u64
    } else {
        u64::MAX
    }
}

/// The row after `n` increments with the given threshold.
pub open spec fn incremented_n(row: Option<TokenRow>, k: Token, threshold: u64, n: nat) -> Option<TokenRow> {
    if n == 0 {
        row
    } else {
        match row {
            Some(r) => Some(TokenRow { count: add_saturating(r.count, n), ..r }),
            None => Some(TokenRow { token: k, count: add_saturating(1, (n - 1) as nat), threshold, state: TokenState::Waiting }),
        }
    }
}

/// After incrementing the tokens of `ts` in turn, each row's count has
/// grown by the number of times its token occurs in `ts` (saturating), and
/// a row that was missing was created by the first of them.
pub proof fn lemma_bump_all_counts(m: Map<Token, TokenRow>, ts: Seq<Token>, edges: Seq<TaskEdge>, k: Token)
    ensures
        row_of(bump_all(m, ts, edges), k) == incremented_n(
            row_of(m, k),
            k,
            in_degree(edges, k.task_id) as u64,
            occurrences(ts, k),
        ),
    decreases ts.len(),
{
    if ts.len() > 0 {
        lemma_bump_all_counts(m, ts.drop_last(), edges, k);
    }
}

/// A round trip: when a parent that has not finished reports a result, the
/// parent ends in success or failure, each distinct child (other than the
/// parent) is incremented exactly once, and a redelivery of the same result
/// then changes nothing.
pub proof fn lemma_round_trip(m: Map<Token, TokenRow>, edges: Seq<TaskEdge>, parent: Token, kind: EdgeKind, c: Token)
    requires
        completes(row_of(m, parent)),
        child_tokens(edges, parent, kind).no_duplicates(),
        !child_tokens(edges, parent, kind).contains(parent),
        child_tokens(edges, parent, kind).contains(c),
    ensures
        ({
            let after = bump_all(
                m.insert(parent, with_state(m[parent], result_state(kind == EdgeKind::Success))),
                child_tokens(edges, parent, kind),
                edges,
            );
            &&& row_of(after, parent) matches Some(p) && p.state == result_state(kind == EdgeKind::Success)
            &&& row_of(after, c) == Some(incremented(row_of(m, c), c, in_degree(edges, c.task_id) as u64))
            &&& !completes(row_of(after, parent))
        }),
{
    let ts = child_tokens(edges, parent, kind);
    let done = m.insert(parent, with_state(m[parent], result_state(kind == EdgeKind::Success)));
    lemma_bump_all_distinct(done, ts, edges, parent);
    lemma_bump_all_distinct(done, ts, edges, c);
    assert(c != parent);
}

/// A message to the token processor.
#[derive(Copy, Clone, PartialEq, Eq, Structural, Debug)]
pub enum ProcessToken {
    /// The token was incremented: check its threshold.
    Increment(Token, TaskPriority),
    /// Activate the token whatever its count.
    Activate(Token, TaskPriority),
    /// Reset the token to waiting with no completions.
    Clear(Token),
}

/// Handles one message to the token processor, and returns the token to
/// dispatch, with its priority, if it became active.
pub fn process_token(table: &mut TokenTable, edges: &Vec<TaskEdge>, msg: ProcessToken) -> (r: Option<
    (Token, TaskPriority),
>)
    requires
        old(table).wf(),
    ensures
        final(table).wf(),
        msg matches ProcessToken::Increment(t, p) ==> (r is Some <==> crate::tokens::activates(
            row_of(old(table)@, t),
        )) && (r is Some ==> r == Some((t, p)) && final(table)@ == old(table)@.insert(
            t,
            with_state(old(table)@[t], TokenState::Active),
        )) && (r is None ==> final(table)@ == old(table)@),
        msg matches ProcessToken::Activate(t, p) ==> r == Some((t, p)) && final(table)@ == old(table)@.insert(
            t,
            crate::tokens::force_activated(row_of(old(table)@, t), t, in_degree(edges@, t.task_id) as u64),
        ),
        msg matches ProcessToken::Clear(t) ==> r is None && (old(table)@.contains_key(t) ==> final(table)@
            == old(table)@.insert(t, TokenRow { count: 0, state: TokenState::Waiting, ..old(table)@[t] }))
            && (!old(table)@.contains_key(t) ==> final(table)@ == old(table)@),
{
    match msg {
        ProcessToken::Increment(t, p) => {
            if table.check_threshold(t) {
                Some((t, p))
            } else {
                None
            }
        },
        ProcessToken::Activate(t, p) => {
            let threshold = threshold_of(edges, t.task_id);
            table.activate(t, threshold);
            Some((t, p))
        },
        ProcessToken::Clear(t) => {
            table.clear(t);
            None
        },
    }
}

/// The messages that ask the token processor to check each token, in order,
/// at the given priority.
pub fn send_to_token_processor(tokens: &Vec<Token>, priority: TaskPriority) -> (r: Vec<ProcessToken>)
    ensures
        r@.len() == tokens@.len(),
        forall|i: int| 0 <= i < r@.len() ==> #[trigger] r@[i] == ProcessToken::Increment(tokens@[i], priority),
{
    let mut r: Vec<ProcessToken> = Vec::new();
    let mut i: usize = 0;
    while i < tokens.len()
        invariant
            i <= tokens@.len(),
            r@.len() == i,
            forall|j: int| 0 <= j < i ==> #[trigger] r@[j] == ProcessToken::Increment(tokens@[j], priority),
        decreases tokens@.len() - i,
    {
        r.push(ProcessToken::Increment(tokens[i], priority));
        i = i + 1;
    }
    r
}

} // verus!
