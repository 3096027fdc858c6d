use vstd::prelude::*;
use crate::messages::{TaskPriority, Token};

verus! {

/// Where a token is in its life: waiting for prerequisites, ready to run,
/// running, or finished.
#[derive(Copy, Clone, PartialEq, Eq, Structural, Debug, Hash)]
pub enum TokenState {
    Waiting,
    Active,
    Running,
    Success,
    Failure,
}

/// The dataflow state of one task at one logical time: how many
/// prerequisite completions it has received, out of how many it needs.
#[derive(Copy, Clone, PartialEq, Eq, Structural, Debug)]
pub struct TokenRow {
    pub token: Token,
    pub count: u64,
    pub threshold: u64,
    pub state: TokenState,
}

/// One more completion; the count saturates at the largest `u64`.
pub open spec fn inc(c: u64) -> u64 {
    if c < u64::MAX {
        (c + 1) as u64
    } else {
        c
    }
}

pub open spec fn row_of(m: Map<Token, TokenRow>, k: Token) -> Option<TokenRow> {
    if m.contains_key(k) {
        Some(m[k])
    } else {
        None
    }
}

pub open spec fn with_state(r: TokenRow, s: TokenState) -> TokenRow {
    TokenRow { state: s, ..r }
}

/// The row after an increment: one more completion, or a new waiting row
/// with a count of one.
pub open spec fn incremented(row: Option<TokenRow>, token: Token, threshold: u64) -> TokenRow {
    match row {
        Some(r) => TokenRow { count: inc(r.count), ..r },
        None => TokenRow { token, count: 1, threshold, state: TokenState::Waiting },
    }
}

/// Whether a threshold check activates the row: it waits and has all its
/// prerequisites.
pub open spec fn activates(row: Option<TokenRow>) -> bool {
    row matches Some(r) && r.state == TokenState::Waiting && r.count >= r.threshold
}

/// Whether a token has finished, with success or failure.
pub open spec fn terminal(s: TokenState) -> bool {
    s == TokenState::Success || s == TokenState::Failure
}

/// Whether a result may complete the row: it exists and has not finished.
pub open spec fn completes(row: Option<TokenRow>) -> bool {
    row matches Some(r) && !terminal(r.state)
}

/// The row after an explicit activation: active, created with no
/// completions if missing.
pub open spec fn force_activated(row: Option<TokenRow>, token: Token, threshold: u64) -> TokenRow {
    match row {
        Some(r) => with_state(r, TokenState::Active),
        None => TokenRow { token, count: 0, threshold, state: TokenState::Active },
    }
}

/// The transitions of the token state machine; a clear returns any state to
/// waiting. A result finishes any token that has not finished, also one
/// still marked active, or one cleared back to waiting while it ran.
pub open spec fn allowed_transition(from: TokenState, to: TokenState) -> bool {
    ||| from == to
    ||| from == TokenState::Waiting && to == TokenState::Active
    ||| from == TokenState::Active && to == TokenState::Running
    ||| !terminal(from) && terminal(to)
    ||| to == TokenState::Waiting
}

pub open spec fn unique_tokens(s: Seq<TokenRow>) -> bool {
    forall|i: int, j: int| 0 <= i < j < s.len() ==> s[i].token != s[j].token
}

pub open spec fn lookup(s: Seq<TokenRow>, k: Token) -> Option<TokenRow> {
    if exists|i: int| 0 <= i < s.len() && s[i].token == k {
        Some(s[choose|i: int| 0 <= i < s.len() && s[i].token == k])
    } else {
        None
    }
}

proof fn lemma_lookup_at(s: Seq<TokenRow>, i: int)
    requires
        unique_tokens(s),
        0 <= i < s.len(),
    ensures
        lookup(s, s[i].token) == Some(s[i]),
{
    let j = choose|j: int| 0 <= j < s.len() && s[j].token == s[i].token;
    if j != i {
        if j < i {
            assert(s[j].token != s[i].token);
        } else {
            assert(s[i].token != s[j].token);
        }
    }
}

proof fn lemma_lookup_update(s: Seq<TokenRow>, i: int, row: TokenRow)
    requires
        unique_tokens(s),
        0 <= i < s.len(),
        row.token == s[i].token,
    ensures
        unique_tokens(s.update(i, row)),
        forall|k: Token| #[trigger]
            lookup(s.update(i, row), k) == if k == row.token {
                Some(row)
            } else {
                lookup(s, k)
            },
{
    let t = s.update(i, row);
    assert(unique_tokens(t)) by {
        assert forall|a: int, b: int| 0 <= a < b < t.len() implies t[a].token != t[b].token by {
            assert(s[a].token != s[b].token);
        }
    }
    assert forall|k: Token| #[trigger]
        lookup(t, k) == if k == row.token {
            Some(row)
        } else {
            lookup(s, k)
        } by {
        if k == row.token {
            lemma_lookup_at(t, i);
        } else {
            if exists|j: int| 0 <= j < s.len() && s[j].token == k {
                let j = choose|j: int| 0 <= j < s.len() && s[j].token == k;
                lemma_lookup_at(s, j);
                lemma_lookup_at(t, j);
            } else {
                assert forall|j: int| 0 <= j < t.len() implies t[j].token != k by {
                    if j != i {
                        assert(s[j].token != k);
                    }
                }
            }
        }
    }
}

proof fn lemma_lookup_push(s: Seq<TokenRow>, row: TokenRow)
    requires
        unique_tokens(s),
        lookup(s, row.token) is None,
    ensures
        unique_tokens(s.push(row)),
        forall|k: Token| #[trigger]
            lookup(s.push(row), k) == if k == row.token {
                Some(row)
            } else {
                lookup(s, k)
            },
{
    let t = s.push(row);
    assert(unique_tokens(t)) by {
        assert forall|a: int, b: int| 0 <= a < b < t.len() implies t[a].token != t[b].token by {
            if b == s.len() {
                assert(s[a].token != row.token);
            }
        }
    }
    assert forall|k: Token| #[trigger]
        lookup(t, k) == if k == row.token {
            Some(row)
        } else {
            lookup(s, k)
        } by {
        if k == row.token {
            lemma_lookup_at(t, s.len() as int);
        } else {
            if exists|j: int| 0 <= j < s.len() && s[j].token == k {
                let j = choose|j: int| 0 <= j < s.len() && s[j].token == k;
                lemma_lookup_at(s, j);
                lemma_lookup_at(t, j);
            } else {
                assert forall|j: int| 0 <= j < t.len() implies t[j].token != k by {
                    if j < s.len() {
                        assert(s[j].token != k);
                    }
                }
            }
        }
    }
}

/// The token rows, one per (task, logical time).
pub struct TokenTable {
    rows: Vec<TokenRow>,
}

impl View for TokenTable {
    type V = Map<Token, TokenRow>;

    closed spec fn view(&self) -> Map<Token, TokenRow> {
        Map::new(|k: Token| lookup(self.rows@, k) is Some, |k: Token| lookup(self.rows@, k)->Some_0)
    }
}

impl TokenTable {
    pub closed spec fn wf(&self) -> bool {
        unique_tokens(self.rows@)
    }

    proof fn lemma_view(&self, k: Token)
        ensures
            row_of(self@, k) == lookup(self.rows@, k),
    {
    }

    pub fn new() -> (r: TokenTable)
        ensures
            r.wf(),
            r@ == Map::<Token, TokenRow>::empty(),
    {
        let r = TokenTable { rows: Vec::new() };
        assert(r@ =~= Map::<Token, TokenRow>::empty());
        r
    }

    fn find(&self, token: Token) -> (r: Option<usize>)
        requires
            self.wf(),
        ensures
            r matches Some(i) ==> i < self.rows@.len() && self.rows@[i as int].token == token,
            r is None ==> lookup(self.rows@, token) is None,
    {
        let mut i: usize = 0;
        while i < self.rows.len()
            invariant
                i <= self.rows@.len(),
                forall|j: int| 0 <= j < i ==> #[trigger] self.rows@[j].token != token,
            decreases self.rows@.len() - i,
        {
            if self.rows[i].token == token {
                return Some(i);
            }
            i = i + 1;
        }
        None
    }

    /// The row of a token, if it has one.
    pub fn get(&self, token: Token) -> (r: Option<TokenRow>)
        requires
            self.wf(),
        ensures
            r == row_of(self@, token),
    {
        proof {
            self.lemma_view(token);
        }
        match self.find(token) {
            Some(i) => {
                proof {
                    lemma_lookup_at(self.rows@, i as int);
                }
                Some(self.rows[i])
            },
            None => None,
        }
    }

    /// Writes a row, replacing the one of the same token.
    fn put(&mut self, row: TokenRow)
        requires
            old(self).wf(),
        ensures
            final(self).wf(),
            final(self)@ == old(self)@.insert(row.token, row),
    {
        let ghost s = self.rows@;
        match self.find(row.token) {
            Some(i) => {
                self.rows.set(i, row);
                proof {
                    lemma_lookup_update(s, i as int, row);
                }
            },
            None => {
                self.rows.push(row);
                proof {
                    lemma_lookup_push(s, row);
                }
            },
        }
        assert(self@ =~= old(self)@.insert(row.token, row));
    }

    /// Counts one more prerequisite completion of `token`, creating its row
    /// with the given threshold if it has none.
    pub fn increment(&mut self, token: Token, threshold: u64)
        requires
            old(self).wf(),
        ensures
            final(self).wf(),
            final(self)@ == old(self)@.insert(token, incremented(row_of(old(self)@, token), token, threshold)),
    {
        let row = match self.get(token) {
            Some(r) => TokenRow { count: r.count.saturating_add(1), ..r },
            None => TokenRow { token, count: 1, threshold, state: TokenState::Waiting },
        };
        self.put(row);
    }

    /// Activates the token if it waits and has reached its threshold; true
    /// when it did. A token is activated at most once until it is cleared.
    pub fn check_threshold(&mut self, token: Token) -> (r: bool)
        requires
            old(self).wf(),
        ensures
            final(self).wf(),
            r == activates(row_of(old(self)@, token)),
            r ==> final(self)@ == old(self)@.insert(token, with_state(old(self)@[token], TokenState::Active)),
            !r ==> final(self)@ == old(self)@,
    {
        match self.get(token) {
            Some(row) => {
                if row.state == TokenState::Waiting && row.count >= row.threshold {
                    self.put(TokenRow { state: TokenState::Active, ..row });
                    true
                } else {
                    false
                }
            },
            None => false,
        }
    }

    /// Activates the token whatever its count, as an operator's re-run does.
    pub fn activate(&mut self, token: Token, threshold: u64)
        requires
            old(self).wf(),
        ensures
            final(self).wf(),
            final(self)@ == old(self)@.insert(token, force_activated(row_of(old(self)@, token), token, threshold)),
    {
        let row = match self.get(token) {
            Some(r) => TokenRow { state: TokenState::Active, ..r },
            None => TokenRow { token, count: 0, threshold, state: TokenState::Active },
        };
        self.put(row);
    }

    /// Resets the token to waiting with no completions; a token without a
    /// row is left without one.
    pub fn clear(&mut self, token: Token)
        requires
            old(self).wf(),
        ensures
            final(self).wf(),
            old(self)@.contains_key(token) ==> final(self)@ == old(self)@.insert(
                token,
                TokenRow { count: 0, state: TokenState::Waiting, ..old(self)@[token] },
            ),
            !old(self)@.contains_key(token) ==> final(self)@ == old(self)@,
    {
        match self.get(token) {
            Some(r) => self.put(TokenRow { count: 0, state: TokenState::Waiting, ..r }),
            None => {},
        }
    }

    /// Marks an active token as picked up by a worker; true when it did.
    pub fn mark_running(&mut self, token: Token) -> (r: bool)
        requires
            old(self).wf(),
        ensures
            final(self).wf(),
            r == (row_of(old(self)@, token) matches Some(row) && row.state == TokenState::Active),
            r ==> final(self)@ == old(self)@.insert(token, with_state(old(self)@[token], TokenState::Running)),
            !r ==> final(self)@ == old(self)@,
    {
        match self.get(token) {
            Some(row) => {
                if row.state == TokenState::Active {
                    self.put(TokenRow { state: TokenState::Running, ..row });
                    true
                } else {
                    false
                }
            },
            None => false,
        }
    }

    /// Records a task's result: a token that has not finished (waiting,
    /// active or running) moves to success or failure, and true is returned.
    /// A finished token, or one without a row, is left as it is, so a
    /// redelivered result changes nothing.
    pub fn complete(&mut self, token: Token, success: bool) -> (r: bool)
        requires
            old(self).wf(),
        ensures
            final(self).wf(),
            r == completes(row_of(old(self)@, token)),
            r ==> final(self)@ == old(self)@.insert(token, with_state(old(self)@[token], result_state(success))),
            !r ==> final(self)@ == old(self)@,
    {
        match self.get(token) {
            Some(row) => {
                if row.state != TokenState::Success && row.state != TokenState::Failure {
                    let state = if success {
                        TokenState::Success
                    } else {
                        TokenState::Failure
                    };
                    self.put(TokenRow { state, ..row });
                    true
                } else {
                    false
                }
            },
            None => false,
        }
    }
}

pub open spec fn result_state(success: bool) -> TokenState {
    if success {
        TokenState::Success
    } else {
        TokenState::Failure
    }
}

/// An increment of a row that has not reached its threshold keeps its count
/// within `0 ..= threshold`, and a new row with a threshold of at least one
/// starts within it.
pub proof fn lemma_increment_within_threshold(row: Option<TokenRow>, token: Token, threshold: u64)
    requires
        row matches Some(r) ==> r.count < r.threshold,
        row is None ==> threshold >= 1,
    ensures
        0 <= incremented(row, token, threshold).count <= incremented(row, token, threshold).threshold,
{
}

/// Every operation on a row moves its state along the token state machine,
/// except an explicit activation, which starts the row over as active.
pub proof fn lemma_transitions_allowed(row: TokenRow, token: Token, threshold: u64, success: bool)
    ensures
        allowed_transition(row.state, incremented(Some(row), token, threshold).state),
        activates(Some(row)) ==> allowed_transition(row.state, TokenState::Active),
        row.state == TokenState::Active ==> allowed_transition(row.state, TokenState::Running),
        completes(Some(row)) ==> allowed_transition(row.state, result_state(success)),
        allowed_transition(row.state, TokenState::Waiting),
{
}

/// Once a threshold check has activated a row, neither a second check nor
/// a check after further increments activates it again.
pub proof fn lemma_activation_once(row: TokenRow, token: Token, threshold: u64)
    requires
        activates(Some(row)),
    ensures
        !activates(Some(with_state(row, TokenState::Active))),
        !activates(Some(incremented(Some(with_state(row, TokenState::Active)), token, threshold))),
{
}

} // verus!
