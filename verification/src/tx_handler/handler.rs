use vstd::prelude::*;
use super::tx_context::TxContext;

verus! {

/// What to do with a request, given the transaction in progress.
pub enum TxStatus {
    OpenNewTx(TxContext),
    ContinueCurrentTx(TxContext),
    CommitCurrentTx(TxContext),
    WaitForCurrentTx,
    NoTx,
}

/// Which kinds of steps a query has.
#[derive(Debug, Clone, Copy, PartialEq, Eq, Structural)]
pub enum Scenario {
    CreateOnly,
    MatchAndCreate,
    MatchOnly,
    Unknown,
}

/// The session of the transaction in progress, if any, and whether the
/// session lock is held.
pub struct TxSessionState {
    current_session_id: Option<String>,
    is_session_locked: bool,
}

impl TxSessionState {
    /// The id of the session of the transaction in progress.
    pub closed spec fn spec_session(&self) -> Option<Seq<char>> {
        match self.current_session_id {
            Some(s) => Some(s@),
            None => None,
        }
    }

    pub closed spec fn spec_locked(&self) -> bool {
        self.is_session_locked
    }

    pub fn new() -> (r: Self)
        ensures
            r.spec_session() is None,
            !r.spec_locked(),
    {
        TxSessionState { current_session_id: None, is_session_locked: false }
    }

    /// Decides what to do with a request: a request of the session in
    /// progress continues or commits it; a request of another session, or
    /// one outside any session while a session is in progress, waits; a
    /// session request when none is in progress opens it; otherwise the
    /// request runs outside any transaction.
    pub fn get_session_status(&mut self, tx_context: Option<TxContext>) -> (r: TxStatus)
        ensures
            final(self).spec_locked() == old(self).spec_locked(),
            match tx_context {
                Some(ctx) => match old(self).spec_session() {
                    Some(sid) => final(self).spec_session() == old(self).spec_session() && if ctx.session_id@ == sid {
                        if ctx.commit {
                            r == TxStatus::CommitCurrentTx(ctx)
                        } else {
                            r == TxStatus::ContinueCurrentTx(ctx)
                        }
                    } else {
                        r is WaitForCurrentTx
                    },
                    None => final(self).spec_session() == Some(ctx.session_id@) && r == TxStatus::OpenNewTx(ctx),
                },
                None => final(self).spec_session() == old(self).spec_session() && if old(self).spec_session() is Some {
                    r is WaitForCurrentTx
                } else {
                    r is NoTx
                },
            },
    {
        if let Some(ctx) = tx_context {
            if let Some(s_id) = &self.current_session_id {
                if ctx.session_id == *s_id {
                    if ctx.commit {
                        TxStatus::CommitCurrentTx(ctx)
                    } else {
                        TxStatus::ContinueCurrentTx(ctx)
                    }
                } else {
                    TxStatus::WaitForCurrentTx
                }
            } else {
                self.current_session_id = Some(ctx.session_id.clone());
                TxStatus::OpenNewTx(ctx)
            }
        } else if let Some(_sid) = &self.current_session_id {
            TxStatus::WaitForCurrentTx
        } else {
            TxStatus::NoTx
        }
    }

    /// Records that the session lock is now held.
    pub fn mark_locked(&mut self)
        ensures
            final(self).spec_session() == old(self).spec_session(),
            final(self).spec_locked(),
    {
        self.is_session_locked = true;
    }

    /// Ends the session in progress; answers whether the session lock was
    /// held and must now be released.
    pub fn release_session(&mut self) -> (r: bool)
        ensures
            r == old(self).spec_locked(),
            final(self).spec_session() is None,
            !final(self).spec_locked(),
    {
        self.current_session_id = None;
        if self.is_session_locked {
            self.is_session_locked = false;
            true
        } else {
            false
        }
    }
}

/// Whether a transaction that started `elapsed_secs` seconds ago has
/// outlived its session and must be released before a new lock is taken.
pub fn session_expired(elapsed_secs: u64) -> (r: bool)
    ensures
        r == (elapsed_secs > 10),
{
    elapsed_secs > 10
}

} // verus!
