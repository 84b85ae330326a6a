//! Session memory: the history a session keeps between runs, held in memory.
use vstd::prelude::*;

use crate::items::{apply_session_limit, inputs_view, limited, InputItem, InputView};
use crate::session::{resolve_session_limit, SessionSettings};
use crate::text::copy_string;

verus! {

/// Arguments of a compaction of a session kept by the OpenAI Responses API.
pub struct OpenAIResponsesCompactionArgs {
    pub response_id: Option<String>,
    pub compaction_mode: Option<String>,
    pub store: Option<bool>,
    pub force: Option<bool>,
}

/// A session that the OpenAI Responses API can compact on request.
pub trait OpenAIResponsesCompactionAwareSession {
    /// Compacts the session's history as `args` say.
    fn run_compaction(&self, args: Option<OpenAIResponsesCompactionArgs>) -> Result<(), crate::errors::AgentsError>;
}

/// A session whose history is kept in memory.
pub struct MemorySession {
    session_id: String,
    session_settings: Option<SessionSettings>,
    items: Vec<InputItem>,
}

/// The item limit of a read: the explicit one, else the settings' one.
pub open spec fn read_limit(limit: Option<usize>, settings: Option<SessionSettings>) -> Option<usize> {
    match limit {
        Some(l) => Some(l),
        None => match settings {
            Some(s) => s.limit,
            None => None,
        },
    }
}

impl MemorySession {
    /// The session's id.
    pub closed spec fn id_view(&self) -> Seq<char> {
        self.session_id@
    }

    /// The session's settings.
    pub closed spec fn settings_view(&self) -> Option<SessionSettings> {
        self.session_settings
    }

    /// The session's history, oldest first.
    pub closed spec fn history(&self) -> Seq<InputView> {
        inputs_view(self.items@)
    }

    /// An empty session with default settings (no limit).
    pub fn new(session_id: String) -> (res: Self)
        ensures
            res.id_view() == session_id@,
            res.settings_view() == Some(SessionSettings { limit: None }),
            res.history() == Seq::<InputView>::empty(),
    {
        let res = MemorySession {
            session_id,
            session_settings: Some(SessionSettings { limit: None }),
            items: Vec::new(),
        };
        assert(inputs_view(res.items@) =~= Seq::<InputView>::empty());
        res
    }

    /// The same session with `settings`.
    pub fn with_settings(self, settings: SessionSettings) -> (res: Self)
        ensures
            res.id_view() == self.id_view(),
            res.settings_view() == Some(settings),
            res.history() == self.history(),
    {
        MemorySession { session_settings: Some(settings), ..self }
    }

    /// The session's id.
    pub fn session_id(&self) -> (res: &str)
        ensures
            res@ == self.id_view(),
    {
        self.session_id.as_str()
    }

    /// The session's settings.
    pub fn session_settings(&self) -> (res: Option<&SessionSettings>)
        ensures
            match res {
                Some(s) => self.settings_view() == Some(*s),
                None => self.settings_view().is_none(),
            },
    {
        self.session_settings.as_ref()
    }

    /// The latest items of the history, as many as the explicit limit or else
    /// the settings allow, oldest first.
    pub fn get_items_with_limit(&self, limit: Option<usize>) -> (res: Vec<InputItem>)
        ensures
            inputs_view(res@) == limited(self.history(), read_limit(limit, self.settings_view())),
    {
        let resolved = resolve_session_limit(limit, self.session_settings.as_ref());
        apply_session_limit(self.items.as_slice(), resolved)
    }

    /// The whole history, within the settings' limit.
    pub fn get_items(&self) -> (res: Vec<InputItem>)
        ensures
            inputs_view(res@) == limited(self.history(), read_limit(None, self.settings_view())),
    {
        self.get_items_with_limit(None)
    }

    /// Adds items at the end of the history.
    pub fn add_items(&mut self, items: Vec<InputItem>)
        ensures
            final(self).history() == old(self).history() + inputs_view(items@),
            final(self).id_view() == old(self).id_view(),
            final(self).settings_view() == old(self).settings_view(),
    {
        let mut items = items;
        let ghost added = inputs_view(items@);
        let ghost before = inputs_view(self.items@);
        self.items.append(&mut items);
        assert(inputs_view(self.items@) =~= before + added);
    }

    /// Removes and gives back the latest item.
    pub fn pop_item(&mut self) -> (res: Option<InputItem>)
        ensures
            old(self).history().len() == 0 ==> res.is_none() && final(self).history() == old(self).history(),
            old(self).history().len() > 0 ==> (res matches Some(x) && x@ == old(self).history().last()
                && final(self).history() == old(self).history().drop_last()),
            final(self).id_view() == old(self).id_view(),
            final(self).settings_view() == old(self).settings_view(),
    {
        let ghost before = inputs_view(self.items@);
        let res = self.items.pop();
        proof {
            if before.len() > 0 {
                assert(inputs_view(self.items@) =~= before.drop_last());
            }
        }
        res
    }

    /// Empties the history.
    pub fn clear_session(&mut self)
        ensures
            final(self).history() == Seq::<InputView>::empty(),
            final(self).id_view() == old(self).id_view(),
            final(self).settings_view() == old(self).settings_view(),
    {
        self.items = Vec::new();
        assert(inputs_view(self.items@) =~= Seq::<InputView>::empty());
    }
}

/// Reading a session without a limit gives back everything added, in order;
/// the latest item added is the one popped.
pub proof fn law_session_reads_back_what_was_added(history: Seq<InputView>, added: Seq<InputView>)
    requires
        added.len() > 0,
    ensures
        limited(history + added, None) == history + added,
        (history + added).last() == added.last(),
        (history + added).drop_last() == history + added.drop_last(),
{
    assert((history + added).drop_last() =~= history + added.drop_last());
}

/// A limited read keeps the latest items, oldest first: with a limit of `n`
/// below the history's length, the last `n` items.
pub proof fn law_limited_read_keeps_latest(history: Seq<InputView>, n: usize)
    ensures
        limited(history, Some(n)).len() == if history.len() > n {
            n as int
        } else {
            history.len() as int
        },
        forall|i: int|
            0 <= i < limited(history, Some(n)).len() ==> #[trigger] limited(history, Some(n))[i] == history[history.len()
                - limited(history, Some(n)).len() + i],
{
}

} // verus!
